//! Exchange rates and the conversions they make possible.
//!
//! A rate between two currencies can be taken in either direction. A conversion
//! takes as few rates as it can, one behind the other; among conversions with
//! as few it takes, where they first part, the one whose next currency comes
//! first, then the one whose rate's identifier comes first, then the rate that
//! stands first.

use crate::decimal::{
    decimal_product, decimal_quotient, divide_decimals, lemma_unit_positive, multiply_decimals,
    representable, unit, Decimal,
};
use crate::errors::{CoreError, CoreErrorView};
use crate::text::{
    ascii_upper, chain, is_text_below, join, joined, lemma_text_not_below_itself,
    lemma_text_order_is_total, lemma_text_order_is_transitive, text_below, texts, to_ascii_upper,
};
use crate::time::{current_time, print_rfc3339, rfc3339_text, Timestamp};
use crate::walks::{arc_views, is_walk, least_walk, parts_below, positions, Arc, ArcView};
use vstd::prelude::*;

verus! {

/// A recorded exchange rate: what one unit of a currency is worth in another.
#[derive(Debug)]
pub struct ExchangeRate {
    pub id: String,
    pub from_currency: String,
    pub to_currency: String,
    pub rate: Decimal,
    pub source: String,
    pub timestamp: Timestamp,
}

pub ghost struct ExchangeRateView {
    pub id: Seq<char>,
    pub from_currency: Seq<char>,
    pub to_currency: Seq<char>,
    pub rate: Decimal,
    pub source: Seq<char>,
    pub timestamp: Timestamp,
}

impl View for ExchangeRate {
    type V = ExchangeRateView;

    open spec fn view(&self) -> ExchangeRateView {
        ExchangeRateView {
            id: self.id@,
            from_currency: self.from_currency@,
            to_currency: self.to_currency@,
            rate: self.rate,
            source: self.source@,
            timestamp: self.timestamp,
        }
    }
}

impl ExchangeRate {
    /// The same rate once more.
    pub fn copy(&self) -> (r: ExchangeRate)
        ensures
            r@ == self@,
            r.id@ == self.id@,
            r.from_currency@ == self.from_currency@,
            r.to_currency@ == self.to_currency@,
            r.rate == self.rate,
            r.source@ == self.source@,
            r.timestamp == self.timestamp,
    {
        ExchangeRate {
            id: self.id.clone(),
            from_currency: self.from_currency.clone(),
            to_currency: self.to_currency.clone(),
            rate: self.rate,
            source: self.source.clone(),
            timestamp: self.timestamp,
        }
    }
}

/// The views of a list of rates.
pub open spec fn rate_views(rates: Seq<ExchangeRate>) -> Seq<ExchangeRateView> {
    rates.map_values(|rate: ExchangeRate| rate@)
}

/// A currency code that stands for a fraction of another currency's unit, as
/// pence do for pounds: `multiplier` of them make one.
#[derive(Debug)]
pub struct MinorUnit {
    pub code: String,
    pub major: String,
    pub multiplier: Decimal,
}

/// The currency that a code is counted in: the major unit's code where the code
/// is a minor unit's, the code itself otherwise.
pub open spec fn major_code(units: Seq<MinorUnit>, code: Seq<char>) -> Seq<char>
    decreases units.len(),
{
    if units.len() == 0 {
        code
    } else if units[0].code@ == code {
        units[0].major@
    } else {
        major_code(units.drop_first(), code)
    }
}

/// How many units of a code make one of the currency it is counted in.
pub open spec fn code_multiplier(units: Seq<MinorUnit>, code: Seq<char>) -> Decimal
    decreases units.len(),
{
    if units.len() == 0 {
        Decimal::whole(1)
    } else if units[0].code@ == code {
        units[0].multiplier
    } else {
        code_multiplier(units.drop_first(), code)
    }
}

/// The currency that a code is counted in, in upper case.
pub open spec fn currency_of(units: Seq<MinorUnit>, code: Seq<char>) -> Seq<char> {
    ascii_upper(major_code(units, code))
}

/// The currency that a code is counted in, in upper case.
pub fn normalize_currency(units: &[MinorUnit], code: &str) -> (currency: String)
    ensures
        currency@ == currency_of(units@, code@),
{
    assert(units@.skip(0) =~= units@);
    for i in 0..units.len()
        invariant
            major_code(units@, code@) == major_code(units@.skip(i as int), code@),
    {
        if crate::text::same_text(units[i].code.as_str(), code) {
            return to_ascii_upper(units[i].major.as_str());
        }
        assert(units@.skip(i as int).drop_first() =~= units@.skip(i + 1));
    }
    to_ascii_upper(code)
}

/// How many units of a code make one of the currency it is counted in.
pub fn denormalization_multiplier(units: &[MinorUnit], code: &str) -> (multiplier: Decimal)
    ensures
        multiplier == code_multiplier(units@, code@),
{
    assert(units@.skip(0) =~= units@);
    for i in 0..units.len()
        invariant
            code_multiplier(units@, code@) == code_multiplier(units@.skip(i as int), code@),
    {
        if crate::text::same_text(units[i].code.as_str(), code) {
            return units[i].multiplier;
        }
        assert(units@.skip(i as int).drop_first() =~= units@.skip(i + 1));
    }
    Decimal::one()
}

// ── Links ────────────────────────────────────────────────────────────────────

/// A rate taken in one of its two directions.
pub ghost struct Link {
    pub from: Seq<char>,
    pub to: Seq<char>,
    pub index: int,
    pub reversed: bool,
}

/// The two directions in which a rate can be taken.
pub open spec fn link_at(
    rates: Seq<ExchangeRateView>,
    units: Seq<MinorUnit>,
    index: int,
    reversed: bool,
) -> Link {
    let from = currency_of(units, rates[index].from_currency);
    let to = currency_of(units, rates[index].to_currency);
    if reversed {
        Link { from: to, to: from, index, reversed }
    } else {
        Link { from, to, index, reversed }
    }
}

/// Whether a rate can be taken at all: it is more than zero, and between two
/// different currencies.
pub open spec fn is_usable_rate(rate: ExchangeRateView, units: Seq<MinorUnit>) -> bool {
    rate.rate@ > 0 && currency_of(units, rate.from_currency) != currency_of(
        units,
        rate.to_currency,
    )
}

/// Whether a link is one of a usable rate.
pub open spec fn is_link(link: Link, rates: Seq<ExchangeRateView>, units: Seq<MinorUnit>) -> bool {
    &&& 0 <= link.index < rates.len()
    &&& is_usable_rate(rates[link.index], units)
    &&& link == link_at(rates, units, link.index, link.reversed)
}

/// Whether one link is to be tried before another: by the currency it leads to,
/// then by the rate's identifier, then by where the rate stands.
pub open spec fn link_below(a: Link, b: Link, rates: Seq<ExchangeRateView>) -> bool {
    let a_id = rates[a.index].id;
    let b_id = rates[b.index].id;
    text_below(a.to, b.to) || (a.to == b.to && (text_below(a_id, b_id) || (a_id == b_id && a.index
        < b.index)))
}

proof fn lemma_link_order_is_total(
    a: Link,
    b: Link,
    rates: Seq<ExchangeRateView>,
    units: Seq<MinorUnit>,
)
    requires
        is_link(a, rates, units),
        is_link(b, rates, units),
    ensures
        a == b || link_below(a, b, rates) || link_below(b, a, rates),
{
    lemma_text_order_is_total(a.to, b.to);
    lemma_text_order_is_total(rates[a.index].id, rates[b.index].id);
}

proof fn lemma_link_order_is_transitive(a: Link, b: Link, c: Link, rates: Seq<ExchangeRateView>)
    requires
        link_below(a, b, rates),
        link_below(b, c, rates),
    ensures
        link_below(a, c, rates),
{
    if text_below(a.to, b.to) && text_below(b.to, c.to) {
        lemma_text_order_is_transitive(a.to, b.to, c.to);
    }
    let a_id = rates[a.index].id;
    let b_id = rates[b.index].id;
    let c_id = rates[c.index].id;
    if text_below(a_id, b_id) && text_below(b_id, c_id) {
        lemma_text_order_is_transitive(a_id, b_id, c_id);
    }
}

proof fn lemma_link_not_below_itself(a: Link, rates: Seq<ExchangeRateView>)
    ensures
        !link_below(a, a, rates),
{
    lemma_text_not_below_itself(a.to);
    lemma_text_not_below_itself(rates[a.index].id);
}

/// A rate taken in one of its two directions.
#[derive(Debug)]
struct RateLink {
    from: String,
    to: String,
    index: usize,
    reversed: bool,
}

impl View for RateLink {
    type V = Link;

    closed spec fn view(&self) -> Link {
        Link {
            from: self.from@,
            to: self.to@,
            index: self.index as int,
            reversed: self.reversed,
        }
    }
}

spec fn link_views(links: Seq<RateLink>) -> Seq<Link> {
    links.map_values(|link: RateLink| link@)
}

/// Whether links stand in the order in which they are to be tried.
spec fn is_ordered(links: Seq<Link>, rates: Seq<ExchangeRateView>) -> bool {
    forall|i: int, j: int|
        0 <= i < j < links.len() ==> link_below(#[trigger] links[i], #[trigger] links[j], rates)
}

fn is_link_below(a: &RateLink, b: &RateLink, rates: &[ExchangeRate]) -> (r: bool)
    requires
        a.index < rates@.len(),
        b.index < rates@.len(),
    ensures
        r == link_below(a@, b@, rate_views(rates@)),
{
    if a.to == b.to {
        let a_id = &rates[a.index].id;
        let b_id = &rates[b.index].id;
        proof {
            lemma_text_not_below_itself(a.to@);
            lemma_text_not_below_itself(a_id@);
        }
        if *a_id == *b_id {
            a.index < b.index
        } else {
            is_text_below(a_id.as_str(), b_id.as_str())
        }
    } else {
        is_text_below(a.to.as_str(), b.to.as_str())
    }
}

/// Puts a link in its place among others.
fn insert_link(
    links: &mut Vec<RateLink>,
    link: RateLink,
    rates: &[ExchangeRate],
    units: &[MinorUnit],
)
    requires
        is_ordered(link_views(old(links)@), rate_views(rates@)),
        is_link(link@, rate_views(rates@), units@),
        forall|k: int|
            0 <= k < old(links)@.len() ==> is_link(
                (#[trigger] old(links)@[k])@,
                rate_views(rates@),
                units@,
            ) && old(links)@[k]@ != link@,
    ensures
        is_ordered(link_views(final(links)@), rate_views(rates@)),
        final(links)@.len() == old(links)@.len() + 1,
        exists|p: int|
            0 <= p <= old(links)@.len() && final(links)@ == #[trigger] old(links)@.insert(p, link),
{
    let ghost before = links@;
    let ghost views = rate_views(rates@);
    let mut p: usize = 0;
    while p < links.len() && !is_link_below(&link, &links[p], rates)
        invariant
            links@ == before,
            0 <= p <= links@.len(),
            views == rate_views(rates@),
            link.index < rates@.len(),
            forall|k: int|
                0 <= k < before.len() ==> is_link((#[trigger] before[k])@, views, units@),
            forall|k: int| 0 <= k < p ==> !link_below(link@, (#[trigger] before[k])@, views),
        decreases links@.len() - p,
    {
        assert(is_link(before[p as int]@, views, units@));
        p = p + 1;
    }
    links.insert(p, link);
    proof {
        let now = link_views(links@);
        assert forall|i: int, j: int| 0 <= i < j < now.len() implies link_below(
            #[trigger] now[i],
            #[trigger] now[j],
            views,
        ) by {
            let was = link_views(before);
            if i < p && j < p {
                assert(now[i] == was[i] && now[j] == was[j]);
            } else if i < p && j == p {
                lemma_link_order_is_total(link@, before[i]@, views, units@);
                assert(now[i] == before[i]@);
            } else if i < p && j > p {
                assert(now[i] == was[i] && now[j] == was[j - 1]);
            } else if i == p {
                assert(now[j] == was[j - 1]);
                assert(link_below(link@, was[p as int], views));
                if j - 1 > p {
                    lemma_link_order_is_transitive(link@, was[p as int], was[j - 1], views);
                }
            } else {
                assert(now[i] == was[i - 1] && now[j] == was[j - 1]);
            }
        }
        assert(links@ == before.insert(p as int, link));
    }
}

/// Whether `links` holds the links of the first `n` rates, and of the next one
/// those that `forward` and `backward` say, and no other.
spec fn holds_links(
    links: Seq<RateLink>,
    rates: Seq<ExchangeRateView>,
    units: Seq<MinorUnit>,
    n: int,
    forward: bool,
    backward: bool,
) -> bool {
    &&& forall|k: int| 0 <= k < links.len() ==> is_expected((#[trigger] links[k])@, rates, units,
        n, forward, backward)
    &&& forall|index: int, reversed: bool| #[trigger]
        is_expected(link_at(rates, units, index, reversed), rates, units, n, forward, backward)
            ==> is_held(links, link_at(rates, units, index, reversed))
}

spec fn is_expected(
    link: Link,
    rates: Seq<ExchangeRateView>,
    units: Seq<MinorUnit>,
    n: int,
    forward: bool,
    backward: bool,
) -> bool {
    is_link(link, rates, units) && (link.index < n || (link.index == n && if link.reversed {
        backward
    } else {
        forward
    }))
}

spec fn is_held(links: Seq<RateLink>, link: Link) -> bool {
    exists|k: int| 0 <= k < links.len() && (#[trigger] links[k])@ == link
}

proof fn lemma_holds_inserted(
    before: Seq<RateLink>,
    p: int,
    link: RateLink,
    rates: Seq<ExchangeRateView>,
    units: Seq<MinorUnit>,
    n: int,
    backward: bool,
)
    requires
        0 <= p <= before.len(),
        is_link(link@, rates, units),
        link@.index == n,
        link@.reversed == backward,
        holds_links(before, rates, units, n, backward, false),
    ensures
        holds_links(before.insert(p, link), rates, units, n, true, backward),
{
    let now = before.insert(p, link);
    assert forall|k: int| 0 <= k < now.len() implies is_expected(
        (#[trigger] now[k])@,
        rates,
        units,
        n,
        true,
        backward,
    ) by {
        if k < p {
            assert(now[k] == before[k]);
        } else if k > p {
            assert(now[k] == before[k - 1]);
        }
    }
    assert forall|index: int, reversed: bool| #[trigger]
        is_expected(
            link_at(rates, units, index, reversed),
            rates,
            units,
            n,
            true,
            backward,
        ) implies is_held(now, link_at(rates, units, index, reversed)) by {
        let wanted = link_at(rates, units, index, reversed);
        if index == n && reversed == backward {
            assert(now[p]@ == wanted);
        } else {
            assert(is_expected(wanted, rates, units, n, backward, false));
            let k = choose|k: int| 0 <= k < before.len() && (#[trigger] before[k])@ == wanted;
            if k < p {
                assert(now[k] == before[k]);
            } else {
                assert(now[k + 1] == before[k]);
            }
        }
    }
}

/// The links of all usable rates, in the order in which they are to be tried.
fn links_of(rates: &[ExchangeRate], units: &[MinorUnit]) -> (links: Vec<RateLink>)
    ensures
        is_ordered(link_views(links@), rate_views(rates@)),
        holds_links(links@, rate_views(rates@), units@, rates@.len() as int, false, false),
{
    let mut links: Vec<RateLink> = Vec::new();
    let ghost views = rate_views(rates@);
    for i in 0..rates.len()
        invariant
            views == rate_views(rates@),
            is_ordered(link_views(links@), views),
            holds_links(links@, views, units@, i as int, false, false),
    {
        let rate = &rates[i];
        let from = normalize_currency(units, rate.from_currency.as_str());
        let to = normalize_currency(units, rate.to_currency.as_str());
        assert(views[i as int] == rate@);
        if rate.rate.is_positive() && from != to {
            let ghost start = links@;
            let forward = RateLink {
                from: from.clone(),
                to: to.clone(),
                index: i,
                reversed: false,
            };
            let ghost first = forward;
            proof {
                assert forall|k: int| 0 <= k < start.len() implies is_link(
                    (#[trigger] start[k])@,
                    views,
                    units@,
                ) && start[k]@ != first@ by {
                    assert(is_expected(start[k]@, views, units@, i as int, false, false));
                }
            }
            insert_link(&mut links, forward, rates, units);
            proof {
                let p = choose|p: int|
                    0 <= p <= start.len() && links@ == #[trigger] start.insert(p, first);
                lemma_holds_inserted(start, p, first, views, units@, i as int, false);
            }
            let ghost middle = links@;
            let backward = RateLink { from: to, to: from, index: i, reversed: true };
            let ghost second = backward;
            proof {
                assert forall|k: int| 0 <= k < middle.len() implies is_link(
                    (#[trigger] middle[k])@,
                    views,
                    units@,
                ) && middle[k]@ != second@ by {
                    assert(is_expected(middle[k]@, views, units@, i as int, true, false));
                }
            }
            insert_link(&mut links, backward, rates, units);
            proof {
                let p = choose|p: int|
                    0 <= p <= middle.len() && links@ == #[trigger] middle.insert(p, second);
                lemma_holds_inserted(middle, p, second, views, units@, i as int, true);
            }
        }
        proof {
            let usable = is_usable_rate(views[i as int], units@);
            assert(holds_links(links@, views, units@, i as int, usable, usable));
            assert forall|k: int| 0 <= k < links@.len() implies is_expected(
                (#[trigger] links@[k])@,
                views,
                units@,
                i + 1,
                false,
                false,
            ) by {
                assert(is_expected(links@[k]@, views, units@, i as int, usable, usable));
            }
            assert forall|index: int, reversed: bool| #[trigger]
                is_expected(
                    link_at(views, units@, index, reversed),
                    views,
                    units@,
                    i + 1,
                    false,
                    false,
                ) implies is_held(links@, link_at(views, units@, index, reversed)) by {
                assert(is_expected(
                    link_at(views, units@, index, reversed),
                    views,
                    units@,
                    i as int,
                    usable,
                    usable,
                ));
            }
        }
    }
    links
}

// ── Routes ───────────────────────────────────────────────────────────────────

/// Whether `route` takes links, one behind the other, from one currency to
/// another.
pub open spec fn is_route(
    route: Seq<Link>,
    rates: Seq<ExchangeRateView>,
    units: Seq<MinorUnit>,
    from: Seq<char>,
    to: Seq<char>,
) -> bool
    decreases route.len(),
{
    if route.len() == 0 {
        from == to
    } else {
        &&& is_link(route.last(), rates, units)
        &&& route.last().to == to
        &&& is_route(route.drop_last(), rates, units, from, route.last().from)
    }
}

/// Whether two routes part at `k`, the first of them with the link that is to
/// be tried first.
pub open spec fn routes_part(
    a: Seq<Link>,
    b: Seq<Link>,
    rates: Seq<ExchangeRateView>,
    k: int,
) -> bool {
    &&& 0 <= k < a.len()
    &&& k < b.len()
    &&& a.take(k) == b.take(k)
    &&& link_below(a[k], b[k], rates)
}

/// Whether one route is to be taken rather than another.
pub open spec fn route_below(a: Seq<Link>, b: Seq<Link>, rates: Seq<ExchangeRateView>) -> bool {
    a.len() < b.len() || (a.len() == b.len() && exists|k: int| routes_part(a, b, rates, k))
}

/// Whether a route is to be taken rather than any other.
pub open spec fn is_least_route(
    route: Seq<Link>,
    rates: Seq<ExchangeRateView>,
    units: Seq<MinorUnit>,
    from: Seq<char>,
    to: Seq<char>,
) -> bool {
    &&& is_route(route, rates, units, from, to)
    &&& forall|other: Seq<Link>| #[trigger]
        is_route(other, rates, units, from, to) ==> other == route || route_below(
            route,
            other,
            rates,
        )
}

/// The route from one currency to another, where there is one.
pub open spec fn least_route(
    rates: Seq<ExchangeRateView>,
    units: Seq<MinorUnit>,
    from: Seq<char>,
    to: Seq<char>,
) -> Option<Seq<Link>> {
    if exists|route: Seq<Link>| is_least_route(route, rates, units, from, to) {
        Some(choose|route: Seq<Link>| is_least_route(route, rates, units, from, to))
    } else {
        None
    }
}

/// There is never more than one route to be taken rather than any other.
proof fn lemma_least_route_is_unique(
    a: Seq<Link>,
    b: Seq<Link>,
    rates: Seq<ExchangeRateView>,
    units: Seq<MinorUnit>,
    from: Seq<char>,
    to: Seq<char>,
)
    requires
        is_least_route(a, rates, units, from, to),
        is_least_route(b, rates, units, from, to),
    ensures
        a == b,
{
    if a != b {
        assert(route_below(a, b, rates) && route_below(b, a, rates));
        let j = choose|k: int| routes_part(a, b, rates, k);
        let k = choose|k: int| routes_part(b, a, rates, k);
        if j < k {
            assert(b.take(k)[j] == a.take(k)[j]);
            lemma_link_not_below_itself(a[j], rates);
        } else if k < j {
            assert(a.take(j)[k] == b.take(j)[k]);
            lemma_link_not_below_itself(a[k], rates);
        } else {
            lemma_link_order_is_transitive(a[j], b[j], a[j], rates);
            lemma_link_not_below_itself(a[j], rates);
        }
    }
}

/// The links at the positions that a walk takes.
spec fn route_along(links: Seq<Link>, walk: Seq<int>) -> Seq<Link> {
    walk.map_values(|k: int| links[k])
}

spec fn arcs_of(links: Seq<Link>) -> Seq<ArcView> {
    links.map_values(|link: Link| ArcView { from: link.from, to: link.to })
}

proof fn lemma_walk_is_route(
    links: Seq<Link>,
    walk: Seq<int>,
    rates: Seq<ExchangeRateView>,
    units: Seq<MinorUnit>,
    from: Seq<char>,
    to: Seq<char>,
)
    requires
        forall|k: int| 0 <= k < links.len() ==> is_link(#[trigger] links[k], rates, units),
        is_walk(arcs_of(links), walk, from, to),
    ensures
        is_route(route_along(links, walk), rates, units, from, to),
        forall|k: int| 0 <= k < walk.len() ==> 0 <= #[trigger] walk[k] < links.len(),
    decreases walk.len(),
{
    if walk.len() > 0 {
        lemma_walk_is_route(
            links,
            walk.drop_last(),
            rates,
            units,
            from,
            links[walk.last()].from,
        );
        assert(route_along(links, walk).drop_last() =~= route_along(links, walk.drop_last()));
        assert forall|k: int| 0 <= k < walk.len() implies 0 <= #[trigger] walk[k]
            < links.len() by {
            if k < walk.len() - 1 {
                assert(walk.drop_last()[k] == walk[k]);
            }
        }
    }
}

proof fn lemma_route_is_walk(
    links: Seq<Link>,
    route: Seq<Link>,
    rates: Seq<ExchangeRateView>,
    units: Seq<MinorUnit>,
    from: Seq<char>,
    to: Seq<char>,
) -> (walk: Seq<int>)
    requires
        forall|link: Link| #[trigger]
            is_link(link, rates, units) ==> exists|k: int|
                0 <= k < links.len() && #[trigger] links[k] == link,
        is_route(route, rates, units, from, to),
    ensures
        is_walk(arcs_of(links), walk, from, to),
        route_along(links, walk) == route,
    decreases route.len(),
{
    if route.len() == 0 {
        assert(route_along(links, Seq::empty()) =~= route);
        Seq::empty()
    } else {
        let before = lemma_route_is_walk(
            links,
            route.drop_last(),
            rates,
            units,
            from,
            route.last().from,
        );
        assert(is_link(route.last(), rates, units));
        let k = choose|k: int| 0 <= k < links.len() && #[trigger] links[k] == route.last();
        let walk = before.push(k);
        assert(walk.drop_last() =~= before);
        assert(route_along(links, walk) =~= route_along(links, before).push(links[k]));
        assert(route =~= route.drop_last().push(route.last()));
        walk
    }
}

/// A rate taken in one of its two directions, as part of a route.
#[derive(Clone, Copy, Debug)]
pub struct RouteStep {
    /// Where the rate stands among the rates.
    pub index: usize,
    /// Whether it is taken from its second currency to its first.
    pub reversed: bool,
}

/// Whether steps take the links of a route.
pub open spec fn are_steps(steps: Seq<RouteStep>, route: Seq<Link>) -> bool {
    &&& steps.len() == route.len()
    &&& forall|k: int|
        0 <= k < steps.len() ==> (#[trigger] steps[k]).index == route[k].index && steps[k].reversed
            == route[k].reversed
}

/// The route from one currency to another, where there is one: with the fewest
/// rates, and among those the one whose links are to be tried first.
pub fn find_route(
    rates: &[ExchangeRate],
    units: &[MinorUnit],
    from: &String,
    to: &String,
) -> (steps: Option<Vec<RouteStep>>)
    ensures
        match steps {
            Some(found) => {
                let route = least_route(rate_views(rates@), units@, from@, to@);
                &&& route is Some
                &&& is_least_route(route->0, rate_views(rates@), units@, from@, to@)
                &&& are_steps(found@, route->0)
                &&& forall|k: int|
                    0 <= k < found@.len() ==> (#[trigger] found@[k]).index < rates@.len()
            },
            None => least_route(rate_views(rates@), units@, from@, to@) is None && forall|
                route: Seq<Link>,
            | !is_route(route, rate_views(rates@), units@, from@, to@),
        },
{
    let links = links_of(rates, units);
    let ghost views = rate_views(rates@);
    let ghost every = link_views(links@);
    let mut arcs: Vec<Arc> = Vec::new();
    for i in 0..links.len()
        invariant
            every == link_views(links@),
            arc_views(arcs@) == arcs_of(every).take(i as int),
    {
        let arc = Arc { from: links[i].from.clone(), to: links[i].to.clone() };
        let ghost before = arcs@;
        arcs.push(arc);
        assert(arc_views(arcs@) =~= arc_views(before).push(arc@));
        assert(arcs_of(every).take(i + 1) =~= arcs_of(every).take(i as int).push(arc@));
    }
    assert(arc_views(arcs@) =~= arcs_of(every));
    proof {
        assert forall|k: int| 0 <= k < every.len() implies is_link(
            #[trigger] every[k],
            views,
            units@,
        ) by {
            assert(is_expected(links@[k]@, views, units@, rates@.len() as int, false, false));
        }
        assert forall|link: Link| #[trigger] is_link(link, views, units@) implies exists|k: int|
            0 <= k < every.len() && #[trigger] every[k] == link by {
            assert(link == link_at(views, units@, link.index, link.reversed));
            assert(is_expected(
                link_at(views, units@, link.index, link.reversed),
                views,
                units@,
                rates@.len() as int,
                false,
                false,
            ));
            let k = choose|k: int| 0 <= k < links@.len() && (#[trigger] links@[k])@ == link;
            assert(every[k] == link);
        }
    }
    match least_walk(&arcs, from, to) {
        None => {
            proof {
                assert forall|route: Seq<Link>| !is_route(route, views, units@, from@, to@) by {
                    if is_route(route, views, units@, from@, to@) {
                        let walk = lemma_route_is_walk(every, route, views, units@, from@, to@);
                        assert(is_walk(arc_views(arcs@), walk, from@, to@));
                    }
                }
                assert forall|route: Seq<Link>| !is_least_route(
                    route,
                    views,
                    units@,
                    from@,
                    to@,
                ) by {
                    assert(!is_route(route, views, units@, from@, to@));
                }
            }
            None
        },
        Some(walk) => {
            let ghost taken = positions(walk@);
            let ghost route = route_along(every, taken);
            proof {
                lemma_walk_is_route(every, taken, views, units@, from@, to@);
                assert forall|other: Seq<Link>| #[trigger]
                    is_route(other, views, units@, from@, to@) implies other == route
                    || route_below(route, other, views) by {
                    let others = lemma_route_is_walk(every, other, views, units@, from@, to@);
                    lemma_walk_is_route(every, others, views, units@, from@, to@);
                    if others != taken && taken.len() == others.len() {
                        let k = choose|k: int| parts_below(taken, others, k);
                        assert(route.take(k) =~= route_along(every, taken.take(k)));
                        assert(other.take(k) =~= route_along(every, others.take(k)));
                        assert(0 <= taken[k] < every.len());
                        assert(0 <= others[k] < every.len());
                        assert(link_below(every[taken[k]], every[others[k]], views));
                        assert(routes_part(route, other, views, k));
                    }
                }
                assert(is_least_route(route, views, units@, from@, to@));
                lemma_least_route_is_unique(
                    route,
                    least_route(views, units@, from@, to@)->0,
                    views,
                    units@,
                    from@,
                    to@,
                );
            }
            let mut steps: Vec<RouteStep> = Vec::new();
            for i in 0..walk.len()
                invariant
                    taken == positions(walk@),
                    every == link_views(links@),
                    route == route_along(every, taken),
                    forall|k: int| 0 <= k < taken.len() ==> 0 <= #[trigger] taken[k] < every.len(),
                    forall|k: int|
                        0 <= k < every.len() ==> is_link(#[trigger] every[k], views, units@),
                    views == rate_views(rates@),
                    steps@.len() == i,
                    forall|k: int|
                        0 <= k < i ==> (#[trigger] steps@[k]).index == route[k].index
                            && steps@[k].reversed == route[k].reversed && steps@[k].index
                            < rates@.len(),
            {
                let k: usize = walk[i];
                assert(taken[i as int] == k);
                assert(is_link(every[k as int], views, units@));
                assert(every[k as int] == links@[k as int]@);
                steps.push(RouteStep { index: links[k].index, reversed: links[k].reversed });
            }
            Some(steps)
        },
    }
}

// ── Conversions ──────────────────────────────────────────────────────────────

/// Where the rate of a conversion comes from.
#[derive(Debug)]
pub struct WorksheetPricingSource {
    /// The identifiers of the rates, in the order in which they are taken.
    pub id: String,
    pub source_type: String,
    pub value: Decimal,
    pub from_currency: String,
    pub to_currency: String,
    /// When the oldest of the rates was recorded.
    pub timestamp: String,
    /// Whether any of the rates is from an earlier day.
    pub is_stale: bool,
}

pub ghost struct WorksheetPricingSourceView {
    pub id: Seq<char>,
    pub source_type: Seq<char>,
    pub value: Decimal,
    pub from_currency: Seq<char>,
    pub to_currency: Seq<char>,
    pub timestamp: Seq<char>,
    pub is_stale: bool,
}

impl View for WorksheetPricingSource {
    type V = WorksheetPricingSourceView;

    open spec fn view(&self) -> WorksheetPricingSourceView {
        WorksheetPricingSourceView {
            id: self.id@,
            source_type: self.source_type@,
            value: self.value,
            from_currency: self.from_currency@,
            to_currency: self.to_currency@,
            timestamp: self.timestamp@,
            is_stale: self.is_stale,
        }
    }
}

/// The rate of a link: the recorded one, or its inverse.
pub open spec fn link_rate(link: Link, rates: Seq<ExchangeRateView>) -> Option<Decimal> {
    if link.reversed {
        decimal_quotient(Decimal::whole(1), rates[link.index].rate)
    } else {
        Some(rates[link.index].rate)
    }
}

/// The rate of a route: one, times the rate of each link in turn.
pub open spec fn route_rate(route: Seq<Link>, rates: Seq<ExchangeRateView>) -> Option<Decimal>
    decreases route.len(),
{
    if route.len() == 0 {
        Some(Decimal::whole(1))
    } else {
        match (route_rate(route.drop_last(), rates), link_rate(route.last(), rates)) {
            (Some(rate), Some(next)) => decimal_product(rate, next),
            _ => None,
        }
    }
}

proof fn lemma_route_rate_stays_none(route: Seq<Link>, rates: Seq<ExchangeRateView>, n: int)
    requires
        0 <= n <= route.len(),
        route_rate(route.take(n), rates) is None,
    ensures
        route_rate(route, rates) is None,
    decreases route.len() - n,
{
    if n < route.len() {
        assert(route.take(n + 1).drop_last() =~= route.take(n));
        lemma_route_rate_stays_none(route, rates, n + 1);
    } else {
        assert(route.take(n) =~= route);
    }
}

/// What one unit of a code is in the currency it is counted in.
pub open spec fn source_multiplier(units: Seq<MinorUnit>, code: Seq<char>) -> Option<Decimal> {
    if code_multiplier(units, code)@ == unit() {
        Some(Decimal::whole(1))
    } else {
        decimal_quotient(Decimal::whole(1), code_multiplier(units, code))
    }
}

/// The message that no rate connects two currencies.
pub open spec fn no_rate_message(from: Seq<char>, to: Seq<char>) -> Seq<char> {
    "No attributable FX rate is available for "@ + from + "/"@ + to
}

/// The rate of the conversion from one code to another, and the route it takes:
/// none where both are counted in the same currency.
pub open spec fn conversion_of(
    rates: Seq<ExchangeRateView>,
    units: Seq<MinorUnit>,
    from: Seq<char>,
    to: Seq<char>,
) -> Option<Result<(Decimal, Seq<Link>), CoreErrorView>> {
    let from_currency = currency_of(units, from);
    let to_currency = currency_of(units, to);
    match source_multiplier(units, from) {
        None => None,
        Some(multiplier) => if from_currency == to_currency {
            match decimal_product(multiplier, code_multiplier(units, to)) {
                Some(rate) => Some(Ok((rate, Seq::empty()))),
                None => None,
            }
        } else {
            match least_route(rates, units, from_currency, to_currency) {
                None => Some(Err(CoreErrorView::InvalidInput(no_rate_message(from, to)))),
                Some(route) => match applied_rate(
                    multiplier,
                    route_rate(route, rates),
                    code_multiplier(units, to),
                ) {
                    Some(rate) => Some(Ok((rate, route))),
                    None => None,
                },
            }
        },
    }
}

/// The rate of a route, between what a unit of the first code is and how many
/// units of the second make one.
pub open spec fn applied_rate(before: Decimal, rate: Option<Decimal>, after: Decimal) -> Option<
    Decimal,
> {
    match rate {
        None => None,
        Some(rate) => match decimal_product(before, rate) {
            Some(product) => decimal_product(product, after),
            None => None,
        },
    }
}

/// Whether `rate` is exactly how many units of one code a unit of another is,
/// both counted in the same currency, with nothing to round on the way.
pub open spec fn is_exact_unit_rate(from_multiplier: int, to_multiplier: int, rate: int) -> bool {
    exists|one: int| #[trigger]
        representable(one) && from_multiplier != 0 && one * from_multiplier == unit() * unit()
            && representable(rate) && rate * unit() == one * to_multiplier
}

/// The rate of the conversion from one code to another, and the steps it takes.
///
/// `None` where a rate on the way does not fit a decimal.
pub fn convert(rates: &[ExchangeRate], units: &[MinorUnit], from: &str, to: &str) -> (conversion:
    Option<Result<(Decimal, Vec<RouteStep>), CoreError>>)
    ensures
        match conversion {
            None => conversion_of(rate_views(rates@), units@, from@, to@) is None,
            Some(Err(error)) => conversion_of(rate_views(rates@), units@, from@, to@) == Some(
                Err::<(Decimal, Seq<Link>), CoreErrorView>(error@),
            ),
            Some(Ok((rate, steps))) => {
                let owed = conversion_of(rate_views(rates@), units@, from@, to@);
                &&& owed matches Some(Ok((owed_rate, route)))
                &&& rate == owed->0->Ok_0.0
                &&& are_steps(steps@, owed->0->Ok_0.1)
                &&& forall|k: int|
                    0 <= k < steps@.len() ==> (#[trigger] steps@[k]).index < rates@.len()
                &&& steps@.len() == 0 <==> currency_of(units@, from@) == currency_of(units@, to@)
            },
        },
        currency_of(units@, from@) == currency_of(units@, to@) ==> forall|rate: int| #[trigger]
            is_exact_unit_rate(
                code_multiplier(units@, from@)@,
                code_multiplier(units@, to@)@,
                rate,
            ) ==> (conversion matches Some(Ok((found, _))) && found@ == rate),
        conversion matches Some(Err(error)) ==> forall|route: Seq<Link>|
            !is_route(
                route,
                rate_views(rates@),
                units@,
                currency_of(units@, from@),
                currency_of(units@, to@),
            ),
{
    let ghost views = rate_views(rates@);
    let from_currency = normalize_currency(units, from);
    let to_currency = normalize_currency(units, to);
    let units_in_one = denormalization_multiplier(units, from);
    let before = if units_in_one == Decimal::one() {
        Some(Decimal::one())
    } else {
        divide_decimals(Decimal::one(), units_in_one)
    };
    proof {
        lemma_unit_positive();
        assert forall|one: int|
            units_in_one@ != 0 && #[trigger] representable(one) && one * units_in_one@ == unit()
                * unit() implies before is Some && before->0@ == one by {
            if units_in_one@ == unit() {
                assert(one == unit()) by (nonlinear_arith)
                    requires
                        one * unit() == unit() * unit(),
                        unit() > 0,
                ;
            }
        }
    }
    let before = match before {
        Some(before) => before,
        None => {
            return None;
        },
    };
    let after = denormalization_multiplier(units, to);
    if from_currency == to_currency {
        let steps: Vec<RouteStep> = Vec::new();
        return match multiply_decimals(before, after) {
            Some(rate) => Some(Ok((rate, steps))),
            None => None,
        };
    }
    let steps = match find_route(rates, units, &from_currency, &to_currency) {
        Some(steps) => steps,
        None => {
            let start = chain("No attributable FX rate is available for ", from);
            let message = chain(chain(start.as_str(), "/").as_str(), to);
            return Some(Err(CoreError::InvalidInput(message)));
        },
    };
    let ghost route = least_route(views, units@, from_currency@, to_currency@)->0;
    let mut rate = Decimal::one();
    assert(route.take(0) =~= Seq::empty());
    #[verifier::loop_isolation(false)]
    for i in 0..steps.len()
        invariant
            route_rate(route.take(i as int), views) == Some(rate),
    {
        let step = steps[i];
        proof {
            assert(steps@[i as int].index < rates@.len());
            assert(route.take(i + 1).drop_last() =~= route.take(i as int));
            assert(route.take(i + 1).last() == route[i as int]);
            assert(views[step.index as int] == rates@[step.index as int]@);
        }
        let next = if step.reversed {
            divide_decimals(Decimal::one(), rates[step.index].rate)
        } else {
            Some(rates[step.index].rate)
        };
        let product = match next {
            Some(next) => multiply_decimals(rate, next),
            None => None,
        };
        match product {
            Some(product) => {
                rate = product;
            },
            None => {
                proof {
                    lemma_route_rate_stays_none(route, views, i + 1);
                }
                return None;
            },
        }
    }
    assert(route.take(route.len() as int) =~= route);
    let applied = match multiply_decimals(before, rate) {
        Some(product) => multiply_decimals(product, after),
        None => None,
    };
    match applied {
        Some(applied) => Some(Ok((applied, steps))),
        None => None,
    }
}

/// The rates that a route takes.
pub open spec fn used_rates(route: Seq<Link>, rates: Seq<ExchangeRateView>) -> Seq<
    ExchangeRateView,
> {
    route.map_values(|link: Link| rates[link.index])
}

/// When the oldest of some rates was recorded.
pub open spec fn oldest(used: Seq<ExchangeRateView>) -> Timestamp
    recommends
        used.len() > 0,
    decreases used.len(),
{
    if used.len() <= 1 {
        used[0].timestamp
    } else {
        let before = oldest(used.drop_last());
        if used.last().timestamp.spec_is_before(before) {
            used.last().timestamp
        } else {
            before
        }
    }
}

/// Whether any of some rates is from a day before the present one.
pub open spec fn is_stale(used: Seq<ExchangeRateView>, now: Timestamp) -> bool {
    exists|k: int| 0 <= k < used.len() && (#[trigger] used[k]).timestamp.spec_day() < now.spec_day()
}

/// Where the rate of a conversion comes from, the oldest rate's moment written
/// as `timestamp`.
pub open spec fn pricing_source_of(
    used: Seq<ExchangeRateView>,
    rate: Decimal,
    from: Seq<char>,
    to: Seq<char>,
    timestamp: Seq<char>,
    now: Timestamp,
) -> WorksheetPricingSourceView {
    WorksheetPricingSourceView {
        id: joined(used.map_values(|rate: ExchangeRateView| rate.id), ">"@),
        source_type: if used.len() == 1 {
            "fx_rate"@
        } else {
            "fx_path"@
        },
        value: rate,
        from_currency: from,
        to_currency: to,
        timestamp,
        is_stale: is_stale(used, now),
    }
}

/// Where the rate of a conversion comes from.
pub fn pricing_source(
    used: &Vec<ExchangeRate>,
    rate: Decimal,
    from: &str,
    to: &str,
    timestamp: String,
    now: Timestamp,
) -> (source: WorksheetPricingSource)
    ensures
        source@ == pricing_source_of(rate_views(used@), rate, from@, to@, timestamp@, now),
        source.value == rate,
        source.from_currency@ == from@,
        source.to_currency@ == to@,
        source.timestamp@ == timestamp@,
        source.source_type@ == if used@.len() == 1 {
            "fx_rate"@
        } else {
            "fx_path"@
        },
        source.is_stale <==> exists|k: int|
            0 <= k < used@.len() && (#[trigger] used@[k]).timestamp.seconds as int / 86400
                < now.seconds as int / 86400,
{
    let ghost views = rate_views(used@);
    let mut ids: Vec<String> = Vec::new();
    let mut is_stale = false;
    for i in 0..used.len()
        invariant
            views == rate_views(used@),
            texts(ids@) == views.map_values(|rate: ExchangeRateView| rate.id).take(i as int),
            is_stale == exists|k: int|
                0 <= k < i && (#[trigger] views[k]).timestamp.spec_day() < now.spec_day(),
    {
        let ghost before = ids@;
        assert(views[i as int] == used@[i as int]@);
        ids.push(used[i].id.clone());
        if used[i].timestamp.day() < now.day() {
            is_stale = true;
        }
        proof {
            let every = views.map_values(|rate: ExchangeRateView| rate.id);
            assert(texts(ids@) =~= texts(before).push(used@[i as int].id@));
            assert(every.take(i + 1) =~= every.take(i as int).push(used@[i as int].id@));
        }
    }
    assert(texts(ids@) =~= views.map_values(|rate: ExchangeRateView| rate.id));
    assert(forall|k: int| 0 <= k < used@.len() ==> views[k] == (#[trigger] used@[k])@);
    assert(forall|k: int| 0 <= k < used@.len() ==> (#[trigger] views[k]) == used@[k]@);
    WorksheetPricingSource {
        id: join(&ids, ">"),
        source_type: if used.len() == 1 {
            "fx_rate".to_owned()
        } else {
            "fx_path".to_owned()
        },
        value: rate,
        from_currency: from.to_owned(),
        to_currency: to.to_owned(),
        timestamp,
        is_stale,
    }
}

fn oldest_timestamp(used: &Vec<ExchangeRate>) -> (timestamp: Timestamp)
    requires
        used@.len() > 0,
    ensures
        timestamp == oldest(rate_views(used@)),
{
    let ghost views = rate_views(used@);
    let mut timestamp = used[0].timestamp;
    for i in 1..used.len()
        invariant
            views == rate_views(used@),
            used@.len() > 0,
            timestamp == oldest(views.take(i as int)),
    {
        assert(views.take(i + 1).drop_last() =~= views.take(i as int));
        assert(views.take(i + 1).last() == used@[i as int]@);
        if used[i].timestamp.is_before(&timestamp) {
            timestamp = used[i].timestamp;
        }
    }
    assert(views.take(views.len() as int) =~= views);
    timestamp
}

/// A resolved conversion: its rate, where the rate comes from, and the recorded
/// rates it takes.
pub ghost struct FxResolution {
    pub rate: Decimal,
    pub source: Option<WorksheetPricingSourceView>,
    pub used: Seq<ExchangeRateView>,
}

/// The conversion from one code to another, with where its rate comes from: no
/// source where both codes are counted in the same currency. `None` where a
/// rate does not fit a decimal, or a moment not the calendar.
pub open spec fn resolution_of(
    rates: Seq<ExchangeRateView>,
    units: Seq<MinorUnit>,
    from: Seq<char>,
    to: Seq<char>,
    now: Timestamp,
) -> Option<Result<FxResolution, CoreErrorView>> {
    match conversion_of(rates, units, from, to) {
        None => None,
        Some(Err(error)) => Some(Err(error)),
        Some(Ok((rate, route))) => if route.len() == 0 {
            Some(Ok(FxResolution { rate, source: None, used: Seq::empty() }))
        } else {
            let used = used_rates(route, rates);
            let moment = oldest(used);
            match rfc3339_text(moment.seconds, moment.nanos) {
                None => None,
                Some(timestamp) => Some(
                    Ok(
                        FxResolution {
                            rate,
                            source: Some(pricing_source_of(used, rate, from, to, timestamp, now)),
                            used,
                        },
                    ),
                ),
            }
        },
    }
}

/// What a resolved conversion stands for.
pub open spec fn fx_view(
    resolved: Option<
        Result<(Decimal, Option<WorksheetPricingSource>, Vec<ExchangeRate>), CoreError>,
    >,
) -> Option<Result<FxResolution, CoreErrorView>> {
    match resolved {
        None => None,
        Some(Err(error)) => Some(Err(error@)),
        Some(Ok((rate, source, used))) => Some(
            Ok(
                FxResolution {
                    rate,
                    source: match source {
                        Some(source) => Some(source@),
                        None => None,
                    },
                    used: rate_views(used@),
                },
            ),
        ),
    }
}

/// The conversion from one code to another, as of a moment.
pub fn resolve_fx_source_at(
    rates: &[ExchangeRate],
    units: &[MinorUnit],
    from: &str,
    to: &str,
    now: Timestamp,
) -> (resolved: Option<
    Result<(Decimal, Option<WorksheetPricingSource>, Vec<ExchangeRate>), CoreError>,
>)
    ensures
        fx_view(resolved) == resolution_of(rate_views(rates@), units@, from@, to@, now),
{
    let ghost views = rate_views(rates@);
    let (rate, steps) = match convert(rates, units, from, to) {
        None => {
            return None;
        },
        Some(Err(error)) => {
            return Some(Err(error));
        },
        Some(Ok(found)) => found,
    };
    let ghost route = conversion_of(views, units@, from@, to@)->0->Ok_0.1;
    let mut used: Vec<ExchangeRate> = Vec::new();
    for i in 0..steps.len()
        invariant
            views == rate_views(rates@),
            are_steps(steps@, route),
            forall|k: int| 0 <= k < steps@.len() ==> (#[trigger] steps@[k]).index < rates@.len(),
            rate_views(used@) == used_rates(route, views).take(i as int),
    {
        let ghost before = used@;
        let step = steps[i];
        assert(steps@[i as int].index < rates@.len());
        let next = rates[step.index].copy();
        used.push(next);
        proof {
            let every = used_rates(route, views);
            assert(every[i as int] == views[step.index as int]);
            assert(rate_views(used@) =~= rate_views(before).push(next@));
            assert(every.take(i + 1) =~= every.take(i as int).push(next@));
        }
    }
    assert(rate_views(used@) =~= used_rates(route, views));
    assert(rate_views(used@).len() == used@.len());
    if used.len() == 0 {
        assert(rate_views(used@) =~= Seq::empty());
        return Some(Ok((rate, None, used)));
    }
    let moment = oldest_timestamp(&used);
    match print_rfc3339(moment) {
        None => None,
        Some(timestamp) => {
            let source = pricing_source(&used, rate, from, to, timestamp, now);
            Some(Ok((rate, Some(source), used)))
        },
    }
}

/// The conversion from one code to another, as of the present moment.
pub fn resolve_fx_source(
    from: &str,
    to: &str,
    rates: &[ExchangeRate],
    units: &[MinorUnit],
) -> (resolved: Option<
    Result<(Decimal, Option<WorksheetPricingSource>, Vec<ExchangeRate>), CoreError>,
>)
    ensures
        exists|now: Timestamp| #[trigger]
            resolution_of(rate_views(rates@), units@, from@, to@, now) == fx_view(resolved),
{
    let now = current_time();
    resolve_fx_source_at(rates, units, from, to, now)
}

} // verus!
