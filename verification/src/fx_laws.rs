//! What a conversion takes: which currency a code is counted in, which rates
//! connect two of them, and what is told of the rates that were taken.

use crate::decimal::{decimal_product, decimal_quotient, unit, Decimal};
use crate::errors::CoreErrorView;
use crate::fx::{
    code_multiplier, conversion_of, currency_of, is_least_route, is_link, is_route, least_route,
    link_at, major_code, oldest, pricing_source_of, resolution_of, route_below, route_rate,
    routes_part, used_rates, ExchangeRate, ExchangeRateView, Link, MinorUnit,
    WorksheetPricingSource,
};
use crate::text::{joined, text_below};
use crate::time::{rfc3339_text, Timestamp};
use vstd::prelude::*;

verus! {

/// A code is counted by the first minor unit with the code.
pub proof fn law_first_minor_unit_counts(units: Seq<MinorUnit>, code: Seq<char>, i: int)
    requires
        0 <= i < units.len(),
        units[i].code@ == code,
        forall|k: int| 0 <= k < i ==> (#[trigger] units[k]).code@ != code,
    ensures
        major_code(units, code) == units[i].major@,
        code_multiplier(units, code) == units[i].multiplier,
    decreases units.len(),
{
    if i > 0 {
        let rest = units.drop_first();
        assert forall|k: int| 0 <= k < i - 1 implies (#[trigger] rest[k]).code@ != code by {
            assert(units[k + 1].code@ != code);
        }
        assert(units[0].code@ != code);
        law_first_minor_unit_counts(rest, code, i - 1);
    }
}

/// A code that is no minor unit's is counted in itself, one by one.
pub proof fn law_other_codes_count_in_themselves(units: Seq<MinorUnit>, code: Seq<char>)
    requires
        forall|k: int| 0 <= k < units.len() ==> (#[trigger] units[k]).code@ != code,
    ensures
        major_code(units, code) == code,
        code_multiplier(units, code) == Decimal::whole(1),
    decreases units.len(),
{
    if units.len() > 0 {
        let rest = units.drop_first();
        assert forall|k: int| 0 <= k < rest.len() implies (#[trigger] rest[k]).code@ != code by {
            assert(units[k + 1].code@ != code);
        }
        assert(units[0].code@ != code);
        law_other_codes_count_in_themselves(rest, code);
    }
}

/// A currency is a code's major unit, letter by letter in upper case.
pub proof fn law_currency_is_in_upper_case(units: Seq<MinorUnit>, code: Seq<char>)
    ensures
        currency_of(units, code).len() == major_code(units, code).len(),
        forall|k: int|
            0 <= k < major_code(units, code).len() ==> {
                let letter = major_code(units, code)[k];
                let upper = #[trigger] currency_of(units, code)[k];
                &&& 'a' <= letter && letter <= 'z' ==> upper as int == letter as int - 32
                &&& !('a' <= letter && letter <= 'z') ==> upper == letter
            },
{
}

/// Whether a link takes a recorded rate of more than nothing between two
/// currencies, from the one to the other or the other way round.
pub open spec fn takes_rate(link: Link, rates: Seq<ExchangeRateView>,
    units: Seq<MinorUnit>) -> bool {
    &&& 0 <= link.index < rates.len()
    &&& rates[link.index].rate@ > 0
    &&& link.from != link.to
    &&& !link.reversed ==> link.from == currency_of(units, rates[link.index].from_currency)
        && link.to == currency_of(units, rates[link.index].to_currency)
    &&& link.reversed ==> link.from == currency_of(units, rates[link.index].to_currency) && link.to
        == currency_of(units, rates[link.index].from_currency)
}

/// Every recorded rate of more than nothing between two currencies can be taken,
/// in both directions, and nothing else can.
pub proof fn law_rates_can_be_taken_both_ways(
    link: Link,
    rates: Seq<ExchangeRateView>,
    units: Seq<MinorUnit>,
)
    ensures
        is_link(link, rates, units) <==> takes_rate(link, rates, units),
{
    let made = link_at(rates, units, link.index, link.reversed);
    assert(made.index == link.index && made.reversed == link.reversed);
}

/// A route is a chain of rates that can be taken, the first from the one
/// currency, the last to the other, and each from where the one before it leads;
/// and every such chain is a route.
pub proof fn law_route_is_a_chain(
    route: Seq<Link>,
    rates: Seq<ExchangeRateView>,
    units: Seq<MinorUnit>,
    from: Seq<char>,
    to: Seq<char>,
)
    requires
        route.len() > 0,
    ensures
        is_route(route, rates, units, from, to) <==> {
            &&& route[0].from == from
            &&& route[route.len() - 1].to == to
            &&& forall|k: int|
                0 <= k < route.len() ==> takes_rate(#[trigger] route[k], rates, units)
            &&& forall|j: int, k: int|
                0 <= j < route.len() && k == j + 1 && k < route.len() ==> (#[trigger] route[j]).to
                    == (#[trigger] route[k]).from
        },
    decreases route.len(),
{
    let last = route.len() - 1;
    let before = route.drop_last();
    law_rates_can_be_taken_both_ways(route[last], rates, units);
    assert(route.last() == route[last]);
    if before.len() == 0 {
        assert(is_route(before, rates, units, from, route[last].from) <==> from
            == route[last].from);
        assert(is_route(route, rates, units, from, to) <==> is_link(route.last(), rates, units)
            && route.last().to == to && is_route(before, rates, units, from, route.last().from));
    } else {
        law_route_is_a_chain(before, rates, units, from, route[last].from);
        assert forall|k: int| 0 <= k < last implies #[trigger] before[k] == route[k] by {}
        if is_route(route, rates, units, from, to) {
            assert forall|k: int| 0 <= k < route.len() implies takes_rate(
                #[trigger] route[k],
                rates,
                units,
            ) by {
                if k < last {
                    assert(takes_rate(before[k], rates, units));
                }
            }
            assert forall|j: int, k: int|
                0 <= j < route.len() && k == j + 1 && k < route.len() implies (
            #[trigger] route[j]).to == (#[trigger] route[k]).from by {
                assert(before[j] == route[j]);
                if k < last {
                    assert(before[k] == route[k]);
                }
            }
        }
        if route[0].from == from && route[last].to == to && (forall|k: int|
            0 <= k < route.len() ==> takes_rate(#[trigger] route[k], rates, units)) && (forall|
            j: int,
            k: int,
        |
            0 <= j < route.len() && k == j + 1 && k < route.len() ==> (#[trigger] route[j]).to == (
            #[trigger] route[k]).from) {
            assert forall|k: int| 0 <= k < before.len() implies takes_rate(
                #[trigger] before[k],
                rates,
                units,
            ) by {
                assert(takes_rate(route[k], rates, units));
            }
            assert forall|j: int, k: int|
                0 <= j < before.len() && k == j + 1 && k < before.len() implies (
            #[trigger] before[j]).to == (#[trigger] before[k]).from by {
                assert(route[j].to == route[k].from);
            }
            assert(route[last - 1].to == route[last].from);
            assert(is_route(before, rates, units, from, route[last].from));
        }
    }
}

/// A conversion between two currencies takes a route from the one to the other;
/// no other route is shorter, and where another is as short, the one that is
/// taken leads, where they first part, to the currency that comes first, by the
/// rate whose identifier comes first, and by the rate that stands first.
pub proof fn law_shortest_route_is_taken(
    rates: Seq<ExchangeRateView>,
    units: Seq<MinorUnit>,
    from: Seq<char>,
    to: Seq<char>,
    other: Seq<Link>,
)
    requires
        currency_of(units, from) != currency_of(units, to),
        conversion_of(rates, units, from, to) is Some,
        conversion_of(rates, units, from, to)->0 is Ok,
        is_route(other, rates, units, currency_of(units, from), currency_of(units, to)),
    ensures
        ({
            let route = (conversion_of(rates, units, from, to)->0->Ok_0).1;
            &&& is_route(route, rates, units, currency_of(units, from), currency_of(units, to))
            &&& route.len() <= other.len()
            &&& route.len() == other.len() && route != other ==> exists|k: int|
                0 <= k < route.len() && route.take(k) == other.take(k) && (text_below(
                    (#[trigger] route[k]).to,
                    other[k].to,
                ) || (route[k].to == other[k].to && (text_below(
                    rates[route[k].index].id,
                    rates[other[k].index].id,
                ) || (rates[route[k].index].id == rates[other[k].index].id && route[k].index
                    < other[k].index))))
        }),
{
    let start = currency_of(units, from);
    let end = currency_of(units, to);
    let route = (conversion_of(rates, units, from, to)->0->Ok_0).1;
    assert(least_route(rates, units, start, end) == Some(route));
    assert(is_least_route(route, rates, units, start, end));
    if route.len() == other.len() && route != other {
        assert(route_below(route, other, rates));
        let k = choose|k: int| routes_part(route, other, rates, k);
        assert(routes_part(route, other, rates, k));
        assert(route.take(k) == other.take(k));
        assert(text_below(route[k].to, other[k].to) || route[k].to == other[k].to);
    }
}

/// The rate of a route is one, times the rate of each link in turn: the recorded
/// rate, or one over it where the rate is taken the other way round.
pub proof fn law_rate_of_a_route_takes_every_link(
    route: Seq<Link>,
    link: Link,
    rates: Seq<ExchangeRateView>,
)
    ensures
        route_rate(Seq::empty(), rates) == Some(Decimal::whole(1)),
        route_rate(route, rates) is None ==> route_rate(route.push(link), rates) is None,
        route_rate(route, rates) is Some && !link.reversed ==> route_rate(route.push(link), rates)
            == decimal_product(route_rate(route, rates)->0, rates[link.index].rate),
        route_rate(route, rates) is Some && link.reversed && decimal_quotient(
            Decimal::whole(1),
            rates[link.index].rate,
        ) is Some ==> route_rate(route.push(link), rates) == decimal_product(
            route_rate(route, rates)->0,
            decimal_quotient(Decimal::whole(1), rates[link.index].rate)->0,
        ),
        link.reversed && decimal_quotient(Decimal::whole(1), rates[link.index].rate) is None
            ==> route_rate(route.push(link), rates) is None,
{
    assert(route.push(link).drop_last() =~= route);
}

/// A conversion divides by how many units of the first code make one, takes the
/// rate of its route, where it has one, and multiplies by how many units of the
/// second code make one.
pub proof fn law_conversion_counts_the_units_of_both_codes(
    rates: Seq<ExchangeRateView>,
    units: Seq<MinorUnit>,
    from: Seq<char>,
    to: Seq<char>,
)
    requires
        conversion_of(rates, units, from, to) is Some,
        conversion_of(rates, units, from, to)->0 is Ok,
    ensures
        ({
            let (rate, route) = conversion_of(rates, units, from, to)->0->Ok_0;
            let before = if code_multiplier(units, from)@ == unit() {
                Decimal::whole(1)
            } else {
                decimal_quotient(Decimal::whole(1), code_multiplier(units, from))->0
            };
            &&& route.len() == 0 ==> currency_of(units, from) == currency_of(units, to)
                && decimal_product(before, code_multiplier(units, to)) == Some(rate)
            &&& route.len() > 0 ==> currency_of(units, from) != currency_of(units, to)
                && route_rate(route, rates) is Some && decimal_product(
                before,
                route_rate(route, rates)->0,
            ) is Some && decimal_product(
                decimal_product(before, route_rate(route, rates)->0)->0,
                code_multiplier(units, to),
            ) == Some(rate)
        }),
{
    let start = currency_of(units, from);
    let end = currency_of(units, to);
    if start != end {
        let route = (conversion_of(rates, units, from, to)->0->Ok_0).1;
        assert(least_route(rates, units, start, end) == Some(route));
        assert(is_least_route(route, rates, units, start, end));
        assert(is_route(route, rates, units, start, end));
        assert(route.len() > 0);
    }
}

/// Where no conversion is had, the message names both codes as they were given.
pub proof fn law_missing_rate_names_both_codes(
    rates: Seq<ExchangeRateView>,
    units: Seq<MinorUnit>,
    from: Seq<char>,
    to: Seq<char>,
)
    requires
        conversion_of(rates, units, from, to) is Some,
        conversion_of(rates, units, from, to)->0 is Err,
    ensures
        currency_of(units, from) != currency_of(units, to),
        conversion_of(rates, units, from, to)->0->Err_0 == CoreErrorView::InvalidInput(
            "No attributable FX rate is available for "@ + from + "/"@ + to,
        ),
{
}

/// The rates that are told are those of the route, link by link.
pub proof fn law_every_rate_of_the_route_is_told(route: Seq<Link>, rates: Seq<ExchangeRateView>)
    ensures
        used_rates(route, rates).len() == route.len(),
        forall|k: int|
            0 <= k < route.len() ==> #[trigger] used_rates(route, rates)[k]
                == rates[route[k].index],
{
}

/// The oldest moment is one of those of the rates, and none of theirs is before
/// it.
pub proof fn law_oldest_moment_is_told(used: Seq<ExchangeRateView>)
    requires
        used.len() > 0,
    ensures
        exists|k: int| 0 <= k < used.len() && (#[trigger] used[k]).timestamp == oldest(used),
        forall|k: int|
            0 <= k < used.len() ==> (#[trigger] used[k]).timestamp.seconds > oldest(used).seconds
                || (used[k].timestamp.seconds == oldest(used).seconds && used[k].timestamp.nanos
                >= oldest(used).nanos),
    decreases used.len(),
{
    let last = used.len() - 1;
    if used.len() == 1 {
        assert(used[0].timestamp == oldest(used));
    } else {
        let before = used.drop_last();
        law_oldest_moment_is_told(before);
        assert(used[last] == used.last());
        let j = choose|j: int| 0 <= j < before.len() && (#[trigger] before[j]).timestamp == oldest(
            before,
        );
        assert(used[j].timestamp == before[j].timestamp);
        assert forall|k: int| 0 <= k < used.len() implies (#[trigger] used[k]).timestamp.seconds
            > oldest(used).seconds || (used[k].timestamp.seconds == oldest(used).seconds
            && used[k].timestamp.nanos >= oldest(used).nanos) by {
            if k < last {
                assert(before[k] == used[k]);
            }
        }
    }
}

/// A resolved conversion has the rate of the conversion and the rates of its
/// route; its source names the codes as they were given, the rate, and when the
/// oldest of the rates was recorded, and is stale exactly where one of them is
/// from a day before the present one. There is no source where no rate is taken.
pub proof fn law_source_is_of_the_rates_taken(
    rates: Seq<ExchangeRateView>,
    units: Seq<MinorUnit>,
    from: Seq<char>,
    to: Seq<char>,
    now: Timestamp,
)
    requires
        resolution_of(rates, units, from, to, now) is Some,
        resolution_of(rates, units, from, to, now)->0 is Ok,
    ensures
        conversion_of(rates, units, from, to) is Some,
        conversion_of(rates, units, from, to)->0 is Ok,
        ({
            let resolved = resolution_of(rates, units, from, to, now)->0->Ok_0;
            let (rate, route) = conversion_of(rates, units, from, to)->0->Ok_0;
            &&& resolved.rate == rate
            &&& resolved.used.len() == route.len()
            &&& forall|k: int|
                0 <= k < route.len() ==> #[trigger] resolved.used[k] == rates[route[k].index]
            &&& resolved.source is Some <==> route.len() > 0
            &&& resolved.source is Some ==> {
                let source = resolved.source->0;
                &&& source.value == rate
                &&& source.from_currency == from
                &&& source.to_currency == to
                &&& route.len() == 1 ==> source.source_type == "fx_rate"@ && source.id
                    == rates[route[0].index].id
                &&& route.len() > 1 ==> source.source_type == "fx_path"@
                &&& rfc3339_text(oldest(resolved.used).seconds, oldest(resolved.used).nanos)
                    == Some(source.timestamp)
                &&& source.is_stale <==> exists|k: int|
                    0 <= k < resolved.used.len() && (
                    #[trigger] resolved.used[k]).timestamp.seconds as int / 86400
                        < now.seconds as int / 86400
            }
        }),
{
    let resolved = resolution_of(rates, units, from, to, now)->0->Ok_0;
    let (rate, route) = conversion_of(rates, units, from, to)->0->Ok_0;
    if route.len() == 1 {
        let ids = resolved.used.map_values(|rate: ExchangeRateView| rate.id);
        assert(ids.len() == 1);
        assert(ids[0] == rates[route[0].index].id);
    }
}

/// A source names the identifiers of its rates in the order in which they are
/// taken, with a sign between each two.
pub proof fn law_source_names_every_rate(
    used: Seq<ExchangeRateView>,
    next: ExchangeRateView,
    rate: Decimal,
    from: Seq<char>,
    to: Seq<char>,
    timestamp: Seq<char>,
    now: Timestamp,
)
    requires
        used.len() > 0,
    ensures
        pricing_source_of(used.push(next), rate, from, to, timestamp, now).id == pricing_source_of(
            used,
            rate,
            from,
            to,
            timestamp,
            now,
        ).id + ">"@ + next.id,
{
    let ids = used.map_values(|rate: ExchangeRateView| rate.id);
    let more = used.push(next).map_values(|rate: ExchangeRateView| rate.id);
    assert(more =~= ids.push(next.id));
    assert(more.drop_last() =~= ids);
    assert(joined(more, ">"@) == joined(ids, ">"@) + ">"@ + next.id);
}

/// A rate is seen with everything that it says.
pub proof fn law_rate_is_seen_whole(rate: ExchangeRate)
    ensures
        rate@.id == rate.id@,
        rate@.from_currency == rate.from_currency@,
        rate@.to_currency == rate.to_currency@,
        rate@.rate == rate.rate,
        rate@.source == rate.source@,
        rate@.timestamp == rate.timestamp,
{
}

/// A source is seen with everything that it says.
pub proof fn law_source_is_seen_whole(source: WorksheetPricingSource)
    ensures
        source@.id == source.id@,
        source@.source_type == source.source_type@,
        source@.value == source.value,
        source@.from_currency == source.from_currency@,
        source@.to_currency == source.to_currency@,
        source@.timestamp == source.timestamp@,
        source@.is_stale == source.is_stale,
{
}

} // verus!
