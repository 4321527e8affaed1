//! Transfers between the user's own accounts.
//!
//! A bank shows a transfer twice, as money that leaves one account and as money
//! that enters another. What looks like the two sides of one transfer is
//! proposed to the user; what the user confirms is linked.

use crate::decimal::{decimal_text, print_decimal, Decimal};
use crate::ids::new_id;
use crate::text::{chain, copy_text, optional_text, same_text};
use crate::time::{date_text, print_date, print_rfc3339, rfc3339_text, Timestamp};
use vstd::prelude::*;

verus! {

/// A recorded activity.
#[derive(Debug)]
pub struct Activity {
    pub id: String,
    pub account_id: String,
    pub activity_type: String,
    pub subtype: Option<String>,
    pub activity_date: Timestamp,
    pub quantity: Option<Decimal>,
    pub unit_price: Option<Decimal>,
    pub currency: String,
    pub fee: Option<Decimal>,
    pub amount: Option<Decimal>,
    pub status: String,
    pub notes: Option<String>,
    pub fx_rate: Option<Decimal>,
    /// As JSON.
    pub metadata: Option<String>,
    /// Whether the user has to look at it.
    pub needs_review: bool,
    pub source_system: Option<String>,
    pub source_record_id: Option<String>,
    /// What links the activity to others.
    pub source_group_id: Option<String>,
}

// ── Matching ─────────────────────────────────────────────────────────────────

/// Whether an activity is money that leaves an account and is not linked yet.
pub open spec fn is_outflow(activity: Activity) -> bool {
    activity.source_group_id is None && (activity.activity_type@ == "WITHDRAWAL"@
        || activity.activity_type@ == "TRANSFER_OUT"@)
}

/// Whether an activity is money that enters an account and is not linked yet.
pub open spec fn is_inflow(activity: Activity) -> bool {
    activity.source_group_id is None && (activity.activity_type@ == "DEPOSIT"@
        || activity.activity_type@ == "TRANSFER_IN"@)
}

/// Whether an activity has an amount that is not zero.
pub open spec fn has_amount(activity: Activity) -> bool {
    activity.amount matches Some(amount) && amount@ != 0
}

/// How much an amount is, without its sign.
pub open spec fn size(amount: Decimal) -> int {
    if amount@ < 0 {
        -amount@
    } else {
        amount@
    }
}

/// How many days lie between two activities.
pub open spec fn days_between(a: Activity, b: Activity) -> int {
    let days = a.activity_date.spec_day() - b.activity_date.spec_day();
    if days < 0 {
        -days
    } else {
        days
    }
}

/// Whether two activities look like the two sides of a transfer: money that
/// leaves one account and as much, in the same currency, that enters another,
/// on the same day or a day apart.
pub open spec fn is_transfer(out: Activity, into: Activity) -> bool {
    &&& is_outflow(out)
    &&& is_inflow(into)
    &&& has_amount(out)
    &&& has_amount(into)
    &&& out.account_id@ != into.account_id@
    &&& out.currency@ == into.currency@
    &&& size(out.amount->0) == size(into.amount->0)
    &&& days_between(out, into) <= 1
}

/// Whether an inflow is a side of one of the pairs, by its identifier.
pub open spec fn is_taken(activities: Seq<Activity>, pairs: Seq<(int, int)>,
    into: Activity) -> bool {
    exists|k: int| 0 <= k < pairs.len() && activities[(#[trigger] pairs[k]).1].id@ == into.id@
}

/// Whether an activity can be the other side of an outflow.
pub open spec fn is_open(
    activities: Seq<Activity>,
    pairs: Seq<(int, int)>,
    out: int,
    into: int,
) -> bool {
    is_transfer(activities[out], activities[into]) && !is_taken(
        activities,
        pairs,
        activities[into],
    )
}

/// The first activity, from one on, that can be the other side of an outflow.
pub open spec fn first_open(
    activities: Seq<Activity>,
    pairs: Seq<(int, int)>,
    out: int,
    from: int,
) -> Option<int>
    decreases activities.len() - from,
{
    if from >= activities.len() {
        None
    } else if is_open(activities, pairs, out, from) {
        Some(from)
    } else {
        first_open(activities, pairs, out, from + 1)
    }
}

/// The pairs that look like transfers: each outflow in turn with the first
/// inflow that fits and is not taken.
pub open spec fn pairs_of(activities: Seq<Activity>, n: nat) -> Seq<(int, int)>
    decreases n,
{
    if n == 0 {
        Seq::empty()
    } else {
        let before = pairs_of(activities, (n - 1) as nat);
        match first_open(activities, before, n - 1, 0) {
            Some(into) => before.push((n - 1, into)),
            None => before,
        }
    }
}

fn has_one_type(activity: &Activity, first: &str, second: &str) -> (r: bool)
    ensures
        r == (activity.source_group_id is None && (activity.activity_type@ == first@
            || activity.activity_type@ == second@)),
{
    activity.source_group_id.is_none() && (same_text(activity.activity_type.as_str(), first)
        || same_text(activity.activity_type.as_str(), second))
}

fn looks_like_transfer(out: &Activity, into: &Activity) -> (r: bool)
    ensures
        r == is_transfer(*out, *into),
{
    if !has_one_type(out, "WITHDRAWAL", "TRANSFER_OUT") || !has_one_type(
        into,
        "DEPOSIT",
        "TRANSFER_IN",
    ) {
        return false;
    }
    let (out_amount, in_amount) = match (out.amount, into.amount) {
        (Some(out_amount), Some(in_amount)) => (out_amount, in_amount),
        _ => {
            return false;
        },
    };
    if out_amount.is_zero() || in_amount.is_zero() {
        return false;
    }
    if out.account_id == into.account_id || out.currency != into.currency {
        return false;
    }
    if out_amount.abs() != in_amount.abs() {
        return false;
    }
    let out_day: i64 = out.activity_date.day();
    let in_day: i64 = into.activity_date.day();
    proof {
        crate::time::lemma_day_is_small(out.activity_date);
        crate::time::lemma_day_is_small(into.activity_date);
    }
    let days: i64 = out_day - in_day;
    -1 <= days && days <= 1
}

/// The views of pairs of positions.
pub open spec fn pair_views(pairs: Seq<(usize, usize)>) -> Seq<(int, int)> {
    pairs.map_values(|pair: (usize, usize)| (pair.0 as int, pair.1 as int))
}

/// The first activity that can be the other side of an outflow.
fn find_open(activities: &Vec<Activity>, pairs: &Vec<(usize, usize)>, out: usize) -> (into: Option<
    usize,
>)
    requires
        out < activities@.len(),
        forall|k: int| 0 <= k < pairs@.len() ==> (#[trigger] pairs@[k]).1 < activities@.len(),
    ensures
        match into {
            Some(found) => first_open(activities@, pair_views(pairs@), out as int, 0) == Some(
                found as int,
            ) && found < activities@.len() && is_transfer(
                activities@[out as int],
                activities@[found as int],
            ),
            None => first_open(activities@, pair_views(pairs@), out as int, 0) is None,
        },
{
    for j in 0..activities.len()
        invariant
            out < activities@.len(),
            forall|k: int| 0 <= k < pairs@.len() ==> (#[trigger] pairs@[k]).1 < activities@.len(),
            first_open(activities@, pair_views(pairs@), out as int, 0) == first_open(
                activities@,
                pair_views(pairs@),
                out as int,
                j as int,
            ),
    {
        if looks_like_transfer(&activities[out], &activities[j]) && !is_taken_id(
            activities,
            pairs,
            &activities[j].id,
        ) {
            return Some(j);
        }
    }
    None
}

/// The pairs that look like transfers, as positions among the activities.
fn find_pairs(activities: &Vec<Activity>) -> (pairs: Vec<(usize, usize)>)
    ensures
        pair_views(pairs@) == pairs_of(activities@, activities@.len()),
        forall|k: int|
            0 <= k < pairs@.len() ==> (#[trigger] pairs@[k]).0 < activities@.len() && pairs@[k].1
                < activities@.len() && is_transfer(
                activities@[pairs@[k].0 as int],
                activities@[pairs@[k].1 as int],
            ),
{
    let mut pairs: Vec<(usize, usize)> = Vec::new();
    assert(pair_views(pairs@) =~= Seq::empty());
    for i in 0..activities.len()
        invariant
            pair_views(pairs@) == pairs_of(activities@, i as nat),
            forall|k: int|
                0 <= k < pairs@.len() ==> (#[trigger] pairs@[k]).0 < activities@.len()
                    && pairs@[k].1 < activities@.len() && is_transfer(
                    activities@[pairs@[k].0 as int],
                    activities@[pairs@[k].1 as int],
                ),
    {
        match find_open(activities, &pairs, i) {
            Some(into) => {
                let ghost were = pairs@;
                pairs.push((i, into));
                assert(pair_views(pairs@) =~= pair_views(were).push((i as int, into as int)));
            },
            None => {},
        }
    }
    pairs
}

/// The pairs that look like transfers, as positions among the activities.
pub fn match_transfers(activities: &Vec<Activity>) -> (pairs: Vec<(usize, usize)>)
    ensures
        pair_views(pairs@) == pairs_of(activities@, activities@.len()),
        forall|k: int|
            0 <= k < pairs@.len() ==> (#[trigger] pairs@[k]).0 < activities@.len() && pairs@[k].1
                < activities@.len() && is_transfer(
                activities@[pairs@[k].0 as int],
                activities@[pairs@[k].1 as int],
            ),
        forall|k: int|
            0 <= k < pairs@.len() ==> (#[trigger] pairs@[k]).0 < activities@.len() && pairs@[k].1
                < activities@.len() && activities@[pairs@[k].0 as int].source_group_id is None
                && activities@[pairs@[k].1 as int].source_group_id is None
                && (activities@[pairs@[k].0 as int].activity_type@ == "WITHDRAWAL"@
                    || activities@[pairs@[k].0 as int].activity_type@ == "TRANSFER_OUT"@)
                && (activities@[pairs@[k].1 as int].activity_type@ == "DEPOSIT"@
                    || activities@[pairs@[k].1 as int].activity_type@ == "TRANSFER_IN"@)
                && activities@[pairs@[k].0 as int].account_id@ != activities@[pairs@[k].1 as int].account_id@
                && activities@[pairs@[k].0 as int].currency@
                    == activities@[pairs@[k].1 as int].currency@
                && activities@[pairs@[k].0 as int].amount is Some
                && activities@[pairs@[k].1 as int].amount is Some
                && activities@[pairs@[k].0 as int].amount->0@ != 0
                && (activities@[pairs@[k].0 as int].amount->0@
                    == activities@[pairs@[k].1 as int].amount->0@
                    || activities@[pairs@[k].0 as int].amount->0@
                    == -activities@[pairs@[k].1 as int].amount->0@)
                && -1 <= activities@[pairs@[k].0 as int].activity_date.seconds as int / 86400 - activities@[pairs@[k].1 as int].activity_date.seconds as int / 86400 <= 1,
        forall|j: int, k: int|
            0 <= j < k < pairs@.len() ==> (#[trigger] pairs@[j]).0 < (#[trigger] pairs@[k]).0
                && activities@[pairs@[j].1 as int].id@ != activities@[pairs@[k].1 as int].id@,
        forall|o: int, i: int|
            0 <= o < activities@.len() && 0 <= i < activities@.len()
                && (#[trigger] activities@[o]).source_group_id is None
                && (#[trigger] activities@[i]).source_group_id is None
                && (activities@[o].activity_type@ == "WITHDRAWAL"@ || activities@[o].activity_type@
                    == "TRANSFER_OUT"@)
                && (activities@[i].activity_type@ == "DEPOSIT"@ || activities@[i].activity_type@
                    == "TRANSFER_IN"@)
                && activities@[o].account_id@ != activities@[i].account_id@
                && activities@[o].currency@ == activities@[i].currency@
                && activities@[o].amount is Some
                && activities@[i].amount is Some
                && activities@[o].amount->0@ != 0
                && (activities@[o].amount->0@ == activities@[i].amount->0@
                    || activities@[o].amount->0@ == -activities@[i].amount->0@)
                && -1 <= activities@[o].activity_date.seconds as int / 86400 - activities@[i].activity_date.seconds as int / 86400 <= 1 ==> exists|k: int|
                0 <= k < pairs@.len() && ((#[trigger] pairs@[k]).0 == o
                    || activities@[pairs@[k].1 as int].id@ == activities@[i].id@),
{
    let pairs = find_pairs(activities);
    proof {
        law_transfers_are_found(activities@);
        let views = pair_views(pairs@);
        assert forall|k: int| 0 <= k < pairs@.len() implies (#[trigger] pairs@[k]).0 == views[k].0
            && pairs@[k].1 == views[k].1 by {}
        assert forall|o: int, i: int|
            0 <= o < activities@.len() && 0 <= i < activities@.len() && is_transfer(
                #[trigger] activities@[o],
                #[trigger] activities@[i],
            ) implies exists|k: int|
            0 <= k < pairs@.len() && ((#[trigger] pairs@[k]).0 == o
                || activities@[pairs@[k].1 as int].id@ == activities@[i].id@) by {
            let k = choose|k: int|
                0 <= k < views.len() && ((#[trigger] views[k]).0 == o || activities@[views[k].1].id@
                    == activities@[i].id@);
            assert(pairs@[k].0 == views[k].0);
        }
    }
    pairs
}

fn is_taken_id(activities: &Vec<Activity>, pairs: &Vec<(usize, usize)>, id: &String) -> (r: bool)
    requires
        forall|k: int| 0 <= k < pairs@.len() ==> (#[trigger] pairs@[k]).1 < activities@.len(),
    ensures
        r == exists|k: int|
            0 <= k < pairs@.len() && activities@[(#[trigger] pair_views(pairs@)[k]).1].id@ == id@,
{
    let ghost views = pair_views(pairs@);
    for k in 0..pairs.len()
        invariant
            views == pair_views(pairs@),
            forall|k: int| 0 <= k < pairs@.len() ==> (#[trigger] pairs@[k]).1 < activities@.len(),
            forall|j: int| 0 <= j < k ==> activities@[(#[trigger] views[j]).1].id@ != id@,
    {
        assert(views[k as int].1 == pairs@[k as int].1);
        if activities[pairs[k].1].id == *id {
            assert(activities@[views[k as int].1].id@ == id@);
            return true;
        }
    }
    false
}

// ── What holds of the matching ───────────────────────────────────────────────

proof fn lemma_first_open(
    activities: Seq<Activity>,
    pairs: Seq<(int, int)>,
    out: int,
    from: int,
)
    requires
        0 <= from,
    ensures
        match first_open(activities, pairs, out, from) {
            Some(into) => from <= into < activities.len() && is_open(activities, pairs, out, into)
                && forall|j: int| from <= j < into ==> !is_open(activities, pairs, out, j),
            None => forall|j: int|
                from <= j < activities.len() ==> !is_open(activities, pairs, out, j),
        },
    decreases activities.len() - from,
{
    if from < activities.len() && !is_open(activities, pairs, out, from) {
        lemma_first_open(activities, pairs, out, from + 1);
    }
}

/// Whether pairs are transfers among the first activities, in the order of the
/// outflows, each outflow and each inflow in no more than one.
pub open spec fn are_separate_transfers(
    activities: Seq<Activity>,
    pairs: Seq<(int, int)>,
    n: int,
) -> bool {
    &&& forall|k: int|
        0 <= k < pairs.len() ==> 0 <= (#[trigger] pairs[k]).0 < n && 0 <= pairs[k].1
            < activities.len() && is_transfer(activities[pairs[k].0], activities[pairs[k].1])
    &&& forall|j: int, k: int|
        0 <= j < k < pairs.len() ==> (#[trigger] pairs[j]).0 < (#[trigger] pairs[k]).0
            && activities[pairs[j].1].id@ != activities[pairs[k].1].id@
}

/// Every pair is a transfer: between two accounts, of the same amount and
/// currency, no more than a day apart. No outflow and no inflow is in two of
/// them.
pub proof fn law_pairs_are_separate_transfers(activities: Seq<Activity>, n: nat)
    requires
        n <= activities.len(),
    ensures
        are_separate_transfers(activities, pairs_of(activities, n), n as int),
    decreases n,
{
    if n > 0 {
        let before = pairs_of(activities, (n - 1) as nat);
        law_pairs_are_separate_transfers(activities, (n - 1) as nat);
        lemma_first_open(activities, before, n - 1, 0);
        match first_open(activities, before, n - 1, 0) {
            Some(into) => {
                let now = before.push((n - 1, into));
                assert forall|j: int, k: int| 0 <= j < k < now.len() implies (
                #[trigger] now[j]).0 < (#[trigger] now[k]).0 && activities[now[j].1].id@
                    != activities[now[k].1].id@ by {
                    assert(now[j] == before[j]);
                    if k < before.len() {
                        assert(now[k] == before[k]);
                    } else {
                        assert(!is_taken(activities, before, activities[into]));
                    }
                }
                assert forall|k: int| 0 <= k < now.len() implies 0 <= (#[trigger] now[k]).0 < n
                    && 0 <= now[k].1 < activities.len() && is_transfer(
                    activities[now[k].0],
                    activities[now[k].1],
                ) by {
                    if k < before.len() {
                        assert(now[k] == before[k]);
                    }
                }
            },
            None => {},
        }
    }
}

/// No transfer is left over: an outflow that is in no pair has no inflow that
/// would fit it and is in no pair either.
pub proof fn law_no_transfer_is_left_over(
    activities: Seq<Activity>,
    n: nat,
    out: int,
    into: int,
)
    requires
        n <= activities.len(),
        0 <= out < n,
        0 <= into < activities.len(),
        is_transfer(activities[out], activities[into]),
    ensures
        (exists|k: int|
            0 <= k < pairs_of(activities, n).len() && (#[trigger] pairs_of(activities, n)[k]).0
                == out) || is_taken(activities, pairs_of(activities, n), activities[into]),
    decreases n,
{
    let before = pairs_of(activities, (n - 1) as nat);
    let now = pairs_of(activities, n);
    lemma_first_open(activities, before, n - 1, 0);
    if out < n - 1 {
        law_no_transfer_is_left_over(activities, (n - 1) as nat, out, into);
        if is_taken(activities, before, activities[into]) {
            let k = choose|k: int|
                0 <= k < before.len() && activities[(#[trigger] before[k]).1].id@
                    == activities[into].id@;
            assert(now[k] == before[k]);
        } else {
            let k = choose|k: int| 0 <= k < before.len() && (#[trigger] before[k]).0 == out;
            assert(now[k] == before[k]);
        }
    } else {
        match first_open(activities, before, n - 1, 0) {
            Some(found) => {
                assert(now[now.len() - 1].0 == out);
            },
            None => {
                assert(!is_open(activities, before, out, into));
            },
        }
    }
}

/// What is found are the transfers. Each pair is money that leaves one account
/// and as much, in the same currency, that enters another, on the same day or a
/// day apart, neither of them linked before. No activity leaves or enters twice.
/// Where two activities fit and are in no pair together, the one that leaves is
/// in another pair, or the one that enters is; and each pair has the first
/// activity that fits and is still free.
pub proof fn law_transfers_are_found(activities: Seq<Activity>)
    ensures
        ({
            let pairs = pairs_of(activities, activities.len());
            &&& forall|k: int|
                0 <= k < pairs.len() ==> 0 <= (#[trigger] pairs[k]).0 < activities.len() && 0
                    <= pairs[k].1 < activities.len()
                        && activities[pairs[k].0].source_group_id is None
                    && activities[pairs[k].1].source_group_id is None
                    && (activities[pairs[k].0].activity_type@ == "WITHDRAWAL"@
                        || activities[pairs[k].0].activity_type@ == "TRANSFER_OUT"@)
                    && (activities[pairs[k].1].activity_type@ == "DEPOSIT"@
                        || activities[pairs[k].1].activity_type@ == "TRANSFER_IN"@)
                    && activities[pairs[k].0].account_id@ != activities[pairs[k].1].account_id@
                    && activities[pairs[k].0].currency@ == activities[pairs[k].1].currency@
                    && activities[pairs[k].0].amount is Some
                    && activities[pairs[k].1].amount is Some
                    && activities[pairs[k].0].amount->0@ != 0
                    && (activities[pairs[k].0].amount->0@ == activities[pairs[k].1].amount->0@
                        || activities[pairs[k].0].amount->0@ == -activities[pairs[k].1].amount->0@)
                    && -1 <= activities[pairs[k].0].activity_date.seconds as int / 86400 - activities[pairs[k].1].activity_date.seconds as int / 86400 <= 1
            &&& forall|j: int, k: int|
                0 <= j < k < pairs.len() ==> (#[trigger] pairs[j]).0 < (#[trigger] pairs[k]).0
                    && activities[pairs[j].1].id@ != activities[pairs[k].1].id@
            &&& forall|o: int, i: int|
                0 <= o < activities.len() && 0 <= i < activities.len()
                    && (#[trigger] activities[o]).source_group_id is None
                    && (#[trigger] activities[i]).source_group_id is None
                    && (activities[o].activity_type@ == "WITHDRAWAL"@
                        || activities[o].activity_type@ == "TRANSFER_OUT"@)
                    && (activities[i].activity_type@ == "DEPOSIT"@ || activities[i].activity_type@
                        == "TRANSFER_IN"@)
                    && activities[o].account_id@ != activities[i].account_id@
                    && activities[o].currency@ == activities[i].currency@
                    && activities[o].amount is Some
                    && activities[i].amount is Some
                    && activities[o].amount->0@ != 0
                    && (activities[o].amount->0@ == activities[i].amount->0@
                        || activities[o].amount->0@ == -activities[i].amount->0@)
                    && -1 <= activities[o].activity_date.seconds as int / 86400 - activities[i].activity_date.seconds as int / 86400 <= 1
                    ==> exists|k: int|
                    0 <= k < pairs.len() && ((#[trigger] pairs[k]).0 == o
                        || activities[pairs[k].1].id@ == activities[i].id@)
            &&& forall|k: int, i: int|
                0 <= k < pairs.len() && 0 <= i < (#[trigger] pairs[k]).1
                    && activities[pairs[k].0].source_group_id is None
                    && (#[trigger] activities[i]).source_group_id is None
                    && (activities[pairs[k].0].activity_type@ == "WITHDRAWAL"@
                        || activities[pairs[k].0].activity_type@ == "TRANSFER_OUT"@)
                    && (activities[i].activity_type@ == "DEPOSIT"@ || activities[i].activity_type@
                        == "TRANSFER_IN"@)
                    && activities[pairs[k].0].account_id@ != activities[i].account_id@
                    && activities[pairs[k].0].currency@ == activities[i].currency@
                    && activities[pairs[k].0].amount is Some
                    && activities[i].amount is Some
                    && activities[pairs[k].0].amount->0@ != 0
                    && (activities[pairs[k].0].amount->0@ == activities[i].amount->0@
                        || activities[pairs[k].0].amount->0@ == -activities[i].amount->0@)
                    && -1 <= activities[pairs[k].0].activity_date.seconds as int / 86400 - activities[i].activity_date.seconds as int / 86400 <= 1
                    ==> exists|j: int|
                    0 <= j < k && activities[(#[trigger] pairs[j]).1].id@ == activities[i].id@
        }),
{
    let n = activities.len();
    let pairs = pairs_of(activities, n);
    law_pairs_are_separate_transfers(activities, n);
    assert forall|o: int, i: int|
        0 <= o < activities.len() && 0 <= i < activities.len() && is_transfer(
            #[trigger] activities[o],
            #[trigger] activities[i],
        ) implies exists|k: int|
        0 <= k < pairs.len() && ((#[trigger] pairs[k]).0 == o || activities[pairs[k].1].id@
            == activities[i].id@) by {
        law_no_transfer_is_left_over(activities, n, o, i);
    }
    assert forall|k: int, i: int|
        0 <= k < pairs.len() && 0 <= i < (#[trigger] pairs[k]).1 && is_transfer(
            activities[pairs[k].0],
            #[trigger] activities[i],
        ) implies exists|j: int|
        0 <= j < k && activities[(#[trigger] pairs[j]).1].id@ == activities[i].id@ by {
        lemma_pair_is_first_open(activities, n, k, i);
    }
}

/// The other side of a pair is the first that fits and is free.
proof fn lemma_pair_is_first_open(activities: Seq<Activity>, n: nat, k: int, i: int)
    requires
        n <= activities.len(),
        0 <= k < pairs_of(activities, n).len(),
        0 <= i < pairs_of(activities, n)[k].1,
        pairs_of(activities, n)[k].1 < activities.len(),
        is_transfer(activities[pairs_of(activities, n)[k].0], activities[i]),
    ensures
        exists|j: int|
            0 <= j < k && activities[(#[trigger] pairs_of(activities, n)[j]).1].id@
                == activities[i].id@,
    decreases n,
{
    let before = pairs_of(activities, (n - 1) as nat);
    let now = pairs_of(activities, n);
    if k < before.len() {
        assert(now[k] == before[k]);
        lemma_pair_is_first_open(activities, (n - 1) as nat, k, i);
        let j = choose|j: int|
            0 <= j < k && activities[(#[trigger] before[j]).1].id@ == activities[i].id@;
        assert(now[j] == before[j]);
    } else {
        lemma_first_open(activities, before, n - 1, 0);
        assert(!is_open(activities, before, n - 1, i));
        let j = choose|j: int|
            0 <= j < before.len() && activities[(#[trigger] before[j]).1].id@
                == activities[i].id@;
        assert(now[j] == before[j]);
    }
}

// ── Proposing ────────────────────────────────────────────────────────────────

/// Two activities that look like the two sides of a transfer. Nothing changes
/// until the user confirms it.
#[derive(Debug)]
pub struct TransferPairCandidate {
    /// By which the proposal is told from the others.
    pub id: String,
    pub out_activity_id: String,
    pub out_account_id: String,
    pub out_account_name: String,
    pub out_date: String,
    pub in_activity_id: String,
    pub in_account_id: String,
    pub in_account_name: String,
    pub in_date: String,
    /// As a decimal number.
    pub amount: String,
    pub currency: String,
    /// Whether both are of the same day; a day apart, the user has to look
    /// closer.
    pub same_day: bool,
}

/// The name of an account, or its identifier where it has none.
pub open spec fn account_name(accounts: Seq<(String, String)>, id: Seq<char>) -> Seq<char>
    decreases accounts.len(),
{
    if accounts.len() == 0 {
        id
    } else if accounts.last().0@ == id {
        accounts.last().1@
    } else {
        account_name(accounts.drop_last(), id)
    }
}

/// An account is shown by its name, the last that it is given, or by its
/// identifier where it is given none.
pub proof fn law_account_is_shown_by_its_name(accounts: Seq<(String, String)>, id: Seq<char>)
    ensures
        forall|k: int|
            0 <= k < accounts.len() && (#[trigger] accounts[k]).0@ == id && (forall|j: int|
                k < j < accounts.len() ==> (#[trigger] accounts[j]).0@ != id) ==> account_name(
                accounts,
                id,
            ) == accounts[k].1@,
        (forall|k: int| 0 <= k < accounts.len() ==> (#[trigger] accounts[k]).0@ != id)
            ==> account_name(accounts, id) == id,
    decreases accounts.len(),
{
    if accounts.len() > 0 {
        let fewer = accounts.drop_last();
        let last = accounts.len() - 1;
        law_account_is_shown_by_its_name(fewer, id);
        assert(accounts[last] == accounts.last());
        assert forall|k: int|
            0 <= k < accounts.len() && (#[trigger] accounts[k]).0@ == id && (forall|j: int|
                k < j < accounts.len() ==> (#[trigger] accounts[j]).0@ != id) implies account_name(
            accounts,
            id,
        ) == accounts[k].1@ by {
            if k < last {
                assert(accounts[last].0@ != id);
                assert(fewer[k] == accounts[k]);
                assert forall|j: int| k < j < fewer.len()
                    implies (#[trigger] fewer[j]).0@ != id by {
                    assert(accounts[j].0@ != id);
                }
            }
        }
        if forall|k: int| 0 <= k < accounts.len() ==> (#[trigger] accounts[k]).0@ != id {
            assert(accounts[last].0@ != id);
            assert forall|k: int| 0 <= k < fewer.len() implies (#[trigger] fewer[k]).0@ != id by {
                assert(accounts[k].0@ != id);
            }
        }
    }
}

fn find_name(accounts: &Vec<(String, String)>, id: &String) -> (name: String)
    ensures
        name@ == account_name(accounts@, id@),
{
    let mut i: usize = accounts.len();
    assert(accounts@.take(i as int) =~= accounts@);
    while i > 0
        invariant
            i <= accounts@.len(),
            account_name(accounts@, id@) == account_name(accounts@.take(i as int), id@),
        decreases i,
    {
        assert(accounts@.take(i as int).drop_last() =~= accounts@.take(i - 1));
        if accounts[i - 1].0 == *id {
            return accounts[i - 1].1.clone();
        }
        i = i - 1;
    }
    id.clone()
}

/// Whether a proposal is for two activities, with their days written as given.
pub open spec fn is_candidate_for(
    candidate: TransferPairCandidate,
    out: Activity,
    into: Activity,
    accounts: Seq<(String, String)>,
    out_date: Seq<char>,
    in_date: Seq<char>,
) -> bool {
    &&& candidate.out_activity_id@ == out.id@
    &&& candidate.out_account_id@ == out.account_id@
    &&& candidate.out_account_name@ == account_name(accounts, out.account_id@)
    &&& candidate.out_date@ == out_date
    &&& candidate.in_activity_id@ == into.id@
    &&& candidate.in_account_id@ == into.account_id@
    &&& candidate.in_account_name@ == account_name(accounts, into.account_id@)
    &&& candidate.in_date@ == in_date
    &&& candidate.amount@ == decimal_text(out.amount->0)
    &&& candidate.currency@ == out.currency@
    &&& candidate.same_day == (days_between(out, into) == 0)
}

/// The proposal for two activities.
pub fn propose(
    id: String,
    out: &Activity,
    into: &Activity,
    accounts: &Vec<(String, String)>,
    out_date: String,
    in_date: String,
) -> (candidate: TransferPairCandidate)
    requires
        is_transfer(*out, *into),
    ensures
        candidate.id == id,
        is_candidate_for(candidate, *out, *into, accounts@, out_date@, in_date@),
        candidate.out_activity_id@ == out.id@,
        candidate.out_account_id@ == out.account_id@,
        candidate.out_date@ == out_date@,
        candidate.in_activity_id@ == into.id@,
        candidate.in_account_id@ == into.account_id@,
        candidate.in_date@ == in_date@,
        candidate.amount@ == decimal_text(out.amount->0),
        candidate.currency@ == out.currency@,
        candidate.same_day <==> out.activity_date.seconds as int / 86400
            == into.activity_date.seconds as int / 86400,
{
    let amount = match out.amount {
        Some(amount) => print_decimal(amount),
        None => String::new(),
    };
    TransferPairCandidate {
        id,
        out_activity_id: out.id.clone(),
        out_account_id: out.account_id.clone(),
        out_account_name: find_name(accounts, &out.account_id),
        out_date,
        in_activity_id: into.id.clone(),
        in_account_id: into.account_id.clone(),
        in_account_name: find_name(accounts, &into.account_id),
        in_date,
        amount,
        currency: out.currency.clone(),
        same_day: out.activity_date.day() == into.activity_date.day(),
    }
}

/// The text of the day of an activity.
pub open spec fn activity_day(activity: Activity) -> Option<Seq<char>> {
    date_text(activity.activity_date.seconds, activity.activity_date.nanos)
}

/// Whether the days of both sides of each pair can be written.
pub open spec fn have_days(activities: Seq<Activity>, pairs: Seq<(int, int)>) -> bool {
    forall|k: int|
        0 <= k < pairs.len() ==> activity_day(activities[(#[trigger] pairs[k]).0]) is Some
            && activity_day(activities[pairs[k].1]) is Some
}

/// Whether a proposal is for two activities that are the two sides of a
/// transfer, and tells them as they are recorded.
pub open spec fn is_proposed(
    activities: Seq<Activity>,
    candidate: TransferPairCandidate,
    o: int,
    i: int,
) -> bool {
    let out = activities[o];
    let into = activities[i];
    &&& 0 <= o < activities.len()
    &&& 0 <= i < activities.len()
    &&& out.source_group_id is None
    &&& into.source_group_id is None
    &&& (out.activity_type@ == "WITHDRAWAL"@ || out.activity_type@ == "TRANSFER_OUT"@)
    &&& (into.activity_type@ == "DEPOSIT"@ || into.activity_type@ == "TRANSFER_IN"@)
    &&& out.account_id@ != into.account_id@
    &&& out.currency@ == into.currency@
    &&& out.amount is Some
    &&& into.amount is Some
    &&& out.amount->0@ != 0
    &&& (out.amount->0@ == into.amount->0@ || out.amount->0@ == -into.amount->0@)
    &&& -1 <= out.activity_date.seconds as int / 86400 - into.activity_date.seconds as int / 86400
        <= 1
    &&& candidate.out_activity_id@ == out.id@
    &&& candidate.in_activity_id@ == into.id@
    &&& candidate.out_account_id@ == out.account_id@
    &&& candidate.in_account_id@ == into.account_id@
    &&& candidate.currency@ == out.currency@
    &&& candidate.amount@ == decimal_text(out.amount->0)
    &&& date_text(out.activity_date.seconds, out.activity_date.nanos) == Some(candidate.out_date@)
    &&& date_text(into.activity_date.seconds, into.activity_date.nanos) == Some(candidate.in_date@)
    &&& candidate.same_day == (out.activity_date.seconds as int / 86400
        == into.activity_date.seconds as int / 86400)
}

/// Whether a proposal is for two of the activities.
pub open spec fn is_some_transfer(
    activities: Seq<Activity>,
    candidate: TransferPairCandidate,
) -> bool {
    exists|o: int, i: int| is_proposed(activities, candidate, o, i)
}

proof fn lemma_candidates_are_transfers(
    activities: Seq<Activity>,
    accounts: Seq<(String, String)>,
    pairs: Seq<(int, int)>,
    candidates: Seq<TransferPairCandidate>,
)
    requires
        pairs == pairs_of(activities, activities.len()),
        have_days(activities, pairs),
        candidates.len() == pairs.len(),
        forall|k: int|
            0 <= k < pairs.len() ==> is_candidate_for(
                #[trigger] candidates[k],
                activities[pairs[k].0],
                activities[pairs[k].1],
                accounts,
                activity_day(activities[pairs[k].0])->0,
                activity_day(activities[pairs[k].1])->0,
            ),
    ensures
        forall|k: int|
            0 <= k < candidates.len() ==> is_some_transfer(activities, #[trigger] candidates[k]),
        forall|j: int, k: int|
            0 <= j < k < candidates.len() ==> (#[trigger] candidates[j]).in_activity_id@ != (
            #[trigger] candidates[k]).in_activity_id@,
        forall|o: int, i: int|
            0 <= o < activities.len() && 0 <= i < activities.len()
                && (#[trigger] activities[o]).source_group_id is None
                && (#[trigger] activities[i]).source_group_id is None
                && (activities[o].activity_type@ == "WITHDRAWAL"@ || activities[o].activity_type@
                    == "TRANSFER_OUT"@)
                && (activities[i].activity_type@ == "DEPOSIT"@ || activities[i].activity_type@
                    == "TRANSFER_IN"@)
                && activities[o].account_id@ != activities[i].account_id@
                && activities[o].currency@ == activities[i].currency@
                && activities[o].amount is Some
                && activities[i].amount is Some
                && activities[o].amount->0@ != 0
                && (activities[o].amount->0@ == activities[i].amount->0@
                    || activities[o].amount->0@ == -activities[i].amount->0@)
                && -1 <= activities[o].activity_date.seconds as int / 86400 - activities[i].activity_date.seconds as int / 86400 <= 1 ==> exists|k: int|
                0 <= k < candidates.len() && ((#[trigger] candidates[k]).out_activity_id@
                    == activities[o].id@ || candidates[k].in_activity_id@ == activities[i].id@),
{
    law_pairs_are_separate_transfers(activities, activities.len());
    assert forall|k: int| 0 <= k < candidates.len() implies is_proposed(
        activities,
        #[trigger] candidates[k],
        pairs[k].0,
        pairs[k].1,
    ) by {
        assert(is_transfer(activities[pairs[k].0], activities[pairs[k].1]));
        assert(activity_day(activities[pairs[k].0]) is Some);
    }
    assert forall|j: int, k: int| 0 <= j < k < candidates.len() implies (
    #[trigger] candidates[j]).in_activity_id@ != (#[trigger] candidates[k]).in_activity_id@ by {
        assert(pairs[j].0 < pairs[k].0);
    }
    assert forall|o: int, i: int|
        0 <= o < activities.len() && 0 <= i < activities.len() && is_transfer(
            #[trigger] activities[o],
            #[trigger] activities[i],
        ) implies exists|k: int|
        0 <= k < candidates.len() && ((#[trigger] candidates[k]).out_activity_id@
            == activities[o].id@ || candidates[k].in_activity_id@ == activities[i].id@) by {
        law_no_transfer_is_left_over(activities, activities.len(), o, i);
        let k = choose|k: int|
            0 <= k < pairs.len() && ((#[trigger] pairs[k]).0 == o || activities[pairs[k].1].id@
                == activities[i].id@);
        assert(is_proposed(activities, candidates[k], pairs[k].0, pairs[k].1));
    }
}

/// Proposals for all that looks like a transfer. `None` where a day is not in
/// the calendar.
pub fn find_transfer_pairs(activities: &Vec<Activity>, accounts: &Vec<(String, String)>) -> (found:
    Option<Vec<TransferPairCandidate>>)
    ensures
        found is Some <==> have_days(activities@, pairs_of(activities@, activities@.len())),
        found matches Some(candidates) ==> {
            let pairs = pairs_of(activities@, activities@.len());
            &&& candidates@.len() == pairs.len()
            &&& forall|k: int|
                0 <= k < pairs.len() ==> is_candidate_for(
                    #[trigger] candidates@[k],
                    activities@[pairs[k].0],
                    activities@[pairs[k].1],
                    accounts@,
                    activity_day(activities@[pairs[k].0])->0,
                    activity_day(activities@[pairs[k].1])->0,
                )
        },
        found matches Some(candidates) ==> forall|k: int|
            0 <= k < candidates@.len() ==> is_some_transfer(
                activities@,
                #[trigger] candidates@[k],
            ),
        found matches Some(candidates) ==> forall|j: int, k: int|
            0 <= j < k < candidates@.len() ==> (#[trigger] candidates@[j]).in_activity_id@ != (
            #[trigger] candidates@[k]).in_activity_id@,
        found matches Some(candidates) ==> forall|o: int, i: int|
            0 <= o < activities@.len() && 0 <= i < activities@.len()
                && (#[trigger] activities@[o]).source_group_id is None
                && (#[trigger] activities@[i]).source_group_id is None
                && (activities@[o].activity_type@ == "WITHDRAWAL"@ || activities@[o].activity_type@
                    == "TRANSFER_OUT"@)
                && (activities@[i].activity_type@ == "DEPOSIT"@ || activities@[i].activity_type@
                    == "TRANSFER_IN"@)
                && activities@[o].account_id@ != activities@[i].account_id@
                && activities@[o].currency@ == activities@[i].currency@
                && activities@[o].amount is Some
                && activities@[i].amount is Some
                && activities@[o].amount->0@ != 0
                && (activities@[o].amount->0@ == activities@[i].amount->0@
                    || activities@[o].amount->0@ == -activities@[i].amount->0@)
                && -1 <= activities@[o].activity_date.seconds as int / 86400 - activities@[i].activity_date.seconds as int / 86400 <= 1 ==> exists|k: int|
                0 <= k < candidates@.len() && ((#[trigger] candidates@[k]).out_activity_id@
                    == activities@[o].id@ || candidates@[k].in_activity_id@ == activities@[i].id@),
{
    let pairs = find_pairs(activities);
    let ghost views = pair_views(pairs@);
    let mut candidates: Vec<TransferPairCandidate> = Vec::new();
    for k in 0..pairs.len()
        invariant
            views == pair_views(pairs@),
            views == pairs_of(activities@, activities@.len()),
            forall|j: int|
                0 <= j < pairs@.len() ==> (#[trigger] pairs@[j]).0 < activities@.len()
                    && pairs@[j].1 < activities@.len() && is_transfer(
                    activities@[pairs@[j].0 as int],
                    activities@[pairs@[j].1 as int],
                ),
            candidates@.len() == k,
            forall|j: int|
                0 <= j < k ==> activity_day(activities@[(#[trigger] views[j]).0]) is Some
                    && activity_day(activities@[views[j].1]) is Some,
            forall|j: int|
                0 <= j < k ==> is_candidate_for(
                    #[trigger] candidates@[j],
                    activities@[views[j].0],
                    activities@[views[j].1],
                    accounts@,
                    activity_day(activities@[views[j].0])->0,
                    activity_day(activities@[views[j].1])->0,
                ),
    {
        assert(views[k as int] == (pairs@[k as int].0 as int, pairs@[k as int].1 as int));
        let out = &activities[pairs[k].0];
        let into = &activities[pairs[k].1];
        match (print_date(out.activity_date), print_date(into.activity_date)) {
            (Some(out_date), Some(in_date)) => {
                candidates.push(propose(new_id(), out, into, accounts, out_date, in_date));
            },
            _ => {
                assert(!have_days(activities@, views)) by {
                    assert(activity_day(activities@[views[k as int].0]) is None || activity_day(
                        activities@[views[k as int].1],
                    ) is None);
                }
                return None;
            },
        }
    }
    proof {
        lemma_candidates_are_transfers(activities@, accounts@, views, candidates@);
    }
    Some(candidates)
}

// ── Linking ──────────────────────────────────────────────────────────────────

/// A pair that the user confirmed.
#[derive(Debug)]
pub struct TransferPairSelection {
    pub out_activity_id: String,
    pub in_activity_id: String,
}

/// What came of linking pairs.
#[derive(Debug)]
pub struct ApplyTransferPairsResult {
    pub pairs_linked: usize,
}

/// An activity to be created.
#[derive(Debug)]
pub struct NewActivity {
    pub id: Option<String>,
    pub account_id: String,
    pub symbol: Option<String>,
    pub activity_type: String,
    pub subtype: Option<String>,
    pub activity_date: String,
    pub quantity: Option<Decimal>,
    pub unit_price: Option<Decimal>,
    pub currency: String,
    pub fee: Option<Decimal>,
    pub amount: Option<Decimal>,
    pub status: Option<String>,
    pub notes: Option<String>,
    pub fx_rate: Option<Decimal>,
    pub metadata: Option<String>,
    pub needs_review: Option<bool>,
    pub source_system: Option<String>,
    pub source_record_id: Option<String>,
    pub source_group_id: Option<String>,
    pub idempotency_key: Option<String>,
}

/// Whether an activity to be created is a recorded one, with another type, in a
/// group.
pub open spec fn is_copy_as(
    copy: NewActivity,
    activity: Activity,
    new_type: Seq<char>,
    group_id: Seq<char>,
    date: Seq<char>,
) -> bool {
    &&& copy.id is None
    &&& copy.account_id@ == activity.account_id@
    &&& copy.symbol is None
    &&& copy.activity_type@ == new_type
    &&& optional_text(copy.subtype) == optional_text(activity.subtype)
    &&& copy.activity_date@ == date
    &&& copy.quantity == activity.quantity
    &&& copy.unit_price == activity.unit_price
    &&& copy.currency@ == activity.currency@
    &&& copy.fee == activity.fee
    &&& copy.amount == activity.amount
    &&& optional_text(copy.status) == Some(activity.status@)
    &&& optional_text(copy.notes) == optional_text(activity.notes)
    &&& copy.fx_rate == activity.fx_rate
    &&& optional_text(copy.metadata) == optional_text(activity.metadata)
    &&& copy.needs_review == Some(activity.needs_review)
    &&& optional_text(copy.source_system) == optional_text(activity.source_system)
    &&& optional_text(copy.source_record_id) == optional_text(activity.source_record_id)
    &&& optional_text(copy.source_group_id) == Some(group_id)
    &&& copy.idempotency_key is None
}

/// A recorded activity as one to be created, changing only its type and its
/// group, its moment written as given.
pub fn transfer_from(activity: &Activity, new_type: &str, group_id: &String, date: String) -> (copy:
    NewActivity)
    ensures
        is_copy_as(copy, *activity, new_type@, group_id@, date@),
        copy.account_id@ == activity.account_id@,
        copy.currency@ == activity.currency@,
        copy.amount == activity.amount,
        copy.quantity == activity.quantity,
        copy.unit_price == activity.unit_price,
        copy.fee == activity.fee,
        copy.fx_rate == activity.fx_rate,
        (copy.status matches Some(status) && status@ == activity.status@),
        copy.needs_review == Some(activity.needs_review),
        copy.subtype is Some == activity.subtype is Some,
        (copy.subtype matches Some(copied) ==> copied@ == activity.subtype->0@),
        copy.notes is Some == activity.notes is Some,
        (copy.notes matches Some(copied) ==> copied@ == activity.notes->0@),
        copy.metadata is Some == activity.metadata is Some,
        (copy.metadata matches Some(copied) ==> copied@ == activity.metadata->0@),
        copy.source_system is Some == activity.source_system is Some,
        (copy.source_system matches Some(copied) ==> copied@ == activity.source_system->0@),
        copy.source_record_id is Some == activity.source_record_id is Some,
        (copy.source_record_id matches Some(copied) ==> copied@ == activity.source_record_id->0@),
        copy.activity_type@ == new_type@,
        copy.activity_date@ == date@,
        copy.source_group_id matches Some(group) && group@ == group_id@,
{
    NewActivity {
        id: None,
        account_id: activity.account_id.clone(),
        symbol: None,
        activity_type: new_type.to_owned(),
        subtype: copy_text(&activity.subtype),
        activity_date: date,
        quantity: activity.quantity,
        unit_price: activity.unit_price,
        currency: activity.currency.clone(),
        fee: activity.fee,
        amount: activity.amount,
        status: Some(activity.status.clone()),
        notes: copy_text(&activity.notes),
        fx_rate: activity.fx_rate,
        metadata: copy_text(&activity.metadata),
        needs_review: Some(activity.needs_review),
        source_system: copy_text(&activity.source_system),
        source_record_id: copy_text(&activity.source_record_id),
        source_group_id: Some(group_id.clone()),
        idempotency_key: None,
    }
}

/// The text of the moment of an activity.
pub open spec fn activity_moment(activity: Activity) -> Option<Seq<char>> {
    rfc3339_text(activity.activity_date.seconds, activity.activity_date.nanos)
}

/// A recorded activity as one to be created, changing only its type and its
/// group. `None` where its moment is not in the calendar.
pub fn activity_as_transfer(activity: &Activity, new_type: &str,
    group_id: &String) -> (copy: Option<
    NewActivity,
>)
    ensures
        copy is Some <==> activity_moment(*activity) is Some,
        copy matches Some(found) ==> is_copy_as(
            found,
            *activity,
            new_type@,
            group_id@,
            activity_moment(*activity)->0,
        ),
{
    match print_rfc3339(activity.activity_date) {
        Some(date) => Some(transfer_from(activity, new_type, group_id, date)),
        None => None,
    }
}

/// The recorded activity with an identifier, the last of them where there are
/// more.
pub open spec fn activity_with(activities: Seq<Activity>, id: Seq<char>) -> Option<Activity>
    decreases activities.len(),
{
    if activities.len() == 0 {
        None
    } else if activities.last().id@ == id {
        Some(activities.last())
    } else {
        activity_with(activities.drop_last(), id)
    }
}

/// The activity that is found has the identifier, and none behind it has; none
/// is found only where none has it.
proof fn lemma_activity_with(activities: Seq<Activity>, id: Seq<char>)
    ensures
        match activity_with(activities, id) {
            Some(activity) => exists|i: int|
                0 <= i < activities.len() && (#[trigger] activities[i]) == activity && activity.id@
                    == id && (forall|k: int|
                    i < k < activities.len() ==> (#[trigger] activities[k]).id@ != id),
            None => forall|k: int|
                0 <= k < activities.len() ==> (#[trigger] activities[k]).id@ != id,
        },
    decreases activities.len(),
{
    if activities.len() > 0 {
        let fewer = activities.drop_last();
        let last = activities.len() - 1;
        if activities[last].id@ == id {
            assert(activities[last] == activities.last());
        } else {
            lemma_activity_with(fewer, id);
            match activity_with(fewer, id) {
                Some(activity) => {
                    let i = choose|i: int|
                        0 <= i < fewer.len() && (#[trigger] fewer[i]) == activity && activity.id@
                            == id && (forall|k: int|
                            i < k < fewer.len() ==> (#[trigger] fewer[k]).id@ != id);
                    assert(activities[i] == activity);
                    assert forall|k: int| i < k < activities.len() implies (
                    #[trigger] activities[k]).id@ != id by {
                        if k < last {
                            assert(fewer[k] == activities[k]);
                        }
                    }
                },
                None => {
                    assert forall|k: int| 0 <= k < activities.len() implies (
                    #[trigger] activities[k]).id@ != id by {
                        if k < last {
                            assert(fewer[k] == activities[k]);
                        }
                    }
                },
            }
        }
    }
}

fn find_activity<'a>(activities: &'a Vec<Activity>, id: &String) -> (activity: Option<&'a Activity>)
    ensures
        match activity {
            Some(found) => activity_with(activities@, id@) == Some(*found),
            None => activity_with(activities@, id@) is None,
        },
{
    let mut i: usize = activities.len();
    assert(activities@.take(i as int) =~= activities@);
    while i > 0
        invariant
            i <= activities@.len(),
            activity_with(activities@, id@) == activity_with(activities@.take(i as int), id@),
        decreases i,
    {
        assert(activities@.take(i as int).drop_last() =~= activities@.take(i - 1));
        if activities[i - 1].id == *id {
            return Some(&activities[i - 1]);
        }
        i = i - 1;
    }
    None
}

/// What replaces one side of a transfer: an activity to be created, and the
/// recorded one to be deleted.
#[derive(Debug)]
pub struct SideReplacement {
    pub create: NewActivity,
    pub delete_id: String,
}

/// What replaces both sides of a transfer. The two belong to different accounts,
/// so each is a change of its own.
#[derive(Debug)]
pub struct PairReplacement {
    pub out_side: SideReplacement,
    pub in_side: SideReplacement,
}

/// Whether a side is replaced by a copy of another type in a group.
pub open spec fn is_replaced_by(
    side: SideReplacement,
    activity: Activity,
    new_type: Seq<char>,
    group_id: Seq<char>,
) -> bool {
    &&& activity_moment(activity) is Some
    &&& is_copy_as(side.create, activity, new_type, group_id, activity_moment(activity)->0)
    &&& side.delete_id@ == activity.id@
}

/// The message that an activity is not there.
pub open spec fn missing_message(id: Seq<char>) -> Seq<char> {
    "Activity not found: "@ + id
}

/// What links a pair: each side is replaced by a transfer of the same group.
/// `None` where a moment is not in the calendar.
pub fn link_pair(activities: &Vec<Activity>, pair: &TransferPairSelection, group_id: &String) -> (
linked: Option<Result<PairReplacement, String>>)
    ensures
        match (
            activity_with(activities@, pair.out_activity_id@),
            activity_with(activities@, pair.in_activity_id@),
        ) {
            (None, _) => linked matches Some(Err(message)) && message@ == missing_message(
                pair.out_activity_id@,
            ),
            (Some(_), None) => linked matches Some(Err(message)) && message@ == missing_message(
                pair.in_activity_id@,
            ),
            (Some(out), Some(into)) => match linked {
                Some(Ok(replacement)) => is_replaced_by(
                    replacement.out_side,
                    out,
                    "TRANSFER_OUT"@,
                    group_id@,
                ) && is_replaced_by(replacement.in_side, into, "TRANSFER_IN"@, group_id@),
                Some(Err(_)) => false,
                None => activity_moment(out) is None || activity_moment(into) is None,
            },
        },
        linked matches Some(Ok(replacement)) ==> {
            &&& exists|o: int|
                0 <= o < activities@.len() && (#[trigger] activities@[o]).id@
                    == pair.out_activity_id@ && (forall|k: int|
                    o < k < activities@.len() ==> (#[trigger] activities@[k]).id@
                        != pair.out_activity_id@) && replacement.out_side.delete_id@
                            == activities@[o].id@
                    && replacement.out_side.create.account_id@ == activities@[o].account_id@
                    && replacement.out_side.create.currency@ == activities@[o].currency@
                    && replacement.out_side.create.amount == activities@[o].amount
                    && replacement.out_side.create.quantity == activities@[o].quantity
                    && replacement.out_side.create.unit_price == activities@[o].unit_price
                    && replacement.out_side.create.fee == activities@[o].fee
                    && replacement.out_side.create.fx_rate == activities@[o].fx_rate
                    && (replacement.out_side.create.status matches Some(status) && status@
                        == activities@[o].status@)
                    && replacement.out_side.create.needs_review == Some(activities@[o].needs_review)
                    && replacement.out_side.create.subtype is Some == activities@[o].subtype is Some
                    && (replacement.out_side.create.subtype matches Some(copied) ==> copied@
                        == activities@[o].subtype->0@)
                    && replacement.out_side.create.notes is Some == activities@[o].notes is Some
                    && (replacement.out_side.create.notes matches Some(copied) ==> copied@
                        == activities@[o].notes->0@)
                    && replacement.out_side.create.metadata is Some
                        == activities@[o].metadata is Some
                    && (replacement.out_side.create.metadata matches Some(copied) ==> copied@
                        == activities@[o].metadata->0@)
                    && replacement.out_side.create.source_system is Some
                        == activities@[o].source_system is Some
                    && (replacement.out_side.create.source_system matches Some(copied) ==> copied@
                        == activities@[o].source_system->0@)
                    && replacement.out_side.create.source_record_id is Some
                        == activities@[o].source_record_id is Some
                    && (replacement.out_side.create.source_record_id matches Some(copied)
                        ==> copied@ == activities@[o].source_record_id->0@)
                    && replacement.out_side.create.activity_type@ == "TRANSFER_OUT"@
                    && (replacement.out_side.create.source_group_id matches Some(group) && group@
                        == group_id@)
                    && rfc3339_text(activities@[o].activity_date.seconds,
                        activities@[o].activity_date.nanos)
                        == Some(replacement.out_side.create.activity_date@)
            &&& exists|i: int|
                0 <= i < activities@.len() && (#[trigger] activities@[i]).id@
                    == pair.in_activity_id@ && (forall|k: int|
                    i < k < activities@.len() ==> (#[trigger] activities@[k]).id@
                        != pair.in_activity_id@) && replacement.in_side.delete_id@
                            == activities@[i].id@
                    && replacement.in_side.create.account_id@ == activities@[i].account_id@
                    && replacement.in_side.create.currency@ == activities@[i].currency@
                    && replacement.in_side.create.amount == activities@[i].amount
                    && replacement.in_side.create.quantity == activities@[i].quantity
                    && replacement.in_side.create.unit_price == activities@[i].unit_price
                    && replacement.in_side.create.fee == activities@[i].fee
                    && replacement.in_side.create.fx_rate == activities@[i].fx_rate
                    && (replacement.in_side.create.status matches Some(status) && status@
                        == activities@[i].status@)
                    && replacement.in_side.create.needs_review == Some(activities@[i].needs_review)
                    && replacement.in_side.create.subtype is Some == activities@[i].subtype is Some
                    && (replacement.in_side.create.subtype matches Some(copied) ==> copied@
                        == activities@[i].subtype->0@)
                    && replacement.in_side.create.notes is Some == activities@[i].notes is Some
                    && (replacement.in_side.create.notes matches Some(copied) ==> copied@
                        == activities@[i].notes->0@)
                    && replacement.in_side.create.metadata is Some
                        == activities@[i].metadata is Some
                    && (replacement.in_side.create.metadata matches Some(copied) ==> copied@
                        == activities@[i].metadata->0@)
                    && replacement.in_side.create.source_system is Some
                        == activities@[i].source_system is Some
                    && (replacement.in_side.create.source_system matches Some(copied) ==> copied@
                        == activities@[i].source_system->0@)
                    && replacement.in_side.create.source_record_id is Some
                        == activities@[i].source_record_id is Some
                    && (replacement.in_side.create.source_record_id matches Some(copied)
                        ==> copied@ == activities@[i].source_record_id->0@)
                    && replacement.in_side.create.activity_type@ == "TRANSFER_IN"@
                    && (replacement.in_side.create.source_group_id matches Some(group) && group@
                        == group_id@)
                    && rfc3339_text(activities@[i].activity_date.seconds,
                        activities@[i].activity_date.nanos)
                        == Some(replacement.in_side.create.activity_date@)
        },
        linked matches Some(Err(message)) ==> {
            ||| (forall|k: int|
                0 <= k < activities@.len() ==> (#[trigger] activities@[k]).id@
                    != pair.out_activity_id@) && message@ == "Activity not found: "@
                + pair.out_activity_id@
            ||| (forall|k: int|
                0 <= k < activities@.len() ==> (#[trigger] activities@[k]).id@
                    != pair.in_activity_id@) && message@ == "Activity not found: "@
                + pair.in_activity_id@
        },
{
    proof {
        lemma_activity_with(activities@, pair.out_activity_id@);
        lemma_activity_with(activities@, pair.in_activity_id@);
    }
    let out = match find_activity(activities, &pair.out_activity_id) {
        Some(out) => out,
        None => {
            return Some(Err(chain("Activity not found: ", pair.out_activity_id.as_str())));
        },
    };
    let into = match find_activity(activities, &pair.in_activity_id) {
        Some(into) => into,
        None => {
            return Some(Err(chain("Activity not found: ", pair.in_activity_id.as_str())));
        },
    };
    let out_copy = activity_as_transfer(out, "TRANSFER_OUT", group_id);
    let in_copy = activity_as_transfer(into, "TRANSFER_IN", group_id);
    match (out_copy, in_copy) {
        (Some(out_copy), Some(in_copy)) => Some(
            Ok(
                PairReplacement {
                    out_side: SideReplacement { create: out_copy, delete_id: out.id.clone() },
                    in_side: SideReplacement { create: in_copy, delete_id: into.id.clone() },
                },
            ),
        ),
        _ => None,
    }
}

/// What links a pair, under a group of its own.
pub fn link_pair_in_new_group(activities: &Vec<Activity>, pair: &TransferPairSelection) -> (linked:
    Option<Result<PairReplacement, String>>)
    ensures
        match (
            activity_with(activities@, pair.out_activity_id@),
            activity_with(activities@, pair.in_activity_id@),
        ) {
            (None, _) => linked matches Some(Err(message)) && message@ == missing_message(
                pair.out_activity_id@,
            ),
            (Some(_), None) => linked matches Some(Err(message)) && message@ == missing_message(
                pair.in_activity_id@,
            ),
            (Some(out), Some(into)) => match linked {
                Some(Ok(replacement)) => exists|group_id: Seq<char>|
                    is_replaced_by(replacement.out_side, out, "TRANSFER_OUT"@, group_id)
                        && is_replaced_by(replacement.in_side, into, "TRANSFER_IN"@, group_id),
                Some(Err(_)) => false,
                None => activity_moment(out) is None || activity_moment(into) is None,
            },
        },
        linked matches Some(Ok(replacement)) ==> {
            &&& exists|o: int|
                0 <= o < activities@.len() && (#[trigger] activities@[o]).id@
                    == pair.out_activity_id@ && (forall|k: int|
                    o < k < activities@.len() ==> (#[trigger] activities@[k]).id@
                        != pair.out_activity_id@) && replacement.out_side.delete_id@
                            == activities@[o].id@
                    && replacement.out_side.create.account_id@ == activities@[o].account_id@
                    && replacement.out_side.create.currency@ == activities@[o].currency@
                    && replacement.out_side.create.amount == activities@[o].amount
                    && replacement.out_side.create.quantity == activities@[o].quantity
                    && replacement.out_side.create.unit_price == activities@[o].unit_price
                    && replacement.out_side.create.fee == activities@[o].fee
                    && replacement.out_side.create.fx_rate == activities@[o].fx_rate
                    && (replacement.out_side.create.status matches Some(status) && status@
                        == activities@[o].status@)
                    && replacement.out_side.create.needs_review == Some(activities@[o].needs_review)
                    && replacement.out_side.create.subtype is Some == activities@[o].subtype is Some
                    && (replacement.out_side.create.subtype matches Some(copied) ==> copied@
                        == activities@[o].subtype->0@)
                    && replacement.out_side.create.notes is Some == activities@[o].notes is Some
                    && (replacement.out_side.create.notes matches Some(copied) ==> copied@
                        == activities@[o].notes->0@)
                    && replacement.out_side.create.metadata is Some
                        == activities@[o].metadata is Some
                    && (replacement.out_side.create.metadata matches Some(copied) ==> copied@
                        == activities@[o].metadata->0@)
                    && replacement.out_side.create.source_system is Some
                        == activities@[o].source_system is Some
                    && (replacement.out_side.create.source_system matches Some(copied) ==> copied@
                        == activities@[o].source_system->0@)
                    && replacement.out_side.create.source_record_id is Some
                        == activities@[o].source_record_id is Some
                    && (replacement.out_side.create.source_record_id matches Some(copied)
                        ==> copied@ == activities@[o].source_record_id->0@)
                    && replacement.out_side.create.activity_type@ == "TRANSFER_OUT"@
                    && replacement.out_side.create.source_group_id is Some
                    && rfc3339_text(activities@[o].activity_date.seconds,
                        activities@[o].activity_date.nanos)
                        == Some(replacement.out_side.create.activity_date@)
            &&& exists|i: int|
                0 <= i < activities@.len() && (#[trigger] activities@[i]).id@
                    == pair.in_activity_id@ && (forall|k: int|
                    i < k < activities@.len() ==> (#[trigger] activities@[k]).id@
                        != pair.in_activity_id@) && replacement.in_side.delete_id@
                            == activities@[i].id@
                    && replacement.in_side.create.account_id@ == activities@[i].account_id@
                    && replacement.in_side.create.currency@ == activities@[i].currency@
                    && replacement.in_side.create.amount == activities@[i].amount
                    && replacement.in_side.create.quantity == activities@[i].quantity
                    && replacement.in_side.create.unit_price == activities@[i].unit_price
                    && replacement.in_side.create.fee == activities@[i].fee
                    && replacement.in_side.create.fx_rate == activities@[i].fx_rate
                    && (replacement.in_side.create.status matches Some(status) && status@
                        == activities@[i].status@)
                    && replacement.in_side.create.needs_review == Some(activities@[i].needs_review)
                    && replacement.in_side.create.subtype is Some == activities@[i].subtype is Some
                    && (replacement.in_side.create.subtype matches Some(copied) ==> copied@
                        == activities@[i].subtype->0@)
                    && replacement.in_side.create.notes is Some == activities@[i].notes is Some
                    && (replacement.in_side.create.notes matches Some(copied) ==> copied@
                        == activities@[i].notes->0@)
                    && replacement.in_side.create.metadata is Some
                        == activities@[i].metadata is Some
                    && (replacement.in_side.create.metadata matches Some(copied) ==> copied@
                        == activities@[i].metadata->0@)
                    && replacement.in_side.create.source_system is Some
                        == activities@[i].source_system is Some
                    && (replacement.in_side.create.source_system matches Some(copied) ==> copied@
                        == activities@[i].source_system->0@)
                    && replacement.in_side.create.source_record_id is Some
                        == activities@[i].source_record_id is Some
                    && (replacement.in_side.create.source_record_id matches Some(copied)
                        ==> copied@ == activities@[i].source_record_id->0@)
                    && replacement.in_side.create.activity_type@ == "TRANSFER_IN"@
                    && replacement.in_side.create.source_group_id is Some
                    && rfc3339_text(activities@[i].activity_date.seconds,
                        activities@[i].activity_date.nanos)
                        == Some(replacement.in_side.create.activity_date@)
        },
        linked matches Some(Err(message)) ==> {
            ||| (forall|k: int|
                0 <= k < activities@.len() ==> (#[trigger] activities@[k]).id@
                    != pair.out_activity_id@) && message@ == "Activity not found: "@
                + pair.out_activity_id@
            ||| (forall|k: int|
                0 <= k < activities@.len() ==> (#[trigger] activities@[k]).id@
                    != pair.in_activity_id@) && message@ == "Activity not found: "@
                + pair.in_activity_id@
        },
        linked matches Some(Ok(replacement)) ==> replacement.out_side.create.source_group_id->0@
            == replacement.in_side.create.source_group_id->0@,
{
    let group_id = new_id();
    link_pair(activities, pair, &group_id)
}

/// What to tell the user of the replacement of a side, from the errors it
/// brought: the first of them.
pub fn side_outcome(side: &str, errors: &Vec<String>) -> (outcome: Result<(), String>)
    ensures
        match outcome {
            Ok(_) => errors@.len() == 0,
            Err(message) => errors@.len() > 0 && message@ == "Failed to apply "@ + side@
                + " side: "@ + errors@[0]@,
        },
{
    if errors.len() == 0 {
        Ok(())
    } else {
        let start = chain(chain("Failed to apply ", side).as_str(), " side: ");
        Err(chain(start.as_str(), errors[0].as_str()))
    }
}

} // verus!
