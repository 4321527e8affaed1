//! What holds of the worksheet's arithmetic as a whole.

use crate::collect::{all_of, lemma_kept};
use crate::listing::{is_ascending, lemma_listing_exists, listing};
use crate::text::text_below;
use crate::decimal::{
    exact_total, is_exact_total, lemma_exact_total_step, lemma_unit_positive, total, unit, Decimal,
};
use crate::worksheet_calculator::{
    amounts_for, amounts_of_intents, available_funding, capped_amounts, carriers, funding_scaled,
    has_entry, increase_amounts, intent_of, is_carrier, is_combination, is_combined_entry,
    is_exact_entry, is_exact_gap, is_exact_share, is_exposed, is_permitted, limited, line_of,
    lines_of, name_of_category, proceeds_funded_amounts, split_of, spread_of, turnover_scaled,
    usable_price, values_in, CategoryTarget, DraftIncrease, DraftReduction, IntentView, LimitsInput,
    SecurityInput,
};
use crate::worksheet_model::{
    AllocationTargetConstraint, ConstraintEffect, UnresolvedCategoryAmountView, WorksheetDirection,
};
use crate::worksheet_service::{
    asset_with, blocks, contributed_assets, is_candidate, securities_of, security_of,
    SecurityInputView, WorksheetRecords,
};
use vstd::prelude::*;

verus! {

/// Whether two securities are the same but for their eligibility for increases.
pub open spec fn same_but_eligibility(a: SecurityInput, b: SecurityInput) -> bool {
    &&& a.asset_id == b.asset_id
    &&& a.symbol == b.symbol
    &&& a.unit_price == b.unit_price
    &&& a.category_values == b.category_values
    &&& a.positions == b.positions
}

/// Whether two securities are the same but for the positions held of them.
pub open spec fn same_but_positions(a: SecurityInput, b: SecurityInput) -> bool {
    &&& a.asset_id == b.asset_id
    &&& a.symbol == b.symbol
    &&& a.unit_price == b.unit_price
    &&& a.category_values == b.category_values
    &&& a.is_eligible_for_increase == b.is_eligible_for_increase
}

/// What a split reads of a security, for a gap of a given sign.
spec fn alike(a: SecurityInput, b: SecurityInput, gap: Decimal) -> bool {
    &&& a.asset_id == b.asset_id
    &&& a.unit_price == b.unit_price
    &&& a.category_values == b.category_values
    &&& gap@ > 0 ==> a.is_eligible_for_increase == b.is_eligible_for_increase
    &&& gap@ <= 0 ==> a.positions == b.positions
}

proof fn lemma_carriers_alike(
    a: Seq<SecurityInput>,
    b: Seq<SecurityInput>,
    category_id: Seq<char>,
    gap: Decimal,
)
    requires
        a.len() == b.len(),
        forall|i: int| 0 <= i < a.len() ==> alike(#[trigger] a[i], b[i], gap),
    ensures
        carriers(a, category_id, gap).len() == carriers(b, category_id, gap).len(),
        forall|i: int|
            0 <= i < carriers(a, category_id, gap).len() ==> alike(
                #[trigger] carriers(a, category_id, gap)[i],
                carriers(b, category_id, gap)[i],
                gap,
            ),
    decreases a.len(),
{
    reveal(Seq::filter);
    if a.len() > 0 {
        assert forall|i: int| 0 <= i < a.drop_last().len() implies alike(
            #[trigger] a.drop_last()[i],
            b.drop_last()[i],
            gap,
        ) by {
            assert(alike(a[i], b[i], gap));
        }
        lemma_carriers_alike(a.drop_last(), b.drop_last(), category_id, gap);
        assert(alike(a[a.len() - 1], b[b.len() - 1], gap));
        assert(is_carrier(a.last(), category_id, gap) == is_carrier(b.last(), category_id, gap));
    }
}

proof fn lemma_split_alike(
    a: Seq<SecurityInput>,
    b: Seq<SecurityInput>,
    category_id: Seq<char>,
    gap: Decimal,
)
    requires
        a.len() == b.len(),
        forall|i: int| 0 <= i < a.len() ==> alike(#[trigger] a[i], b[i], gap),
    ensures
        split_of(category_id, gap, a) == split_of(category_id, gap, b),
{
    lemma_carriers_alike(a, b, category_id, gap);
    assert forall|i: int| 0 <= i < a.len() implies is_exposed(#[trigger] a[i], category_id)
        == is_exposed(b[i], category_id) && (gap@ != 0 ==> is_permitted(a[i], gap) == is_permitted(
        b[i],
        gap,
    )) && (gap@ < 0 ==> a[i].spec_reducible_quantity() == b[i].spec_reducible_quantity()) by {
        assert(alike(a[i], b[i], gap));
    }
    assert forall|i: int| 0 <= i < b.len() implies is_exposed(#[trigger] b[i], category_id)
        == is_exposed(a[i], category_id) && (gap@ != 0 ==> is_permitted(b[i], gap) == is_permitted(
        a[i],
        gap,
    )) && (gap@ < 0 ==> b[i].spec_reducible_quantity() == a[i].spec_reducible_quantity()) by {
        assert(is_exposed(a[i], category_id) == is_exposed(b[i], category_id));
    }
    let from_a = carriers(a, category_id, gap);
    let from_b = carriers(b, category_id, gap);
    assert(values_in(from_a, category_id) =~= values_in(from_b, category_id)) by {
        assert forall|i: int| 0 <= i < from_a.len() implies values_in(from_a, category_id)[i]
            == values_in(from_b, category_id)[i] by {
            assert(alike(from_a[i], from_b[i], gap));
        }
    }
    match total(values_in(from_a, category_id)) {
        Some(total_value) => {
            let intent = |security: SecurityInput|
                intent_of(security, category_id, gap, total_value);
            assert(from_a.map_values(intent) =~= from_b.map_values(intent)) by {
                assert forall|i: int| 0 <= i < from_a.len() implies from_a.map_values(intent)[i]
                    == from_b.map_values(intent)[i] by {
                    assert(alike(from_a[i], from_b[i], gap));
                }
            }
        },
        None => {},
    }
}

/// Eligibility never restricts a reduction: a gap that is not positive is split
/// in the same way whatever is eligible for increases.
pub proof fn law_eligibility_never_restricts_reductions(
    a: Seq<SecurityInput>,
    b: Seq<SecurityInput>,
    category_id: Seq<char>,
    gap: Decimal,
)
    requires
        gap@ <= 0,
        a.len() == b.len(),
        forall|i: int| 0 <= i < a.len() ==> same_but_eligibility(#[trigger] a[i], b[i]),
    ensures
        split_of(category_id, gap, a) == split_of(category_id, gap, b),
{
    assert forall|i: int| 0 <= i < a.len() implies alike(#[trigger] a[i], b[i], gap) by {
        assert(same_but_eligibility(a[i], b[i]));
    }
    lemma_split_alike(a, b, category_id, gap);
}

/// What may be reduced never restricts an increase: a positive gap is split in
/// the same way whatever positions are held, and whatever covers them.
pub proof fn law_positions_never_restrict_increases(
    a: Seq<SecurityInput>,
    b: Seq<SecurityInput>,
    category_id: Seq<char>,
    gap: Decimal,
)
    requires
        gap@ > 0,
        a.len() == b.len(),
        forall|i: int| 0 <= i < a.len() ==> same_but_positions(#[trigger] a[i], b[i]),
    ensures
        split_of(category_id, gap, a) == split_of(category_id, gap, b),
{
    assert forall|i: int| 0 <= i < a.len() implies alike(#[trigger] a[i], b[i], gap) by {
        assert(same_but_positions(a[i], b[i]));
    }
    lemma_split_alike(a, b, category_id, gap);
}

/// Every security that carries a category and may be adjusted takes a share of
/// its gap, in the order in which the securities stand; none is chosen over
/// another.
pub proof fn law_every_carrier_takes_a_share(
    category_id: Seq<char>,
    gap: Decimal,
    securities: Seq<SecurityInput>,
)
    requires
        gap@ != 0,
        split_of(category_id, gap, securities) matches Some(Ok(intents)),
    ensures
        split_of(category_id, gap, securities)->0->Ok_0.map_values(
            |intent: IntentView| intent.asset_id,
        ) == carriers(securities, category_id, gap).map_values(
            |security: SecurityInput| security.asset_id@,
        ),
        forall|k: int|
            0 <= k < split_of(category_id, gap, securities)->0->Ok_0.len() ==> (
            #[trigger] split_of(category_id, gap, securities)->0->Ok_0[k]).category_id
                == category_id,
{
    let intents = split_of(category_id, gap, securities)->0->Ok_0;
    let carrying = carriers(securities, category_id, gap);
    let total_value = total(values_in(carrying, category_id))->0;
    let each = carrying.map_values(
        |security: SecurityInput| intent_of(security, category_id, gap, total_value),
    );
    assert(all_of(each) == Some(intents));
    assert forall|k: int| 0 <= k < carrying.len() implies (#[trigger] intents[k]).asset_id
        == carrying[k].asset_id@ && intents[k].category_id == category_id by {
        assert(each[k] is Some);
        assert(each[k] == intent_of(carrying[k], category_id, gap, total_value));
    }
    assert(intents.map_values(|intent: IntentView| intent.asset_id) =~= carrying.map_values(
        |security: SecurityInput| security.asset_id@,
    ));
}

/// The sum of integers.
pub open spec fn sum_of(numbers: Seq<int>) -> int
    decreases numbers.len(),
{
    if numbers.len() == 0 {
        0
    } else {
        sum_of(numbers.drop_last()) + numbers.last()
    }
}

/// The values of decimals.
pub open spec fn values_of(amounts: Seq<Decimal>) -> Seq<int> {
    amounts.map_values(|amount: Decimal| amount@)
}

/// Where no share of a gap has to be rounded, the shares add up to the gap.
pub proof fn law_exact_shares_add_up_to_the_gap(
    gap: Decimal,
    values: Seq<Decimal>,
    total_value: Decimal,
    shares: Seq<int>,
)
    requires
        total_value@ > 0,
        total_value@ == sum_of(values_of(values)),
        shares.len() == values.len(),
        forall|i: int|
            0 <= i < values.len() ==> is_exact_share(gap, values[i], total_value,
                #[trigger] shares[i]),
    ensures
        sum_of(shares) == gap@,
{
    lemma_shares(gap, values, total_value, shares);
    assert(sum_of(shares) == gap@) by (nonlinear_arith)
        requires
            sum_of(shares) * total_value@ == gap@ * total_value@,
            total_value@ > 0,
    ;
}

proof fn lemma_shares(gap: Decimal, values: Seq<Decimal>, total_value: Decimal, shares: Seq<int>)
    requires
        shares.len() == values.len(),
        forall|i: int|
            0 <= i < values.len() ==> is_exact_share(gap, values[i], total_value,
                #[trigger] shares[i]),
    ensures
        sum_of(shares) * total_value@ == gap@ * sum_of(values_of(values)),
    decreases values.len(),
{
    if values.len() > 0 {
        let n = values.len() - 1;
        assert forall|i: int| 0 <= i < n implies is_exact_share(
            gap,
            values.drop_last()[i],
            total_value,
            #[trigger] shares.drop_last()[i],
        ) by {
            assert(is_exact_share(gap, values[i], total_value, shares[i]));
        }
        lemma_shares(gap, values.drop_last(), total_value, shares.drop_last());
        assert(is_exact_share(gap, values[n], total_value, shares[n]));
        assert(values_of(values).drop_last() =~= values_of(values.drop_last()));
        let before = sum_of(shares.drop_last());
        let held = sum_of(values_of(values.drop_last()));
        assert((before + shares[n]) * total_value@ == gap@ * (held + values[n]@))
            by (nonlinear_arith)
            requires
                before * total_value@ == gap@ * held,
                shares[n] * total_value@ == gap@ * values[n]@,
        ;
    } else {
        assert(sum_of(shares) == 0);
        assert(sum_of(values_of(values)) == 0);
    }
}

/// Where the targets share out the whole planning total, and the categories
/// hold all of it, what some categories lack the others have in excess: the
/// exact gaps cancel out.
pub proof fn law_exact_gaps_cancel_out(
    categories: Seq<CategoryTarget>,
    planning_total: Decimal,
    gaps: Seq<int>,
)
    requires
        gaps.len() == categories.len(),
        forall|i: int|
            0 <= i < categories.len() ==> is_exact_gap(
                categories[i],
                planning_total,
                #[trigger] gaps[i],
            ),
        sum_of(categories.map_values(|category: CategoryTarget| category.target_bps as int))
            == 10000,
        sum_of(categories.map_values(|category: CategoryTarget| category.current_value@))
            == planning_total@,
    ensures
        sum_of(gaps) == 0,
{
    lemma_gaps(categories, planning_total, gaps);
}

proof fn lemma_gaps(categories: Seq<CategoryTarget>, planning_total: Decimal, gaps: Seq<int>)
    requires
        gaps.len() == categories.len(),
        forall|i: int|
            0 <= i < categories.len() ==> is_exact_gap(
                categories[i],
                planning_total,
                #[trigger] gaps[i],
            ),
    ensures
        10000 * (sum_of(gaps) + sum_of(
            categories.map_values(|category: CategoryTarget| category.current_value@),
        )) == sum_of(
            categories.map_values(|category: CategoryTarget| category.target_bps as int),
        ) * planning_total@,
    decreases categories.len(),
{
    let held = categories.map_values(|category: CategoryTarget| category.current_value@);
    let targets = categories.map_values(|category: CategoryTarget| category.target_bps as int);
    if categories.len() > 0 {
        let n = categories.len() - 1;
        let rest = categories.drop_last();
        assert forall|i: int| 0 <= i < n implies is_exact_gap(
            rest[i],
            planning_total,
            #[trigger] gaps.drop_last()[i],
        ) by {
            assert(is_exact_gap(categories[i], planning_total, gaps[i]));
        }
        lemma_gaps(rest, planning_total, gaps.drop_last());
        assert(is_exact_gap(categories[n], planning_total, gaps[n]));
        assert(held.drop_last() =~= rest.map_values(
            |category: CategoryTarget| category.current_value@,
        ));
        assert(targets.drop_last() =~= rest.map_values(
            |category: CategoryTarget| category.target_bps as int,
        ));
        let before = sum_of(targets.drop_last());
        let bps = categories[n].target_bps as int;
        assert((before + bps) * planning_total@ == before * planning_total@ + bps
            * planning_total@) by (nonlinear_arith);
    } else {
        assert(sum_of(gaps) == 0);
        assert(sum_of(held) == 0);
        assert(sum_of(targets) == 0);
        assert(sum_of(targets) * planning_total@ == 0) by (nonlinear_arith)
            requires
                sum_of(targets) == 0,
        ;
    }
}

/// What intents ask of one security, with nothing rounded.
pub open spec fn asked_of(intents: Seq<IntentView>, asset_id: Seq<char>) -> int
    decreases intents.len(),
{
    if intents.len() == 0 {
        0
    } else {
        asked_of(intents.drop_last(), asset_id) + if intents.last().asset_id == asset_id {
            intents.last().amount@
        } else {
            0
        }
    }
}

proof fn lemma_asked_is_total(intents: Seq<IntentView>, asset_id: Seq<char>)
    ensures
        exact_total(amounts_for(intents, asset_id)) == asked_of(intents, asset_id),
    decreases intents.len(),
{
    reveal(Seq::filter);
    if intents.len() > 0 {
        let fewer = intents.drop_last();
        lemma_asked_is_total(fewer, asset_id);
        if intents.last().asset_id == asset_id {
            assert(amounts_for(intents, asset_id) =~= amounts_for(fewer, asset_id).push(
                intents.last().amount,
            ));
            lemma_exact_total_step(amounts_for(fewer, asset_id), intents.last().amount);
        } else {
            assert(amounts_for(intents, asset_id) =~= amounts_for(fewer, asset_id));
        }
    } else {
        assert(amounts_for(intents, asset_id) =~= Seq::empty());
    }
}

/// What intents ask of some securities together.
spec fn asked_of_all(intents: Seq<IntentView>, keys: Seq<Seq<char>>) -> int
    decreases keys.len(),
{
    if keys.len() == 0 {
        0
    } else {
        asked_of_all(intents, keys.drop_last()) + asked_of(intents, keys.last())
    }
}

proof fn lemma_one_intent_more(intents: Seq<IntentView>, keys: Seq<Seq<char>>)
    requires
        intents.len() > 0,
        keys.no_duplicates(),
    ensures
        asked_of_all(intents, keys) == asked_of_all(intents.drop_last(), keys)
            + if keys.contains(intents.last().asset_id) {
            intents.last().amount@
        } else {
            0
        },
    decreases keys.len(),
{
    if keys.len() > 0 {
        let fewer = keys.drop_last();
        let id = intents.last().asset_id;
        assert(fewer.no_duplicates());
        lemma_one_intent_more(intents, fewer);
        if fewer.contains(id) {
            let k = choose|k: int| 0 <= k < fewer.len() && fewer[k] == id;
            assert(keys[k] == id && keys[keys.len() - 1] == keys.last());
        } else if keys.contains(id) {
            let k = choose|k: int| 0 <= k < keys.len() && keys[k] == id;
            if k < fewer.len() {
                assert(fewer[k] == id);
            }
        }
        if keys.last() == id {
            assert(keys[keys.len() - 1] == id);
        }
    }
}

proof fn lemma_asked_of_all(intents: Seq<IntentView>, keys: Seq<Seq<char>>)
    requires
        keys.no_duplicates(),
        forall|i: int| 0 <= i < intents.len() ==> keys.contains((#[trigger] intents[i]).asset_id),
    ensures
        asked_of_all(intents, keys) == exact_total(amounts_of_intents(intents)),
    decreases intents.len(),
{
    if intents.len() > 0 {
        let fewer = intents.drop_last();
        assert forall|i: int| 0 <= i < fewer.len() implies keys.contains(
            (#[trigger] fewer[i]).asset_id,
        ) by {
            assert(fewer[i] == intents[i]);
        }
        lemma_asked_of_all(fewer, keys);
        lemma_one_intent_more(intents, keys);
        assert(intents[intents.len() - 1] == intents.last());
        assert(amounts_of_intents(intents).drop_last() =~= amounts_of_intents(fewer));
    } else {
        lemma_nothing_asked(intents, keys);
    }
}

proof fn lemma_nothing_asked(intents: Seq<IntentView>, keys: Seq<Seq<char>>)
    requires
        intents.len() == 0,
    ensures
        asked_of_all(intents, keys) == 0,
    decreases keys.len(),
{
    if keys.len() > 0 {
        lemma_nothing_asked(intents, keys.drop_last());
    }
}

/// The keys of combined amounts.
pub open spec fn entry_keys(entries: Seq<(String, Decimal)>) -> Seq<Seq<char>> {
    entries.map_values(|entry: (String, Decimal)| entry.0@)
}

/// The amounts of combined amounts.
pub open spec fn entry_amounts(entries: Seq<(String, Decimal)>) -> Seq<Decimal> {
    entries.map_values(|entry: (String, Decimal)| entry.1)
}

/// Whether entries are what comes of combining intents, with nothing rounded.
pub open spec fn is_exact_combination(
    entries: Seq<(String, Decimal)>,
    intents: Seq<IntentView>,
) -> bool {
    &&& is_combination(entries, intents)
    &&& forall|k: int|
        0 <= k < entries.len() ==> is_exact_entry(#[trigger] entries[k], intents)
            && is_exact_total(amounts_for(intents, entries[k].0@))
}

proof fn lemma_entries_ask(
    entries: Seq<(String, Decimal)>,
    intents: Seq<IntentView>,
)
    requires
        forall|k: int|
            0 <= k < entries.len() ==> is_exact_entry(#[trigger] entries[k], intents)
                && is_exact_total(amounts_for(intents, entries[k].0@)),
    ensures
        exact_total(entry_amounts(entries)) == asked_of_all(intents, entry_keys(entries)),
    decreases entries.len(),
{
    if entries.len() > 0 {
        let fewer = entries.drop_last();
        assert forall|k: int| 0 <= k < fewer.len() implies is_exact_entry(
            #[trigger] fewer[k],
            intents,
        ) && is_exact_total(amounts_for(intents, fewer[k].0@)) by {
            assert(fewer[k] == entries[k]);
        }
        lemma_entries_ask(fewer, intents);
        assert(entries[entries.len() - 1] == entries.last());
        lemma_asked_is_total(intents, entries.last().0@);
        assert(entry_amounts(entries).drop_last() =~= entry_amounts(fewer));
        assert(entry_keys(entries).drop_last() =~= entry_keys(fewer));
    }
}

/// Combining loses nothing: where nothing has to be rounded, the combined
/// amounts together are what the intents ask together.
pub proof fn law_combining_keeps_the_total(
    entries: Seq<(String, Decimal)>,
    intents: Seq<IntentView>,
)
    requires
        is_exact_combination(entries, intents),
    ensures
        exact_total(entry_amounts(entries)) == exact_total(amounts_of_intents(intents)),
{
    let keys = entry_keys(entries);
    assert(keys.no_duplicates()) by {
        assert forall|i: int, j: int| 0 <= i < j < keys.len() implies keys[i] != keys[j] by {
            assert(entries[i].0@ != entries[j].0@);
        }
    }
    assert forall|i: int| 0 <= i < intents.len() implies keys.contains(
        (#[trigger] intents[i]).asset_id,
    ) by {
        assert(has_entry(entries, intents[i].asset_id));
        let k = choose|k: int|
            0 <= k < entries.len() && (#[trigger] entries[k]).0@ == intents[i].asset_id;
        assert(keys[k] == intents[i].asset_id);
    }
    lemma_entries_ask(entries, intents);
    lemma_asked_of_all(intents, keys);
}

proof fn lemma_asked_of_two(a: Seq<IntentView>, b: Seq<IntentView>, asset_id: Seq<char>)
    ensures
        asked_of(a + b, asset_id) == asked_of(a, asset_id) + asked_of(b, asset_id),
    decreases b.len(),
{
    if b.len() == 0 {
        assert(a + b =~= a);
    } else {
        assert((a + b).drop_last() =~= a + b.drop_last());
        lemma_asked_of_two(a, b.drop_last(), asset_id);
    }
}

proof fn lemma_asked_ignores_order(a: Seq<IntentView>, b: Seq<IntentView>, asset_id: Seq<char>)
    requires
        a.to_multiset() == b.to_multiset(),
    ensures
        asked_of(a, asset_id) == asked_of(b, asset_id),
    decreases a.len(),
{
    broadcast use vstd::seq_lib::group_to_multiset_ensures;

    assert(a.to_multiset().len() == a.len());
    assert(b.to_multiset().len() == b.len());
    if a.len() > 0 {
        let last = a.last();
        assert(a.to_multiset().contains(last)) by {
            assert(a.contains(a[a.len() - 1]));
        }
        assert(b.contains(last));
        let i = choose|i: int| 0 <= i < b.len() && b[i] == last;
        let rest = b.remove(i);
        assert(a.drop_last() =~= a.remove(a.len() - 1));
        assert(a.drop_last().to_multiset() =~= rest.to_multiset());
        lemma_asked_ignores_order(a.drop_last(), rest, asset_id);
        let start = b.take(i);
        let end = b.skip(i + 1);
        assert(rest =~= start + end);
        assert(b =~= start.push(last) + end);
        lemma_asked_of_two(start, end, asset_id);
        lemma_asked_of_two(start.push(last), end, asset_id);
        assert(start.push(last).drop_last() =~= start);
    }
}

/// The order of the intents does not matter: where nothing has to be rounded,
/// the same intents in another order combine to the same amounts for the same
/// securities.
pub proof fn law_combining_ignores_the_order(
    a_entries: Seq<(String, Decimal)>,
    a: Seq<IntentView>,
    b_entries: Seq<(String, Decimal)>,
    b: Seq<IntentView>,
)
    requires
        a.to_multiset() == b.to_multiset(),
        is_exact_combination(a_entries, a),
        is_exact_combination(b_entries, b),
    ensures
        forall|asset_id: Seq<char>|
            has_entry(a_entries, asset_id) <==> has_entry(b_entries, asset_id),
        forall|j: int, k: int|
            0 <= j < a_entries.len() && 0 <= k < b_entries.len() && (
            #[trigger] a_entries[j]).0@ == (#[trigger] b_entries[k]).0@ ==> a_entries[j].1@
                == b_entries[k].1@,
{
    assert forall|asset_id: Seq<char>|
        has_entry(a_entries, asset_id) <==> has_entry(b_entries, asset_id) by {
        if has_entry(a_entries, asset_id) {
            lemma_same_entries(a_entries, a, b_entries, b, asset_id);
        }
        if has_entry(b_entries, asset_id) {
            lemma_same_entries(b_entries, b, a_entries, a, asset_id);
        }
    }
    assert forall|j: int, k: int|
        0 <= j < a_entries.len() && 0 <= k < b_entries.len() && (#[trigger] a_entries[j]).0@ == (
        #[trigger] b_entries[k]).0@ implies a_entries[j].1@ == b_entries[k].1@ by {
        let asset_id = a_entries[j].0@;
        lemma_asked_is_total(a, asset_id);
        lemma_asked_is_total(b, asset_id);
        lemma_asked_ignores_order(a, b, asset_id);
        assert(is_exact_entry(a_entries[j], a));
        assert(is_exact_entry(b_entries[k], b));
    }
}

proof fn lemma_same_entries(
    a_entries: Seq<(String, Decimal)>,
    a: Seq<IntentView>,
    b_entries: Seq<(String, Decimal)>,
    b: Seq<IntentView>,
    asset_id: Seq<char>,
)
    requires
        a.to_multiset() == b.to_multiset(),
        is_combination(a_entries, a),
        is_combination(b_entries, b),
        has_entry(a_entries, asset_id),
    ensures
        has_entry(b_entries, asset_id),
{
    broadcast use vstd::seq_lib::group_to_multiset_ensures;

    let j = choose|j: int| 0 <= j < a_entries.len() && (#[trigger] a_entries[j]).0@ == asset_id;
    assert(is_combined_entry(a_entries[j], a));
    let is_asked = |intent: IntentView| intent.asset_id == asset_id;
    lemma_kept(a, is_asked);
    assert(a.filter(is_asked).len() == amounts_for(a, asset_id).len());
    let intent = a.filter(is_asked)[0];
    assert(a.contains(intent) && is_asked(intent));
    assert(a.to_multiset().contains(intent));
    assert(b.contains(intent));
    let i = choose|i: int| 0 <= i < b.len() && b[i] == intent;
    assert(has_entry(b_entries, b[i].asset_id));
}

/// No category is lost on the way: the gap of each is either placed whole, its
/// intents standing among the intents, or reported with the reason.
pub proof fn law_every_gap_is_placed_or_reported(
    categories: Seq<CategoryTarget>,
    gaps: Seq<Decimal>,
    securities: Seq<SecurityInput>,
    n: nat,
    i: int,
)
    requires
        0 <= i < n,
        spread_of(categories, gaps, securities, n) is Some,
    ensures
        match split_of(categories[i].category_id@, gaps[i], securities) {
            None => false,
            Some(Ok(placed)) => forall|k: int|
                0 <= k < placed.len() ==> (spread_of(categories, gaps, securities,
                    n)->0).0.contains(
                    #[trigger] placed[k],
                ),
            Some(Err(reason)) => (spread_of(categories, gaps, securities, n)->0).1.contains(
                UnresolvedCategoryAmountView {
                    category_id: categories[i].category_id@,
                    category_name: name_of_category(categories, categories[i].category_id@),
                    amount: gaps[i],
                    reason,
                },
            ),
        },
    decreases n,
{
    let (intents, unresolved) = spread_of(categories, gaps, securities, n)->0;
    let (before, reported) = spread_of(categories, gaps, securities, (n - 1) as nat)->0;
    if i < n - 1 {
        law_every_gap_is_placed_or_reported(categories, gaps, securities, (n - 1) as nat, i);
        assert forall|k: int| 0 <= k < before.len() implies intents.contains(
            #[trigger] before[k],
        ) by {
            assert(intents[k] == before[k]);
        }
        assert forall|k: int| 0 <= k < reported.len() implies unresolved.contains(
            #[trigger] reported[k],
        ) by {
            assert(unresolved[k] == reported[k]);
        }
    } else {
        match split_of(categories[i].category_id@, gaps[i], securities) {
            Some(Ok(placed)) => {
                assert forall|k: int| 0 <= k < placed.len() implies intents.contains(
                    #[trigger] placed[k],
                ) by {
                    assert(intents[before.len() + k] == placed[k]);
                }
            },
            Some(Err(reason)) => {
                assert(unresolved[reported.len() as int].amount == gaps[i]);
            },
            None => {},
        }
    }
}

/// The places of the drafts that give a line: those whose amount is more than
/// zero and whose security has a usable price.
pub open spec fn placed_drafts(
    asset_ids: Seq<Seq<char>>,
    amounts: Seq<Decimal>,
    securities: Seq<SecurityInput>,
) -> Seq<int> {
    Seq::new(amounts.len(), |i: int| i).filter(
        |i: int| amounts[i]@ > 0 && usable_price(securities, asset_ids[i]) is Some,
    )
}

proof fn lemma_filter_agrees(s: Seq<int>, p: spec_fn(int) -> bool, q: spec_fn(int) -> bool)
    requires
        forall|i: int| 0 <= i < s.len() ==> p(#[trigger] s[i]) == q(s[i]),
    ensures
        s.filter(p) == s.filter(q),
    decreases s.len(),
{
    reveal(Seq::filter);
    if s.len() > 0 {
        assert forall|i: int| 0 <= i < s.drop_last().len() implies p(#[trigger] s.drop_last()[i])
            == q(s.drop_last()[i]) by {
            assert(p(s[i]) == q(s[i]));
        }
        lemma_filter_agrees(s.drop_last(), p, q);
        assert(p(s[s.len() - 1]) == q(s[s.len() - 1]));
    }
}

/// No line is dropped and none is added: each draft whose amount is more than
/// zero and whose security has a usable price gives exactly one line, in the
/// order of the drafts, however small it is.
pub proof fn law_no_line_is_dropped(
    asset_ids: Seq<Seq<char>>,
    amounts: Seq<Decimal>,
    direction: WorksheetDirection,
    securities: Seq<SecurityInput>,
    limits: LimitsInput,
)
    requires
        asset_ids.len() == amounts.len(),
        lines_of(asset_ids, amounts, direction, securities, limits) is Some,
    ensures
        lines_of(asset_ids, amounts, direction, securities, limits)->0.len() == placed_drafts(
            asset_ids,
            amounts,
            securities,
        ).len(),
        forall|k: int|
            0 <= k < placed_drafts(asset_ids, amounts, securities).len() ==> {
                let i = #[trigger] placed_drafts(asset_ids, amounts, securities)[k];
                &&& 0 <= i < amounts.len()
                &&& usable_price(securities, asset_ids[i]) is Some
                &&& line_of(
                    asset_ids[i],
                    amounts[i],
                    usable_price(securities, asset_ids[i])->0,
                    direction,
                    limits,
                ) == Some(lines_of(asset_ids, amounts, direction, securities, limits)->0[k])
            },
    decreases amounts.len(),
{
    reveal(Seq::filter);
    let places = Seq::new(amounts.len(), |i: int| i);
    let gives = |i: int| amounts[i]@ > 0 && usable_price(securities, asset_ids[i]) is Some;
    if amounts.len() > 0 {
        let fewer_ids = asset_ids.drop_last();
        let fewer = amounts.drop_last();
        law_no_line_is_dropped(fewer_ids, fewer, direction, securities, limits);
        let gave = |i: int| fewer[i]@ > 0 && usable_price(securities, fewer_ids[i]) is Some;
        assert(places.drop_last() =~= Seq::new(fewer.len(), |i: int| i));
        lemma_filter_agrees(places.drop_last(), gives, gave);
        let before = placed_drafts(fewer_ids, fewer, securities);
        assert(placed_drafts(asset_ids, amounts, securities) == if gives(amounts.len() - 1) {
            before.push(amounts.len() - 1)
        } else {
            before
        });
        let now = placed_drafts(asset_ids, amounts, securities);
        assert forall|k: int| 0 <= k < now.len() implies {
            let i = #[trigger] now[k];
            &&& 0 <= i < amounts.len()
            &&& usable_price(securities, asset_ids[i]) is Some
            &&& line_of(
                asset_ids[i],
                amounts[i],
                usable_price(securities, asset_ids[i])->0,
                direction,
                limits,
            ) == Some(lines_of(asset_ids, amounts, direction, securities, limits)->0[k])
        } by {
            if k < before.len() {
                assert(now[k] == before[k]);
                let i = before[k];
                assert(0 <= i < fewer.len());
                assert(fewer[i] == amounts[i] && fewer_ids[i] == asset_ids[i]);
            }
        }
    }
}

/// Scaling is reported exactly where it happened: the reductions are scaled
/// where their capped total is positive and above the turnover cap, the
/// increases where they need more than is available and some of them depend on
/// proceeds; where nothing is scaled, the drafts' amounts stand as they were.
pub proof fn law_scaling_is_reported(
    increases: Seq<DraftIncrease>,
    reductions: Seq<DraftReduction>,
    securities: Seq<SecurityInput>,
    limits: LimitsInput,
)
    requires
        limited(increases, reductions, securities, limits) is Some,
    ensures
        ({
            let scaling = limited(increases, reductions, securities, limits)->0.scaling;
            let capped = capped_amounts(reductions, securities)->0;
            let reduced = (turnover_scaled(capped, limits.turnover_cap)->0).0;
            let available = available_funding(limits, reduced)->0;
            let needed = total(increase_amounts(increases))->0;
            let funded = total(proceeds_funded_amounts(increases))->0;
            &&& scaling.reduction_factor is Some <==> (limits.turnover_cap matches Some(cap)
                && total(capped)->0@ > cap@ && total(capped)->0@ > 0)
            &&& scaling.increase_factor is Some <==> needed@ > available@ && funded@ > 0
            &&& scaling.reduction_factor is None ==> reduced == capped
            &&& scaling.increase_factor is None ==> (funding_scaled(increases, available)->0).0
                == increase_amounts(increases)
        }),
{
}

proof fn lemma_scaled_sum(values: Seq<int>, factor: int, scaled: Seq<int>)
    requires
        scaled.len() == values.len(),
        forall|i: int| 0 <= i < values.len() ==> #[trigger] scaled[i] * unit()
            == values[i] * factor,
    ensures
        sum_of(scaled) * unit() == sum_of(values) * factor,
    decreases values.len(),
{
    if values.len() > 0 {
        let n = values.len() - 1;
        let fewer = scaled.drop_last();
        assert forall|i: int| 0 <= i < n implies #[trigger] fewer[i] * unit()
            == values.drop_last()[i] * factor by {
            assert(scaled[i] * unit() == values[i] * factor);
        }
        lemma_scaled_sum(values.drop_last(), factor, fewer);
        let before = sum_of(fewer);
        let held = sum_of(values.drop_last());
        assert((before + scaled[n]) * unit() == (held + values[n]) * factor) by (nonlinear_arith)
            requires
                before * unit() == held * factor,
                scaled[n] * unit() == values[n] * factor,
        ;
    } else {
        assert(sum_of(scaled) == 0 && sum_of(values) == 0);
        assert(0 * unit() == 0 * factor) by (nonlinear_arith);
    }
}

/// Where nothing has to be rounded, reductions that are scaled to a cap add up
/// to the cap.
pub proof fn law_exact_reductions_meet_the_cap(
    amounts: Seq<Decimal>,
    cap: Decimal,
    factor: int,
    scaled: Seq<int>,
)
    requires
        factor * exact_total(amounts) == cap@ * unit(),
        scaled.len() == amounts.len(),
        forall|i: int|
            0 <= i < amounts.len() ==> #[trigger] scaled[i] * unit() == amounts[i]@ * factor,
    ensures
        sum_of(scaled) == cap@,
{
    lemma_unit_positive();
    lemma_sum_is_total(amounts);
    assert forall|i: int| 0 <= i < scaled.len() implies #[trigger] scaled[i] * unit() == values_of(
        amounts,
    )[i] * factor by {}
    lemma_scaled_sum(values_of(amounts), factor, scaled);
    assert(sum_of(scaled) == cap@) by (nonlinear_arith)
        requires
            sum_of(scaled) * unit() == exact_total(amounts) * factor,
            factor * exact_total(amounts) == cap@ * unit(),
            unit() > 0,
    ;
}

/// The sum of the values of decimals is their exact sum.
pub proof fn lemma_sum_is_total(amounts: Seq<Decimal>)
    ensures
        sum_of(values_of(amounts)) == exact_total(amounts),
    decreases amounts.len(),
{
    if amounts.len() > 0 {
        lemma_sum_is_total(amounts.drop_last());
        assert(values_of(amounts).drop_last() =~= values_of(amounts.drop_last()));
    }
}

/// Where nothing has to be rounded, increases that are scaled to their funding
/// add up to what is available, the cash-funded ones as they were.
pub proof fn law_exact_increases_use_the_funding(
    cash_funded: Seq<Decimal>,
    proceeds_funded: Seq<Decimal>,
    available: Decimal,
    factor: int,
    scaled: Seq<int>,
)
    requires
        ({
            let funded = exact_total(proceeds_funded);
            let needed = exact_total(cash_funded) + funded;
            factor * funded == (funded - (needed - available@)) * unit()
        }),
        scaled.len() == proceeds_funded.len(),
        forall|i: int|
            0 <= i < proceeds_funded.len() ==> #[trigger] scaled[i] * unit()
                == proceeds_funded[i]@ * factor,
    ensures
        exact_total(cash_funded) + sum_of(scaled) == available@,
{
    lemma_unit_positive();
    lemma_sum_is_total(proceeds_funded);
    assert forall|i: int| 0 <= i < scaled.len() implies #[trigger] scaled[i] * unit() == values_of(
        proceeds_funded,
    )[i] * factor by {}
    lemma_scaled_sum(values_of(proceeds_funded), factor, scaled);
    let funded = exact_total(proceeds_funded);
    let left = available@ - exact_total(cash_funded);
    assert(funded - (exact_total(cash_funded) + funded - available@) == left);
    assert(sum_of(scaled) == left) by (nonlinear_arith)
        requires
            sum_of(scaled) * unit() == funded * factor,
            factor * funded == left * unit(),
            unit() > 0,
    ;
}

/// A constraint that only warns never blocks: whatever constraints there are,
/// those among them that block are the only ones that count.
pub proof fn law_avoiding_never_blocks(
    constraints: Seq<AllocationTargetConstraint>,
    direction: WorksheetDirection,
    asset_id: Seq<char>,
    account_id: Option<Seq<char>>,
    category_ids: Seq<Seq<char>>,
)
    ensures
        blocks(constraints, direction, asset_id, account_id, category_ids) == blocks(
            constraints.filter(
                |constraint: AllocationTargetConstraint|
                    constraint.effect == ConstraintEffect::Block,
            ),
            direction,
            asset_id,
            account_id,
            category_ids,
        ),
    decreases constraints.len(),
{
    reveal(Seq::filter);
    let is_block = |constraint: AllocationTargetConstraint|
        constraint.effect == ConstraintEffect::Block;
    if constraints.len() > 0 {
        let fewer = constraints.drop_last();
        let kept = constraints.filter(is_block);
        let before = fewer.filter(is_block);
        law_avoiding_never_blocks(fewer, direction, asset_id, account_id, category_ids);
        lemma_blocks_of_one_more(
            fewer,
            constraints.last(),
            direction,
            asset_id,
            account_id,
            category_ids,
        );
        assert(constraints =~= fewer.push(constraints.last()));
        if is_block(constraints.last()) {
            lemma_blocks_of_one_more(
                before,
                constraints.last(),
                direction,
                asset_id,
                account_id,
                category_ids,
            );
            assert(kept == before.push(constraints.last()));
        }
    }
}

proof fn lemma_blocks_of_one_more(
    constraints: Seq<AllocationTargetConstraint>,
    constraint: AllocationTargetConstraint,
    direction: WorksheetDirection,
    asset_id: Seq<char>,
    account_id: Option<Seq<char>>,
    category_ids: Seq<Seq<char>>,
)
    ensures
        blocks(constraints.push(constraint), direction, asset_id, account_id, category_ids) == (
        blocks(constraints, direction, asset_id, account_id, category_ids) || (constraint.effect
            == ConstraintEffect::Block && crate::worksheet_service::constraint_covers(
            constraint,
            direction,
            asset_id,
            account_id,
            category_ids,
        ))),
{
    let more = constraints.push(constraint);
    assert(more[constraints.len() as int] == constraint);
    if blocks(constraints, direction, asset_id, account_id, category_ids) {
        let i = choose|i: int|
            0 <= i < constraints.len() && (#[trigger] constraints[i]).effect
                == ConstraintEffect::Block && crate::worksheet_service::constraint_covers(
                constraints[i],
                direction,
                asset_id,
                account_id,
                category_ids,
            );
        assert(more[i] == constraints[i]);
    }
    if blocks(more, direction, asset_id, account_id, category_ids) {
        let i = choose|i: int|
            0 <= i < more.len() && (#[trigger] more[i]).effect == ConstraintEffect::Block
                && crate::worksheet_service::constraint_covers(
                more[i],
                direction,
                asset_id,
                account_id,
                category_ids,
            );
        if i < constraints.len() {
            assert(constraints[i] == more[i]);
        }
    }
}

/// The user's list of securities to increase decides about increases alone:
/// what a security is worth, what a unit costs, and what may be reduced of it,
/// is the same under every list.
pub proof fn law_eligibility_decides_increases_alone(
    asset_id: Seq<char>,
    asset: crate::worksheet_model::Asset,
    records: WorksheetRecords,
    eligible: Option<Vec<String>>,
)
    ensures
        ({
            let a = security_of(asset_id, asset, records);
            let b = security_of(
                asset_id,
                asset,
                WorksheetRecords { eligible_asset_ids: eligible, ..records },
            );
            &&& a is Some == b is Some
            &&& a is Some ==> b->0 == (SecurityInputView {
                is_eligible_for_increase: b->0.is_eligible_for_increase,
                ..a->0
            })
        }),
{
}

proof fn lemma_filter_keeps_order(ids: Seq<Seq<char>>, kept: spec_fn(Seq<char>) -> bool)
    requires
        is_ascending(ids),
    ensures
        is_ascending(ids.filter(kept)),
        forall|k: int| 0 <= k < ids.filter(kept).len()
            ==> ids.contains(#[trigger] ids.filter(kept)[k]),
    decreases ids.len(),
{
    reveal(Seq::filter);
    if ids.len() > 0 {
        let fewer = ids.drop_last();
        lemma_filter_keeps_order(fewer, kept);
        let before = fewer.filter(kept);
        let now = ids.filter(kept);
        assert forall|k: int| 0 <= k < now.len() implies ids.contains(#[trigger] now[k]) by {
            if k < before.len() {
                assert(now[k] == before[k]);
                assert(fewer.contains(before[k]));
                let i = choose|i: int| 0 <= i < fewer.len() && fewer[i] == before[k];
                assert(ids[i] == before[k]);
            } else {
                assert(ids[ids.len() - 1] == now[k]);
            }
        }
        assert forall|i: int, j: int| 0 <= i < j < now.len() implies text_below(
            #[trigger] now[i],
            #[trigger] now[j],
        ) by {
            assert(now[i] == before[i]);
            if j < before.len() {
                assert(now[j] == before[j]);
            } else {
                assert(fewer.contains(before[i]));
                let k = choose|k: int| 0 <= k < fewer.len() && fewer[k] == before[i];
                assert(text_below(ids[k], ids[ids.len() - 1]));
            }
        }
    }
}

/// The securities come in ascending order of their identifiers, each once, and
/// each of them is recorded, active, a tracked investment and contributes to
/// the taxonomy.
pub proof fn law_securities_are_in_order(records: WorksheetRecords)
    requires
        securities_of(records) is Some,
    ensures
        is_ascending(
            securities_of(records)->0.map_values(|security: SecurityInputView| security.asset_id),
        ),
        forall|k: int|
            0 <= k < securities_of(records)->0.len() ==> is_candidate(
                records.assets@,
                (#[trigger] securities_of(records)->0[k]).asset_id,
            ) && contributed_assets(records.contributions@).contains(
                securities_of(records)->0[k].asset_id,
            ),
{
    reveal(Seq::filter);
    let named = contributed_assets(records.contributions@);
    lemma_listing_exists(named);
    let ids = listing(named.to_set());
    let kept = |asset_id: Seq<char>| is_candidate(records.assets@, asset_id);
    lemma_filter_keeps_order(ids, kept);
    lemma_kept(ids, kept);
    let chosen = ids.filter(kept);
    let each = chosen.map_values(
        |asset_id: Seq<char>|
            security_of(asset_id, asset_with(records.assets@, asset_id)->0, records),
    );
    let securities = securities_of(records)->0;
    assert(all_of(each) == Some(securities));
    assert forall|k: int| 0 <= k < securities.len() implies (#[trigger] securities[k]).asset_id
        == chosen[k] && is_candidate(records.assets@, chosen[k]) && named.contains(chosen[k]) by {
        assert(each[k] is Some);
        assert(kept(chosen[k]));
        assert(ids.contains(chosen[k]));
        assert(ids.to_set().contains(chosen[k]));
    }
    assert(securities.map_values(|security: SecurityInputView| security.asset_id) =~= chosen);
}

} // verus!
