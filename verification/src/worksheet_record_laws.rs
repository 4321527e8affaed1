//! What the worksheet takes from the records: who is protected, who may be
//! increased, what is held and what it is worth.

use crate::collect::{all_of, are_positions, lemma_grown_positions, lemma_kept_positions};
use crate::decimal::{total, Decimal};
use crate::listing::{is_ascending, lemma_listing_exists, listing};
use crate::worksheet_calculator::SecurityInput;
use crate::worksheet_model::{
    AllocationTargetConstraint, Asset, ConstraintAction, ConstraintEffect, ConstraintSubjectType,
    Holding, HoldingAllocationContribution, HoldingType, LatestQuoteSnapshot, WorksheetDirection,
};
use crate::worksheet_service::{
    accounts_open_to, amounts_under, asset_with, blocks, classified, constraint_covers,
    contributed_assets, contributed_values, held_in, held_quantities, is_candidate, is_position,
    keyed_views, keys_of, last_security, quote_of, securities_among, securities_of, security_of,
    total_under, totals_of, SecurityInputView, WorksheetRecords,
};
use vstd::prelude::*;

verus! {

/// A change is blocked exactly where a constraint that blocks restricts its
/// direction and names its security, its account or a category it carries.
pub proof fn law_change_is_blocked(
    constraints: Seq<AllocationTargetConstraint>,
    direction: WorksheetDirection,
    asset_id: Seq<char>,
    account_id: Option<Seq<char>>,
    category_ids: Seq<Seq<char>>,
)
    ensures
        blocks(constraints, direction, asset_id, account_id, category_ids) <==> exists|c: int|
            0 <= c < constraints.len() && (#[trigger] constraints[c]).effect
                == ConstraintEffect::Block && (constraints[c].action == ConstraintAction::Trade || (
            constraints[c].action == ConstraintAction::Buy && direction
                == WorksheetDirection::Increase) || (constraints[c].action == ConstraintAction::Sell
                && direction == WorksheetDirection::Reduce)) && ((constraints[c].subject_type
                == ConstraintSubjectType::Asset && constraints[c].subject_id@ == asset_id) || (
            constraints[c].subject_type == ConstraintSubjectType::Account && account_id is Some
                && constraints[c].subject_id@ == account_id->0) || (constraints[c].subject_type
                == ConstraintSubjectType::Category && category_ids.contains(
                constraints[c].subject_id@,
            ))),
{
    if blocks(constraints, direction, asset_id, account_id, category_ids) {
        let c = choose|c: int|
            0 <= c < constraints.len() && (#[trigger] constraints[c]).effect
                == ConstraintEffect::Block && constraint_covers(
                constraints[c],
                direction,
                asset_id,
                account_id,
                category_ids,
            );
        assert(constraints[c].effect == ConstraintEffect::Block);
    }
}

/// The categories by which constraints see a security are those of its values,
/// without the residual.
pub proof fn law_constraints_see_the_classified_categories(
    values: Seq<(Seq<char>, Decimal)>,
    category_id: Seq<char>,
)
    ensures
        classified(values).contains(category_id) <==> category_id != "__UNKNOWN__"@
            && exists|v: int|
            0 <= v < values.len() && (#[trigger] values[v]).0 == category_id,
{
    let keys = keys_of(values);
    let is_named = |id: Seq<char>| id != "__UNKNOWN__"@;
    let places = lemma_kept_positions(keys, is_named);
    if classified(values).contains(category_id) {
        let k = choose|k: int| 0 <= k < classified(values).len() && classified(values)[k]
            == category_id;
        assert(keys[places[k]] == category_id);
        assert(values[places[k]].0 == category_id);
    }
    if category_id != "__UNKNOWN__"@ && exists|v: int|
        0 <= v < values.len() && (#[trigger] values[v]).0 == category_id {
        let v = choose|v: int| 0 <= v < values.len() && (#[trigger] values[v]).0 == category_id;
        assert(keys[v] == category_id);
        assert(is_named(keys[v]));
        assert(places.contains(v));
        let k = choose|k: int| 0 <= k < places.len() && places[k] == v;
        assert(classified(values)[k] == category_id);
    }
}

/// A position may not be reduced exactly where a constraint that blocks selling,
/// or trading, names its security, the account that it is in, or a category that
/// the security is classified in. A security may be increased exactly where the
/// user lists it, or has no list, and no constraint that blocks buying, or
/// trading, names it or a category that it is classified in.
pub proof fn law_securities_are_protected(
    asset_id: Seq<char>,
    asset: Asset,
    records: WorksheetRecords,
)
    requires
        security_of(asset_id, asset, records) is Some,
    ensures
        ({
            let security = security_of(asset_id, asset, records)->0;
            let constraints = records.constraints@;
            &&& security.asset_id == asset_id
            &&& forall|p: int|
                0 <= p < security.positions.len() ==> ((#[trigger] security.positions[p]).can_reduce
                    <==> !(exists|c: int|
                    0 <= c < constraints.len() && (#[trigger] constraints[c]).effect
                        == ConstraintEffect::Block && (constraints[c].action
                        == ConstraintAction::Sell || constraints[c].action
                        == ConstraintAction::Trade) && ((constraints[c].subject_type
                        == ConstraintSubjectType::Asset && constraints[c].subject_id@ == asset_id)
                        || (constraints[c].subject_type == ConstraintSubjectType::Account
                        && constraints[c].subject_id@ == security.positions[p].account_id)
                        || (constraints[c].subject_type == ConstraintSubjectType::Category
                        && constraints[c].subject_id@ != "__UNKNOWN__"@ && is_valued(security,
                        constraints[c].subject_id@)))))
            &&& security.is_eligible_for_increase <==> (records.eligible_asset_ids is None
                || exists|e: int|
                0 <= e < records.eligible_asset_ids->0@.len() && (
                #[trigger] records.eligible_asset_ids->0@[e])@ == asset_id) && !(exists|c: int|
                0 <= c < constraints.len() && (#[trigger] constraints[c]).effect
                    == ConstraintEffect::Block && (constraints[c].action == ConstraintAction::Buy
                    || constraints[c].action == ConstraintAction::Trade)
                    && ((constraints[c].subject_type == ConstraintSubjectType::Asset
                    && constraints[c].subject_id@ == asset_id) || (constraints[c].subject_type
                    == ConstraintSubjectType::Category
                    && constraints[c].subject_id@ != "__UNKNOWN__"@ && is_valued(security,
                    constraints[c].subject_id@))))
        }),
{
    let security = security_of(asset_id, asset, records)->0;
    let constraints = records.constraints@;
    let values = security.category_values;
    assert forall|id: Seq<char>| #[trigger]
        classified(values).contains(id) == (id != "__UNKNOWN__"@ && is_valued(security, id)) by {
        law_constraints_see_the_classified_categories(values, id);
    }
    assert forall|p: int| 0 <= p < security.positions.len() implies (
    #[trigger] security.positions[p]).can_reduce == !blocks(
        constraints,
        WorksheetDirection::Reduce,
        asset_id,
        Some(security.positions[p].account_id),
        classified(values),
    ) by {
        law_change_is_blocked(
            constraints,
            WorksheetDirection::Reduce,
            asset_id,
            Some(security.positions[p].account_id),
            classified(values),
        );
    }
    law_change_is_blocked(
        constraints,
        WorksheetDirection::Increase,
        asset_id,
        None,
        classified(values),
    );
    assert forall|p: int| 0 <= p < security.positions.len() implies ((
    #[trigger] security.positions[p]).can_reduce <==> !(exists|c: int|
        0 <= c < constraints.len() && (#[trigger] constraints[c]).effect == ConstraintEffect::Block
            && (constraints[c].action == ConstraintAction::Sell || constraints[c].action
            == ConstraintAction::Trade) && ((constraints[c].subject_type
            == ConstraintSubjectType::Asset && constraints[c].subject_id@ == asset_id)
            || (constraints[c].subject_type == ConstraintSubjectType::Account
            && constraints[c].subject_id@ == security.positions[p].account_id)
            || (constraints[c].subject_type == ConstraintSubjectType::Category
            && classified(values).contains(constraints[c].subject_id@))))) by {
        law_change_is_blocked(
            constraints,
            WorksheetDirection::Reduce,
            asset_id,
            Some(security.positions[p].account_id),
            classified(values),
        );
    }
    match records.eligible_asset_ids {
        Some(ids) => {
            let listed = crate::text::texts(ids@);
            assert forall|e: int| 0 <= e < ids@.len() implies (#[trigger] ids@[e])@
                == listed[e] by {}
            if listed.contains(asset_id) {
                let e = choose|e: int| 0 <= e < listed.len() && listed[e] == asset_id;
                assert(ids@[e]@ == asset_id);
            }
        },
        None => {},
    }
}

/// Whether a security has a value in a category.
pub open spec fn is_valued(security: SecurityInputView, category_id: Seq<char>) -> bool {
    exists|v: int|
        0 <= v < security.category_values.len() && (#[trigger] security.category_values[v]).0
            == category_id
}

/// What is held of a security in an account is every holding of it that is not
/// cash and of more than nothing, and no other.
pub proof fn law_every_holding_of_an_account_counts(
    account_id: Seq<char>,
    holdings: Seq<Holding>,
    asset_id: Seq<char>,
) -> (places: Seq<int>)
    ensures
        are_positions(places, holdings.len() as int),
        places.len() == held_in(account_id, holdings, asset_id).len(),
        forall|k: int|
            0 <= k < places.len() ==> held_in(account_id, holdings, asset_id)[k] == (
                account_id,
                holdings[#[trigger] places[k]].quantity,
            ),
        forall|i: int|
            0 <= i < holdings.len() ==> (places.contains(i) <==> (
            #[trigger] holdings[i]).holding_type != HoldingType::Cash && holdings[i].quantity@ > 0
                && (holdings[i].instrument_id is Some ==> holdings[i].instrument_id->0@
                == asset_id) && (holdings[i].instrument_id is None ==> holdings[i].id@
                == asset_id)),
{
    let places = lemma_kept_positions(holdings, |holding: Holding| is_position(holding, asset_id));
    assert forall|i: int| 0 <= i < holdings.len() implies (places.contains(i) <==> is_position(
        #[trigger] holdings[i],
        asset_id,
    )) by {
        if places.contains(i) {
            let k = choose|k: int| 0 <= k < places.len() && places[k] == i;
            assert(is_position(holdings[places[k]], asset_id));
        }
    }
    places
}

/// What is held of a security is what is held of it in each account, one account
/// after the other, none of them left out.
pub proof fn law_every_account_counts(
    a: Seq<(String, Vec<Holding>)>,
    b: Seq<(String, Vec<Holding>)>,
    asset_id: Seq<char>,
)
    ensures
        held_quantities(a + b, asset_id) == held_quantities(a, asset_id) + held_quantities(
            b,
            asset_id,
        ),
        forall|account: (String, Vec<Holding>)|
            held_quantities(seq![account], asset_id) == #[trigger] held_in(
                account.0@,
                account.1@,
                asset_id,
            ),
    decreases b.len(),
{
    if b.len() == 0 {
        assert(a + b =~= a);
        assert(held_quantities(a, asset_id) + held_quantities(b, asset_id) =~= held_quantities(
            a,
            asset_id,
        ));
    } else {
        law_every_account_counts(a, b.drop_last(), asset_id);
        assert((a + b).drop_last() =~= a + b.drop_last());
        assert(held_quantities(a + b, asset_id) =~= held_quantities(a, asset_id) + held_quantities(
            b,
            asset_id,
        ));
    }
    assert forall|account: (String, Vec<Holding>)|
        held_quantities(seq![account], asset_id) == #[trigger] held_in(
            account.0@,
            account.1@,
            asset_id,
        ) by {
        let one = seq![account];
        assert(one.drop_last() =~= Seq::empty());
        assert(held_quantities(one.drop_last(), asset_id) =~= Seq::empty());
        assert(held_quantities(one, asset_id) =~= held_in(account.0@, account.1@, asset_id));
    }
}

/// What a security is worth is every contribution of it that is not cash, under
/// the contribution's category, and no other.
pub proof fn law_every_contribution_counts(
    contributions: Seq<HoldingAllocationContribution>,
    asset_id: Seq<char>,
) -> (places: Seq<int>)
    ensures
        are_positions(places, contributions.len() as int),
        places.len() == contributed_values(contributions, asset_id).len(),
        forall|k: int|
            0 <= k < places.len() ==> contributed_values(contributions, asset_id)[k] == (
                contributions[#[trigger] places[k]].category_id@,
                contributions[places[k]].value,
            ),
        forall|i: int|
            0 <= i < contributions.len() ==> (places.contains(i) <==> (
            #[trigger] contributions[i]).holding_type != HoldingType::Cash
                && contributions[i].asset_id@ == asset_id),
    decreases contributions.len(),
{
    reveal(Seq::filter);
    if contributions.len() == 0 {
        Seq::empty()
    } else {
        let fewer = contributions.drop_last();
        let last = contributions.len() - 1;
        let before = law_every_contribution_counts(fewer, asset_id);
        let places = if contributions[last].holding_type != HoldingType::Cash
            && contributions[last].asset_id@ == asset_id {
            before.push(last)
        } else {
            before
        };
        assert(contributed_values(contributions,
            asset_id) =~= if contributions[last].holding_type != HoldingType::Cash
            && contributions[last].asset_id@ == asset_id {
            contributed_values(fewer, asset_id).push((contributions[last].category_id@,
                contributions[last].value))
        } else {
            contributed_values(fewer, asset_id)
        });
        lemma_grown_positions(before, last, contributions[last].holding_type != HoldingType::Cash
            && contributions[last].asset_id@ == asset_id, places);
        assert forall|k: int| 0 <= k < places.len() implies #[trigger] places[k] == if k
            < before.len() {
            before[k]
        } else {
            last
        } by {}
        assert forall|i: int| 0 <= i < contributions.len() implies (places.contains(i)
            <==> (#[trigger] contributions[i]).holding_type != HoldingType::Cash
            && contributions[i].asset_id@ == asset_id) by {
            if i < last {
                assert(fewer[i] == contributions[i]);
                assert(places.contains(i) <==> before.contains(i));
            } else {
                assert(i == last);
            }
        }
        places
    }
}

/// What stands under a key is every amount with the key, and no other.
pub proof fn law_every_amount_under_a_key_counts(
    pairs: Seq<(Seq<char>, Decimal)>,
    key: Seq<char>,
) -> (places: Seq<int>)
    ensures
        are_positions(places, pairs.len() as int),
        places.len() == amounts_under(pairs, key).len(),
        forall|k: int|
            0 <= k < places.len() ==> amounts_under(pairs, key)[k] == pairs[#[trigger] places[k]].1,
        forall|i: int|
            0 <= i < pairs.len() ==> (places.contains(i) <==> (#[trigger] pairs[i]).0 == key),
    decreases pairs.len(),
{
    reveal(Seq::filter);
    if pairs.len() == 0 {
        Seq::empty()
    } else {
        let fewer = pairs.drop_last();
        let last = pairs.len() - 1;
        let before = law_every_amount_under_a_key_counts(fewer, key);
        let places = if pairs[last].0 == key {
            before.push(last)
        } else {
            before
        };
        assert(amounts_under(pairs, key) =~= if pairs[last].0 == key {
            amounts_under(fewer, key).push(pairs[last].1)
        } else {
            amounts_under(fewer, key)
        });
        lemma_grown_positions(before, last, pairs[last].0 == key, places);
        assert forall|k: int| 0 <= k < places.len() implies #[trigger] places[k] == if k
            < before.len() {
            before[k]
        } else {
            last
        } by {}
        assert forall|i: int| 0 <= i < pairs.len() implies (places.contains(i)
            <==> (#[trigger] pairs[i]).0 == key) by {
            if i < last {
                assert(fewer[i] == pairs[i]);
                assert(places.contains(i) <==> before.contains(i));
            } else {
                assert(i == last);
            }
        }
        places
    }
}

/// Whether an entry stands under the key.
pub open spec fn is_keyed(entries: Seq<(Seq<char>, Decimal)>, key: Seq<char>) -> bool {
    exists|i: int| 0 <= i < entries.len() && (#[trigger] entries[i]).0 == key
}

/// Every key has one total, the sum of the amounts under it, and the keys are in
/// ascending order.
pub proof fn law_every_key_has_its_total(pairs: Seq<(Seq<char>, Decimal)>)
    requires
        totals_of(pairs) is Some,
    ensures
        is_ascending(keys_of(totals_of(pairs)->0)),
        forall|k: int|
            0 <= k < totals_of(pairs)->0.len() ==> total(
                amounts_under(pairs, (#[trigger] totals_of(pairs)->0[k]).0),
            ) == Some(totals_of(pairs)->0[k].1),
        forall|key: Seq<char>| #[trigger]
            is_keyed(pairs, key) <==> is_keyed(totals_of(pairs)->0, key),
{
    let keys = keys_of(pairs);
    lemma_listing_exists(keys);
    let listed = listing(keys.to_set());
    let each = listed.map_values(|key: Seq<char>| total_under(pairs, key));
    let totals = totals_of(pairs)->0;
    assert forall|k: int| 0 <= k < totals.len() implies (#[trigger] totals[k]).0 == listed[k]
        && total(amounts_under(pairs, totals[k].0)) == Some(totals[k].1) by {
        assert(each[k] is Some);
        assert(each[k] == total_under(pairs, listed[k]));
    }
    assert(keys_of(totals) =~= listed);
    assert forall|key: Seq<char>| #[trigger]
        is_keyed(pairs, key) <==> is_keyed(totals, key) by {
        if is_keyed(pairs, key) {
            let i = choose|i: int| 0 <= i < pairs.len() && (#[trigger] pairs[i]).0 == key;
            assert(keys[i] == key);
            assert(keys.to_set().contains(key));
            assert(listed.to_set().contains(key));
            let k = choose|k: int| 0 <= k < listed.len() && listed[k] == key;
            assert(totals[k].0 == key);
        }
        if is_keyed(totals, key) {
            let k = choose|k: int| 0 <= k < totals.len() && (#[trigger] totals[k]).0 == key;
            assert(listed[k] == key);
            assert(listed.to_set().contains(key));
            assert(keys.to_set().contains(key));
            let i = choose|i: int| 0 <= i < keys.len() && keys[i] == key;
            assert(pairs[i].0 == key);
        }
    }
}

/// Every security that a contribution other than cash names, and that is
/// recorded as an active tracked investment, is among the securities.
pub proof fn law_every_candidate_is_a_security(records: WorksheetRecords, i: int, a: int)
    requires
        securities_of(records) is Some,
        0 <= i < records.contributions@.len(),
        records.contributions@[i].holding_type != HoldingType::Cash,
        0 <= a < records.assets@.len(),
        records.assets@[a].id@ == records.contributions@[i].asset_id@,
        forall|b: int|
            a < b < records.assets@.len() ==> (#[trigger] records.assets@[b]).id@
                != records.assets@[a].id@,
        records.assets@[a].is_active,
        records.assets@[a].is_investment,
    ensures
        exists|k: int|
            0 <= k < securities_of(records)->0.len() && (#[trigger] securities_of(
                records,
            )->0[k]).asset_id == records.contributions@[i].asset_id@,
{
    let contributions = records.contributions@;
    let asset_id = contributions[i].asset_id@;
    law_asset_is_found(records.assets@, asset_id);
    assert(asset_with(records.assets@, asset_id) == Some(records.assets@[a])) by {
        assert(records.assets@[a].id@ == asset_id);
        let found = asset_with(records.assets@, asset_id)->0;
        let b = choose|b: int|
            0 <= b < records.assets@.len() && (#[trigger] records.assets@[b]) == found && found.id@
                == asset_id && (forall|k: int|
                b < k < records.assets@.len() ==> (#[trigger] records.assets@[k]).id@ != asset_id);
        assert(records.assets@[b].id@ == asset_id);
    }
    let named = contributed_assets(contributions);
    let is_counted = |contribution: HoldingAllocationContribution|
        contribution.holding_type != HoldingType::Cash;
    let places = lemma_kept_positions(contributions, is_counted);
    assert(is_counted(contributions[i]));
    assert(places.contains(i));
    let p = choose|p: int| 0 <= p < places.len() && places[p] == i;
    assert(named[p] == asset_id);
    assert(named.to_set().contains(named[p]));
    lemma_listing_exists(named);
    let ids = listing(named.to_set());
    assert(ids.to_set().contains(asset_id));
    let n = choose|n: int| 0 <= n < ids.len() && ids[n] == asset_id;
    let kept = |id: Seq<char>| is_candidate(records.assets@, id);
    let chosen_places = lemma_kept_positions(ids, kept);
    assert(kept(ids[n]));
    assert(chosen_places.contains(n));
    let k = choose|k: int| 0 <= k < chosen_places.len() && chosen_places[k] == n;
    let chosen = ids.filter(kept);
    assert(chosen[k] == ids[chosen_places[k]]);
    let each = chosen.map_values(
        |id: Seq<char>| security_of(id, asset_with(records.assets@, id)->0, records),
    );
    assert(securities_among(ids, records) == all_of(each));
    assert(each[k] is Some);
    assert(securities_of(records)->0[k].asset_id == asset_id);
}

/// A security is one that a contribution other than cash names and whose asset,
/// the last with its identifier, is active and a tracked investment; what is
/// said of it is what is recorded of that asset.
pub proof fn law_only_candidates_are_securities(records: WorksheetRecords, k: int) -> (found: (
    int,
    int,
))
    requires
        securities_of(records) is Some,
        0 <= k < securities_of(records)->0.len(),
    ensures
        0 <= found.0 < records.contributions@.len(),
        records.contributions@[found.0].holding_type != HoldingType::Cash,
        records.contributions@[found.0].asset_id@ == securities_of(records)->0[k].asset_id,
        0 <= found.1 < records.assets@.len(),
        records.assets@[found.1].id@ == securities_of(records)->0[k].asset_id,
        forall|b: int|
            found.1 < b < records.assets@.len() ==> (#[trigger] records.assets@[b]).id@
                != records.assets@[found.1].id@,
        records.assets@[found.1].is_active,
        records.assets@[found.1].is_investment,
        security_of(
            securities_of(records)->0[k].asset_id,
            records.assets@[found.1],
            records,
        ) == Some(securities_of(records)->0[k]),
{
    let contributions = records.contributions@;
    let named = contributed_assets(contributions);
    lemma_listing_exists(named);
    let ids = listing(named.to_set());
    let kept = |id: Seq<char>| is_candidate(records.assets@, id);
    let chosen_places = lemma_kept_positions(ids, kept);
    let chosen = ids.filter(kept);
    let each = chosen.map_values(
        |id: Seq<char>| security_of(id, asset_with(records.assets@, id)->0, records),
    );
    assert(securities_among(ids, records) == all_of(each));
    assert(each[k] is Some);
    let asset_id = chosen[k];
    assert(asset_id == ids[chosen_places[k]]);
    assert(kept(ids[chosen_places[k]]));
    assert(securities_of(records)->0[k].asset_id == asset_id);
    law_asset_is_found(records.assets@, asset_id);
    let asset = asset_with(records.assets@, asset_id)->0;
    let a = choose|a: int|
        0 <= a < records.assets@.len() && (#[trigger] records.assets@[a]) == asset && asset.id@
            == asset_id && (forall|b: int|
            a < b < records.assets@.len() ==> (#[trigger] records.assets@[b]).id@ != asset_id);
    assert(ids.to_set().contains(asset_id));
    assert(named.to_set().contains(asset_id));
    let p = choose|p: int| 0 <= p < named.len() && named[p] == asset_id;
    let is_counted = |contribution: HoldingAllocationContribution|
        contribution.holding_type != HoldingType::Cash;
    let places = lemma_kept_positions(contributions, is_counted);
    assert(is_counted(contributions[places[p]]));
    (places[p], a)
}

/// The asset that is looked up is the last with the identifier; none is found
/// only where none has it.
pub proof fn law_asset_is_found(assets: Seq<Asset>, asset_id: Seq<char>)
    ensures
        match asset_with(assets, asset_id) {
            Some(asset) => exists|i: int|
                0 <= i < assets.len() && (#[trigger] assets[i]) == asset && asset.id@ == asset_id
                    && (forall|k: int|
                    i < k < assets.len() ==> (#[trigger] assets[k]).id@ != asset_id),
            None => forall|k: int| 0 <= k < assets.len() ==> (#[trigger] assets[k]).id@ != asset_id,
        },
    decreases assets.len(),
{
    if assets.len() > 0 {
        let fewer = assets.drop_last();
        let last = assets.len() - 1;
        if assets[last].id@ == asset_id {
            assert(assets[last] == assets.last());
        } else {
            law_asset_is_found(fewer, asset_id);
            match asset_with(fewer, asset_id) {
                Some(asset) => {
                    let i = choose|i: int|
                        0 <= i < fewer.len() && (#[trigger] fewer[i]) == asset && asset.id@
                            == asset_id && (forall|k: int|
                            i < k < fewer.len() ==> (#[trigger] fewer[k]).id@ != asset_id);
                    assert(assets[i] == asset);
                    assert forall|k: int| i < k < assets.len() implies (#[trigger] assets[k]).id@
                        != asset_id by {
                        if k < last {
                            assert(fewer[k] == assets[k]);
                        }
                    }
                },
                None => {
                    assert forall|k: int| 0 <= k < assets.len() implies (#[trigger] assets[k]).id@
                        != asset_id by {
                        if k < last {
                            assert(fewer[k] == assets[k]);
                        }
                    }
                },
            }
        }
    }
}

/// The quote that is looked up is that of the first snapshot of the asset; none
/// is found where there is no snapshot of it.
pub proof fn law_quote_is_found(
    snapshots: Seq<(String, LatestQuoteSnapshot)>,
    asset_id: Seq<char>,
)
    ensures
        forall|k: int|
            0 <= k < snapshots.len() && (#[trigger] snapshots[k]).0@ == asset_id && (forall|j: int|
                0 <= j < k ==> (#[trigger] snapshots[j]).0@ != asset_id) ==> quote_of(
                snapshots,
                asset_id,
            ) == snapshots[k].1.quote,
        (forall|k: int| 0 <= k < snapshots.len() ==> (#[trigger] snapshots[k]).0@ != asset_id)
            ==> quote_of(snapshots, asset_id) is None,
    decreases snapshots.len(),
{
    if snapshots.len() > 0 {
        let rest = snapshots.drop_first();
        law_quote_is_found(rest, asset_id);
        assert forall|k: int|
            0 <= k < snapshots.len() && (#[trigger] snapshots[k]).0@ == asset_id && (forall|j: int|
                0 <= j < k ==> (#[trigger] snapshots[j]).0@ != asset_id) implies quote_of(
            snapshots,
            asset_id,
        ) == snapshots[k].1.quote by {
            if k > 0 {
                assert(snapshots[0].0@ != asset_id);
                assert(rest[k - 1] == snapshots[k]);
                assert forall|j: int| 0 <= j < k - 1 implies (#[trigger] rest[j]).0@
                    != asset_id by {
                    assert(snapshots[j + 1].0@ != asset_id);
                }
            }
        }
        if forall|k: int| 0 <= k < snapshots.len() ==> (#[trigger] snapshots[k]).0@ != asset_id {
            assert(snapshots[0].0@ != asset_id);
            assert forall|k: int| 0 <= k < rest.len() implies (#[trigger] rest[k]).0@
                != asset_id by {
                assert(snapshots[k + 1].0@ != asset_id);
            }
        }
    }
}

/// The accounts in which a security may be increased are those in scope, in
/// their order, but for those for which a constraint blocks buying it or
/// trading it: by its identifier, by the account or by a category that it is
/// classified in.
pub proof fn law_accounts_are_open_unless_blocked(
    security: SecurityInput,
    account_ids: Seq<Seq<char>>,
    constraints: Seq<AllocationTargetConstraint>,
) -> (places: Seq<int>)
    ensures
        are_positions(places, account_ids.len() as int),
        places.len() == accounts_open_to(security, account_ids, constraints).len(),
        forall|k: int|
            0 <= k < places.len() ==> accounts_open_to(security, account_ids, constraints)[k]
                == account_ids[#[trigger] places[k]],
        forall|i: int|
            0 <= i < account_ids.len() ==> (#[trigger] places.contains(i) <==> !(exists|c: int|
                0 <= c < constraints.len() && (#[trigger] constraints[c]).effect
                    == ConstraintEffect::Block && (constraints[c].action == ConstraintAction::Buy
                    || constraints[c].action == ConstraintAction::Trade) && ((
                constraints[c].subject_type == ConstraintSubjectType::Asset
                    && constraints[c].subject_id@ == security.asset_id@) || (
                constraints[c].subject_type == ConstraintSubjectType::Account
                    && constraints[c].subject_id@ == account_ids[i]) || (
                constraints[c].subject_type == ConstraintSubjectType::Category && classified(
                    keyed_views(security.category_values@),
                ).contains(constraints[c].subject_id@))))),
{
    let categories = classified(keyed_views(security.category_values@));
    let is_open = |account_id: Seq<char>|
        !blocks(
            constraints,
            WorksheetDirection::Increase,
            security.asset_id@,
            Some(account_id),
            categories,
        );
    let places = lemma_kept_positions(account_ids, is_open);
    assert forall|i: int| 0 <= i < account_ids.len() implies (#[trigger] places.contains(i)
        <==> !blocks(
        constraints,
        WorksheetDirection::Increase,
        security.asset_id@,
        Some(account_ids[i]),
        categories,
    )) by {
        if places.contains(i) {
            let k = choose|k: int| 0 <= k < places.len() && places[k] == i;
            assert(is_open(account_ids[places[k]]));
        }
        if is_open(account_ids[i]) {
            assert(places.contains(i));
        }
    }
    assert forall|i: int| 0 <= i < account_ids.len() implies (#[trigger] places.contains(i)
        <==> !(exists|c: int|
        0 <= c < constraints.len() && (#[trigger] constraints[c]).effect == ConstraintEffect::Block
            && (constraints[c].action == ConstraintAction::Buy || constraints[c].action
            == ConstraintAction::Trade) && ((constraints[c].subject_type
            == ConstraintSubjectType::Asset && constraints[c].subject_id@ == security.asset_id@)
                || (
        constraints[c].subject_type == ConstraintSubjectType::Account && constraints[c].subject_id@
            == account_ids[i]) || (constraints[c].subject_type
            == ConstraintSubjectType::Category && categories.contains(
            constraints[c].subject_id@,
        ))))) by {
        law_change_is_blocked(
            constraints,
            WorksheetDirection::Increase,
            security.asset_id@,
            Some(account_ids[i]),
            categories,
        );
    }
    places
}

/// The security whose accounts are listed is the last with the identifier;
/// none is found only where none has it.
pub proof fn law_last_security_is_found(securities: Seq<SecurityInput>, asset_id: Seq<char>)
    ensures
        match last_security(securities, asset_id) {
            Some(security) => exists|i: int|
                0 <= i < securities.len() && (#[trigger] securities[i]) == security
                    && security.asset_id@ == asset_id && (forall|k: int|
                    i < k < securities.len() ==> (#[trigger] securities[k]).asset_id@ != asset_id),
            None => forall|k: int|
                0 <= k < securities.len() ==> (#[trigger] securities[k]).asset_id@ != asset_id,
        },
    decreases securities.len(),
{
    if securities.len() > 0 {
        let fewer = securities.drop_last();
        let last = securities.len() - 1;
        if securities[last].asset_id@ == asset_id {
            assert(securities[last] == securities.last());
        } else {
            law_last_security_is_found(fewer, asset_id);
            match last_security(fewer, asset_id) {
                Some(security) => {
                    let i = choose|i: int|
                        0 <= i < fewer.len() && (#[trigger] fewer[i]) == security
                            && security.asset_id@ == asset_id && (forall|k: int|
                            i < k < fewer.len() ==> (#[trigger] fewer[k]).asset_id@ != asset_id);
                    assert(securities[i] == security);
                    assert forall|k: int| i < k < securities.len() implies (
                    #[trigger] securities[k]).asset_id@ != asset_id by {
                        if k < last {
                            assert(fewer[k] == securities[k]);
                        }
                    }
                },
                None => {
                    assert forall|k: int| 0 <= k < securities.len() implies (
                    #[trigger] securities[k]).asset_id@ != asset_id by {
                        if k < last {
                            assert(fewer[k] == securities[k]);
                        }
                    }
                },
            }
        }
    }
}

/// A security has the value in each category, and the units in each account,
/// that are recorded for it, and is shown by its code, its symbol or its
/// identifier.
pub proof fn law_security_is_as_recorded(
    asset_id: Seq<char>,
    asset: Asset,
    records: WorksheetRecords,
)
    requires
        security_of(asset_id, asset, records) is Some,
    ensures
        ({
            let security = security_of(asset_id, asset, records)->0;
            let held = held_quantities(records.holdings_by_account@, asset_id);
            let values = contributed_values(records.contributions@, asset_id);
            &&& asset.display_code is Some ==> security.symbol == asset.display_code->0@
            &&& asset.display_code is None && asset.instrument_symbol is Some ==> security.symbol
                == asset.instrument_symbol->0@
            &&& asset.display_code is None && asset.instrument_symbol is None ==> security.symbol
                == asset.id@
            &&& totals_of(values) == Some(security.category_values)
            &&& totals_of(held) is Some
            &&& security.positions.len() == totals_of(held)->0.len()
            &&& forall|p: int|
                0 <= p < security.positions.len() ==> (
                    (#[trigger] security.positions[p]).account_id,
                    security.positions[p].quantity,
                ) == totals_of(held)->0[p]
        }),
{
}

} // verus!
