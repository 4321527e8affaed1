//! What the worksheet reads of securities and intents, and how a gap is split
//! over the securities that carry its category.

use crate::collect::{all_of, are_positions, lemma_kept_positions};
use crate::decimal::{decimal_product, decimal_quotient, lemma_whole_value, total, Decimal};
use crate::worksheet_calculator::{
    amounts_for, carriers, first_security, intent_of, is_carrier, name_of_category,
    proceeds_funded_amounts, reducible_quantities, split_of, value_recorded, values_in,
    CategoryTarget, DraftIncrease, IncreaseFunding, IntentView, PositionInput, SecurityInput,
};
use crate::worksheet_model::UnresolvedReason;
use vstd::prelude::*;

verus! {

/// What a security is worth in a category is what is recorded first for the
/// category, wherever it stands; zero only where nothing is recorded for it.
pub proof fn law_value_is_what_is_recorded(
    values: Seq<(String, Decimal)>,
    category_id: Seq<char>,
)
    ensures
        forall|i: int|
            0 <= i < values.len() && (#[trigger] values[i]).0@ == category_id && (forall|j: int|
                0 <= j < i ==> (#[trigger] values[j]).0@ != category_id) ==> value_recorded(
                values,
                category_id,
            ) == values[i].1,
        (forall|i: int| 0 <= i < values.len() ==> (#[trigger] values[i]).0@ != category_id)
            ==> value_recorded(values, category_id) == Decimal::whole(0),
    decreases values.len(),
{
    if values.len() > 0 {
        let rest = values.drop_first();
        law_value_is_what_is_recorded(rest, category_id);
        assert forall|i: int|
            0 <= i < values.len() && (#[trigger] values[i]).0@ == category_id && (forall|j: int|
                0 <= j < i ==> (#[trigger] values[j]).0@ != category_id) implies value_recorded(
            values,
            category_id,
        ) == values[i].1 by {
            if i > 0 {
                assert(values[0].0@ != category_id);
                assert(rest[i - 1] == values[i]);
                assert forall|j: int| 0 <= j < i - 1 implies (#[trigger] rest[j]).0@
                    != category_id by {
                    assert(values[j + 1].0@ != category_id);
                }
            }
        }
        if forall|i: int| 0 <= i < values.len() ==> (#[trigger] values[i]).0@ != category_id {
            assert(values[0].0@ != category_id);
            assert forall|i: int| 0 <= i < rest.len() implies (#[trigger] rest[i]).0@
                != category_id by {
                assert(values[i + 1].0@ != category_id);
            }
        }
    }
}

/// The units that may be reduced are those of every position that may be, and of
/// no other.
pub proof fn law_reducible_units_are_of_every_open_position(positions: Seq<PositionInput>) -> (places:
    Seq<int>)
    ensures
        are_positions(places, positions.len() as int),
        places.len() == reducible_quantities(positions).len(),
        forall|k: int|
            0 <= k < places.len() ==> reducible_quantities(positions)[k]
                == positions[#[trigger] places[k]].quantity && positions[places[k]].can_reduce,
        forall|i: int|
            0 <= i < positions.len() && (#[trigger] positions[i]).can_reduce ==> places.contains(i),
{
    lemma_kept_positions(positions, |position: PositionInput| position.can_reduce)
}

/// What is asked of a security is the amount of every intent for it, and of no
/// other.
pub proof fn law_every_intent_for_a_security_counts(
    intents: Seq<IntentView>,
    asset_id: Seq<char>,
) -> (places: Seq<int>)
    ensures
        are_positions(places, intents.len() as int),
        places.len() == amounts_for(intents, asset_id).len(),
        forall|k: int|
            0 <= k < places.len() ==> amounts_for(intents, asset_id)[k]
                == intents[#[trigger] places[k]].amount && intents[places[k]].asset_id == asset_id,
        forall|i: int|
            0 <= i < intents.len() && (#[trigger] intents[i]).asset_id == asset_id
                ==> places.contains(i),
{
    lemma_kept_positions(intents, |intent: IntentView| intent.asset_id == asset_id)
}

/// What depends on the reductions is the amount of every increase that proceeds
/// fund, and of no other.
pub proof fn law_every_increase_from_proceeds_counts(increases: Seq<DraftIncrease>) -> (places: Seq<
    int,
>)
    ensures
        are_positions(places, increases.len() as int),
        places.len() == proceeds_funded_amounts(increases).len(),
        forall|k: int|
            0 <= k < places.len() ==> proceeds_funded_amounts(increases)[k]
                == increases[#[trigger] places[k]].amount && increases[places[k]].funding
                == IncreaseFunding::Proceeds,
        forall|i: int|
            0 <= i < increases.len() && (#[trigger] increases[i]).funding
                == IncreaseFunding::Proceeds ==> places.contains(i),
{
    lemma_kept_positions(
        increases,
        |increase: DraftIncrease| increase.funding == IncreaseFunding::Proceeds,
    )
}

/// A category is reported under the name of the first category with its
/// identifier, or under the identifier where none has it.
pub proof fn law_category_is_named(categories: Seq<CategoryTarget>, category_id: Seq<char>)
    ensures
        forall|i: int|
            0 <= i < categories.len() && (#[trigger] categories[i]).category_id@ == category_id && (
            forall|j: int|
                0 <= j < i ==> (#[trigger] categories[j]).category_id@ != category_id)
                ==> name_of_category(categories, category_id) == categories[i].category_name@,
        (forall|i: int|
            0 <= i < categories.len() ==> (#[trigger] categories[i]).category_id@ != category_id)
            ==> name_of_category(categories, category_id) == category_id,
    decreases categories.len(),
{
    if categories.len() > 0 {
        let rest = categories.drop_first();
        law_category_is_named(rest, category_id);
        assert forall|i: int|
            0 <= i < categories.len() && (#[trigger] categories[i]).category_id@ == category_id && (
            forall|j: int|
                0 <= j < i ==> (#[trigger] categories[j]).category_id@
                    != category_id) implies name_of_category(categories, category_id)
            == categories[i].category_name@ by {
            if i > 0 {
                assert(categories[0].category_id@ != category_id);
                assert(rest[i - 1] == categories[i]);
                assert forall|j: int| 0 <= j < i - 1 implies (#[trigger] rest[j]).category_id@
                    != category_id by {
                    assert(categories[j + 1].category_id@ != category_id);
                }
            }
        }
        if forall|i: int|
            0 <= i < categories.len() ==> (#[trigger] categories[i]).category_id@ != category_id {
            assert(categories[0].category_id@ != category_id);
            assert forall|i: int| 0 <= i < rest.len() implies (#[trigger] rest[i]).category_id@
                != category_id by {
                assert(categories[i + 1].category_id@ != category_id);
            }
        }
    }
}

/// The security that is looked up is the first with the identifier; none is
/// found only where none has it.
pub proof fn law_security_is_found(securities: Seq<SecurityInput>, asset_id: Seq<char>)
    ensures
        forall|i: int|
            0 <= i < securities.len() && (#[trigger] securities[i]).asset_id@ == asset_id && (
            forall|j: int| 0 <= j < i ==> (#[trigger] securities[j]).asset_id@ != asset_id)
                ==> first_security(securities, asset_id) == Some(securities[i]),
        (forall|i: int|
            0 <= i < securities.len() ==> (#[trigger] securities[i]).asset_id@ != asset_id)
            ==> first_security(securities, asset_id) is None,
    decreases securities.len(),
{
    if securities.len() > 0 {
        let rest = securities.drop_first();
        law_security_is_found(rest, asset_id);
        assert forall|i: int|
            0 <= i < securities.len() && (#[trigger] securities[i]).asset_id@ == asset_id && (
            forall|j: int|
                0 <= j < i ==> (#[trigger] securities[j]).asset_id@
                    != asset_id) implies first_security(securities, asset_id) == Some(
            securities[i],
        ) by {
            if i > 0 {
                assert(securities[0].asset_id@ != asset_id);
                assert(rest[i - 1] == securities[i]);
                assert forall|j: int| 0 <= j < i - 1 implies (#[trigger] rest[j]).asset_id@
                    != asset_id by {
                    assert(securities[j + 1].asset_id@ != asset_id);
                }
            }
        }
        if forall|i: int|
            0 <= i < securities.len() ==> (#[trigger] securities[i]).asset_id@ != asset_id {
            assert(securities[0].asset_id@ != asset_id);
            assert forall|i: int| 0 <= i < rest.len() implies (#[trigger] rest[i]).asset_id@
                != asset_id by {
                assert(securities[i + 1].asset_id@ != asset_id);
            }
        }
    }
}

/// A gap is split over the securities that are worth something in its category,
/// may be adjusted in its direction and have a price: over all of them, in their
/// order, and over no other. Each takes the gap times what it is worth in the
/// category over what all of them are worth in it.
pub proof fn law_gap_is_split_over_its_carriers(
    category_id: Seq<char>,
    gap: Decimal,
    securities: Seq<SecurityInput>,
) -> (places: Seq<int>)
    requires
        gap@ != 0,
        split_of(category_id, gap, securities) matches Some(Ok(_)),
    ensures
        are_positions(places, securities.len() as int),
        places.len() == split_of(category_id, gap, securities)->0->Ok_0.len(),
        places.len() > 0,
        forall|k: int|
            0 <= k < places.len() ==> {
                let security = securities[#[trigger] places[k]];
                let intent = split_of(category_id, gap, securities)->0->Ok_0[k];
                let value = value_recorded(security.category_values@, category_id);
                let values = Seq::new(
                    places.len(),
                    |j: int|
                        value_recorded(securities[places[j]].category_values@, category_id),
                );
                &&& value@ > 0
                &&& gap@ > 0 ==> security.is_eligible_for_increase
                &&& gap@ < 0 ==> total(reducible_quantities(security.positions@)) is Some && total(
                    reducible_quantities(security.positions@),
                )->0@ > 0
                &&& security.unit_price is Some
                &&& security.unit_price->0@ > 0
                &&& intent.asset_id == security.asset_id@
                &&& intent.category_id == category_id
                &&& total(values) is Some
                &&& decimal_product(gap, value) is Some
                &&& decimal_quotient(decimal_product(gap, value)->0, total(values)->0) == Some(
                    intent.amount,
                )
            },
        forall|i: int|
            0 <= i < securities.len() && value_recorded(
                (#[trigger] securities[i]).category_values@,
                category_id,
            )@ > 0 && (gap@ > 0 ==> securities[i].is_eligible_for_increase) && (gap@ < 0 ==> total(
                reducible_quantities(securities[i].positions@),
            ) is Some && total(reducible_quantities(securities[i].positions@))->0@ > 0)
                && securities[i].unit_price is Some && securities[i].unit_price->0@ > 0
                ==> places.contains(i),
{
    let carrying = carriers(securities, category_id, gap);
    let places = lemma_kept_positions(
        securities,
        |security: SecurityInput| is_carrier(security, category_id, gap),
    );
    let values = Seq::new(
        places.len(),
        |j: int| value_recorded(securities[places[j]].category_values@, category_id),
    );
    assert forall|k: int| 0 <= k < places.len() implies carrying[k]
        == securities[#[trigger] places[k]]
        && is_carrier(carrying[k], category_id, gap) by {}
    assert(values =~= values_in(carrying, category_id)) by {
        assert forall|k: int| 0 <= k < places.len() implies values[k] == values_in(
            carrying,
            category_id,
        )[k] by {
            assert(carrying[k] == securities[places[k]]);
        }
    }
    let total_value = total(values)->0;
    let each = carrying.map_values(
        |security: SecurityInput| intent_of(security, category_id, gap, total_value),
    );
    assert(all_of(each) is Some);
    assert forall|k: int| 0 <= k < places.len() implies {
        let intent = split_of(category_id, gap, securities)->0->Ok_0[k];
        intent_of(securities[#[trigger] places[k]], category_id, gap, total_value) == Some(intent)
    } by {
        assert(each[k] is Some);
        assert(each[k] == intent_of(carrying[k], category_id, gap, total_value));
    }
    assert forall|i: int|
        0 <= i < securities.len() && is_carrier(#[trigger] securities[i], category_id, gap)
            implies places.contains(
        i,
    ) by {}
    places
}

/// A gap that cannot be placed is reported with the reason: that no security is
/// worth anything in its category, that none of those may be adjusted, or that
/// none of those has a price. A gap with a security that is, may be and has is
/// never reported so.
pub proof fn law_gap_is_reported_with_its_reason(
    category_id: Seq<char>,
    gap: Decimal,
    securities: Seq<SecurityInput>,
)
    ensures
        gap@ == 0 ==> split_of(category_id, gap, securities) == Some(
            Ok::<Seq<IntentView>, UnresolvedReason>(Seq::empty()),
        ),
        gap@ != 0 && (forall|i: int|
            0 <= i < securities.len() ==> value_recorded(
                (#[trigger] securities[i]).category_values@,
                category_id,
            )@ <= 0) ==> split_of(category_id, gap, securities) == Some(
            Err::<Seq<IntentView>, _>(UnresolvedReason::NoRecordedSecurity),
        ),
        gap@ > 0 && (exists|i: int|
            0 <= i < securities.len() && value_recorded(
                (#[trigger] securities[i]).category_values@,
                category_id,
            )@ > 0) && (forall|i: int|
            0 <= i < securities.len() && value_recorded(
                (#[trigger] securities[i]).category_values@,
                category_id,
            )@ > 0 ==> !securities[i].is_eligible_for_increase) ==> split_of(
            category_id,
            gap,
            securities,
        ) == Some(Err::<Seq<IntentView>, _>(UnresolvedReason::NoEligibleSecurity)),
        gap@ > 0 && (exists|i: int|
            0 <= i < securities.len() && value_recorded(
                (#[trigger] securities[i]).category_values@,
                category_id,
            )@ > 0 && securities[i].is_eligible_for_increase) && (forall|i: int|
            0 <= i < securities.len() && value_recorded(
                (#[trigger] securities[i]).category_values@,
                category_id,
            )@ > 0 && securities[i].is_eligible_for_increase ==> !(securities[i].unit_price is Some
                && securities[i].unit_price->0@ > 0)) ==> split_of(category_id, gap, securities)
            == Some(Err::<Seq<IntentView>, _>(UnresolvedReason::NoUsablePrice)),
        gap@ < 0 && (forall|i: int|
            0 <= i < securities.len() ==> total(
                reducible_quantities((#[trigger] securities[i]).positions@),
            ) is Some) && (exists|i: int|
            0 <= i < securities.len() && value_recorded(
                (#[trigger] securities[i]).category_values@,
                category_id,
            )@ > 0) && (forall|i: int|
            0 <= i < securities.len() && value_recorded(
                (#[trigger] securities[i]).category_values@,
                category_id,
            )@ > 0 ==> total(reducible_quantities(securities[i].positions@))->0@ <= 0)
            ==> split_of(category_id, gap, securities) == Some(
            Err::<Seq<IntentView>, _>(UnresolvedReason::NoEligibleSecurity),
        ),
{
    lemma_whole_value(0);
    let places = lemma_kept_positions(
        securities,
        |security: SecurityInput| is_carrier(security, category_id, gap),
    );
    if carriers(securities, category_id, gap).len() > 0 {
        assert(is_carrier(securities[places[0]], category_id, gap));
    }
    assert forall|i: int| 0 <= i < securities.len()
        implies (#[trigger] securities[i]).spec_value_in(
        category_id,
    ) == value_recorded(securities[i].category_values@, category_id) by {}
}

} // verus!
