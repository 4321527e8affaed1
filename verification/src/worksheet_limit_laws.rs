//! What the limits make of the drafts: every draft is capped, scaled and turned
//! into a line on its own terms, and the cash that is left accounts for all of
//! them.

use crate::collect::{all_of, are_positions, lemma_grown_positions};
use crate::decimal::{
    decimal_difference, decimal_product, decimal_quotient, decimal_sum, lemma_whole_value,
    magnitude, total, Decimal,
};
use crate::fx::{conversion_of, ExchangeRateView, MinorUnit};
use crate::worksheet_calculator::{
    capped_amounts, cash_left, deployed_amounts, funding_scaled, gaps_of, increase_amounts,
    increase_ids, limited, line_of, lines_of, moved_amounts, name_of_category,
    proceeds_funded_amounts, reducible_quantities, reduction_ids, split_of, spread_of,
    turnover_scaled, usable_price, CategoryTarget, DraftIncrease, DraftReduction, IncreaseFunding,
    Intent, LimitedAdjustments, LimitedLine, LimitsInput, SecurityInput,
};
use crate::worksheet_model::{
    Asset, LatestQuoteSnapshot, UnresolvedCategoryAmount, WorksheetDirection,
};
use crate::worksheet_service::{price_of, quote_of};
use crate::worksheet_split_laws::law_security_is_found;
use vstd::prelude::*;

verus! {

/// Every category has its gap, in the order of the categories: its share of the
/// planning total, less what it holds.
pub proof fn law_every_category_has_its_gap(
    categories: Seq<CategoryTarget>,
    planning_total: Decimal,
)
    requires
        gaps_of(categories, planning_total) is Some,
    ensures
        gaps_of(categories, planning_total)->0.len() == categories.len(),
        forall|i: int|
            0 <= i < categories.len() ==> {
                let share = decimal_quotient(
                    Decimal::whole((#[trigger] categories[i]).target_bps as int),
                    Decimal::whole(10000),
                );
                &&& share is Some
                &&& decimal_product(share->0, planning_total) is Some
                &&& decimal_difference(
                    decimal_product(share->0, planning_total)->0,
                    categories[i].current_value,
                ) == Some(gaps_of(categories, planning_total)->0[i])
            },
{
    let each = categories.map_values(
        |category: CategoryTarget|
            crate::worksheet_calculator::gap_of(category, planning_total),
    );
    assert(all_of(each) == gaps_of(categories, planning_total));
    assert forall|i: int| 0 <= i < categories.len() implies Some(
        gaps_of(categories, planning_total)->0[i],
    ) == crate::worksheet_calculator::gap_of(#[trigger] categories[i], planning_total) by {
        assert(each[i] is Some);
    }
}

/// Every category is spread in its turn: what its gap is split into is placed
/// behind what was placed before, or the whole gap is reported, under the
/// category and with the reason.
pub proof fn law_every_category_is_spread(
    categories: Seq<CategoryTarget>,
    gaps: Seq<Decimal>,
    securities: Seq<SecurityInput>,
    n: nat,
)
    requires
        n < categories.len(),
        spread_of(categories, gaps, securities, n + 1) is Some,
    ensures
        (spread_of(categories, gaps, securities, 0)->0).0.len() == 0,
        (spread_of(categories, gaps, securities, 0)->0).1.len() == 0,
        spread_of(categories, gaps, securities, n) is Some,
        ({
            let before = spread_of(categories, gaps, securities, n)->0;
            let now = spread_of(categories, gaps, securities, n + 1)->0;
            let split = split_of(categories[n as int].category_id@, gaps[n as int], securities);
            &&& split is Some
            &&& split->0 is Ok ==> now.0 == before.0 + split->0->Ok_0 && now.1 == before.1
            &&& split->0 is Err ==> {
                &&& now.0 == before.0
                &&& now.1.len() == before.1.len() + 1
                &&& now.1.drop_last() == before.1
                &&& now.1.last().category_id == categories[n as int].category_id@
                &&& now.1.last().category_name == name_of_category(
                    categories,
                    categories[n as int].category_id@,
                )
                &&& now.1.last().amount == gaps[n as int]
                &&& now.1.last().reason == split->0->Err_0
            }
        }),
{
    let before = spread_of(categories, gaps, securities, n)->0;
    let now = spread_of(categories, gaps, securities, n + 1)->0;
    let split = split_of(categories[n as int].category_id@, gaps[n as int], securities);
    if split->0 is Err {
        assert(now.1.drop_last() =~= before.1);
    }
}

/// The price that is used is that of the first security with the identifier,
/// where it is above zero.
pub proof fn law_usable_price_is_recorded(
    securities: Seq<SecurityInput>,
    asset_id: Seq<char>,
    i: int,
)
    requires
        0 <= i < securities.len(),
        securities[i].asset_id@ == asset_id,
        forall|k: int| 0 <= k < i ==> (#[trigger] securities[k]).asset_id@ != asset_id,
    ensures
        securities[i].unit_price is Some && securities[i].unit_price->0@ > 0 ==> usable_price(
            securities,
            asset_id,
        ) == securities[i].unit_price,
        securities[i].unit_price is None || securities[i].unit_price->0@ <= 0 ==> usable_price(
            securities,
            asset_id,
        ) is None,
    decreases securities.len(),
{
    if i > 0 {
        let rest = securities.drop_first();
        assert forall|k: int| 0 <= k < i - 1 implies (#[trigger] rest[k]).asset_id@ != asset_id by {
            assert(securities[k + 1].asset_id@ != asset_id);
        }
        assert(securities[0].asset_id@ != asset_id);
        law_usable_price_is_recorded(rest, asset_id, i - 1);
    }
}

/// A security that is not recorded has no price.
pub proof fn law_unknown_security_has_no_price(securities: Seq<SecurityInput>, asset_id: Seq<char>)
    requires
        forall|k: int| 0 <= k < securities.len()
            ==> (#[trigger] securities[k]).asset_id@ != asset_id,
    ensures
        usable_price(securities, asset_id) is None,
    decreases securities.len(),
{
    if securities.len() > 0 {
        let rest = securities.drop_first();
        assert forall|k: int| 0 <= k < rest.len() implies (#[trigger] rest[k]).asset_id@
            != asset_id by {
            assert(securities[k + 1].asset_id@ != asset_id);
        }
        assert(securities[0].asset_id@ != asset_id);
        law_unknown_security_has_no_price(rest, asset_id);
    }
}

/// Every reduction is capped on its own: to what the open units of its security
/// are worth where that is less, and to nothing where the security is not
/// recorded.
pub proof fn law_every_reduction_is_capped(
    reductions: Seq<DraftReduction>,
    securities: Seq<SecurityInput>,
    i: int,
)
    requires
        capped_amounts(reductions, securities) is Some,
        0 <= i < reductions.len(),
    ensures
        capped_amounts(reductions, securities)->0.len() == reductions.len(),
        capped_amounts(reductions, securities)->0[i]@ <= reductions[i].amount@
            || capped_amounts(reductions, securities)->0[i]@ == 0,
        (forall|s: int|
            0 <= s < securities.len() ==> (#[trigger] securities[s]).asset_id@
                != reductions[i].asset_id@) ==> capped_amounts(reductions, securities)->0[i]@ == 0,
        forall|s: int|
            0 <= s < securities.len() && (#[trigger] securities[s]).asset_id@
                == reductions[i].asset_id@ && securities[s].unit_price is Some && (forall|r: int|
                0 <= r < s ==> (#[trigger] securities[r]).asset_id@ != reductions[i].asset_id@)
                    ==> {
                let units = total(reducible_quantities(securities[s].positions@));
                let capped = capped_amounts(reductions, securities)->0[i];
                &&& units is Some
                &&& decimal_product(securities[s].unit_price->0, units->0) is Some
                &&& ({
                    let held = decimal_product(securities[s].unit_price->0, units->0)->0;
                    &&& reductions[i].amount@ <= held@ ==> capped == reductions[i].amount
                    &&& held@ < reductions[i].amount@ ==> capped == held
                })
            },
{
    lemma_whole_value(0);
    let each = reductions.map_values(
        |reduction: DraftReduction|
            crate::worksheet_calculator::capped_amount(reduction, securities),
    );
    assert(all_of(each) == capped_amounts(reductions, securities));
    assert(each[i] is Some);
    assert(each[i] == crate::worksheet_calculator::capped_amount(reductions[i], securities));
    law_security_is_found(securities, reductions[i].asset_id@);
}

/// Reductions that add up to no more than the cap stand as they are; above it
/// every one of them is taken times the cap over their total.
pub proof fn law_every_reduction_is_scaled(amounts: Seq<Decimal>, cap: Option<Decimal>)
    requires
        turnover_scaled(amounts, cap) is Some,
    ensures
        ({
            let (fitted, factor) = turnover_scaled(amounts, cap)->0;
            &&& fitted.len() == amounts.len()
            &&& factor is None ==> fitted == amounts
            &&& factor is Some <==> cap is Some && total(amounts) is Some && total(amounts)->0@
                > cap->0@ && total(amounts)->0@ > 0
            &&& factor is Some ==> decimal_quotient(cap->0, total(amounts)->0) == factor
            &&& factor is Some ==> forall|i: int|
                0 <= i < amounts.len() ==> decimal_product(amounts[i], factor->0) == Some(
                    #[trigger] fitted[i],
                )
        }),
{
    let (fitted, factor) = turnover_scaled(amounts, cap)->0;
    if factor is Some {
        let each = amounts.map_values(|amount: Decimal| decimal_product(amount, factor->0));
        assert(all_of(each) == crate::worksheet_calculator::scaled(amounts, factor->0));
        assert forall|i: int| 0 <= i < amounts.len() implies decimal_product(amounts[i], factor->0)
            == Some(#[trigger] fitted[i]) by {
            assert(each[i] is Some);
        }
    }
}

/// Increases that need no more than is available stand as they are; where they
/// need more, every one that proceeds fund is taken times the part of them that
/// is covered, and every other stands as it is.
pub proof fn law_every_increase_is_funded(increases: Seq<DraftIncrease>, available: Decimal)
    requires
        funding_scaled(increases, available) is Some,
    ensures
        ({
            let (fitted, factor) = funding_scaled(increases, available)->0;
            let needed = total(increase_amounts(increases))->0;
            let funded = total(proceeds_funded_amounts(increases))->0;
            &&& fitted.len() == increases.len()
            &&& factor is Some <==> needed@ > available@ && funded@ > 0
            &&& factor is Some ==> factor->0@ >= 0
            &&& factor is Some ==> {
                let shortfall = decimal_difference(needed, available)->0;
                let part = decimal_quotient(decimal_difference(funded, shortfall)->0, funded)->0;
                &&& part@ >= 0 ==> factor->0 == part
                &&& part@ < 0 ==> factor->0@ == 0
            }
            &&& forall|i: int|
                0 <= i < increases.len() && (factor is None || (
                #[trigger] increases[i]).funding != IncreaseFunding::Proceeds) ==> fitted[i]
                    == increases[i].amount
            &&& forall|i: int|
                0 <= i < increases.len() && factor is Some && (#[trigger] increases[i]).funding
                    == IncreaseFunding::Proceeds ==> decimal_product(
                    increases[i].amount,
                    factor->0,
                ) == Some(fitted[i])
        }),
{
    lemma_whole_value(0);
    let (fitted, factor) = funding_scaled(increases, available)->0;
    if factor is Some {
        let each = increases.map_values(
            |increase: DraftIncrease|
                crate::worksheet_calculator::funded_amount(increase, factor->0),
        );
        assert(all_of(each) == Some(fitted));
        assert forall|i: int| 0 <= i < increases.len() implies Some(fitted[i])
            == crate::worksheet_calculator::funded_amount(#[trigger] increases[i], factor->0) by {
            assert(each[i] is Some);
        }
    }
}

/// A line is of its security, at its price: the quantity is what the amount buys,
/// floored where only whole units may be held, and the amount is what that costs,
/// both with the sign of the direction. It is below the minimum where the cost,
/// without the sign, is less than a minimum above zero.
pub proof fn law_line_is_of_its_draft(
    asset_id: Seq<char>,
    amount: Decimal,
    unit_price: Decimal,
    direction: WorksheetDirection,
    limits: LimitsInput,
)
    requires
        line_of(asset_id, amount, unit_price, direction, limits) is Some,
    ensures
        ({
            let line = line_of(asset_id, amount, unit_price, direction, limits)->0;
            let bought = decimal_quotient(amount, unit_price);
            let quantity = if limits.whole_shares_only {
                crate::decimal::floor_of(bought->0)
            } else {
                bought->0
            };
            let cost = decimal_product(quantity, unit_price);
            let sign = if direction == WorksheetDirection::Reduce {
                Decimal::whole(-1)
            } else {
                Decimal::whole(1)
            };
            &&& bought is Some
            &&& cost is Some
            &&& line.asset_id == asset_id
            &&& line.unit_price == unit_price
            &&& decimal_product(cost->0, sign) == Some(line.amount)
            &&& decimal_product(quantity, sign) == Some(line.quantity)
            &&& line.is_below_minimum <==> limits.min_line_amount@ > 0 && cost->0@
                < limits.min_line_amount@
        }),
{
}

/// Every draft of more than nothing whose security has a usable price gives one
/// line, in the order of the drafts, under the draft's own identifier and at the
/// price of its security; no other draft gives one.
pub proof fn law_every_priced_draft_gives_a_line(
    asset_ids: Seq<Seq<char>>,
    amounts: Seq<Decimal>,
    direction: WorksheetDirection,
    securities: Seq<SecurityInput>,
    limits: LimitsInput,
) -> (places: Seq<int>)
    requires
        asset_ids.len() == amounts.len(),
        lines_of(asset_ids, amounts, direction, securities, limits) is Some,
    ensures
        are_positions(places, amounts.len() as int),
        places.len() == lines_of(asset_ids, amounts, direction, securities, limits)->0.len(),
        forall|k: int|
            0 <= k < places.len() ==> {
                let line = lines_of(asset_ids, amounts, direction, securities, limits)->0[k];
                &&& line.asset_id == asset_ids[#[trigger] places[k]]
                &&& usable_price(securities, asset_ids[places[k]]) == Some(line.unit_price)
                &&& line_of(
                    asset_ids[places[k]],
                    amounts[places[k]],
                    line.unit_price,
                    direction,
                    limits,
                ) == Some(line)
            },
        forall|i: int|
            0 <= i < amounts.len() ==> (#[trigger] places.contains(i) <==> amounts[i]@ > 0
                && usable_price(securities, asset_ids[i]) is Some),
    decreases amounts.len(),
{
    if amounts.len() == 0 {
        Seq::empty()
    } else {
        let fewer_ids = asset_ids.drop_last();
        let fewer = amounts.drop_last();
        let last = amounts.len() - 1;
        let before = law_every_priced_draft_gives_a_line(
            fewer_ids,
            fewer,
            direction,
            securities,
            limits,
        );
        let is_kept = amounts[last]@ > 0 && usable_price(securities, asset_ids[last]) is Some;
        let places = if is_kept {
            before.push(last)
        } else {
            before
        };
        lemma_grown_positions(before, last, is_kept, places);
        let earlier = lines_of(fewer_ids, fewer, direction, securities, limits)->0;
        let now = lines_of(asset_ids, amounts, direction, securities, limits)->0;
        assert forall|k: int| 0 <= k < places.len() implies {
            let line = now[k];
            &&& line.asset_id == asset_ids[#[trigger] places[k]]
            &&& usable_price(securities, asset_ids[places[k]]) == Some(line.unit_price)
            &&& line_of(
                asset_ids[places[k]],
                amounts[places[k]],
                line.unit_price,
                direction,
                limits,
            ) == Some(line)
        } by {
            if k < before.len() {
                assert(places[k] == before[k]);
                assert(now[k] == earlier[k]);
                assert(fewer[before[k]] == amounts[before[k]]);
                assert(fewer_ids[before[k]] == asset_ids[before[k]]);
            } else {
                assert(places[k] == last);
            }
        }
        assert forall|i: int| 0 <= i < amounts.len() implies (#[trigger] places.contains(i)
            <==> amounts[i]@ > 0 && usable_price(securities, asset_ids[i]) is Some) by {
            if i < last {
                assert(places.contains(i) <==> before.contains(i));
                assert(fewer[i] == amounts[i] && fewer_ids[i] == asset_ids[i]);
            }
        }
        places
    }
}

/// Every draft goes through the limits under its own identifier: the reductions
/// are capped and then scaled, the increases are funded from the selected cash
/// and what those reductions raise, and the cash left is the selected cash with
/// what the lines raise, less what they deploy.
pub proof fn law_limits_apply_to_every_draft(
    increases: Seq<DraftIncrease>,
    reductions: Seq<DraftReduction>,
    securities: Seq<SecurityInput>,
    limits: LimitsInput,
)
    requires
        limited(increases, reductions, securities, limits) is Some,
    ensures
        increase_ids(increases).len() == increases.len(),
        forall|i: int|
            0 <= i < increases.len() ==> #[trigger] increase_ids(increases)[i]
                == increases[i].asset_id@,
        increase_amounts(increases).len() == increases.len(),
        forall|i: int|
            0 <= i < increases.len() ==> #[trigger] increase_amounts(increases)[i]
                == increases[i].amount,
        reduction_ids(reductions).len() == reductions.len(),
        forall|i: int|
            0 <= i < reductions.len() ==> #[trigger] reduction_ids(reductions)[i]
                == reductions[i].asset_id@,
        ({
            let found = limited(increases, reductions, securities, limits)->0;
            let capped = capped_amounts(reductions, securities)->0;
            let reduced = turnover_scaled(capped, limits.turnover_cap)->0;
            let cash = decimal_sum(limits.tracked_cash, limits.external_cash)->0;
            let available = decimal_sum(cash, total(reduced.0)->0)->0;
            let funded = funding_scaled(increases, available)->0;
            &&& lines_of(
                increase_ids(increases),
                funded.0,
                WorksheetDirection::Increase,
                securities,
                limits,
            ) == Some(found.increases)
            &&& lines_of(
                reduction_ids(reductions),
                reduced.0,
                WorksheetDirection::Reduce,
                securities,
                limits,
            ) == Some(found.reductions)
            &&& found.scaling.reduction_factor == reduced.1
            &&& found.scaling.increase_factor == funded.1
            &&& cash_left(limits, found.increases, found.reductions) == Some(found.remaining_cash)
            &&& decimal_difference(
                decimal_sum(cash, total(moved_amounts(found.reductions))->0)->0,
                total(deployed_amounts(found.increases))->0,
            ) == Some(found.remaining_cash)
            &&& moved_amounts(found.reductions).len() == found.reductions.len()
            &&& deployed_amounts(found.increases).len() == found.increases.len()
            &&& forall|k: int|
                0 <= k < found.reductions.len() ==> #[trigger] moved_amounts(found.reductions)[k]
                    == magnitude(found.reductions[k].amount)
            &&& forall|k: int|
                0 <= k < found.increases.len() ==> #[trigger] deployed_amounts(found.increases)[k]
                    == found.increases[k].amount
        }),
{
}

/// A price is the close of the asset's quote, converted from the quote's
/// currency to the base currency, for a whole contract; there is one only where
/// the close and the price are above zero.
pub proof fn law_price_is_the_converted_close(
    asset: Asset,
    snapshots: Seq<(String, LatestQuoteSnapshot)>,
    base_currency: Seq<char>,
    rates: Seq<ExchangeRateView>,
    units: Seq<MinorUnit>,
)
    ensures
        quote_of(snapshots, asset.id@) is None ==> price_of(
            asset,
            snapshots,
            base_currency,
            rates,
            units,
        ) == Some(None::<Decimal>),
        quote_of(snapshots, asset.id@) is Some && quote_of(snapshots, asset.id@)->0.close@ <= 0
            ==> price_of(asset, snapshots, base_currency, rates, units) == Some(None::<Decimal>),
        ({
            let price = price_of(asset, snapshots, base_currency, rates, units);
            let quote = quote_of(snapshots, asset.id@)->0;
            let conversion = conversion_of(rates, units, quote.currency@, base_currency);
            &&& price is Some && price->0 is Some ==> {
                &&& quote_of(snapshots, asset.id@) is Some
                &&& quote.close@ > 0
                &&& conversion is Some && conversion->0 is Ok
                &&& decimal_product(quote.close, (conversion->0->Ok_0).0) is Some
                &&& decimal_product(
                    decimal_product(quote.close, (conversion->0->Ok_0).0)->0,
                    asset.contract_multiplier,
                ) == price->0
                &&& price->0->0@ > 0
            }
            &&& quote_of(snapshots, asset.id@) is Some && quote.close@ > 0 && conversion is Some
                && conversion->0 is Err ==> price == Some(None::<Decimal>)
            &&& quote_of(snapshots, asset.id@) is Some && quote.close@ > 0 && conversion is Some
                && conversion->0 is Ok && decimal_product(
                quote.close,
                (conversion->0->Ok_0).0,
            ) is Some && decimal_product(
                decimal_product(quote.close, (conversion->0->Ok_0).0)->0,
                asset.contract_multiplier,
            ) is Some && decimal_product(
                decimal_product(quote.close, (conversion->0->Ok_0).0)->0,
                asset.contract_multiplier,
            )->0@ > 0 ==> price is Some && price->0 is Some
        }),
{
}

/// An intent, a line and an amount that is not placed are seen with everything
/// that they say.
pub proof fn law_amounts_are_seen_whole(
    intent: Intent,
    line: LimitedLine,
    unresolved: UnresolvedCategoryAmount,
)
    ensures
        intent@.asset_id == intent.asset_id@,
        intent@.category_id == intent.category_id@,
        intent@.amount == intent.amount,
        line@.asset_id == line.asset_id@,
        line@.amount == line.amount,
        line@.quantity == line.quantity,
        line@.unit_price == line.unit_price,
        line@.is_below_minimum == line.is_below_minimum,
        unresolved@.category_id == unresolved.category_id@,
        unresolved@.category_name == unresolved.category_name@,
        unresolved@.amount == unresolved.amount,
        unresolved@.reason == unresolved.reason,
{
}

/// Limited adjustments are seen with every line and everything else that they
/// say.
pub proof fn law_adjustments_are_seen_whole(adjustments: LimitedAdjustments)
    ensures
        adjustments@.increases.len() == adjustments.increases@.len(),
        forall|k: int|
            0 <= k < adjustments.increases@.len() ==> adjustments@.increases[k] == (
            #[trigger] adjustments.increases@[k])@,
        adjustments@.reductions.len() == adjustments.reductions@.len(),
        forall|k: int|
            0 <= k < adjustments.reductions@.len() ==> adjustments@.reductions[k] == (
            #[trigger] adjustments.reductions@[k])@,
        adjustments@.scaling == adjustments.scaling,
        adjustments@.remaining_cash == adjustments.remaining_cash,
{
}

/// A security is seen with every value, every position and everything else that
/// it says.
pub proof fn law_security_is_seen_whole(security: SecurityInput)
    ensures
        security@.asset_id == security.asset_id@,
        security@.symbol == security.symbol@,
        security@.unit_price == security.unit_price,
        security@.is_eligible_for_increase == security.is_eligible_for_increase,
        security@.category_values.len() == security.category_values@.len(),
        forall|k: int|
            0 <= k < security.category_values@.len() ==> security@.category_values[k] == ((
            #[trigger] security.category_values@[k]).0@, security.category_values@[k].1),
        security@.positions.len() == security.positions@.len(),
        forall|k: int|
            0 <= k < security.positions@.len() ==> security@.positions[k].account_id == (
            #[trigger] security.positions@[k]).account_id@ && security@.positions[k].quantity
                == security.positions@[k].quantity && security@.positions[k].can_reduce
                == security.positions@[k].can_reduce,
{
}

} // verus!
