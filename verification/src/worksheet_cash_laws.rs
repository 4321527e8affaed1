//! The worksheet never spends more cash than there is.

use crate::collect::all_of;
use crate::decimal::{
    exact_total, lemma_magnitude_not_negative, lemma_unit_positive, lemma_whole_value, magnitude,
    total, unit, Decimal,
};
use crate::worksheet_calculator::{
    available_funding, capped_amount, capped_amounts, deployed_amounts, first_security,
    funded_amount, funding_scaled, held_value, increase_amounts, increase_ids, limited, line_of,
    lines_of, moved_amounts, proceeds_funded_amounts, reducible_quantities, reduction_ids, scaled,
    turnover_scaled, usable_price, DraftIncrease, DraftReduction, IncreaseFunding, LimitedLineView,
    LimitsInput, PositionInput, SecurityInput,
};
use crate::worksheet_model::WorksheetDirection;
use vstd::prelude::*;

verus! {

/// The amounts of the increases that the selected cash covers.
pub open spec fn cash_funded_amounts(increases: Seq<DraftIncrease>) -> Seq<Decimal> {
    increases.filter(
        |increase: DraftIncrease| increase.funding == IncreaseFunding::Cash,
    ).map_values(|increase: DraftIncrease| increase.amount)
}

/// The price of a security's unit, zero where it has none.
pub open spec fn price_or_zero(security: SecurityInput) -> int {
    match security.unit_price {
        Some(price) => price@,
        None => 0,
    }
}

/// Whether what a security's units are worth is exact.
pub open spec fn is_held_unrounded(security: SecurityInput) -> bool {
    held_value(security) matches Some(held) && held@ * unit() == price_or_zero(security)
        * exact_total(reducible_quantities(security.positions@))
}

/// Whether the line of an amount says the amount itself or, of an increase in
/// whole units, no more than it.
pub open spec fn is_line_unrounded(
    line: LimitedLineView,
    amount: Decimal,
    direction: WorksheetDirection,
    whole_shares_only: bool,
) -> bool {
    match direction {
        WorksheetDirection::Increase => if whole_shares_only {
            line.amount@ <= amount@
        } else {
            line.amount@ == amount@
        },
        WorksheetDirection::Reduce => magnitude(line.amount)@ == amount@,
    }
}

/// Whether every line says the amount of its draft.
pub open spec fn are_lines_unrounded(
    asset_ids: Seq<Seq<char>>,
    amounts: Seq<Decimal>,
    direction: WorksheetDirection,
    securities: Seq<SecurityInput>,
    limits: LimitsInput,
) -> bool {
    forall|i: int|
        0 <= i < amounts.len() && (#[trigger] amounts[i])@ > 0 && usable_price(
            securities,
            asset_ids[i],
        ) is Some ==> is_line_unrounded(
            line_of(
                asset_ids[i],
                amounts[i],
                usable_price(securities, asset_ids[i])->0,
                direction,
                limits,
            )->0,
            amounts[i],
            direction,
            limits.whole_shares_only,
        )
}

/// Whether reductions are scaled to a cap with nothing rounded.
pub open spec fn is_cap_unrounded(
    capped: Seq<Decimal>,
    cap: Option<Decimal>,
    reduced: Seq<Decimal>,
    factor: Option<Decimal>,
) -> bool {
    factor matches Some(factor) ==> {
        &&& total(capped)->0@ == exact_total(capped)
        &&& factor@ * exact_total(capped) == cap->0@ * unit()
        &&& forall|i: int|
            0 <= i < capped.len() ==> (#[trigger] reduced[i])@ * unit() == capped[i]@ * factor@
    }
}

/// Whether increases are scaled to their funding with nothing rounded.
pub open spec fn is_funding_unrounded(
    increases: Seq<DraftIncrease>,
    available: Decimal,
    increased: Seq<Decimal>,
    factor: Option<Decimal>,
) -> bool {
    let needed = exact_total(increase_amounts(increases));
    let funded = exact_total(proceeds_funded_amounts(increases));
    let covered = funded - (needed - available@);
    &&& total(increase_amounts(increases))->0@ == needed
    &&& total(proceeds_funded_amounts(increases)) matches Some(sum) ==> sum@ == funded
    &&& factor matches Some(factor) ==> {
        &&& factor@ * funded == if covered < 0 {
            0
        } else {
            covered * unit()
        }
        &&& forall|i: int|
            0 <= i < increases.len() && increases[i].funding == IncreaseFunding::Proceeds ==> (
            #[trigger] increased[i])@ * unit() == increases[i].amount@ * factor@
    }
}

/// Whether nothing is rounded on the way through the limits.
pub open spec fn is_unrounded(
    increases: Seq<DraftIncrease>,
    reductions: Seq<DraftReduction>,
    securities: Seq<SecurityInput>,
    limits: LimitsInput,
) -> bool {
    let capped = capped_amounts(reductions, securities)->0;
    let (reduced, reduction_factor) = turnover_scaled(capped, limits.turnover_cap)->0;
    let available = available_funding(limits, reduced)->0;
    let (increased, increase_factor) = funding_scaled(increases, available)->0;
    let cash = limits.tracked_cash@ + limits.external_cash@;
    let done = limited(increases, reductions, securities, limits)->0;
    &&& forall|i: int|
        0 <= i < securities.len() ==> is_held_unrounded(#[trigger] securities[i])
    &&& is_cap_unrounded(capped, limits.turnover_cap, reduced, reduction_factor)
    &&& available@ == cash + exact_total(reduced)
    &&& is_funding_unrounded(increases, available, increased, increase_factor)
    &&& are_lines_unrounded(
        increase_ids(increases),
        increased,
        WorksheetDirection::Increase,
        securities,
        limits,
    )
    &&& are_lines_unrounded(
        reduction_ids(reductions),
        reduced,
        WorksheetDirection::Reduce,
        securities,
        limits,
    )
    &&& done.remaining_cash@ == cash + exact_total(moved_amounts(done.reductions)) - exact_total(
        deployed_amounts(done.increases),
    )
}

proof fn lemma_quantities_not_negative(positions: Seq<PositionInput>)
    requires
        forall|i: int| 0 <= i < positions.len() ==> (#[trigger] positions[i]).quantity@ >= 0,
    ensures
        exact_total(reducible_quantities(positions)) >= 0,
    decreases positions.len(),
{
    reveal(Seq::filter);
    if positions.len() > 0 {
        let fewer = positions.drop_last();
        assert forall|i: int| 0 <= i < fewer.len() implies (#[trigger] fewer[i]).quantity@
            >= 0 by {
            assert(fewer[i] == positions[i]);
        }
        lemma_quantities_not_negative(fewer);
        assert(positions[positions.len() - 1].quantity@ >= 0);
        if positions.last().can_reduce {
            let more = reducible_quantities(positions);
            assert(more.drop_last() =~= reducible_quantities(fewer));
            assert(more.last() == positions.last().quantity);
        } else {
            assert(reducible_quantities(positions) =~= reducible_quantities(fewer));
        }
    } else {
        assert(reducible_quantities(positions) =~= Seq::empty());
    }
}

proof fn lemma_first_security_is_one(securities: Seq<SecurityInput>, asset_id: Seq<char>)
    ensures
        first_security(securities, asset_id) matches Some(security) ==> securities.contains(
            security,
        ),
    decreases securities.len(),
{
    if securities.len() > 0 && securities[0].asset_id@ != asset_id {
        lemma_first_security_is_one(securities.drop_first(), asset_id);
        match first_security(securities.drop_first(), asset_id) {
            Some(security) => {
                let i = choose|i: int|
                    0 <= i < securities.drop_first().len() && securities.drop_first()[i]
                        == security;
                assert(securities[i + 1] == security);
            },
            None => {},
        }
    } else if securities.len() > 0 {
        assert(securities.contains(securities[0]));
    }
}

/// A reduction that is left after the cap to what is held is of a security with
/// a usable price.
proof fn lemma_capped_is_priced(reduction: DraftReduction, securities: Seq<SecurityInput>)
    requires
        capped_amount(reduction, securities) is Some,
        capped_amount(reduction, securities)->0@ > 0,
        forall|i: int| 0 <= i < securities.len() ==> is_held_unrounded(#[trigger] securities[i]),
        forall|i: int, k: int|
            0 <= i < securities.len() && 0 <= k < securities[i].positions@.len() ==> (
            #[trigger] securities[i].positions@[k]).quantity@ >= 0,
    ensures
        usable_price(securities, reduction.asset_id@) is Some,
{
    lemma_whole_value(0);
    lemma_unit_positive();
    lemma_first_security_is_one(securities, reduction.asset_id@);
    let security = first_security(securities, reduction.asset_id@)->0;
    let i = choose|i: int| 0 <= i < securities.len() && securities[i] == security;
    assert(is_held_unrounded(securities[i]));
    assert forall|k: int| 0 <= k < security.positions@.len() implies (
    #[trigger] security.positions@[k]).quantity@ >= 0 by {
        assert(securities[i].positions@[k].quantity@ >= 0);
    }
    lemma_quantities_not_negative(security.positions@);
    let held = held_value(security)->0@;
    let price = price_or_zero(security);
    let quantity = exact_total(reducible_quantities(security.positions@));
    assert(price > 0) by (nonlinear_arith)
        requires
            held > 0,
            unit() > 0,
            quantity >= 0,
            held * unit() == price * quantity,
    ;
}

/// The increases' lines together are no more than the amounts they are for.
proof fn lemma_deployed_at_most(
    asset_ids: Seq<Seq<char>>,
    amounts: Seq<Decimal>,
    securities: Seq<SecurityInput>,
    limits: LimitsInput,
)
    requires
        asset_ids.len() == amounts.len(),
        lines_of(asset_ids, amounts, WorksheetDirection::Increase, securities, limits) is Some,
        forall|i: int| 0 <= i < amounts.len() ==> (#[trigger] amounts[i])@ >= 0,
        are_lines_unrounded(
            asset_ids,
            amounts,
            WorksheetDirection::Increase,
            securities,
            limits,
        ),
    ensures
        exact_total(
            deployed_amounts(
                lines_of(
                    asset_ids,
                    amounts,
                    WorksheetDirection::Increase,
                    securities,
                    limits,
                )->0,
            ),
        ) <= exact_total(amounts),
    decreases amounts.len(),
{
    let direction = WorksheetDirection::Increase;
    if amounts.len() > 0 {
        let ids = asset_ids.drop_last();
        let fewer = amounts.drop_last();
        assert forall|i: int| 0 <= i < fewer.len() implies (#[trigger] fewer[i])@ >= 0 by {
            assert(fewer[i] == amounts[i]);
        }
        assert(are_lines_unrounded(ids, fewer, direction, securities, limits)) by {
            assert forall|i: int|
                0 <= i < fewer.len() && (#[trigger] fewer[i])@ > 0 && usable_price(
                    securities,
                    ids[i],
                ) is Some implies is_line_unrounded(
                line_of(
                    ids[i],
                    fewer[i],
                    usable_price(securities, ids[i])->0,
                    direction,
                    limits,
                )->0,
                fewer[i],
                direction,
                limits.whole_shares_only,
            ) by {
                assert(fewer[i] == amounts[i] && ids[i] == asset_ids[i]);
            }
        }
        lemma_deployed_at_most(ids, fewer, securities, limits);
        let before = lines_of(ids, fewer, direction, securities, limits)->0;
        let now = lines_of(asset_ids, amounts, direction, securities, limits)->0;
        assert(amounts[amounts.len() - 1] == amounts.last());
        assert(amounts.last()@ >= 0);
        if now.len() > before.len() {
            assert(deployed_amounts(now).drop_last() =~= deployed_amounts(before));
            assert(is_line_unrounded(
                now.last(),
                amounts.last(),
                direction,
                limits.whole_shares_only,
            ));
        }
    } else {
        assert(deployed_amounts(
            lines_of(asset_ids, amounts, direction, securities, limits)->0,
        ) =~= Seq::empty());
    }
}

/// The reductions' lines together are no less than the amounts they are for,
/// where each of those that are left has a usable price.
proof fn lemma_raised_at_least(
    asset_ids: Seq<Seq<char>>,
    amounts: Seq<Decimal>,
    securities: Seq<SecurityInput>,
    limits: LimitsInput,
)
    requires
        asset_ids.len() == amounts.len(),
        lines_of(asset_ids, amounts, WorksheetDirection::Reduce, securities, limits) is Some,
        forall|i: int|
            0 <= i < amounts.len() && (#[trigger] amounts[i])@ > 0 ==> usable_price(
                securities,
                asset_ids[i],
            ) is Some,
        are_lines_unrounded(asset_ids, amounts, WorksheetDirection::Reduce, securities, limits),
    ensures
        ({
            let raised = exact_total(
                moved_amounts(
                    lines_of(
                        asset_ids,
                        amounts,
                        WorksheetDirection::Reduce,
                        securities,
                        limits,
                    )->0,
                ),
            );
            raised >= 0 && raised >= exact_total(amounts)
        }),
    decreases amounts.len(),
{
    let direction = WorksheetDirection::Reduce;
    if amounts.len() > 0 {
        let ids = asset_ids.drop_last();
        let fewer = amounts.drop_last();
        assert forall|i: int| 0 <= i < fewer.len() && (#[trigger] fewer[i])@ > 0
            implies usable_price(
            securities,
            ids[i],
        ) is Some by {
            assert(fewer[i] == amounts[i] && ids[i] == asset_ids[i]);
        }
        assert(are_lines_unrounded(ids, fewer, direction, securities, limits)) by {
            assert forall|i: int|
                0 <= i < fewer.len() && (#[trigger] fewer[i])@ > 0 && usable_price(
                    securities,
                    ids[i],
                ) is Some implies is_line_unrounded(
                line_of(
                    ids[i],
                    fewer[i],
                    usable_price(securities, ids[i])->0,
                    direction,
                    limits,
                )->0,
                fewer[i],
                direction,
                limits.whole_shares_only,
            ) by {
                assert(fewer[i] == amounts[i] && ids[i] == asset_ids[i]);
            }
        }
        lemma_raised_at_least(ids, fewer, securities, limits);
        let before = lines_of(ids, fewer, direction, securities, limits)->0;
        let now = lines_of(asset_ids, amounts, direction, securities, limits)->0;
        assert(amounts[amounts.len() - 1] == amounts.last());
        if amounts.last()@ > 0 {
            assert(usable_price(securities, asset_ids[amounts.len() - 1]) is Some);
            assert(moved_amounts(now).drop_last() =~= moved_amounts(before));
            assert(is_line_unrounded(
                now.last(),
                amounts.last(),
                direction,
                limits.whole_shares_only,
            ));
        }
    } else {
        assert(moved_amounts(
            lines_of(asset_ids, amounts, direction, securities, limits)->0,
        ) =~= Seq::empty());
    }
}

/// The increases are those that cash covers and those that depend on proceeds,
/// before and after the latter are scaled.
proof fn lemma_increases_in_two(
    increases: Seq<DraftIncrease>,
    amounts: Seq<Decimal>,
    factor: int,
)
    requires
        amounts.len() == increases.len(),
        forall|i: int|
            0 <= i < increases.len() ==> (#[trigger] amounts[i])@ * unit() == increases[i].amount@
                * if increases[i].funding == IncreaseFunding::Proceeds {
                factor
            } else {
                unit()
            },
    ensures
        exact_total(amounts) * unit() == exact_total(cash_funded_amounts(increases)) * unit()
            + exact_total(proceeds_funded_amounts(increases)) * factor,
    decreases increases.len(),
{
    reveal(Seq::filter);
    if increases.len() > 0 {
        let fewer = increases.drop_last();
        let less = amounts.drop_last();
        let last = increases.last();
        assert forall|i: int| 0 <= i < fewer.len() implies (#[trigger] less[i])@ * unit()
            == fewer[i].amount@ * if fewer[i].funding == IncreaseFunding::Proceeds {
            factor
        } else {
            unit()
        } by {
            assert(less[i] == amounts[i] && fewer[i] == increases[i]);
        }
        lemma_increases_in_two(fewer, less, factor);
        assert(amounts[amounts.len() - 1] == amounts.last());
        let sum = exact_total(less);
        let cash = exact_total(cash_funded_amounts(fewer));
        let funded = exact_total(proceeds_funded_amounts(fewer));
        let next = amounts.last()@;
        let amount = last.amount@;
        if last.funding == IncreaseFunding::Proceeds {
            assert(cash_funded_amounts(increases) =~= cash_funded_amounts(fewer));
            assert(proceeds_funded_amounts(increases).drop_last() =~= proceeds_funded_amounts(
                fewer,
            ));
            assert(proceeds_funded_amounts(increases).last() == last.amount);
            assert((sum + next) * unit() == cash * unit() + (funded + amount) * factor)
                by (nonlinear_arith)
                requires
                    sum * unit() == cash * unit() + funded * factor,
                    next * unit() == amount * factor,
            ;
        } else {
            assert(proceeds_funded_amounts(increases) =~= proceeds_funded_amounts(fewer));
            assert(cash_funded_amounts(increases).drop_last() =~= cash_funded_amounts(fewer));
            assert(cash_funded_amounts(increases).last() == last.amount);
            assert((sum + next) * unit() == (cash + amount) * unit() + funded * factor)
                by (nonlinear_arith)
                requires
                    sum * unit() == cash * unit() + funded * factor,
                    next * unit() == amount * unit(),
            ;
        }
    } else {
        assert(cash_funded_amounts(increases) =~= Seq::empty());
        assert(proceeds_funded_amounts(increases) =~= Seq::empty());
        assert(0 * unit() + 0 * factor == 0) by (nonlinear_arith);
    }
}

/// The scaled increases together are no more than what is available, or no more
/// than what cash covers.
proof fn lemma_increased_at_most(
    increases: Seq<DraftIncrease>,
    available: Decimal,
    increased: Seq<Decimal>,
    factor: Option<Decimal>,
)
    requires
        funding_scaled(increases, available) == Some((increased, factor)),
        is_funding_unrounded(increases, available, increased, factor),
        forall|i: int| 0 <= i < increases.len() ==> (#[trigger] increases[i]).amount@ >= 0,
    ensures
        increased.len() == increases.len(),
        forall|i: int| 0 <= i < increased.len() ==> (#[trigger] increased[i])@ >= 0,
        exact_total(increased) <= available@ || exact_total(increased) <= exact_total(
            cash_funded_amounts(increases),
        ),
{
    lemma_unit_positive();
    lemma_whole_value(0);
    let amounts = increase_amounts(increases);
    let needed = exact_total(amounts);
    let cash = exact_total(cash_funded_amounts(increases));
    let funded = exact_total(proceeds_funded_amounts(increases));
    assert forall|i: int| 0 <= i < increases.len() implies (#[trigger] amounts[i])@ * unit()
        == increases[i].amount@ * if increases[i].funding == IncreaseFunding::Proceeds {
        unit()
    } else {
        unit()
    } by {}
    lemma_increases_in_two(increases, amounts, unit());
    assert(needed == cash + funded) by (nonlinear_arith)
        requires
            needed * unit() == cash * unit() + funded * unit(),
            unit() > 0,
    ;
    match factor {
        None => {
            assert(increased == amounts);
        },
        Some(factor) => {
            let each = increases.map_values(
                |increase: DraftIncrease| funded_amount(increase, factor),
            );
            assert(all_of(each) == Some(increased));
            assert(funded > 0);
            let covered = funded - (needed - available@);
            let owed = if covered < 0 {
                0
            } else {
                covered * unit()
            };
            assert(owed >= 0) by (nonlinear_arith)
                requires
                    owed == 0 || (covered >= 0 && owed == covered * unit()),
                    unit() > 0,
            ;
            assert(factor@ >= 0) by (nonlinear_arith)
                requires
                    factor@ * funded == owed,
                    owed >= 0,
                    funded > 0,
            ;
            assert forall|i: int| 0 <= i < increases.len() implies (#[trigger] increased[i])@
                * unit() == increases[i].amount@ * if increases[i].funding
                == IncreaseFunding::Proceeds {
                factor@
            } else {
                unit()
            } by {
                assert(each[i] is Some);
                assert(each[i] == funded_amount(increases[i], factor));
            }
            assert forall|i: int| 0 <= i < increased.len() implies (
            #[trigger] increased[i])@ >= 0 by {
                assert(each[i] is Some);
                assert(each[i] == funded_amount(increases[i], factor));
                if increases[i].funding == IncreaseFunding::Proceeds {
                    let value = increased[i]@;
                    let amount = increases[i].amount@;
                    assert(value >= 0) by (nonlinear_arith)
                        requires
                            value * unit() == amount * factor@,
                            amount >= 0,
                            factor@ >= 0,
                            unit() > 0,
                    ;
                }
            }
            lemma_increases_in_two(increases, increased, factor@);
            let sum = exact_total(increased);
            if covered < 0 {
                assert(sum == cash) by (nonlinear_arith)
                    requires
                        sum * unit() == cash * unit() + funded * factor@,
                        factor@ * funded == 0,
                        unit() > 0,
                ;
            } else {
                assert(sum == cash + covered) by (nonlinear_arith)
                    requires
                        sum * unit() == cash * unit() + funded * factor@,
                        factor@ * funded == covered * unit(),
                        unit() > 0,
                ;
            }
        },
    }
}

/// Amounts that are scaled with nothing rounded add up to the scaled sum.
proof fn lemma_scaled_total(amounts: Seq<Decimal>, scaled_amounts: Seq<Decimal>, factor: int)
    requires
        scaled_amounts.len() == amounts.len(),
        forall|i: int|
            0 <= i < amounts.len() ==> (#[trigger] scaled_amounts[i])@ * unit() == amounts[i]@
                * factor,
    ensures
        exact_total(scaled_amounts) * unit() == exact_total(amounts) * factor,
    decreases amounts.len(),
{
    if amounts.len() > 0 {
        let fewer = amounts.drop_last();
        let less = scaled_amounts.drop_last();
        assert forall|i: int| 0 <= i < fewer.len() implies (#[trigger] less[i])@ * unit()
            == fewer[i]@ * factor by {
            assert(less[i] == scaled_amounts[i] && fewer[i] == amounts[i]);
        }
        lemma_scaled_total(fewer, less, factor);
        let (sum, scaled_sum) = (exact_total(fewer), exact_total(less));
        let (next, scaled_next) = (amounts.last()@, scaled_amounts.last()@);
        assert(scaled_amounts[amounts.len() - 1] == scaled_amounts.last());
        assert((scaled_sum + scaled_next) * unit() == (sum + next) * factor) by (nonlinear_arith)
            requires
                scaled_sum * unit() == sum * factor,
                scaled_next * unit() == next * factor,
        ;
    } else {
        assert(0 * unit() == 0 * factor) by (nonlinear_arith);
    }
}

proof fn lemma_moved_not_negative(lines: Seq<LimitedLineView>)
    ensures
        exact_total(moved_amounts(lines)) >= 0,
    decreases lines.len(),
{
    if lines.len() > 0 {
        lemma_moved_not_negative(lines.drop_last());
        assert(moved_amounts(lines).drop_last() =~= moved_amounts(lines.drop_last()));
        lemma_magnitude_not_negative(lines.last().amount);
    }
}

/// No more cash is spent than there is: where nothing is rounded and the
/// selected cash covers the increases that were sized against it, the cash that
/// is left is not negative. Under the whole-unit policy parts of a unit may be
/// cut from increases, which only adds to it, but none from reductions, which
/// would raise less than the increases were promised.
pub proof fn law_cash_left_is_not_negative(
    increases: Seq<DraftIncrease>,
    reductions: Seq<DraftReduction>,
    securities: Seq<SecurityInput>,
    limits: LimitsInput,
)
    requires
        limited(increases, reductions, securities, limits) is Some,
        is_unrounded(increases, reductions, securities, limits),
        forall|i: int| 0 <= i < increases.len() ==> (#[trigger] increases[i]).amount@ >= 0,
        forall|i: int, k: int|
            0 <= i < securities.len() && 0 <= k < securities[i].positions@.len() ==> (
            #[trigger] securities[i].positions@[k]).quantity@ >= 0,
        exact_total(cash_funded_amounts(increases)) <= limits.tracked_cash@ + limits.external_cash@,
    ensures
        limited(increases, reductions, securities, limits)->0.remaining_cash@ >= 0,
{
    lemma_unit_positive();
    let capped = capped_amounts(reductions, securities)->0;
    let (reduced, reduction_factor) = turnover_scaled(capped, limits.turnover_cap)->0;
    let available = available_funding(limits, reduced)->0;
    let (increased, increase_factor) = funding_scaled(increases, available)->0;
    lemma_increased_at_most(increases, available, increased, increase_factor);
    lemma_deployed_at_most(increase_ids(increases), increased, securities, limits);
    let each = reductions.map_values(
        |reduction: DraftReduction| capped_amount(reduction, securities),
    );
    assert(all_of(each) == Some(capped));
    lemma_moved_not_negative(limited(increases, reductions, securities, limits)->0.reductions);
    if reduction_factor is Some {
        assert(scaled(capped, reduction_factor->0) == Some(reduced));
    }
    assert(reduced.len() == capped.len());
    let cap = limits.turnover_cap->0@;
    let sum = exact_total(capped);
    if reduction_factor is Some && cap < 0 {
        let factor = reduction_factor->0@;
        lemma_scaled_total(capped, reduced, factor);
        let raised = exact_total(reduced);
        assert(raised < 0) by (nonlinear_arith)
            requires
                raised * unit() == sum * factor,
                factor * sum == cap * unit(),
                cap < 0,
                unit() > 0,
        ;
    } else {
        if reduction_factor is Some {
            let factor = reduction_factor->0;
            assert(factor@ >= 0) by (nonlinear_arith)
                requires
                    factor@ * sum == cap * unit(),
                    cap >= 0,
                    unit() > 0,
                    sum > 0,
            ;
        }
        assert forall|i: int| 0 <= i < reduced.len() && (#[trigger] reduced[i])@ > 0
            implies usable_price(
            securities,
            reduction_ids(reductions)[i],
        ) is Some by {
            assert(each[i] is Some);
            assert(each[i] == capped_amount(reductions[i], securities));
            assert(capped[i]@ > 0) by {
                if reduction_factor is Some {
                    let factor = reduction_factor->0@;
                    let (value, amount) = (reduced[i]@, capped[i]@);
                    assert(amount > 0) by (nonlinear_arith)
                        requires
                            value * unit() == amount * factor,
                            value > 0,
                            factor >= 0,
                            unit() > 0,
                    ;
                }
            }
            lemma_capped_is_priced(reductions[i], securities);
        }
        lemma_raised_at_least(reduction_ids(reductions), reduced, securities, limits);
    }
}

} // verus!
