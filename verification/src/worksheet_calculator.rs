//! Arithmetic behind the calculated rebalancing worksheet.
//!
//! Everything here is a function of inputs that have already been resolved: no
//! repositories, no clock, no currency conversion.
//!
//! The boundary this module holds: it spreads amounts the user's own target
//! implies, over securities the user marked eligible, by a rule the user
//! picked. It never ranks, scores or chooses between securities.
//!
//! Wherever a result is an `Option`, `None` says that an amount on the way to
//! it does not fit a decimal.

use crate::collect::{all_of, are_positions, lemma_all_of_none};
use crate::decimal::{
    add_decimals, decimal_difference, decimal_product, decimal_quotient, decimal_sum,
    divide_decimals, exact_total, floor_decimal, floor_of, greater, is_exact_total,
    lemma_exact_total_of_two, lemma_exact_total_step, lemma_representable_negated,
    lemma_unit_positive, lemma_valid_is_representable, lemma_whole_value, lesser, magnitude,
    multiply_decimals, representable, subtract_decimals, sum_decimals, total, unit, Decimal,
};
use crate::text::{same_text, texts};
use crate::worksheet_laws::{law_exact_shares_add_up_to_the_gap, lemma_sum_is_total, values_of};
use crate::worksheet_split_laws::law_gap_is_split_over_its_carriers;
use crate::worksheet_model::{
    AdjustmentScaling, UnresolvedCategoryAmount, UnresolvedCategoryAmountView, UnresolvedReason,
    WorksheetDirection,
};
use vstd::arithmetic::power::pow;
use vstd::prelude::*;

verus! {

/// A target category as the calculation sees it, taken from the drift report.
#[derive(Clone, Debug)]
pub struct CategoryTarget {
    pub category_id: String,
    pub category_name: String,
    pub target_bps: i32,
    pub current_value: Decimal,
}

/// Where one security's units sit, and whether they may be reduced.
#[derive(Clone, Debug)]
pub struct PositionInput {
    pub account_id: String,
    pub quantity: Decimal,
    /// False when a do-not-sell constraint covers this position. Eligibility
    /// never sets this: it gates increases only.
    pub can_reduce: bool,
}

/// A recorded security: what it is worth in each category, what a unit costs,
/// and where its units sit.
#[derive(Clone, Debug)]
pub struct SecurityInput {
    pub asset_id: String,
    pub symbol: String,
    /// Base currency, contract multiplier already applied. `None` when no
    /// usable price could be resolved.
    pub unit_price: Option<Decimal>,
    /// Chosen by the user as able to receive increases.
    pub is_eligible_for_increase: bool,
    /// Value attributed to each category, in base currency. A security
    /// classified across several categories appears once per category.
    pub category_values: Vec<(String, Decimal)>,
    pub positions: Vec<PositionInput>,
}

/// One category's share of what a security should be adjusted by, before the
/// per-security amounts are combined.
#[derive(Clone, Debug, PartialEq)]
pub struct Intent {
    pub asset_id: String,
    pub category_id: String,
    /// Signed: positive increases the position, negative reduces it.
    pub amount: Decimal,
}

pub ghost struct IntentView {
    pub asset_id: Seq<char>,
    pub category_id: Seq<char>,
    pub amount: Decimal,
}

impl View for Intent {
    type V = IntentView;

    open spec fn view(&self) -> IntentView {
        IntentView {
            asset_id: self.asset_id@,
            category_id: self.category_id@,
            amount: self.amount,
        }
    }
}

/// The views of a list of intents.
pub open spec fn intent_views(intents: Seq<Intent>) -> Seq<IntentView> {
    intents.map_values(|intent: Intent| intent@)
}

// ── What a security holds ────────────────────────────────────────────────────

/// The value recorded first for a category, zero where none is.
pub open spec fn value_recorded(values: Seq<(String, Decimal)>, category_id: Seq<char>) -> Decimal
    decreases values.len(),
{
    if values.len() == 0 {
        Decimal::whole(0)
    } else if values[0].0@ == category_id {
        values[0].1
    } else {
        value_recorded(values.drop_first(), category_id)
    }
}

/// The quantities of the positions that may be reduced.
pub open spec fn reducible_quantities(positions: Seq<PositionInput>) -> Seq<Decimal> {
    positions.filter(|position: PositionInput| position.can_reduce).map_values(
        |position: PositionInput| position.quantity,
    )
}

impl SecurityInput {
    /// What the security is worth in a category.
    pub open spec fn spec_value_in(self, category_id: Seq<char>) -> Decimal {
        value_recorded(self.category_values@, category_id)
    }

    /// How many units may be reduced, over all positions.
    pub open spec fn spec_reducible_quantity(self) -> Option<Decimal> {
        total(reducible_quantities(self.positions@))
    }

    /// Whether a unit has a price above zero.
    pub open spec fn has_usable_price(self) -> bool {
        self.unit_price matches Some(price) && price@ > 0
    }

    pub fn value_in(&self, category_id: &str) -> (value: Decimal)
        ensures
            value == self.spec_value_in(category_id@),
            forall|i: int|
                0 <= i < self.category_values@.len() && (#[trigger] self.category_values@[i]).0@
                    == category_id@ && (forall|j: int|
                    0 <= j < i ==> (#[trigger] self.category_values@[j]).0@ != category_id@)
                    ==> value == self.category_values@[i].1,
            (forall|i: int|
                0 <= i < self.category_values@.len() ==> (#[trigger] self.category_values@[i]).0@
                    != category_id@) ==> value@ == 0,
    {
        let ghost values = self.category_values@;
        assert(values.skip(0) =~= values);
        for i in 0..self.category_values.len()
            invariant
                values == self.category_values@,
                value_recorded(values, category_id@) == value_recorded(
                    values.skip(i as int),
                    category_id@,
                ),
                forall|k: int| 0 <= k < i ==> (#[trigger] values[k]).0@ != category_id@,
        {
            if same_text(self.category_values[i].0.as_str(), category_id) {
                return self.category_values[i].1;
            }
            assert(values.skip(i as int).drop_first() =~= values.skip(i + 1));
        }
        proof {
            lemma_whole_value(0);
        }
        Decimal::zero()
    }

    pub fn reducible_quantity(&self) -> (quantity: Option<Decimal>)
        ensures
            quantity == self.spec_reducible_quantity(),
            is_exact_total(reducible_quantities(self.positions@)) ==> quantity is Some
                && quantity->0@ == exact_total(reducible_quantities(self.positions@)),
    {
        let mut quantities: Vec<Decimal> = Vec::new();
        proof {
            reveal(Seq::filter);
        }
        for i in 0..self.positions.len()
            invariant
                quantities@ == reducible_quantities(self.positions@.take(i as int)),
        {
            proof {
                lemma_reducible_step(self.positions@, i as int);
            }
            if self.positions[i].can_reduce {
                quantities.push(self.positions[i].quantity);
            }
        }
        assert(self.positions@.take(self.positions@.len() as int) =~= self.positions@);
        sum_decimals(quantities.as_slice())
    }
}

proof fn lemma_reducible_step(positions: Seq<PositionInput>, i: int)
    requires
        0 <= i < positions.len(),
    ensures
        reducible_quantities(positions.take(i + 1)) == if positions[i].can_reduce {
            reducible_quantities(positions.take(i)).push(positions[i].quantity)
        } else {
            reducible_quantities(positions.take(i))
        },
{
    reveal(Seq::filter);
    assert(positions.take(i + 1).drop_last() =~= positions.take(i));
    assert(reducible_quantities(positions.take(i + 1)) =~= if positions[i].can_reduce {
        reducible_quantities(positions.take(i)).push(positions[i].quantity)
    } else {
        reducible_quantities(positions.take(i))
    });
}

// ── Gaps ─────────────────────────────────────────────────────────────────────

/// The share of an amount that basis points stand for: `bps / 10000 * amount`.
pub open spec fn share_of(bps: int, amount: Decimal) -> Option<Decimal> {
    match decimal_quotient(Decimal::whole(bps), Decimal::whole(10000)) {
        Some(share) => decimal_product(share, amount),
        None => None,
    }
}

/// The gap between a category's target value and what it currently holds.
pub open spec fn gap_of(category: CategoryTarget, planning_total: Decimal) -> Option<Decimal> {
    match share_of(category.target_bps as int, planning_total) {
        Some(target_value) => decimal_difference(target_value, category.current_value),
        None => None,
    }
}

/// Every category's gap, in the order of the categories.
pub open spec fn gaps_of(categories: Seq<CategoryTarget>, planning_total: Decimal) -> Option<
    Seq<Decimal>,
> {
    all_of(categories.map_values(|category: CategoryTarget| gap_of(category, planning_total)))
}

/// Whether `gap` is the exact gap of a category, with nothing to round: both
/// the target value `bps / 10000 * planning_total` and the gap are decimals.
pub open spec fn is_exact_gap(category: CategoryTarget, planning_total: Decimal, gap: int) -> bool {
    &&& 10000 * (gap + category.current_value@) == category.target_bps * planning_total@
    &&& representable(gap + category.current_value@)
    &&& representable(gap)
}

proof fn lemma_bps_share(bps: int)
    requires
        i32::MIN <= bps <= i32::MAX,
    ensures
        representable(bps * pow(10, 24)),
        10000 * pow(10, 24) == unit(),
{
    crate::decimal::lemma_representable(bps, 4);
    vstd::arithmetic::power::lemma_pow_adds(10, 4, 24);
    assert(pow(10, 4) == 10000) by {
        reveal_with_fuel(pow, 5);
    }
}

/// The gap between each category's target value and what it currently holds.
/// Positive means underweight, so the category wants an increase.
///
/// `planning_total` rather than the drift report's total, because the two
/// differ when the taxonomy has no cash sleeve and the cash being deployed
/// widens the basis.
pub fn category_gaps(categories: &[CategoryTarget], planning_total: Decimal) -> (gaps: Option<
    Vec<(String, Decimal)>,
>)
    ensures
        match gaps {
            Some(found) => {
                &&& gaps_of(categories@, planning_total) is Some
                &&& found@.len() == categories@.len()
                &&& forall|i: int|
                    0 <= i < categories@.len() ==> (#[trigger] found@[i]).0@
                        == categories@[i].category_id@ && found@[i].1 == gaps_of(
                        categories@,
                        planning_total,
                    )->0[i]
            },
            None => gaps_of(categories@, planning_total) is None,
        },
        (forall|i: int|
            0 <= i < categories@.len() ==> exists|gap: int|
                is_exact_gap(#[trigger] categories@[i], planning_total, gap)) ==> gaps is Some,
        gaps matches Some(found) ==> forall|i: int, gap: int|
            0 <= i < categories@.len() && #[trigger] is_exact_gap(
                categories@[i],
                planning_total,
                gap,
            ) ==> found@[i].1@ == gap,
        gaps matches Some(found) ==> forall|i: int, target: int, gap: int|
            0 <= i < categories@.len() && #[trigger] representable(target)
                && #[trigger] representable(
                gap,
            ) && 10000 * target == categories@[i].target_bps * planning_total@ && gap == target
                - categories@[i].current_value@ ==> (#[trigger] found@[i]).1@ == gap,
{
    let mut gaps: Vec<(String, Decimal)> = Vec::new();
    let ghost each = categories@.map_values(
        |category: CategoryTarget| gap_of(category, planning_total),
    );
    for i in 0..categories.len()
        invariant
            each == categories@.map_values(
                |category: CategoryTarget| gap_of(category, planning_total),
            ),
            gaps@.len() == i,
            forall|j: int|
                0 <= j < i ==> (#[trigger] gaps@[j]).0@ == categories@[j].category_id@ && Some(
                    gaps@[j].1,
                ) == each[j],
            forall|j: int, exact: int|
                0 <= j < i && #[trigger] is_exact_gap(categories@[j], planning_total, exact)
                    ==> gaps@[j].1@ == exact,
    {
        assert(each[i as int] == gap_of(categories@[i as int], planning_total));
        let category = &categories[i];
        let share = divide_decimals(
            Decimal::from_integer(category.target_bps as i64),
            Decimal::from_integer(10000),
        );
        let gap = match share {
            Some(share) => match multiply_decimals(share, planning_total) {
                Some(target_value) => subtract_decimals(target_value, category.current_value),
                None => None,
            },
            None => None,
        };
        proof {
            lemma_bps_share(category.target_bps as int);
            lemma_unit_positive();
            assert(share is Some && share->0@ == category.target_bps * pow(10, 24)) by {
                assert(category.target_bps * pow(10, 24) * (10000 * unit()) == category.target_bps
                    * unit() * unit()) by (nonlinear_arith)
                    requires
                        10000 * pow(10, 24) == unit(),
                ;
            }
            assert forall|exact: int| #[trigger]
                is_exact_gap(*category, planning_total, exact) implies gap is Some && gap->0@
                == exact by {
                let target = exact + category.current_value@;
                assert(target * unit() == share->0@ * planning_total@) by (nonlinear_arith)
                    requires
                        10000 * target == category.target_bps * planning_total@,
                        10000 * pow(10, 24) == unit(),
                        share->0@ == category.target_bps * pow(10, 24),
                ;
                assert(representable(target));
            }
        }
        match gap {
            Some(gap) => gaps.push((category.category_id.clone(), gap)),
            None => {
                proof {
                    lemma_all_of_none(each, i as int);
                }
                return None;
            },
        }
    }
    assert forall|j: int| 0 <= j < each.len() implies (#[trigger] each[j]) is Some by {
        assert(Some(gaps@[j].1) == each[j]);
    }
    proof {
        assert forall|i: int, target: int, gap: int|
            0 <= i < categories@.len() && #[trigger] representable(target)
                && #[trigger] representable(
                gap,
            ) && 10000 * target == categories@[i].target_bps * planning_total@ && gap == target
                - categories@[i].current_value@ implies (#[trigger] gaps@[i]).1@ == gap by {
            assert(is_exact_gap(categories@[i], planning_total, gap));
        }
    }
    Some(gaps)
}

// ── Splitting a gap ──────────────────────────────────────────────────────────

/// Whether a security carries some of a category.
pub open spec fn is_exposed(security: SecurityInput, category_id: Seq<char>) -> bool {
    security.spec_value_in(category_id)@ > 0
}

/// Whether a security may be adjusted in the direction of a gap. Eligibility
/// gates increases; a reduction needs units to draw from instead.
pub open spec fn is_permitted(security: SecurityInput, gap: Decimal) -> bool {
    if gap@ > 0 {
        security.is_eligible_for_increase
    } else {
        security.spec_reducible_quantity() matches Some(quantity) && quantity@ > 0
    }
}

/// Whether a security takes a share of a category's gap.
pub open spec fn is_carrier(security: SecurityInput, category_id: Seq<char>, gap: Decimal) -> bool {
    is_exposed(security, category_id) && is_permitted(security, gap) && security.has_usable_price()
}

/// The securities that take a share of a category's gap.
pub open spec fn carriers(
    securities: Seq<SecurityInput>,
    category_id: Seq<char>,
    gap: Decimal,
) -> Seq<SecurityInput> {
    securities.filter(|security: SecurityInput| is_carrier(security, category_id, gap))
}

/// What securities are worth in a category.
pub open spec fn values_in(securities: Seq<SecurityInput>, category_id: Seq<char>) -> Seq<Decimal> {
    securities.map_values(|security: SecurityInput| security.spec_value_in(category_id))
}

/// One carrier's share of a gap: `gap * value / total`.
pub open spec fn share_amount(gap: Decimal, value: Decimal, total_value: Decimal) -> Option<
    Decimal,
> {
    match decimal_product(gap, value) {
        Some(product) => decimal_quotient(product, total_value),
        None => None,
    }
}

/// Whether `share` is one carrier's exact share of a gap, with nothing to
/// round on the way.
pub open spec fn is_exact_share(
    gap: Decimal,
    value: Decimal,
    total_value: Decimal,
    share: int,
) -> bool {
    &&& share * total_value@ == gap@ * value@
    &&& representable(share)
    &&& exists|product: int| #[trigger]
        representable(product) && product * unit() == gap@ * value@
}

/// One carrier's intent, where its share fits a decimal.
pub open spec fn intent_of(
    security: SecurityInput,
    category_id: Seq<char>,
    gap: Decimal,
    total_value: Decimal,
) -> Option<IntentView> {
    match share_amount(gap, security.spec_value_in(category_id), total_value) {
        Some(amount) => Some(IntentView { asset_id: security.asset_id@, category_id, amount }),
        None => None,
    }
}

/// How a category's gap is split: into one intent for each carrier, in the
/// order of the securities, in proportion to what each holds of the category;
/// or the reason why it is not.
pub open spec fn split_of(
    category_id: Seq<char>,
    gap: Decimal,
    securities: Seq<SecurityInput>,
) -> Option<Result<Seq<IntentView>, UnresolvedReason>> {
    if gap@ == 0 {
        Some(Ok(Seq::empty()))
    } else if gap@ < 0 && exists|i: int|
        0 <= i < securities.len() && is_exposed(#[trigger] securities[i], category_id)
            && securities[i].spec_reducible_quantity() is None {
        None
    } else if forall|i: int|
        0 <= i < securities.len() ==> !is_exposed(#[trigger] securities[i], category_id) {
        Some(Err(UnresolvedReason::NoRecordedSecurity))
    } else if forall|i: int|
        0 <= i < securities.len() ==> !(is_exposed(#[trigger] securities[i], category_id)
            && is_permitted(securities[i], gap)) {
        Some(Err(UnresolvedReason::NoEligibleSecurity))
    } else if carriers(securities, category_id, gap).len() == 0 {
        Some(Err(UnresolvedReason::NoUsablePrice))
    } else {
        let carrying = carriers(securities, category_id, gap);
        match total(values_in(carrying, category_id)) {
            None => None,
            Some(total_value) => if total_value@ <= 0 {
                Some(Err(UnresolvedReason::NoRecordedSecurity))
            } else {
                match all_of(
                    carrying.map_values(
                        |security: SecurityInput|
                            intent_of(security, category_id, gap, total_value),
                    ),
                ) {
                    Some(intents) => Some(Ok(intents)),
                    None => None,
                }
            },
        }
    }
}

proof fn lemma_carriers_step(
    securities: Seq<SecurityInput>,
    category_id: Seq<char>,
    gap: Decimal,
    i: int,
)
    requires
        0 <= i < securities.len(),
    ensures
        carriers(securities.take(i + 1), category_id, gap) == if is_carrier(
            securities[i],
            category_id,
            gap,
        ) {
            carriers(securities.take(i), category_id, gap).push(securities[i])
        } else {
            carriers(securities.take(i), category_id, gap)
        },
{
    reveal(Seq::filter);
    assert(securities.take(i + 1).drop_last() =~= securities.take(i));
}

/// One carrier's share of a gap.
fn carrier_share(gap: Decimal, value: Decimal, total_value: Decimal) -> (amount: Option<Decimal>)
    requires
        value@ > 0,
        total_value@ > 0,
    ensures
        amount == share_amount(gap, value, total_value),
        amount is Some && gap@ >= 0 ==> amount->0@ >= 0,
        amount is Some && gap@ <= 0 ==> amount->0@ <= 0,
        forall|share: int| #[trigger]
            is_exact_share(gap, value, total_value, share) ==> amount is Some && amount->0@
                == share,
{
    match multiply_decimals(gap, value) {
        Some(product) => {
            let amount = divide_decimals(product, total_value);
            proof {
                lemma_unit_positive();
                assert(gap@ >= 0 ==> gap@ * value@ >= 0) by (nonlinear_arith)
                    requires
                        value@ > 0,
                ;
                assert(gap@ <= 0 ==> gap@ * value@ <= 0) by (nonlinear_arith)
                    requires
                        value@ > 0,
                ;
                assert(product@ >= 0 ==> product@ * total_value@ >= 0) by (nonlinear_arith)
                    requires
                        total_value@ > 0,
                ;
                assert(product@ <= 0 ==> product@ * total_value@ <= 0) by (nonlinear_arith)
                    requires
                        total_value@ > 0,
                ;
                assert forall|share: int| #[trigger]
                    is_exact_share(gap, value, total_value, share) implies amount is Some
                    && amount->0@ == share by {
                    let exact = choose|product: int| #[trigger]
                        representable(product) && product * unit() == gap@ * value@;
                    assert(product@ == exact);
                }
            }
            amount
        },
        None => None,
    }
}

/// The amounts of intents, in their order.
pub open spec fn amounts_of_intents(intents: Seq<IntentView>) -> Seq<Decimal> {
    intents.map_values(|intent: IntentView| intent.amount)
}

/// Whether a carrier has an exact share of a gap, with nothing to round on the
/// way.
pub open spec fn has_exact_share(gap: Decimal, value: Decimal, total_value: Decimal) -> bool {
    exists|share: int| is_exact_share(gap, value, total_value, share)
}

/// Whether nothing has to be rounded when a gap is split: neither the sum of
/// what the carriers hold nor the share of any of them.
pub open spec fn is_exactly_split(
    category_id: Seq<char>,
    gap: Decimal,
    securities: Seq<SecurityInput>,
) -> bool {
    let values = values_in(carriers(securities, category_id, gap), category_id);
    &&& is_exact_total(values)
    &&& forall|k: int|
        0 <= k < values.len() ==> has_exact_share(gap, #[trigger] values[k], total(values)->0)
}

/// Spreads one category's gap across the securities that carry it, in
/// proportion to what each already holds of that category:
///
/// ```text
/// weight_i    = value_i,c / sum_j value_j,c
/// intent_i,c  = category_gap(c) * weight_i
/// ```
///
/// Returns the reason instead when the gap cannot be placed at all, which the
/// caller turns into an unresolved category amount.
pub fn split_gap(category_id: &str, gap: Decimal, securities: &[SecurityInput]) -> (split: Option<
    Result<Vec<Intent>, UnresolvedReason>,
>)
    ensures
        match split {
            Some(Ok(intents)) => split_of(category_id@, gap, securities@) == Some(
                Ok::<_, UnresolvedReason>(intent_views(intents@)),
            ),
            Some(Err(reason)) => split_of(category_id@, gap, securities@) == Some(
                Err::<Seq<IntentView>, _>(reason),
            ),
            None => split_of(category_id@, gap, securities@) is None,
        },
        split matches Some(Ok(intents)) ==> forall|k: int|
            0 <= k < intents@.len() ==> (gap@ >= 0 ==> (#[trigger] intents@[k]).amount@ >= 0) && (
            gap@ <= 0 ==> intents@[k].amount@ <= 0),
        split matches Some(Ok(intents)) ==> forall|k: int, share: int|
            0 <= k < intents@.len() && #[trigger] is_exact_share(
                gap,
                carriers(securities@, category_id@, gap)[k].spec_value_in(category_id@),
                total(values_in(carriers(securities@, category_id@, gap), category_id@))->0,
                share,
            ) ==> intents@[k].amount@ == share,
        split == Some(Err::<Vec<Intent>, _>(UnresolvedReason::NoRecordedSecurity))
            ==> forall|i: int|
            0 <= i < securities@.len() ==> !is_exposed(#[trigger] securities@[i], category_id@),
        split matches Some(Ok(intents)) ==> is_exactly_split(category_id@, gap, securities@)
            ==> exact_total(amounts_of_intents(intent_views(intents@))) == gap@,
        gap@ == 0 ==> (split matches Some(Ok(intents)) && intents@.len() == 0),
        gap@ != 0 ==> (split matches Some(Ok(intents)) ==> exists|places: Seq<int>| #[trigger]
            are_positions(places, securities@.len() as int) && places.len() == intents@.len() && (
            forall|k: int|
                0 <= k < places.len() ==> intents@[k].asset_id@
                    == securities@[#[trigger] places[k]].asset_id@
                    && intents@[k].category_id@ == category_id@ && value_recorded(
                    securities@[places[k]].category_values@,
                    category_id@,
                )@ > 0) && (forall|i: int|
                0 <= i < securities@.len() && value_recorded(
                    (#[trigger] securities@[i]).category_values@,
                    category_id@,
                )@ > 0 && (gap@ > 0 ==> securities@[i].is_eligible_for_increase) && (gap@ < 0
                    ==> total(reducible_quantities(securities@[i].positions@)) is Some && total(
                    reducible_quantities(securities@[i].positions@),
                )->0@ > 0) && securities@[i].unit_price is Some && securities@[i].unit_price->0@ > 0
                    ==> places.contains(i))),
{
    let split = split_over_carriers(category_id, gap, securities);
    proof {
        if gap@ != 0 && split is Some && split->0 is Ok {
            let intents = split->0->Ok_0;
            let places = law_gap_is_split_over_its_carriers(category_id@, gap, securities@);
            let views = intent_views(intents@);
            assert forall|k: int| 0 <= k < places.len() implies intents@[k].asset_id@
                == securities@[#[trigger] places[k]].asset_id@ && intents@[k].category_id@
                == category_id@ && value_recorded(
                securities@[places[k]].category_values@,
                category_id@,
            )@ > 0 by {
                assert(views[k] == intents@[k]@);
                assert(split_of(category_id@, gap, securities@)->0->Ok_0[k] == views[k]);
            }
        }
    }
    split
}

/// Spreads one category's gap across the securities that carry it.
fn split_over_carriers(category_id: &str, gap: Decimal, securities: &[SecurityInput]) -> (split:
    Option<Result<Vec<Intent>, UnresolvedReason>>)
    ensures
        match split {
            Some(Ok(intents)) => split_of(category_id@, gap, securities@) == Some(
                Ok::<_, UnresolvedReason>(intent_views(intents@)),
            ),
            Some(Err(reason)) => split_of(category_id@, gap, securities@) == Some(
                Err::<Seq<IntentView>, _>(reason),
            ),
            None => split_of(category_id@, gap, securities@) is None,
        },
        split matches Some(Ok(intents)) ==> forall|k: int|
            0 <= k < intents@.len() ==> (gap@ >= 0 ==> (#[trigger] intents@[k]).amount@ >= 0) && (
            gap@ <= 0 ==> intents@[k].amount@ <= 0),
        split matches Some(Ok(intents)) ==> forall|k: int, share: int|
            0 <= k < intents@.len() && #[trigger] is_exact_share(
                gap,
                carriers(securities@, category_id@, gap)[k].spec_value_in(category_id@),
                total(values_in(carriers(securities@, category_id@, gap), category_id@))->0,
                share,
            ) ==> intents@[k].amount@ == share,
        split == Some(Err::<Vec<Intent>, _>(UnresolvedReason::NoRecordedSecurity))
            ==> forall|i: int|
            0 <= i < securities@.len() ==> !is_exposed(#[trigger] securities@[i], category_id@),
        split matches Some(Ok(intents)) ==> is_exactly_split(category_id@, gap, securities@)
            ==> exact_total(amounts_of_intents(intent_views(intents@))) == gap@,
        gap@ == 0 ==> (split matches Some(Ok(intents)) && intents@.len() == 0),
{
    if gap.is_zero() {
        let none: Vec<Intent> = Vec::new();
        assert(intent_views(none@) =~= Seq::empty());
        return Some(Ok(none));
    }
    let increases = gap.is_positive();
    let ghost carrying = carriers(securities@, category_id@, gap);
    let mut any_exposed = false;
    let mut any_permitted = false;
    let mut chosen: Vec<usize> = Vec::new();
    let mut values: Vec<Decimal> = Vec::new();
    proof {
        reveal(Seq::filter);
    }
    for i in 0..securities.len()
        invariant
            gap@ != 0,
            increases == (gap@ > 0),
            any_exposed == exists|j: int|
                0 <= j < i && is_exposed(#[trigger] securities@[j], category_id@),
            any_permitted == exists|j: int|
                0 <= j < i && is_exposed(#[trigger] securities@[j], category_id@) && is_permitted(
                    securities@[j],
                    gap,
                ),
            gap@ < 0 ==> forall|j: int|
                0 <= j < i && is_exposed(#[trigger] securities@[j], category_id@)
                    ==> securities@[j].spec_reducible_quantity() is Some,
            chosen@.len() == carriers(securities@.take(i as int), category_id@, gap).len(),
            forall|k: int|
                0 <= k < chosen@.len() ==> (#[trigger] chosen@[k]) < i
                    && securities@[chosen@[k] as int]
                    == carriers(securities@.take(i as int), category_id@, gap)[k] && is_carrier(
                    securities@[chosen@[k] as int],
                    category_id@,
                    gap,
                ),
            values@ == values_in(
                carriers(securities@.take(i as int), category_id@, gap),
                category_id@,
            ),
    {
        proof {
            lemma_carriers_step(securities@, category_id@, gap, i as int);
        }
        let ghost before = carriers(securities@.take(i as int), category_id@, gap);
        let ghost after = carriers(securities@.take(i + 1), category_id@, gap);
        let security = &securities[i];
        let value = security.value_in(category_id);
        if value.is_positive() {
            assert(is_exposed(securities@[i as int], category_id@));
            any_exposed = true;
            let permitted = if increases {
                security.is_eligible_for_increase
            } else {
                match security.reducible_quantity() {
                    Some(quantity) => quantity.is_positive(),
                    None => {
                        return None;
                    },
                }
            };
            if permitted {
                any_permitted = true;
                let priced = match security.unit_price {
                    Some(price) => price.is_positive(),
                    None => false,
                };
                if priced {
                    chosen.push(i);
                    values.push(value);
                    assert(values_in(after, category_id@) =~= values_in(before, category_id@).push(
                        value,
                    ));
                }
            }
        }
    }
    assert(securities@.take(securities@.len() as int) =~= securities@);
    if !any_exposed {
        return Some(Err(UnresolvedReason::NoRecordedSecurity));
    }
    if !any_permitted {
        return Some(Err(UnresolvedReason::NoEligibleSecurity));
    }
    if chosen.len() == 0 {
        return Some(Err(UnresolvedReason::NoUsablePrice));
    }
    let total_value = match sum_decimals(values.as_slice()) {
        Some(total_value) => total_value,
        None => {
            return None;
        },
    };
    // Allocating by current holding proportions needs proportions to work
    // from. Carriers worth nothing give none, and inventing a split between
    // them would be choosing between securities.
    proof {
        assert forall|k: int| 0 <= k < values@.len() implies (#[trigger] values@[k])@ > 0 by {
            assert(is_carrier(securities@[chosen@[k] as int], category_id@, gap));
            assert(values@[k] == carriers(securities@, category_id@, gap)[k].spec_value_in(
                category_id@,
            ));
        }
        assert(values@.len() == chosen@.len());
        assert(values@[0]@ > 0);
    }
    if !total_value.is_positive() {
        return Some(Err(UnresolvedReason::NoRecordedSecurity));
    }
    let ghost each = carrying.map_values(
        |security: SecurityInput| intent_of(security, category_id@, gap, total_value),
    );
    let mut intents: Vec<Intent> = Vec::new();
    #[verifier::loop_isolation(false)]
    for k in 0..chosen.len()
        invariant
            each == carrying.map_values(
                |security: SecurityInput| intent_of(security, category_id@, gap, total_value),
            ),
            each.len() == chosen@.len(),
            carrying.len() == chosen@.len(),
            values@ == values_in(carrying, category_id@),
            total_value@ > 0,
            forall|j: int|
                0 <= j < chosen@.len() ==> (#[trigger] chosen@[j]) < securities@.len()
                    && securities@[chosen@[j] as int] == carrying[j] && is_carrier(
                    carrying[j],
                    category_id@,
                    gap,
                ),
            intents@.len() == k,
            forall|j: int| 0 <= j < k ==> Some((#[trigger] intents@[j])@) == each[j],
            forall|j: int|
                0 <= j < k ==> (gap@ >= 0 ==> (#[trigger] intents@[j]).amount@ >= 0) && (gap@ <= 0
                    ==> intents@[j].amount@ <= 0),
            forall|j: int, share: int|
                0 <= j < k && #[trigger] is_exact_share(
                    gap,
                    carrying[j].spec_value_in(category_id@),
                    total_value,
                    share,
                ) ==> intents@[j].amount@ == share,
    {
        let security = &securities[chosen[k]];
        assert(*security == carrying[k as int]);
        assert(values@[k as int] == carrying[k as int].spec_value_in(category_id@));
        assert(each[k as int] == intent_of(*security, category_id@, gap, total_value));
        match carrier_share(gap, values[k], total_value) {
            Some(amount) => intents.push(
                Intent {
                    asset_id: security.asset_id.clone(),
                    category_id: category_id.to_owned(),
                    amount,
                },
            ),
            None => {
                proof {
                    lemma_all_of_none(each, k as int);
                }
                return None;
            },
        }
    }
    proof {
        assert forall|j: int| 0 <= j < each.len() implies (#[trigger] each[j]) is Some by {
            assert(Some(intents@[j]@) == each[j]);
        }
        assert(intent_views(intents@) =~= all_of(each)->0);
        if is_exactly_split(category_id@, gap, securities@) {
            let amounts = amounts_of_intents(intent_views(intents@));
            let shares = Seq::new(carrying.len(), |k: int| intents@[k].amount@);
            lemma_sum_is_total(values@);
            lemma_sum_is_total(amounts);
            assert forall|k: int| 0 <= k < carrying.len() implies is_exact_share(
                gap,
                values@[k],
                total_value,
                #[trigger] shares[k],
            ) by {
                assert(has_exact_share(gap, values@[k], total_value));
                let share = choose|share: int|
                    is_exact_share(gap, values@[k], total_value, share);
                assert(values@[k] == carrying[k].spec_value_in(category_id@));
                assert(intents@[k].amount@ == share);
            }
            law_exact_shares_add_up_to_the_gap(gap, values@, total_value, shares);
            assert(values_of(amounts) =~= shares);
        }
    }
    Some(Ok(intents))
}

// ── Combining intents ────────────────────────────────────────────────────────

/// The amounts that intents ask of one security, in their order.
pub open spec fn amounts_for(intents: Seq<IntentView>, asset_id: Seq<char>) -> Seq<Decimal> {
    intents.filter(|intent: IntentView| intent.asset_id == asset_id).map_values(
        |intent: IntentView| intent.amount,
    )
}

/// Whether one of the entries is a security's.
pub open spec fn has_entry(entries: Seq<(String, Decimal)>, asset_id: Seq<char>) -> bool {
    exists|j: int| 0 <= j < entries.len() && (#[trigger] entries[j]).0@ == asset_id
}

/// Whether an entry holds the sum of what intents ask of its security.
pub open spec fn is_combined_entry(entry: (String, Decimal), intents: Seq<IntentView>) -> bool {
    &&& amounts_for(intents, entry.0@).len() > 0
    &&& total(amounts_for(intents, entry.0@)) == Some(entry.1)
}

/// Whether `entries` holds one amount for each security that an intent names,
/// and for no other: the sum of what the intents ask of it.
pub open spec fn is_combination(entries: Seq<(String, Decimal)>, intents: Seq<IntentView>) -> bool {
    &&& forall|i: int, j: int|
        0 <= i < j < entries.len() ==> (#[trigger] entries[i]).0@ != (#[trigger] entries[j]).0@
    &&& forall|j: int|
        0 <= j < entries.len() ==> is_combined_entry(#[trigger] entries[j], intents)
    &&& forall|i: int|
        0 <= i < intents.len() ==> has_entry(entries, (#[trigger] intents[i]).asset_id)
}

proof fn lemma_amounts_step(intents: Seq<IntentView>, i: int, asset_id: Seq<char>)
    requires
        0 <= i < intents.len(),
    ensures
        amounts_for(intents.take(i + 1), asset_id) == if intents[i].asset_id == asset_id {
            amounts_for(intents.take(i), asset_id).push(intents[i].amount)
        } else {
            amounts_for(intents.take(i), asset_id)
        },
{
    reveal(Seq::filter);
    assert(intents.take(i + 1).drop_last() =~= intents.take(i));
    assert(amounts_for(intents.take(i + 1), asset_id) =~= if intents[i].asset_id == asset_id {
        amounts_for(intents.take(i), asset_id).push(intents[i].amount)
    } else {
        amounts_for(intents.take(i), asset_id)
    });
}

/// What intents ask of a security that none of them names is nothing.
proof fn lemma_amounts_of_stranger(intents: Seq<IntentView>, asset_id: Seq<char>)
    requires
        forall|i: int| 0 <= i < intents.len() ==> (#[trigger] intents[i]).asset_id != asset_id,
    ensures
        amounts_for(intents, asset_id).len() == 0,
    decreases intents.len(),
{
    reveal(Seq::filter);
    if intents.len() > 0 {
        let rest = intents.drop_last();
        assert forall|i: int| 0 <= i < rest.len() implies (#[trigger] rest[i]).asset_id
            != asset_id by {
            assert(rest[i] == intents[i]);
        }
        lemma_amounts_of_stranger(rest, asset_id);
        assert(intents.last() == intents[intents.len() - 1]);
    }
}

/// A security's sum that does not fit after some intents does not fit after all
/// of them.
proof fn lemma_amounts_stay_none(intents: Seq<IntentView>, n: int, asset_id: Seq<char>)
    requires
        0 <= n <= intents.len(),
        total(amounts_for(intents.take(n), asset_id)) is None,
    ensures
        total(amounts_for(intents, asset_id)) is None,
    decreases intents.len() - n,
{
    if n < intents.len() {
        lemma_amounts_step(intents, n, asset_id);
        if intents[n].asset_id == asset_id {
            assert(amounts_for(intents.take(n + 1), asset_id).drop_last() =~= amounts_for(
                intents.take(n),
                asset_id,
            ));
        }
        lemma_amounts_stay_none(intents, n + 1, asset_id);
    } else {
        assert(intents.take(n) =~= intents);
    }
}

/// Putting a security's new sum at `j` takes one intent more into account.
proof fn lemma_combination_step(
    before: Seq<(String, Decimal)>,
    after: Seq<(String, Decimal)>,
    intents: Seq<IntentView>,
    i: int,
    j: int,
)
    requires
        0 <= i < intents.len(),
        is_combination(before, intents.take(i)),
        0 <= j < after.len(),
        j == before.len() || j < before.len() && before[j].0@ == intents[i].asset_id,
        after.len() == if j == before.len() {
            before.len() + 1
        } else {
            before.len()
        },
        j == before.len() ==> !has_entry(before, intents[i].asset_id),
        forall|k: int| 0 <= k < after.len() && k != j ==> (#[trigger] after[k]) == before[k],
        after[j].0@ == intents[i].asset_id,
        total(amounts_for(intents.take(i + 1), intents[i].asset_id)) == Some(after[j].1),
    ensures
        is_combination(after, intents.take(i + 1)),
{
    let old_intents = intents.take(i);
    let new_intents = intents.take(i + 1);
    let asset_id = intents[i].asset_id;
    assert forall|k: int| 0 <= k < after.len() && k != j implies (#[trigger] after[k]).0@
        != asset_id by {
        if j < before.len() {
            assert(before[k].0@ != before[j].0@);
        } else {
            assert(before[k].0@ != asset_id);
        }
    }
    assert forall|a: int, b: int| 0 <= a < b < after.len() implies (#[trigger] after[a]).0@ != (
    #[trigger] after[b]).0@ by {
        if a != j && b != j {
            assert(before[a].0@ != before[b].0@);
        }
    }
    assert forall|k: int| 0 <= k < after.len() implies is_combined_entry(
        #[trigger] after[k],
        new_intents,
    ) by {
        lemma_amounts_step(intents, i, after[k].0@);
        if k != j {
            assert(is_combined_entry(before[k], old_intents));
        }
    }
    assert forall|k: int| 0 <= k < new_intents.len() implies has_entry(
        after,
        (#[trigger] new_intents[k]).asset_id,
    ) by {
        if k < i {
            assert(old_intents[k] == new_intents[k]);
            assert(has_entry(before, old_intents[k].asset_id));
            let m = choose|m: int|
                0 <= m < before.len() && (#[trigger] before[m]).0@ == old_intents[k].asset_id;
            if m != j {
                assert(after[m] == before[m]);
            } else {
                assert(after[j].0@ == before[j].0@);
            }
        } else {
            assert(after[j].0@ == asset_id);
        }
    }
}

/// Whether an entry is the exact sum of what intents ask of its security, where
/// nothing has to be rounded on the way to it.
pub open spec fn is_exact_entry(entry: (String, Decimal), intents: Seq<IntentView>) -> bool {
    is_exact_total(amounts_for(intents, entry.0@)) ==> entry.1@ == exact_total(
        amounts_for(intents, entry.0@),
    )
}

proof fn lemma_exact_entries_step(
    before: Seq<(String, Decimal)>,
    after: Seq<(String, Decimal)>,
    intents: Seq<IntentView>,
    i: int,
    j: int,
)
    requires
        0 <= i < intents.len(),
        0 <= j < after.len() <= before.len() + 1,
        is_combination(after, intents.take(i + 1)),
        forall|k: int| 0 <= k < after.len() && k != j ==> k < before.len() && (
        #[trigger] after[k]) == before[k],
        forall|k: int|
            0 <= k < before.len() ==> is_exact_entry(#[trigger] before[k], intents.take(i)),
        after[j].0@ == intents[i].asset_id,
        is_exact_entry(after[j], intents.take(i + 1)),
    ensures
        forall|k: int|
            0 <= k < after.len() ==> is_exact_entry(#[trigger] after[k], intents.take(i + 1)),
{
    assert forall|k: int| 0 <= k < after.len() implies is_exact_entry(
        #[trigger] after[k],
        intents.take(i + 1),
    ) by {
        if k != j {
            assert(after[k] == before[k]);
            assert(is_exact_entry(before[k], intents.take(i)));
            assert(after[k].0@ != after[j].0@);
            lemma_amounts_step(intents, i, after[k].0@);
        }
    }
}

/// The entry of a security among combined amounts.
fn entry_of(entries: &Vec<(String, Decimal)>, asset_id: &String) -> (found: Option<usize>)
    ensures
        match found {
            Some(j) => j < entries@.len() && entries@[j as int].0@ == asset_id@,
            None => !has_entry(entries@, asset_id@),
        },
{
    for j in 0..entries.len()
        invariant
            forall|k: int| 0 <= k < j ==> (#[trigger] entries@[k]).0@ != asset_id@,
    {
        if entries[j].0 == *asset_id {
            return Some(j);
        }
    }
    None
}

/// Combines every category's intent for a security into the one amount that
/// gets applied to it.
///
/// A security classified 60 % equity / 40 % fixed income moves both categories
/// once, by the amount actually applied to it, so the projection is
/// recalculated from these combined amounts, never from the intents that
/// produced them.
///
/// Where nothing has to be rounded on the way, the amount is the exact sum.
pub fn combine_intents(intents: &[Intent]) -> (combined: Option<Vec<(String, Decimal)>>)
    ensures
        match combined {
            Some(entries) => is_combination(entries@, intent_views(intents@)),
            None => exists|i: int|
                0 <= i < intents@.len() && total(
                    amounts_for(intent_views(intents@), (#[trigger] intents@[i]).asset_id@),
                ) is None,
        },
        combined matches Some(entries) ==> forall|k: int|
            0 <= k < entries@.len() ==> is_exact_entry(
                #[trigger] entries@[k],
                intent_views(intents@),
            ),
{
    let mut entries: Vec<(String, Decimal)> = Vec::new();
    let ghost views = intent_views(intents@);
    for i in 0..intents.len()
        invariant
            views == intent_views(intents@),
            is_combination(entries@, views.take(i as int)),
            forall|k: int|
                0 <= k < entries@.len() ==> is_exact_entry(
                    #[trigger] entries@[k],
                    views.take(i as int),
                ),
    {
        let intent = &intents[i];
        let ghost before = entries@;
        let ghost asked = amounts_for(views.take(i as int), intent.asset_id@);
        assert(views[i as int] == intent@);
        let found = entry_of(&entries, &intent.asset_id);
        let so_far = match found {
            Some(j) => {
                assert(is_combined_entry(entries@[j as int], views.take(i as int)));
                assert(is_exact_entry(entries@[j as int], views.take(i as int)));
                entries[j].1
            },
            None => {
                proof {
                    let seen = views.take(i as int);
                    assert forall|k: int| 0 <= k < seen.len() implies (#[trigger] seen[k]).asset_id
                        != intent.asset_id@ by {
                        assert(has_entry(entries@, seen[k].asset_id));
                    }
                    lemma_amounts_of_stranger(seen, intent.asset_id@);
                }
                Decimal::zero()
            },
        };
        assert(total(asked) == Some(so_far));
        let sum = add_decimals(so_far, intent.amount);
        proof {
            lemma_amounts_step(views, i as int, intent.asset_id@);
            assert(asked.push(intent.amount).drop_last() =~= asked);
            lemma_exact_total_step(asked, intent.amount);
        }
        let sum = match sum {
            Some(sum) => sum,
            None => {
                proof {
                    lemma_amounts_stay_none(views, i + 1, intent.asset_id@);
                }
                return None;
            },
        };
        match found {
            Some(j) => {
                entries.set(j, (intent.asset_id.clone(), sum));
                proof {
                    lemma_combination_step(before, entries@, views, i as int, j as int);
                    lemma_exact_entries_step(before, entries@, views, i as int, j as int);
                }
            },
            None => {
                entries.push((intent.asset_id.clone(), sum));
                proof {
                    lemma_combination_step(before, entries@, views, i as int, before.len() as int);
                    lemma_exact_entries_step(
                        before,
                        entries@,
                        views,
                        i as int,
                        before.len() as int,
                    );
                }
            },
        }
    }
    assert(views.take(intents@.len() as int) =~= views);
    Some(entries)
}

// ── Spreading every gap ──────────────────────────────────────────────────────

/// The name of the first category with an identifier, or the identifier itself
/// where no category has it.
pub open spec fn name_of_category(categories: Seq<CategoryTarget>, category_id: Seq<char>) -> Seq<
    char,
>
    decreases categories.len(),
{
    if categories.len() == 0 {
        category_id
    } else if categories[0].category_id@ == category_id {
        categories[0].category_name@
    } else {
        name_of_category(categories.drop_first(), category_id)
    }
}

/// The intents that placed and the amounts that did not, for the first `n`
/// categories with the given gaps.
pub open spec fn spread_of(
    categories: Seq<CategoryTarget>,
    gaps: Seq<Decimal>,
    securities: Seq<SecurityInput>,
    n: nat,
) -> Option<(Seq<IntentView>, Seq<UnresolvedCategoryAmountView>)>
    decreases n,
{
    if n == 0 {
        Some((Seq::empty(), Seq::empty()))
    } else {
        let category = categories[n - 1];
        match spread_of(categories, gaps, securities, (n - 1) as nat) {
            None => None,
            Some((intents, unresolved)) => match split_of(
                category.category_id@,
                gaps[n - 1],
                securities,
            ) {
                None => None,
                Some(Ok(placed)) => Some((intents + placed, unresolved)),
                Some(Err(reason)) => Some(
                    (
                        intents,
                        unresolved.push(
                            UnresolvedCategoryAmountView {
                                category_id: category.category_id@,
                                category_name: name_of_category(categories, category.category_id@),
                                amount: gaps[n - 1],
                                reason,
                            },
                        ),
                    ),
                ),
            },
        }
    }
}

proof fn lemma_spread_stays_none(
    categories: Seq<CategoryTarget>,
    gaps: Seq<Decimal>,
    securities: Seq<SecurityInput>,
    n: nat,
    m: nat,
)
    requires
        n <= m,
        spread_of(categories, gaps, securities, n) is None,
    ensures
        spread_of(categories, gaps, securities, m) is None,
    decreases m,
{
    if n < m {
        lemma_spread_stays_none(categories, gaps, securities, n, (m - 1) as nat);
    }
}

/// The name under which a category is reported.
fn category_name(categories: &[CategoryTarget], category_id: &String) -> (name: String)
    ensures
        name@ == name_of_category(categories@, category_id@),
{
    assert(categories@.skip(0) =~= categories@);
    for i in 0..categories.len()
        invariant
            name_of_category(categories@, category_id@) == name_of_category(
                categories@.skip(i as int),
                category_id@,
            ),
    {
        if categories[i].category_id == *category_id {
            return categories[i].category_name.clone();
        }
        assert(categories@.skip(i as int).drop_first() =~= categories@.skip(i + 1));
    }
    category_id.clone()
}

/// The views of a list of unresolved amounts.
pub open spec fn unresolved_views(unresolved: Seq<UnresolvedCategoryAmount>) -> Seq<
    UnresolvedCategoryAmountView,
> {
    unresolved.map_values(|amount: UnresolvedCategoryAmount| amount@)
}

/// The amounts that were not placed, in their order.
pub open spec fn unresolved_amounts(unresolved: Seq<UnresolvedCategoryAmountView>) -> Seq<Decimal> {
    unresolved.map_values(|amount: UnresolvedCategoryAmountView| amount.amount)
}

/// Whether nothing has to be rounded when any of the gaps is split.
pub open spec fn are_exactly_split(
    categories: Seq<CategoryTarget>,
    gaps: Seq<Decimal>,
    securities: Seq<SecurityInput>,
) -> bool {
    forall|i: int|
        0 <= i < categories.len() ==> is_exactly_split(
            (#[trigger] categories[i]).category_id@,
            gaps[i],
            securities,
        )
}

/// Splits every category's gap, keeping the intents that placed and the
/// amounts that did not.
///
/// Where nothing has to be rounded, what was placed and what was not add up to
/// all the gaps.
pub fn spread_gaps(
    categories: &[CategoryTarget],
    planning_total: Decimal,
    securities: &[SecurityInput],
) -> (spread: Option<(Vec<Intent>, Vec<UnresolvedCategoryAmount>)>)
    ensures
        match (spread, gaps_of(categories@, planning_total)) {
            (Some((intents, unresolved)), Some(gaps)) => spread_of(
                categories@,
                gaps,
                securities@,
                categories@.len(),
            ) == Some((intent_views(intents@), unresolved_views(unresolved@))),
            (Some(_), None) => false,
            (None, Some(gaps)) => spread_of(
                categories@,
                gaps,
                securities@,
                categories@.len(),
            ) is None,
            (None, None) => true,
        },
        spread matches Some((intents, unresolved)) ==> are_exactly_split(
            categories@,
            gaps_of(categories@, planning_total)->0,
            securities@,
        ) ==> exact_total(amounts_of_intents(intent_views(intents@))) + exact_total(
            unresolved_amounts(unresolved_views(unresolved@)),
        ) == exact_total(gaps_of(categories@, planning_total)->0),
{
    let gaps = match category_gaps(categories, planning_total) {
        Some(gaps) => gaps,
        None => {
            return None;
        },
    };
    let ghost amounts = gaps_of(categories@, planning_total)->0;
    let mut intents: Vec<Intent> = Vec::new();
    let mut unresolved: Vec<UnresolvedCategoryAmount> = Vec::new();
    assert(intent_views(intents@) =~= Seq::empty());
    assert(unresolved_views(unresolved@) =~= Seq::empty());
    #[verifier::loop_isolation(false)]
    for i in 0..gaps.len()
        invariant
            spread_of(categories@, amounts, securities@, i as nat) == Some(
                (intent_views(intents@), unresolved_views(unresolved@)),
            ),
            are_exactly_split(categories@, amounts, securities@) ==> exact_total(
                amounts_of_intents(intent_views(intents@)),
            ) + exact_total(unresolved_amounts(unresolved_views(unresolved@))) == exact_total(
                amounts.take(i as int),
            ),
    {
        let gap = gaps[i].1;
        proof {
            assert(amounts.take(i + 1).drop_last() =~= amounts.take(i as int));
            assert(amounts.take(i + 1).last() == gap);
            assert(gaps@[i as int].0@ == categories@[i as int].category_id@);
            assert(are_exactly_split(categories@, amounts, securities@) ==> is_exactly_split(
                categories@[i as int].category_id@,
                amounts[i as int],
                securities@,
            ));
        }
        match split_gap(gaps[i].0.as_str(), gap, securities) {
            Some(Ok(placed)) => {
                let mut placed = placed;
                let ghost before = intents@;
                let ghost added = placed@;
                intents.append(&mut placed);
                proof {
                    let old_views = intent_views(before);
                    let new_views = intent_views(added);
                    assert(intent_views(intents@) =~= old_views + new_views);
                    assert(amounts_of_intents(old_views + new_views) =~= amounts_of_intents(
                        old_views,
                    ) + amounts_of_intents(new_views));
                    lemma_exact_total_of_two(
                        amounts_of_intents(old_views),
                        amounts_of_intents(new_views),
                    );
                }
            },
            Some(Err(reason)) => {
                let ghost before = unresolved@;
                let name = category_name(categories, &gaps[i].0);
                unresolved.push(
                    UnresolvedCategoryAmount {
                        category_id: gaps[i].0.clone(),
                        category_name: name,
                        amount: gap,
                        reason,
                    },
                );
                proof {
                    let reported = unresolved@.last()@;
                    assert(unresolved_views(unresolved@) =~= unresolved_views(before).push(
                        reported,
                    ));
                    assert(unresolved_amounts(unresolved_views(before).push(reported))
                        =~= unresolved_amounts(unresolved_views(before)).push(gap));
                    lemma_exact_total_step(unresolved_amounts(unresolved_views(before)), gap);
                }
            },
            None => {
                proof {
                    lemma_spread_stays_none(
                        categories@,
                        amounts,
                        securities@,
                        (i + 1) as nat,
                        categories@.len(),
                    );
                }
                return None;
            },
        }
    }
    assert(amounts.take(amounts.len() as int) =~= amounts);
    Some((intents, unresolved))
}

// ── Limits ───────────────────────────────────────────────────────────────────
//
// Applied in the order below before the worksheet is prefilled. Every step
// either scales proportionally or reports; none of them drops a line, since
// dropping would be a choice between securities.

/// Which funding an increase depends on.
#[derive(Clone, Copy, Debug, PartialEq, Eq, Structural)]
pub enum IncreaseFunding {
    /// Sized against the cash deployed in the first pass. A shortfall in
    /// reduction proceeds does not belong to it, so it is never scaled.
    Cash,
    /// Depends on what the reductions raise, so it absorbs any shortfall.
    Proceeds,
}

/// An increase before the limits are applied. Amount is positive.
#[derive(Clone, Debug, PartialEq)]
pub struct DraftIncrease {
    pub asset_id: String,
    pub amount: Decimal,
    pub funding: IncreaseFunding,
}

/// A reduction before the limits are applied. Amount is a positive magnitude.
#[derive(Clone, Debug, PartialEq)]
pub struct DraftReduction {
    pub asset_id: String,
    pub amount: Decimal,
}

/// What the user's target and guardrails allow, in base currency.
#[derive(Clone, Debug)]
pub struct LimitsInput {
    /// Tracked cash the user selected for deployment.
    pub tracked_cash: Decimal,
    /// Hypothetical cash not currently recorded.
    pub external_cash: Decimal,
    /// Absolute cap on the reduction total. Derive it from the target's
    /// `max_turnover_bps` with [`turnover_cap_value`].
    pub turnover_cap: Option<Decimal>,
    pub min_line_amount: Decimal,
    pub whole_shares_only: bool,
}

/// One line after the limits are applied.
#[derive(Clone, Debug, PartialEq)]
pub struct LimitedLine {
    pub asset_id: String,
    /// Signed: negative for a reduction.
    pub amount: Decimal,
    pub quantity: Decimal,
    pub unit_price: Decimal,
    /// Below the target's minimum: reported, never dropped, never re-rounded
    /// to lift it over the threshold.
    pub is_below_minimum: bool,
}

pub ghost struct LimitedLineView {
    pub asset_id: Seq<char>,
    pub amount: Decimal,
    pub quantity: Decimal,
    pub unit_price: Decimal,
    pub is_below_minimum: bool,
}

impl View for LimitedLine {
    type V = LimitedLineView;

    open spec fn view(&self) -> LimitedLineView {
        LimitedLineView {
            asset_id: self.asset_id@,
            amount: self.amount,
            quantity: self.quantity,
            unit_price: self.unit_price,
            is_below_minimum: self.is_below_minimum,
        }
    }
}

/// The views of a list of lines.
pub open spec fn line_views(lines: Seq<LimitedLine>) -> Seq<LimitedLineView> {
    lines.map_values(|line: LimitedLine| line@)
}

#[derive(Clone, Debug)]
pub struct LimitedAdjustments {
    pub increases: Vec<LimitedLine>,
    pub reductions: Vec<LimitedLine>,
    pub scaling: AdjustmentScaling,
    /// Left after rounding and minimum-line reporting. Never redistributed.
    pub remaining_cash: Decimal,
}

pub ghost struct LimitedAdjustmentsView {
    pub increases: Seq<LimitedLineView>,
    pub reductions: Seq<LimitedLineView>,
    pub scaling: AdjustmentScaling,
    pub remaining_cash: Decimal,
}

impl View for LimitedAdjustments {
    type V = LimitedAdjustmentsView;

    open spec fn view(&self) -> LimitedAdjustmentsView {
        LimitedAdjustmentsView {
            increases: line_views(self.increases@),
            reductions: line_views(self.reductions@),
            scaling: self.scaling,
            remaining_cash: self.remaining_cash,
        }
    }
}

/// The turnover cap as an amount: `planning_total * bps / 10000`.
pub open spec fn turnover_cap_of(planning_total: Decimal, bps: int) -> Option<Decimal> {
    match decimal_product(planning_total, Decimal::whole(bps)) {
        Some(product) => decimal_quotient(product, Decimal::whole(10000)),
        None => None,
    }
}

/// The turnover cap as an amount, from the target's `max_turnover_bps`: `None`
/// inside where the target has no cap.
pub fn turnover_cap_value(planning_total: Decimal, max_turnover_bps: Option<i32>) -> (cap: Option<
    Option<Decimal>,
>)
    ensures
        max_turnover_bps is None ==> cap == Some(None::<Decimal>),
        max_turnover_bps matches Some(bps) ==> match cap {
            Some(amount) => amount is Some && amount == turnover_cap_of(planning_total, bps as int),
            None => turnover_cap_of(planning_total, bps as int) is None,
        },
        max_turnover_bps matches Some(bps) ==> forall|exact: int|
            10000 * exact == planning_total@ * bps && #[trigger] representable(exact)
                && representable(10000 * exact) ==> cap is Some && cap->0 is Some && cap->0->0@
                == exact,
{
    match max_turnover_bps {
        Some(bps) => match multiply_decimals(planning_total, Decimal::from_integer(bps as i64)) {
            Some(product) => {
                let cap = divide_decimals(product, Decimal::from_integer(10000));
                proof {
                    lemma_unit_positive();
                    assert forall|exact: int|
                        10000 * exact == planning_total@ * bps && #[trigger] representable(exact)
                            && representable(10000 * exact) implies cap is Some && cap->0@
                        == exact by {
                        assert((10000 * exact) * unit() == planning_total@ * (bps * unit()))
                            by (nonlinear_arith)
                            requires
                                10000 * exact == planning_total@ * bps,
                        ;
                        assert(product@ == 10000 * exact);
                        assert(exact * (10000 * unit()) == product@ * unit()) by (nonlinear_arith)
                            requires
                                product@ == 10000 * exact,
                        ;
                    }
                }
                match cap {
                    Some(cap) => Some(Some(cap)),
                    None => None,
                }
            },
            None => {
                proof {
                    assert forall|exact: int|
                        10000 * exact == planning_total@ * bps && #[trigger] representable(exact)
                            && representable(10000 * exact) implies false by {
                        assert((10000 * exact) * unit() == planning_total@ * (bps * unit()))
                            by (nonlinear_arith)
                            requires
                                10000 * exact == planning_total@ * bps,
                        ;
                    }
                }
                None
            },
        },
        None => Some(None),
    }
}

/// The first security with an identifier.
pub open spec fn first_security(securities: Seq<SecurityInput>, asset_id: Seq<char>) -> Option<
    SecurityInput,
>
    decreases securities.len(),
{
    if securities.len() == 0 {
        None
    } else if securities[0].asset_id@ == asset_id {
        Some(securities[0])
    } else {
        first_security(securities.drop_first(), asset_id)
    }
}

fn find_security<'a>(securities: &'a [SecurityInput], asset_id: &String) -> (found: Option<
    &'a SecurityInput,
>)
    ensures
        match found {
            Some(security) => first_security(securities@, asset_id@) == Some(*security),
            None => first_security(securities@, asset_id@) is None,
        },
{
    assert(securities@.skip(0) =~= securities@);
    for i in 0..securities.len()
        invariant
            first_security(securities@, asset_id@) == first_security(
                securities@.skip(i as int),
                asset_id@,
            ),
    {
        if securities[i].asset_id == *asset_id {
            return Some(&securities[i]);
        }
        assert(securities@.skip(i as int).drop_first() =~= securities@.skip(i + 1));
    }
    None
}

/// The price of a security's unit, where it has one above zero.
pub open spec fn usable_price(securities: Seq<SecurityInput>, asset_id: Seq<char>) -> Option<
    Decimal,
> {
    match first_security(securities, asset_id) {
        Some(security) => if security.has_usable_price() {
            security.unit_price
        } else {
            None
        },
        None => None,
    }
}

fn unit_price_of(securities: &[SecurityInput], asset_id: &String) -> (price: Option<Decimal>)
    ensures
        price == usable_price(securities@, asset_id@),
{
    match find_security(securities, asset_id) {
        Some(security) => match security.unit_price {
            Some(price) => if price.is_positive() {
                Some(price)
            } else {
                None
            },
            None => None,
        },
        None => None,
    }
}

/// What the units of a security that may be reduced are worth.
pub open spec fn held_value(security: SecurityInput) -> Option<Decimal> {
    let price = match security.unit_price {
        Some(price) => price,
        None => Decimal::whole(0),
    };
    match security.spec_reducible_quantity() {
        Some(quantity) => decimal_product(price, quantity),
        None => None,
    }
}

/// Whether `held` is exactly what the units of a security that may be reduced
/// are worth, with nothing to round on the way.
pub open spec fn is_exact_held(security: SecurityInput, held: int) -> bool {
    let quantities = reducible_quantities(security.positions@);
    &&& security.unit_price is Some
    &&& is_exact_total(quantities)
    &&& representable(held)
    &&& held * unit() == security.unit_price->0@ * exact_total(quantities)
}

/// A reduction's amount, no more than what is held: zero for a security that is
/// not recorded.
pub open spec fn capped_amount(
    reduction: DraftReduction,
    securities: Seq<SecurityInput>,
) -> Option<Decimal> {
    match first_security(securities, reduction.asset_id@) {
        None => Some(Decimal::whole(0)),
        Some(security) => match held_value(security) {
            Some(held) => Some(lesser(reduction.amount, held)),
            None => None,
        },
    }
}

/// Every reduction's amount, no more than what is held.
pub open spec fn capped_amounts(
    reductions: Seq<DraftReduction>,
    securities: Seq<SecurityInput>,
) -> Option<Seq<Decimal>> {
    all_of(
        reductions.map_values(|reduction: DraftReduction| capped_amount(reduction, securities)),
    )
}

/// A reduction cannot exceed the recorded position it is drawn from. Positions
/// a do-not-sell constraint covers are not drawn from at all.
pub fn cap_to_held_quantity(reductions: &[DraftReduction],
    securities: &[SecurityInput]) -> (amounts:
    Option<Vec<Decimal>>)
    ensures
        match amounts {
            Some(found) => capped_amounts(reductions@, securities@) == Some(found@),
            None => capped_amounts(reductions@, securities@) is None,
        },
        amounts matches Some(found) ==> forall|i: int|
            0 <= i < reductions@.len() ==> match first_security(
                securities@,
                reductions@[i].asset_id@,
            ) {
                Some(security) => (#[trigger] found@[i])@ <= reductions@[i].amount@ && held_value(
                    security,
                ) is Some && found@[i]@ <= held_value(security)->0@,
                None => found@[i]@ == 0,
            },
        amounts matches Some(found) ==> forall|i: int, security: SecurityInput, held: int|
            0 <= i < reductions@.len() && first_security(securities@, reductions@[i].asset_id@)
                == Some(security) && #[trigger] is_exact_held(security, held) ==> (
            #[trigger] found@[i])@ == (if reductions@[i].amount@ > held {
                held
            } else {
                reductions@[i].amount@
            }),
{
    let mut amounts: Vec<Decimal> = Vec::new();
    let ghost each = reductions@.map_values(
        |reduction: DraftReduction| capped_amount(reduction, securities@),
    );
    #[verifier::loop_isolation(false)]
    for i in 0..reductions.len()
        invariant
            amounts@.len() == i,
            forall|j: int| 0 <= j < i ==> Some(#[trigger] amounts@[j]) == each[j],
            forall|j: int, security: SecurityInput, held: int|
                0 <= j < i && first_security(securities@, reductions@[j].asset_id@) == Some(
                    security,
                ) && #[trigger] is_exact_held(security, held) ==> (#[trigger] amounts@[j])@ == (
                if reductions@[j].amount@ > held {
                    held
                } else {
                    reductions@[j].amount@
                }),
    {
        assert(each[i as int] == capped_amount(reductions@[i as int], securities@));
        let amount = match find_security(securities, &reductions[i].asset_id) {
            None => Decimal::zero(),
            Some(security) => {
                let price = match security.unit_price {
                    Some(price) => price,
                    None => Decimal::zero(),
                };
                let held = match security.reducible_quantity() {
                    Some(quantity) => multiply_decimals(price, quantity),
                    None => None,
                };
                match held {
                    Some(held) => reductions[i].amount.min(held),
                    None => {
                        proof {
                            lemma_all_of_none(each, i as int);
                        }
                        return None;
                    },
                }
            },
        };
        amounts.push(amount);
    }
    proof {
        assert forall|j: int| 0 <= j < each.len() implies (#[trigger] each[j]) is Some by {
            assert(Some(amounts@[j]) == each[j]);
        }
        assert(amounts@ =~= all_of(each)->0);
        lemma_whole_value(0);
        assert forall|j: int| 0 <= j < reductions@.len() implies Some(#[trigger] amounts@[j])
            == capped_amount(reductions@[j], securities@) by {
            assert(Some(amounts@[j]) == each[j]);
        }
    }
    Some(amounts)
}

/// Amounts, each times the same factor.
pub open spec fn scaled(amounts: Seq<Decimal>, factor: Decimal) -> Option<Seq<Decimal>> {
    all_of(amounts.map_values(|amount: Decimal| decimal_product(amount, factor)))
}

/// Reductions scaled to fit a cap on their total, and the factor where the cap
/// bound.
pub open spec fn turnover_scaled(amounts: Seq<Decimal>, cap: Option<Decimal>) -> Option<
    (Seq<Decimal>, Option<Decimal>),
> {
    match cap {
        None => Some((amounts, None)),
        Some(cap) => match total(amounts) {
            None => None,
            Some(sum) => if sum@ <= cap@ || sum@ <= 0 {
                Some((amounts, None))
            } else {
                match decimal_quotient(cap, sum) {
                    None => None,
                    Some(factor) => match scaled(amounts, factor) {
                        Some(fitted) => Some((fitted, Some(factor))),
                        None => None,
                    },
                }
            },
        },
    }
}

/// Copies a list of decimals.
fn copy_decimals(amounts: &[Decimal]) -> (copy: Vec<Decimal>)
    ensures
        copy@ == amounts@,
{
    let mut copy: Vec<Decimal> = Vec::new();
    for i in 0..amounts.len()
        invariant
            copy@ == amounts@.take(i as int),
    {
        assert(amounts@.take(i + 1) =~= amounts@.take(i as int).push(amounts@[i as int]));
        copy.push(amounts[i]);
    }
    assert(amounts@.take(amounts@.len() as int) =~= amounts@);
    copy
}

/// Every reduction is scaled by the same factor to fit the cap.
///
/// Returns the factor when the cap bound, so the result can state that the
/// scaling was applied. Under a cap that is not negative the factor lies
/// between zero and one, and no amount grows.
pub fn scale_to_turnover_cap(amounts: &[Decimal], cap: Option<Decimal>) -> (fitted: Option<
    (Vec<Decimal>, Option<Decimal>),
>)
    ensures
        match fitted {
            Some((found, factor)) => turnover_scaled(amounts@, cap) == Some((found@, factor)),
            None => turnover_scaled(amounts@, cap) is None,
        },
        fitted matches Some((found, factor)) ==> found@.len() == amounts@.len(),
        fitted matches Some((found, Some(factor))) ==> cap->0@ >= 0 ==> 0 <= factor@ <= unit()
            && forall|i: int|
            0 <= i < amounts@.len() && amounts@[i]@ >= 0 ==> 0 <= (#[trigger] found@[i])@
                <= amounts@[i]@,
        fitted matches Some((found, Some(factor))) ==> forall|exact: int| #[trigger]
            representable(exact) && exact * total(amounts@)->0@ == cap->0@ * unit() ==> factor@
                == exact,
        fitted matches Some((found, Some(factor))) ==> forall|i: int, exact: int|
            0 <= i < amounts@.len() && #[trigger] representable(exact) && exact * unit()
                == amounts@[i]@ * factor@ ==> (#[trigger] found@[i])@ == exact,
        is_exact_total(amounts@) && (cap matches Some(limit) ==> limit@ >= 0) && (forall|i: int|
            0 <= i < amounts@.len() ==> (#[trigger] amounts@[i])@ >= 0) ==> fitted is Some,
{
    let cap_amount = match cap {
        Some(cap_amount) => cap_amount,
        None => {
            return Some((copy_decimals(amounts), None));
        },
    };
    let sum = match sum_decimals(amounts) {
        Some(sum) => sum,
        None => {
            return None;
        },
    };
    if !cap_amount.is_below(&sum) || !sum.is_positive() {
        return Some((copy_decimals(amounts), None));
    }
    let factor = match divide_decimals(cap_amount, sum) {
        Some(factor) => factor,
        None => {
            return None;
        },
    };
    proof {
        if cap_amount@ >= 0 {
            assert(cap_amount@ * sum@ >= 0) by (nonlinear_arith)
                requires
                    cap_amount@ >= 0,
                    sum@ > 0,
            ;
        }
    }
    let ghost each = amounts@.map_values(|amount: Decimal| decimal_product(amount, factor));
    let mut found: Vec<Decimal> = Vec::new();
    #[verifier::loop_isolation(false)]
    for i in 0..amounts.len()
        invariant
            found@.len() == i,
            forall|j: int| 0 <= j < i ==> Some(#[trigger] found@[j]) == each[j],
            forall|j: int, exact: int|
                0 <= j < i && #[trigger] representable(exact) && exact * unit() == amounts@[j]@
                    * factor@ ==> (#[trigger] found@[j])@ == exact,
            cap_amount@ >= 0 ==> forall|j: int|
                0 <= j < i && amounts@[j]@ >= 0 ==> 0 <= (#[trigger] found@[j])@ <= amounts@[j]@,
    {
        assert(each[i as int] == decimal_product(amounts@[i as int], factor));
        assert(amounts@[i as int]@ >= 0 && factor@ >= 0 ==> amounts@[i as int]@ * factor@ >= 0)
            by (nonlinear_arith);
        match multiply_decimals(amounts[i], factor) {
            Some(amount) => found.push(amount),
            None => {
                proof {
                    lemma_all_of_none(each, i as int);
                }
                return None;
            },
        }
    }
    proof {
        assert forall|j: int| 0 <= j < each.len() implies (#[trigger] each[j]) is Some by {
            assert(Some(found@[j]) == each[j]);
        }
        assert(found@ =~= all_of(each)->0);
    }
    Some((found, Some(factor)))
}

/// The amounts of the increases that depend on what the reductions raise.
pub open spec fn proceeds_funded_amounts(increases: Seq<DraftIncrease>) -> Seq<Decimal> {
    increases.filter(|increase: DraftIncrease| increase.funding
        == IncreaseFunding::Proceeds).map_values(
        |increase: DraftIncrease| increase.amount,
    )
}

/// The amounts of the increases.
pub open spec fn increase_amounts(increases: Seq<DraftIncrease>) -> Seq<Decimal> {
    increases.map_values(|increase: DraftIncrease| increase.amount)
}

/// The part of the increases funded by proceeds that the funding covers, never
/// less than nothing: `(funded - (needed - available)) / funded`.
pub open spec fn funding_factor(
    needed: Decimal,
    funded: Decimal,
    available: Decimal,
) -> Option<Decimal> {
    match decimal_difference(needed, available) {
        None => None,
        Some(shortfall) => match decimal_difference(funded, shortfall) {
            None => None,
            Some(covered) => match decimal_quotient(covered, funded) {
                Some(factor) => Some(greater(factor, Decimal::whole(0))),
                None => None,
            },
        },
    }
}

/// An increase's amount under a factor on what proceeds fund.
pub open spec fn funded_amount(increase: DraftIncrease, factor: Decimal) -> Option<Decimal> {
    if increase.funding == IncreaseFunding::Proceeds {
        decimal_product(increase.amount, factor)
    } else {
        Some(increase.amount)
    }
}

/// Increases scaled to the funding available to them, and the factor where they
/// were scaled.
pub open spec fn funding_scaled(increases: Seq<DraftIncrease>, available: Decimal) -> Option<
    (Seq<Decimal>, Option<Decimal>),
> {
    match total(increase_amounts(increases)) {
        None => None,
        Some(needed) => if needed@ <= available@ {
            Some((increase_amounts(increases), None))
        } else {
            match total(proceeds_funded_amounts(increases)) {
                None => None,
                Some(funded) => if funded@ <= 0 {
                    Some((increase_amounts(increases), None))
                } else {
                    match funding_factor(needed, funded, available) {
                        None => None,
                        Some(factor) => match all_of(
                            increases.map_values(
                                |increase: DraftIncrease| funded_amount(increase, factor),
                            ),
                        ) {
                            Some(amounts) => Some((amounts, Some(factor))),
                            None => None,
                        },
                    }
                },
            }
        },
    }
}

/// The amounts of the increases, and of those that depend on proceeds.
fn funding_needs(increases: &[DraftIncrease]) -> (needs: (Vec<Decimal>, Vec<Decimal>))
    ensures
        needs.0@ == increase_amounts(increases@),
        needs.1@ == proceeds_funded_amounts(increases@),
{
    let mut every: Vec<Decimal> = Vec::new();
    let mut funded: Vec<Decimal> = Vec::new();
    proof {
        reveal(Seq::filter);
        assert(proceeds_funded_amounts(increases@.take(0)) =~= Seq::<Decimal>::empty());
    }
    for i in 0..increases.len()
        invariant
            every@ == increase_amounts(increases@.take(i as int)),
            funded@ == proceeds_funded_amounts(increases@.take(i as int)),
    {
        proof {
            reveal(Seq::filter);
            let now = increases@.take(i + 1);
            assert(now.drop_last() =~= increases@.take(i as int));
            assert(increase_amounts(now) =~= every@.push(increases@[i as int].amount));
            if increases@[i as int].funding == IncreaseFunding::Proceeds {
                assert(proceeds_funded_amounts(now) =~= funded@.push(increases@[i as int].amount));
            } else {
                assert(proceeds_funded_amounts(now) =~= funded@);
            }
        }
        every.push(increases[i].amount);
        if increases[i].funding == IncreaseFunding::Proceeds {
            funded.push(increases[i].amount);
        }
    }
    assert(increases@.take(increases@.len() as int) =~= increases@);
    (every, funded)
}

/// Increases are scaled down to the funding available to them.
///
/// Increases already covered by cash deployed in the first pass are left alone:
/// the shortfall belongs to the increases that depend on reduction proceeds, so
/// scaling the cash-funded ones would leave selected cash undeployed for no
/// reason. The factor is never negative.
pub fn scale_to_funding(increases: &[DraftIncrease], available: Decimal) -> (fitted: Option<
    (Vec<Decimal>, Option<Decimal>),
>)
    ensures
        match fitted {
            Some((found, factor)) => funding_scaled(increases@, available) == Some((found@,
                factor)),
            None => funding_scaled(increases@, available) is None,
        },
        fitted matches Some((found, factor)) ==> found@.len() == increases@.len() && forall|i: int|
            0 <= i < increases@.len() && increases@[i].funding == IncreaseFunding::Cash ==> (
            #[trigger] found@[i]) == increases@[i].amount,
        fitted matches Some((found, Some(factor))) ==> factor@ >= 0 && forall|i: int|
            0 <= i < increases@.len() && increases@[i].amount@ >= 0 ==> 0 <= (
            #[trigger] found@[i])@ && (factor@ <= unit() ==> found@[i]@ <= increases@[i].amount@),
        fitted matches Some((found, Some(factor))) ==> {
            let needed = total(increase_amounts(increases@))->0@;
            let funded = total(proceeds_funded_amounts(increases@))->0@;
            forall|exact: int| #[trigger]
                representable(exact) && representable(needed - available@) && representable(
                    funded - (needed - available@),
                ) && exact * funded == (funded - (needed - available@)) * unit() ==> factor@ == (
                if exact < 0 {
                    0
                } else {
                    exact
                })
        },
        fitted matches Some((found, Some(factor))) ==> forall|i: int, exact: int|
            0 <= i < increases@.len() && increases@[i].funding == IncreaseFunding::Proceeds
                && #[trigger] representable(exact) && exact * unit() == increases@[i].amount@
                * factor@ ==> (#[trigger] found@[i])@ == exact,
{
    let (every, proceeds) = funding_needs(increases);
    let needed = match sum_decimals(&every) {
        Some(needed) => needed,
        None => {
            return None;
        },
    };
    if !available.is_below(&needed) {
        return Some((every, None));
    }
    let funded = match sum_decimals(&proceeds) {
        Some(funded) => funded,
        None => {
            return None;
        },
    };
    if !funded.is_positive() {
        return Some((every, None));
    }
    let covered = match subtract_decimals(needed, available) {
        Some(shortfall) => subtract_decimals(funded, shortfall),
        None => None,
    };
    let share = match covered {
        Some(covered) => divide_decimals(covered, funded),
        None => None,
    };
    let factor = match share {
        Some(share) => share.max(Decimal::zero()),
        None => {
            return None;
        },
    };
    proof {
        lemma_whole_value(0);
    }
    let ghost each = increases@.map_values(
        |increase: DraftIncrease| funded_amount(increase, factor),
    );
    let mut found: Vec<Decimal> = Vec::new();
    #[verifier::loop_isolation(false)]
    for i in 0..increases.len()
        invariant
            found@.len() == i,
            forall|j: int| 0 <= j < i ==> Some(#[trigger] found@[j]) == each[j],
            forall|j: int|
                0 <= j < i && increases@[j].amount@ >= 0 ==> 0 <= (#[trigger] found@[j])@ && (
                factor@ <= unit() ==> found@[j]@ <= increases@[j].amount@),
            forall|j: int, exact: int|
                0 <= j < i && increases@[j].funding == IncreaseFunding::Proceeds
                    && #[trigger] representable(exact) && exact * unit() == increases@[j].amount@
                    * factor@ ==> (#[trigger] found@[j])@ == exact,
    {
        assert(each[i as int] == funded_amount(increases@[i as int], factor));
        if increases[i].funding == IncreaseFunding::Proceeds {
            let ghost amount = increases@[i as int].amount@;
            assert(amount >= 0 && factor@ >= 0 ==> amount * factor@ >= 0) by (nonlinear_arith);
            match multiply_decimals(increases[i].amount, factor) {
                Some(amount) => found.push(amount),
                None => {
                    proof {
                        lemma_all_of_none(each, i as int);
                    }
                    return None;
                },
            }
        } else {
            found.push(increases[i].amount);
        }
    }
    proof {
        assert forall|j: int| 0 <= j < each.len() implies (#[trigger] each[j]) is Some by {
            assert(Some(found@[j]) == each[j]);
        }
        assert(found@ =~= all_of(each)->0);
        assert forall|j: int|
            0 <= j < increases@.len() && increases@[j].funding == IncreaseFunding::Cash implies (
        #[trigger] found@[j]) == increases@[j].amount by {
            assert(Some(found@[j]) == each[j]);
        }
    }
    Some((found, Some(factor)))
}

/// One, signed by a direction.
pub open spec fn sign_of(direction: WorksheetDirection) -> int {
    match direction {
        WorksheetDirection::Increase => 1,
        WorksheetDirection::Reduce => -1,
    }
}

/// The quantity that an amount buys at a price, whole where only whole units
/// may be held.
pub open spec fn line_quantity(
    amount: Decimal,
    unit_price: Decimal,
    whole_shares_only: bool,
) -> Option<Decimal> {
    match decimal_quotient(amount, unit_price) {
        None => None,
        Some(quantity) => Some(
            if whole_shares_only {
                floor_of(quantity)
            } else {
                quantity
            },
        ),
    }
}

/// The line for an amount of a security at a price.
pub open spec fn line_of(
    asset_id: Seq<char>,
    amount: Decimal,
    unit_price: Decimal,
    direction: WorksheetDirection,
    limits: LimitsInput,
) -> Option<LimitedLineView> {
    match line_quantity(amount, unit_price, limits.whole_shares_only) {
        None => None,
        Some(quantity) => match decimal_product(quantity, unit_price) {
            None => None,
            Some(resolved) => {
                let sign = Decimal::whole(sign_of(direction));
                match (decimal_product(resolved, sign), decimal_product(quantity, sign)) {
                    (Some(signed_amount), Some(signed_quantity)) => Some(
                        LimitedLineView {
                            asset_id,
                            amount: signed_amount,
                            quantity: signed_quantity,
                            unit_price,
                            is_below_minimum: limits.min_line_amount@ > 0 && resolved@
                                < limits.min_line_amount@,
                        },
                    ),
                    _ => None,
                }
            },
        },
    }
}

/// Whether `quantity` and `resolved` are exactly the quantity that an amount
/// buys at a price, floored where only whole units may be held, and what it
/// costs.
pub open spec fn is_exact_line(
    amount: int,
    unit_price: int,
    whole_shares_only: bool,
    quantity: int,
    resolved: int,
) -> bool {
    exists|bought: int| #[trigger]
        representable(bought) && bought * unit_price == amount * unit() && quantity == (
        if whole_shares_only {
            (bought / unit()) * unit()
        } else {
            bought
        }) && resolved * unit() == quantity * unit_price && representable(resolved)
}

/// Whether a line goes in a direction, at a price above zero, in whole units
/// where only those may be held.
pub open spec fn is_line_in(
    line: LimitedLineView,
    direction: WorksheetDirection,
    whole_shares_only: bool,
) -> bool {
    &&& sign_of(direction) * line.amount@ >= 0
    &&& sign_of(direction) * line.quantity@ >= 0
    &&& line.unit_price@ > 0
    &&& whole_shares_only ==> line.quantity@ % unit() == 0
}

/// Whether all of some lines go in a direction.
pub open spec fn are_lines_in(
    lines: Seq<LimitedLineView>,
    direction: WorksheetDirection,
    whole_shares_only: bool,
) -> bool {
    forall|k: int|
        0 <= k < lines.len() ==> is_line_in(#[trigger] lines[k], direction, whole_shares_only)
}

/// A decimal times one or minus one is the decimal with that sign.
proof fn lemma_signed(d: Decimal, sign: Decimal, s: int)
    requires
        d.valid(),
        s == 1 || s == -1,
        sign@ == s * unit(),
    ensures
        representable(s * d@),
        (s * d@) * unit() == d@ * sign@,
{
    lemma_valid_is_representable(d);
    lemma_representable_negated(d@);
    assert((s * d@) * unit() == d@ * sign@) by (nonlinear_arith)
        requires
            sign@ == s * unit(),
    ;
}

/// Quantities are floored under whole-unit policy, and a line below the minimum
/// is flagged rather than dropped or re-rounded.
pub fn finalize(
    asset_id: &String,
    amount: Decimal,
    unit_price: Decimal,
    direction: WorksheetDirection,
    limits: &LimitsInput,
) -> (line: Option<LimitedLine>)
    ensures
        match line {
            Some(found) => line_of(asset_id@, amount, unit_price, direction, *limits) == Some(
                found@,
            ),
            None => line_of(asset_id@, amount, unit_price, direction, *limits) is None,
        },
        line matches Some(found) ==> limits.whole_shares_only ==> found.quantity@ % unit() == 0,
        line matches Some(found) ==> amount@ >= 0 && unit_price@ > 0 ==> is_line_in(
            found@,
            direction,
            limits.whole_shares_only,
        ),
        forall|quantity: int, resolved: int| #[trigger]
            is_exact_line(
                amount@,
                unit_price@,
                limits.whole_shares_only,
                quantity,
                resolved,
            ) && unit_price@ != 0 ==> line is Some && line->0.quantity@ == sign_of(direction)
                * quantity && line->0.amount@ == sign_of(direction) * resolved
                && line->0.is_below_minimum == (limits.min_line_amount@ > 0 && resolved
                < limits.min_line_amount@),
{
    let quotient = match divide_decimals(amount, unit_price) {
        Some(quotient) => quotient,
        None => {
            return None;
        },
    };
    let quantity = if limits.whole_shares_only {
        floor_decimal(quotient)
    } else {
        quotient
    };
    proof {
        lemma_unit_positive();
        lemma_whole_value(1);
        lemma_whole_value(-1);
    }
    let resolved = match multiply_decimals(quantity, unit_price) {
        Some(resolved) => resolved,
        None => {
            return None;
        },
    };
    proof {
        if amount@ >= 0 && unit_price@ > 0 {
            let price = unit_price@;
            let (bought, held, cost) = (quotient@, quantity@, resolved@);
            assert(amount@ * price >= 0) by (nonlinear_arith)
                requires
                    amount@ >= 0,
                    price > 0,
            ;
            assert(bought >= 0);
            assert((bought / unit()) * unit() >= 0) by (nonlinear_arith)
                requires
                    bought >= 0,
                    unit() > 0,
            ;
            assert(held * price >= 0) by (nonlinear_arith)
                requires
                    held >= 0,
                    price > 0,
            ;
        }
    }
    let is_below_minimum = limits.min_line_amount.is_positive() && resolved.is_below(
        &limits.min_line_amount,
    );
    let sign = match direction {
        WorksheetDirection::Increase => Decimal::one(),
        WorksheetDirection::Reduce => Decimal::from_integer(-1),
    };
    proof {
        use_type_invariant(&resolved);
        use_type_invariant(&quantity);
        lemma_signed(resolved, sign, sign_of(direction));
        lemma_signed(quantity, sign, sign_of(direction));
        if limits.whole_shares_only {
            let count = sign_of(direction) * (quotient@ / unit());
            assert(sign_of(direction) * quantity@ == count * unit()) by (nonlinear_arith)
                requires
                    quantity@ == (quotient@ / unit()) * unit(),
                    count == sign_of(direction) * (quotient@ / unit()),
            ;
            vstd::arithmetic::div_mod::lemma_mod_multiples_basic(count, unit());
        }
    }
    let signed_amount = multiply_decimals(resolved, sign);
    let signed_quantity = multiply_decimals(quantity, sign);
    match (signed_amount, signed_quantity) {
        (Some(amount), Some(quantity)) => Some(
            LimitedLine {
                asset_id: asset_id.clone(),
                amount,
                quantity,
                unit_price,
                is_below_minimum,
            },
        ),
        _ => None,
    }
}

/// The lines for the amounts that are more than zero and whose security has a
/// usable price, in their order.
pub open spec fn lines_of(
    asset_ids: Seq<Seq<char>>,
    amounts: Seq<Decimal>,
    direction: WorksheetDirection,
    securities: Seq<SecurityInput>,
    limits: LimitsInput,
) -> Option<Seq<LimitedLineView>>
    decreases amounts.len(),
{
    if amounts.len() == 0 {
        Some(Seq::empty())
    } else {
        let before = lines_of(
            asset_ids.drop_last(),
            amounts.drop_last(),
            direction,
            securities,
            limits,
        );
        let price = usable_price(securities, asset_ids.last());
        match before {
            None => None,
            Some(lines) => if amounts.last()@ > 0 && price is Some {
                match line_of(asset_ids.last(), amounts.last(), price->0, direction, limits) {
                    Some(line) => Some(lines.push(line)),
                    None => None,
                }
            } else {
                Some(lines)
            },
        }
    }
}

/// Where the lines up to some draft are not there, no later draft brings them
/// back.
proof fn lemma_lines_stay_none(
    asset_ids: Seq<Seq<char>>,
    amounts: Seq<Decimal>,
    direction: WorksheetDirection,
    securities: Seq<SecurityInput>,
    limits: LimitsInput,
    n: int,
)
    requires
        asset_ids.len() == amounts.len(),
        0 <= n <= amounts.len(),
        lines_of(asset_ids.take(n), amounts.take(n), direction, securities, limits) is None,
    ensures
        lines_of(asset_ids, amounts, direction, securities, limits) is None,
    decreases amounts.len() - n,
{
    if n < amounts.len() {
        assert(amounts.take(n + 1).drop_last() =~= amounts.take(n));
        assert(asset_ids.take(n + 1).drop_last() =~= asset_ids.take(n));
        lemma_lines_stay_none(asset_ids, amounts, direction, securities, limits, n + 1);
    } else {
        assert(amounts.take(n) =~= amounts);
        assert(asset_ids.take(n) =~= asset_ids);
    }
}

fn lines(
    asset_ids: &Vec<String>,
    amounts: &Vec<Decimal>,
    direction: WorksheetDirection,
    securities: &[SecurityInput],
    limits: &LimitsInput,
) -> (lines: Option<Vec<LimitedLine>>)
    requires
        asset_ids@.len() == amounts@.len(),
    ensures
        match lines {
            Some(found) => lines_of(
                texts(asset_ids@),
                amounts@,
                direction,
                securities@,
                *limits,
            ) == Some(line_views(found@)),
            None => lines_of(texts(asset_ids@), amounts@, direction, securities@, *limits) is None,
        },
        lines matches Some(found) ==> are_lines_in(
            line_views(found@),
            direction,
            limits.whole_shares_only,
        ),
{
    let mut found: Vec<LimitedLine> = Vec::new();
    let ghost ids = texts(asset_ids@);
    assert(line_views(found@) =~= Seq::empty());
    for i in 0..amounts.len()
        invariant
            ids == texts(asset_ids@),
            asset_ids@.len() == amounts@.len(),
            lines_of(
                ids.take(i as int),
                amounts@.take(i as int),
                direction,
                securities@,
                *limits,
            ) == Some(line_views(found@)),
            are_lines_in(line_views(found@), direction, limits.whole_shares_only),
    {
        let ghost before = found@;
        proof {
            assert(ids.take(i + 1).drop_last() =~= ids.take(i as int));
            assert(amounts@.take(i + 1).drop_last() =~= amounts@.take(i as int));
            assert(ids.take(i + 1).last() == asset_ids@[i as int]@);
        }
        if amounts[i].is_positive() {
            match unit_price_of(securities, &asset_ids[i]) {
                Some(price) => match finalize(&asset_ids[i], amounts[i], price, direction, limits) {
                    Some(line) => {
                        found.push(line);
                        assert(line_views(found@) =~= line_views(before).push(line@));
                    },
                    None => {
                        proof {
                            lemma_lines_stay_none(
                                ids,
                                amounts@,
                                direction,
                                securities@,
                                *limits,
                                i + 1,
                            );
                        }
                        return None;
                    },
                },
                None => {},
            }
        }
    }
    proof {
        assert(ids.take(ids.len() as int) =~= ids);
        assert(amounts@.take(amounts@.len() as int) =~= amounts@);
    }
    Some(found)
}

/// The identifiers of the securities that increases are of.
pub open spec fn increase_ids(increases: Seq<DraftIncrease>) -> Seq<Seq<char>> {
    increases.map_values(|increase: DraftIncrease| increase.asset_id@)
}

/// The identifiers of the securities that reductions are of.
pub open spec fn reduction_ids(reductions: Seq<DraftReduction>) -> Seq<Seq<char>> {
    reductions.map_values(|reduction: DraftReduction| reduction.asset_id@)
}

/// The cash that each reduction raises.
pub open spec fn moved_amounts(lines: Seq<LimitedLineView>) -> Seq<Decimal> {
    lines.map_values(|line: LimitedLineView| magnitude(line.amount))
}

/// The cash that each increase deploys.
pub open spec fn deployed_amounts(lines: Seq<LimitedLineView>) -> Seq<Decimal> {
    lines.map_values(|line: LimitedLineView| line.amount)
}

/// Whether nothing has to be rounded on the way to the cash that is left.
pub open spec fn is_exact_cash(
    limits: LimitsInput,
    increases: Seq<LimitedLineView>,
    reductions: Seq<LimitedLineView>,
) -> bool {
    let cash = limits.tracked_cash@ + limits.external_cash@;
    let raised = exact_total(moved_amounts(reductions));
    let deployed = exact_total(deployed_amounts(increases));
    &&& is_exact_total(moved_amounts(reductions))
    &&& is_exact_total(deployed_amounts(increases))
    &&& representable(cash)
    &&& representable(cash + raised)
    &&& representable(cash + raised - deployed)
}

/// The selected cash plus a further amount.
pub open spec fn cash_with(limits: LimitsInput, more: Decimal) -> Option<Decimal> {
    match decimal_sum(limits.tracked_cash, limits.external_cash) {
        Some(cash) => decimal_sum(cash, more),
        None => None,
    }
}

/// The selected cash, plus what the reductions raise, less what the increases
/// deploy.
pub open spec fn cash_left(
    limits: LimitsInput,
    increases: Seq<LimitedLineView>,
    reductions: Seq<LimitedLineView>,
) -> Option<Decimal> {
    match (total(deployed_amounts(increases)), total(moved_amounts(reductions))) {
        (Some(deployed), Some(raised)) => match cash_with(limits, raised) {
            Some(cash) => decimal_difference(cash, deployed),
            None => None,
        },
        _ => None,
    }
}

/// The drafts after every limit: reductions capped to what is held and scaled
/// to the turnover cap, increases scaled to the selected cash plus what those
/// reductions raise, then rounding, the minimum line, and the cash left.
pub open spec fn limited(
    increases: Seq<DraftIncrease>,
    reductions: Seq<DraftReduction>,
    securities: Seq<SecurityInput>,
    limits: LimitsInput,
) -> Option<LimitedAdjustmentsView> {
    match capped_amounts(reductions, securities) {
        None => None,
        Some(capped) => match turnover_scaled(capped, limits.turnover_cap) {
            None => None,
            Some((reduced, reduction_factor)) => match available_funding(limits, reduced) {
                None => None,
                Some(available) => match funding_scaled(increases, available) {
                    None => None,
                    Some((increased, increase_factor)) => finished(
                        lines_of(
                            increase_ids(increases),
                            increased,
                            WorksheetDirection::Increase,
                            securities,
                            limits,
                        ),
                        lines_of(
                            reduction_ids(reductions),
                            reduced,
                            WorksheetDirection::Reduce,
                            securities,
                            limits,
                        ),
                        AdjustmentScaling { reduction_factor, increase_factor },
                        limits,
                    ),
                },
            },
        },
    }
}

/// What the reductions actually raise, added to the cash the user selected.
pub open spec fn available_funding(limits: LimitsInput, reduced: Seq<Decimal>) -> Option<Decimal> {
    match total(reduced) {
        Some(proceeds) => cash_with(limits, proceeds),
        None => None,
    }
}

/// The adjustments, from their lines and factors.
pub open spec fn finished(
    increases: Option<Seq<LimitedLineView>>,
    reductions: Option<Seq<LimitedLineView>>,
    scaling: AdjustmentScaling,
    limits: LimitsInput,
) -> Option<LimitedAdjustmentsView> {
    match (increases, reductions) {
        (Some(increases), Some(reductions)) => match cash_left(limits, increases, reductions) {
            Some(remaining_cash) => Some(
                LimitedAdjustmentsView { increases, reductions, scaling, remaining_cash },
            ),
            None => None,
        },
        _ => None,
    }
}

fn add_cash(limits: &LimitsInput, more: Decimal) -> (cash: Option<Decimal>)
    ensures
        cash == cash_with(*limits, more),
        representable(limits.tracked_cash@ + limits.external_cash@) && representable(
            limits.tracked_cash@ + limits.external_cash@ + more@,
        ) ==> cash is Some && cash->0@ == limits.tracked_cash@ + limits.external_cash@ + more@,
{
    match add_decimals(limits.tracked_cash, limits.external_cash) {
        Some(cash) => add_decimals(cash, more),
        None => None,
    }
}

/// The selected cash, plus what the reductions raise, less what the increases
/// deploy. Whatever rounding left behind is not redistributed: that would be
/// another round of construction.
pub fn cash_left_over(
    limits: &LimitsInput,
    increases: &Vec<LimitedLine>,
    reductions: &Vec<LimitedLine>,
) -> (remaining: Option<Decimal>)
    ensures
        remaining == cash_left(*limits, line_views(increases@), line_views(reductions@)),
        is_exact_cash(*limits, line_views(increases@), line_views(reductions@))
            ==> remaining is Some
            && remaining->0@ == limits.tracked_cash@ + limits.external_cash@ + exact_total(
            moved_amounts(line_views(reductions@)),
        ) - exact_total(deployed_amounts(line_views(increases@))),
{
    let mut deployed: Vec<Decimal> = Vec::new();
    for i in 0..increases.len()
        invariant
            deployed@ == deployed_amounts(line_views(increases@)).take(i as int),
    {
        proof {
            let every = deployed_amounts(line_views(increases@));
            assert(every.take(i + 1) =~= every.take(i as int).push(every[i as int]));
        }
        deployed.push(increases[i].amount);
    }
    let mut raised: Vec<Decimal> = Vec::new();
    for i in 0..reductions.len()
        invariant
            raised@ == moved_amounts(line_views(reductions@)).take(i as int),
    {
        proof {
            let every = moved_amounts(line_views(reductions@));
            assert(every.take(i + 1) =~= every.take(i as int).push(every[i as int]));
        }
        raised.push(reductions[i].amount.abs());
    }
    assert(deployed@ =~= deployed_amounts(line_views(increases@)));
    assert(raised@ =~= moved_amounts(line_views(reductions@)));
    match (sum_decimals(&deployed), sum_decimals(&raised)) {
        (Some(deployed), Some(raised)) => match add_cash(limits, raised) {
            Some(cash) => subtract_decimals(cash, deployed),
            None => None,
        },
        _ => None,
    }
}

/// Applies the limits in order: held quantity, turnover cap, available proceeds,
/// funding, rounding, minimum line size, remaining cash.
pub fn apply_limits(
    increases: &[DraftIncrease],
    reductions: &[DraftReduction],
    securities: &[SecurityInput],
    limits: &LimitsInput,
) -> (adjustments: Option<LimitedAdjustments>)
    ensures
        match adjustments {
            Some(found) => limited(increases@, reductions@, securities@, *limits) == Some(found@),
            None => limited(increases@, reductions@, securities@, *limits) is None,
        },
        adjustments matches Some(found) ==> are_lines_in(
            found@.increases,
            WorksheetDirection::Increase,
            limits.whole_shares_only,
        ) && are_lines_in(
            found@.reductions,
            WorksheetDirection::Reduce,
            limits.whole_shares_only,
        ),
{
    let capped = match cap_to_held_quantity(reductions, securities) {
        Some(capped) => capped,
        None => {
            return None;
        },
    };
    let (reduced, reduction_factor) = match scale_to_turnover_cap(&capped, limits.turnover_cap) {
        Some(fitted) => fitted,
        None => {
            return None;
        },
    };
    // What the reductions actually raise, added to the cash the user selected,
    // is the funding available to the increases.
    let available = match sum_decimals(&reduced) {
        Some(proceeds) => add_cash(limits, proceeds),
        None => None,
    };
    let available = match available {
        Some(available) => available,
        None => {
            return None;
        },
    };
    let (increased, increase_factor) = match scale_to_funding(increases, available) {
        Some(fitted) => fitted,
        None => {
            return None;
        },
    };
    let mut increased_ids: Vec<String> = Vec::new();
    for i in 0..increases.len()
        invariant
            texts(increased_ids@) == increase_ids(increases@).take(i as int),
    {
        let ghost before = increased_ids@;
        increased_ids.push(increases[i].asset_id.clone());
        assert(texts(increased_ids@) =~= texts(before).push(increases@[i as int].asset_id@));
        assert(increase_ids(increases@).take(i + 1) =~= increase_ids(increases@).take(
            i as int,
        ).push(increases@[i as int].asset_id@));
    }
    let mut reduced_ids: Vec<String> = Vec::new();
    for i in 0..reductions.len()
        invariant
            texts(reduced_ids@) == reduction_ids(reductions@).take(i as int),
    {
        let ghost before = reduced_ids@;
        reduced_ids.push(reductions[i].asset_id.clone());
        assert(texts(reduced_ids@) =~= texts(before).push(reductions@[i as int].asset_id@));
        assert(reduction_ids(reductions@).take(i + 1) =~= reduction_ids(reductions@).take(
            i as int,
        ).push(reductions@[i as int].asset_id@));
    }
    proof {
        assert(texts(increased_ids@) =~= increase_ids(increases@));
        assert(texts(reduced_ids@) =~= reduction_ids(reductions@));
        assert(texts(increased_ids@).len() == increases@.len());
        assert(texts(reduced_ids@).len() == reductions@.len());
    }
    let reduction_lines = lines(
        &reduced_ids,
        &reduced,
        WorksheetDirection::Reduce,
        securities,
        limits,
    );
    let increase_lines = lines(
        &increased_ids,
        &increased,
        WorksheetDirection::Increase,
        securities,
        limits,
    );
    match (increase_lines, reduction_lines) {
        (Some(increases), Some(reductions)) => match cash_left_over(
            limits,
            &increases,
            &reductions,
        ) {
            Some(remaining_cash) => Some(
                LimitedAdjustments {
                    increases,
                    reductions,
                    scaling: AdjustmentScaling { reduction_factor, increase_factor },
                    remaining_cash,
                },
            ),
            None => None,
        },
        _ => None,
    }
}

} // verus!
