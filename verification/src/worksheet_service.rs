//! What the rebalancing worksheet is calculated from, and what comes of it.
//!
//! The arithmetic lives in [`crate::worksheet_calculator`]: this module resolves
//! who may be increased, who may be reduced, what a unit costs and what the
//! weights are sized against, and hands that over as plain structs.
//!
//! Wherever a result is an `Option` around what is asked for, `None` says that
//! an amount on the way to it does not fit a decimal.

use crate::collect::{all_of, lemma_all_of_none, lemma_all_of_step};
use crate::decimal::{
    add_decimals, decimal_product, decimal_sum, multiply_decimals, representable, sum_decimals,
    total, unit, Decimal,
};
use crate::fx::{conversion_of, convert, rate_views, ExchangeRate, ExchangeRateView, MinorUnit};
use crate::listing::{is_ascending, listing, sorted_distinct};
use crate::text::{lists_text, same_text, texts};
use crate::worksheet_calculator::{PositionInput, SecurityInput};
use crate::worksheet_record_laws::{is_valued, law_securities_are_protected};
use crate::worksheet_model::{
    AllocationTargetConstraint, Asset, ConstraintAction, ConstraintEffect, ConstraintSubjectType,
    Holding, HoldingAllocationContribution, HoldingType, LatestQuoteSnapshot, Quote,
    WorksheetDirection,
};
use vstd::prelude::*;

verus! {

/// The category of what a classification leaves over.
pub const UNKNOWN_CATEGORY_ID: &'static str = "__UNKNOWN__";

/// What a holding is a holding of: its instrument, or itself where it has none.
pub open spec fn key_of(holding: Holding) -> Seq<char> {
    match holding.instrument_id {
        Some(id) => id@,
        None => holding.id@,
    }
}

/// What a holding is a holding of.
pub fn asset_key(holding: &Holding) -> (key: String)
    ensures
        key@ == key_of(*holding),
{
    match &holding.instrument_id {
        Some(id) => id.clone(),
        None => holding.id.clone(),
    }
}

/// What an asset is shown as: its display code, or its symbol, or its
/// identifier, the first that it has.
pub open spec fn shown_symbol(asset: Asset) -> Seq<char> {
    match asset.display_code {
        Some(code) => code@,
        None => match asset.instrument_symbol {
            Some(symbol) => symbol@,
            None => asset.id@,
        },
    }
}

/// What an asset is shown as.
pub fn symbol_of(asset: &Asset) -> (symbol: String)
    ensures
        symbol@ == shown_symbol(*asset),
{
    match &asset.display_code {
        Some(code) => code.clone(),
        None => match &asset.instrument_symbol {
            Some(symbol) => symbol.clone(),
            None => asset.id.clone(),
        },
    }
}

/// The basis every target weight is sized against.
pub open spec fn basis(
    total_value: Decimal,
    tracked_cash_to_use: Decimal,
    external_cash: Decimal,
    has_cash_sleeve: bool,
) -> Option<Decimal> {
    if has_cash_sleeve {
        decimal_sum(total_value, external_cash)
    } else {
        match decimal_sum(total_value, tracked_cash_to_use) {
            Some(sum) => decimal_sum(sum, external_cash),
            None => None,
        }
    }
}

/// The basis every target weight is sized against.
///
/// Cash the worksheet deploys joins the classified universe once it is spent,
/// so sizing the sleeves against a total the worksheet itself grows under-sizes
/// every target and pushes the surplus onto whatever is already overweight.
///
/// With a cash sleeve the tracked cash is already inside `total_value`, so only
/// the hypothetical contribution widens the basis.
///
/// The prefill and the preview share this denominator on purpose: a projection
/// computed against a different total would contradict the prefill that
/// produced it.
pub fn planning_total(
    total_value: Decimal,
    tracked_cash_to_use: Decimal,
    external_cash: Decimal,
    has_cash_sleeve: bool,
) -> (planning_total: Option<Decimal>)
    ensures
        planning_total == basis(total_value, tracked_cash_to_use, external_cash, has_cash_sleeve),
        has_cash_sleeve && representable(total_value@ + external_cash@) ==> planning_total is Some
            && planning_total->0@ == total_value@ + external_cash@,
        !has_cash_sleeve && representable(total_value@ + tracked_cash_to_use@) && representable(
            total_value@ + tracked_cash_to_use@ + external_cash@,
        ) ==> planning_total is Some && planning_total->0@ == total_value@ + tracked_cash_to_use@
            + external_cash@,
{
    if has_cash_sleeve {
        add_decimals(total_value, external_cash)
    } else {
        match add_decimals(total_value, tracked_cash_to_use) {
            Some(sum) => add_decimals(sum, external_cash),
            None => None,
        }
    }
}

// ── Constraints ──────────────────────────────────────────────────────────────

/// Whether a constraint's action restricts a direction.
pub open spec fn action_covers(action: ConstraintAction, direction: WorksheetDirection) -> bool {
    match action {
        ConstraintAction::Trade => true,
        ConstraintAction::Buy => direction == WorksheetDirection::Increase,
        ConstraintAction::Sell => direction == WorksheetDirection::Reduce,
    }
}

pub fn action_matches(direction: WorksheetDirection, action: ConstraintAction) -> (r: bool)
    ensures
        r == action_covers(action, direction),
{
    match (direction, action) {
        (_, ConstraintAction::Trade) => true,
        (WorksheetDirection::Increase, ConstraintAction::Buy) => true,
        (WorksheetDirection::Reduce, ConstraintAction::Sell) => true,
        _ => false,
    }
}

/// Whether a constraint covers a change of an asset, in an account where the
/// change has one, that carries some categories.
pub open spec fn constraint_covers(
    constraint: AllocationTargetConstraint,
    direction: WorksheetDirection,
    asset_id: Seq<char>,
    account_id: Option<Seq<char>>,
    category_ids: Seq<Seq<char>>,
) -> bool {
    action_covers(constraint.action, direction) && match constraint.subject_type {
        ConstraintSubjectType::Asset => constraint.subject_id@ == asset_id,
        ConstraintSubjectType::Account => account_id == Some(constraint.subject_id@),
        ConstraintSubjectType::Category => category_ids.contains(constraint.subject_id@),
    }
}

/// An account, as a view.
pub open spec fn account_view(account_id: Option<&String>) -> Option<Seq<char>> {
    match account_id {
        Some(id) => Some(id@),
        None => None,
    }
}

/// Whether a constraint covers the change being considered.
///
/// `account_id` is `None` where the change has no account yet: the prefill
/// decides a security's eligibility before it is placed.
pub fn constraint_matches(
    constraint: &AllocationTargetConstraint,
    direction: WorksheetDirection,
    asset_id: &String,
    account_id: Option<&String>,
    category_ids: &Vec<String>,
) -> (r: bool)
    ensures
        r == constraint_covers(
            *constraint,
            direction,
            asset_id@,
            account_view(account_id),
            texts(category_ids@),
        ),
{
    if !action_matches(direction, constraint.action) {
        return false;
    }
    match constraint.subject_type {
        ConstraintSubjectType::Asset => constraint.subject_id == *asset_id,
        ConstraintSubjectType::Account => match account_id {
            Some(id) => constraint.subject_id == *id,
            None => false,
        },
        ConstraintSubjectType::Category => lists_text(category_ids, &constraint.subject_id),
    }
}

/// Whether a constraint that blocks covers a change.
pub open spec fn blocks(
    constraints: Seq<AllocationTargetConstraint>,
    direction: WorksheetDirection,
    asset_id: Seq<char>,
    account_id: Option<Seq<char>>,
    category_ids: Seq<Seq<char>>,
) -> bool {
    exists|i: int|
        0 <= i < constraints.len() && (#[trigger] constraints[i]).effect == ConstraintEffect::Block
            && constraint_covers(constraints[i], direction, asset_id, account_id, category_ids)
}

/// A blocking constraint is honoured by the prefill so it never produces a line
/// the preview would reject. `Avoid` only warns, so it is left to the preview.
pub fn is_blocked(
    constraints: &[AllocationTargetConstraint],
    direction: WorksheetDirection,
    asset_id: &String,
    account_id: Option<&String>,
    category_ids: &Vec<String>,
) -> (r: bool)
    ensures
        r == blocks(
            constraints@,
            direction,
            asset_id@,
            account_view(account_id),
            texts(category_ids@),
        ),
{
    for i in 0..constraints.len()
        invariant
            forall|k: int|
                0 <= k < i ==> !((#[trigger] constraints@[k]).effect == ConstraintEffect::Block
                    && constraint_covers(
                    constraints@[k],
                    direction,
                    asset_id@,
                    account_view(account_id),
                    texts(category_ids@),
                )),
    {
        if constraints[i].effect == ConstraintEffect::Block && constraint_matches(
            &constraints[i],
            direction,
            asset_id,
            account_id,
            category_ids,
        ) {
            return true;
        }
    }
    false
}

// ── Pricing ──────────────────────────────────────────────────────────────────

/// The latest quote of an asset, where there is one.
pub open spec fn quote_of(
    snapshots: Seq<(String, LatestQuoteSnapshot)>,
    asset_id: Seq<char>,
) -> Option<Quote>
    decreases snapshots.len(),
{
    if snapshots.len() == 0 {
        None
    } else if snapshots[0].0@ == asset_id {
        snapshots[0].1.quote
    } else {
        quote_of(snapshots.drop_first(), asset_id)
    }
}

fn find_quote<'a>(
    snapshots: &'a [(String, LatestQuoteSnapshot)],
    asset_id: &String,
) -> (quote: Option<&'a Quote>)
    ensures
        match quote {
            Some(found) => quote_of(snapshots@, asset_id@) == Some(*found),
            None => quote_of(snapshots@, asset_id@) is None,
        },
{
    assert(snapshots@.skip(0) =~= snapshots@);
    for i in 0..snapshots.len()
        invariant
            quote_of(snapshots@, asset_id@) == quote_of(snapshots@.skip(i as int), asset_id@),
    {
        if snapshots[i].0 == *asset_id {
            return match &snapshots[i].1.quote {
                Some(quote) => Some(quote),
                None => None,
            };
        }
        assert(snapshots@.skip(i as int).drop_first() =~= snapshots@.skip(i + 1));
    }
    None
}

/// A unit price in base currency, contract multiplier applied: `Some(None)`
/// where there is no usable one.
pub open spec fn price_of(
    asset: Asset,
    snapshots: Seq<(String, LatestQuoteSnapshot)>,
    base_currency: Seq<char>,
    rates: Seq<ExchangeRateView>,
    units: Seq<MinorUnit>,
) -> Option<Option<Decimal>> {
    match quote_of(snapshots, asset.id@) {
        None => Some(None),
        Some(quote) => if quote.close@ <= 0 {
            Some(None)
        } else {
            match conversion_of(rates, units, quote.currency@, base_currency) {
                None => None,
                Some(Err(_)) => Some(None),
                Some(Ok((fx_rate, _))) => match unit_price(
                    quote.close,
                    fx_rate,
                    asset.contract_multiplier,
                ) {
                    None => None,
                    Some(price) => if price@ > 0 {
                        Some(Some(price))
                    } else {
                        Some(None)
                    },
                },
            }
        },
    }
}

/// A closing price, converted, for a whole contract.
pub open spec fn unit_price(
    close: Decimal,
    fx_rate: Decimal,
    contract_multiplier: Decimal,
) -> Option<Decimal> {
    match decimal_product(close, fx_rate) {
        Some(converted) => decimal_product(converted, contract_multiplier),
        None => None,
    }
}

/// Whether `price` is exactly a closing price, converted, for a whole contract,
/// with nothing to round on the way.
pub open spec fn is_exact_price(
    close: int,
    fx_rate: int,
    contract_multiplier: int,
    price: int,
) -> bool {
    exists|converted: int| #[trigger]
        representable(converted) && converted * unit() == close * fx_rate && representable(price)
            && price * unit() == converted * contract_multiplier
}

/// A unit price in base currency, contract multiplier applied.
///
/// There is none where the preview would refuse to price the line (no snapshot,
/// no quote, a non-positive close or no attributable FX path), so the category
/// amount becomes unresolved rather than a line that cannot be reviewed.
pub fn resolved_unit_price(
    asset: &Asset,
    snapshots: &[(String, LatestQuoteSnapshot)],
    base_currency: &str,
    fx_rates: &[ExchangeRate],
    units: &[MinorUnit],
) -> (price: Option<Option<Decimal>>)
    ensures
        price == price_of(*asset, snapshots@, base_currency@, rate_views(fx_rates@), units@),
        price matches Some(Some(found)) ==> found@ > 0,
        quote_of(snapshots@, asset.id@) matches Some(quote) ==> conversion_of(
            rate_views(fx_rates@),
            units@,
            quote.currency@,
            base_currency@,
        ) matches Some(Ok((rate, _))) ==> forall|exact: int|
            quote.close@ > 0 && exact > 0 && #[trigger] is_exact_price(
                quote.close@,
                rate@,
                asset.contract_multiplier@,
                exact,
            ) ==> (price matches Some(Some(found)) && found@ == exact),
{
    let quote = match find_quote(snapshots, &asset.id) {
        Some(quote) => quote,
        None => {
            return Some(None);
        },
    };
    if !quote.close.is_positive() {
        return Some(None);
    }
    let fx_rate = match convert(fx_rates, units, quote.currency.as_str(), base_currency) {
        None => {
            return None;
        },
        Some(Err(_)) => {
            return Some(None);
        },
        Some(Ok((fx_rate, _))) => fx_rate,
    };
    let price = match multiply_decimals(quote.close, fx_rate) {
        Some(converted) => multiply_decimals(converted, asset.contract_multiplier),
        None => None,
    };
    match price {
        None => None,
        Some(price) => if price.is_positive() {
            Some(Some(price))
        } else {
            Some(None)
        },
    }
}

// ── Totals by key ────────────────────────────────────────────────────────────

/// The views of a list of amounts under keys.
pub open spec fn keyed_views(pairs: Seq<(String, Decimal)>) -> Seq<(Seq<char>, Decimal)> {
    pairs.map_values(|pair: (String, Decimal)| (pair.0@, pair.1))
}

/// The keys of a list of amounts.
pub open spec fn keys_of(pairs: Seq<(Seq<char>, Decimal)>) -> Seq<Seq<char>> {
    pairs.map_values(|pair: (Seq<char>, Decimal)| pair.0)
}

/// The amounts under one key, in their order.
pub open spec fn amounts_under(pairs: Seq<(Seq<char>, Decimal)>, key: Seq<char>) -> Seq<Decimal> {
    pairs.filter(|pair: (Seq<char>, Decimal)| pair.0 == key).map_values(
        |pair: (Seq<char>, Decimal)| pair.1,
    )
}

/// A key with the sum of the amounts under it.
pub open spec fn total_under(pairs: Seq<(Seq<char>, Decimal)>, key: Seq<char>) -> Option<
    (Seq<char>, Decimal),
> {
    match total(amounts_under(pairs, key)) {
        Some(sum) => Some((key, sum)),
        None => None,
    }
}

/// Every key, in ascending order, with the sum of the amounts under it.
pub open spec fn totals_of(pairs: Seq<(Seq<char>, Decimal)>) -> Option<
    Seq<(Seq<char>, Decimal)>,
> {
    all_of(
        listing(keys_of(pairs).to_set()).map_values(|key: Seq<char>| total_under(pairs, key)),
    )
}

/// Every key, in ascending order, with the sum of the amounts under it.
pub fn totals_by_key(pairs: &Vec<(String, Decimal)>) -> (totals: Option<Vec<(String, Decimal)>>)
    ensures
        match totals {
            Some(found) => totals_of(keyed_views(pairs@)) == Some(keyed_views(found@)),
            None => totals_of(keyed_views(pairs@)) is None,
        },
        totals matches Some(found) ==> is_ascending(keys_of(keyed_views(found@)))
            && keys_of(keyed_views(found@)).to_set() == keys_of(keyed_views(pairs@)).to_set(),
{
    let ghost views = keyed_views(pairs@);
    let mut every: Vec<String> = Vec::new();
    for i in 0..pairs.len()
        invariant
            views == keyed_views(pairs@),
            texts(every@) == keys_of(views).take(i as int),
    {
        let ghost before = every@;
        every.push(pairs[i].0.clone());
        assert(texts(every@) =~= texts(before).push(pairs@[i as int].0@));
        assert(keys_of(views).take(i + 1) =~= keys_of(views).take(i as int).push(
            pairs@[i as int].0@,
        ));
    }
    assert(texts(every@) =~= keys_of(views));
    let keys = sorted_distinct(&every);
    let ghost each = texts(keys@).map_values(|key: Seq<char>| total_under(views, key));
    let mut found: Vec<(String, Decimal)> = Vec::new();
    #[verifier::loop_isolation(false)]
    for k in 0..keys.len()
        invariant
            found@.len() == k,
            forall|j: int|
                0 <= j < k ==> Some(((#[trigger] found@[j]).0@, found@[j].1)) == each[j]
                    && found@[j].0@ == keys@[j]@,
    {
        let mut amounts: Vec<Decimal> = Vec::new();
        proof {
            reveal(Seq::filter);
            assert(amounts_under(views.take(0), keys@[k as int]@) =~= Seq::empty());
        }
        for i in 0..pairs.len()
            invariant
                views == keyed_views(pairs@),
                k < keys@.len(),
                amounts@ == amounts_under(views.take(i as int), keys@[k as int]@),
        {
            proof {
                reveal(Seq::filter);
                let now = views.take(i + 1);
                assert(now.drop_last() =~= views.take(i as int));
                assert(now.last() == (pairs@[i as int].0@, pairs@[i as int].1));
                assert(amounts_under(now, keys@[k as int]@) =~= if pairs@[i as int].0@
                    == keys@[k as int]@ {
                    amounts@.push(pairs@[i as int].1)
                } else {
                    amounts@
                });
            }
            if pairs[i].0 == keys[k] {
                amounts.push(pairs[i].1);
            }
        }
        assert(views.take(views.len() as int) =~= views);
        assert(each[k as int] == total_under(views, keys@[k as int]@));
        match sum_decimals(&amounts) {
            Some(sum) => found.push((keys[k].clone(), sum)),
            None => {
                proof {
                    lemma_all_of_none(each, k as int);
                }
                return None;
            },
        }
    }
    proof {
        assert forall|j: int| 0 <= j < each.len() implies (#[trigger] each[j]) is Some by {
            assert(found@[j].0@ == keys@[j]@);
        }
        assert(keyed_views(found@) =~= all_of(each)->0) by {
            assert forall|j: int| 0 <= j < each.len() implies keyed_views(found@)[j] == all_of(
                each,
            )->0[j] by {
                assert(found@[j].0@ == keys@[j]@);
            }
        }
        assert(keys_of(keyed_views(found@)) =~= texts(keys@)) by {
            assert forall|j: int| 0 <= j < keys@.len() implies keys_of(keyed_views(found@))[j]
                == texts(keys@)[j] by {
                assert(found@[j].0@ == keys@[j]@);
            }
        }
    }
    Some(found)
}

// ── Calculator inputs ────────────────────────────────────────────────────────

/// What the repositories answer about the securities of the accounts in scope.
#[derive(Debug)]
pub struct WorksheetRecords {
    pub contributions: Vec<HoldingAllocationContribution>,
    pub assets: Vec<Asset>,
    /// The latest quote of each asset, by the asset's identifier.
    pub snapshots: Vec<(String, LatestQuoteSnapshot)>,
    pub fx_rates: Vec<ExchangeRate>,
    pub minor_units: Vec<MinorUnit>,
    /// The holdings of each account, by the account's identifier.
    pub holdings_by_account: Vec<(String, Vec<Holding>)>,
    pub constraints: Vec<AllocationTargetConstraint>,
    /// The securities the user lets be increased; all of them where there is no
    /// list.
    pub eligible_asset_ids: Option<Vec<String>>,
    pub base_currency: String,
}

pub ghost struct PositionInputView {
    pub account_id: Seq<char>,
    pub quantity: Decimal,
    pub can_reduce: bool,
}

impl View for PositionInput {
    type V = PositionInputView;

    open spec fn view(&self) -> PositionInputView {
        PositionInputView {
            account_id: self.account_id@,
            quantity: self.quantity,
            can_reduce: self.can_reduce,
        }
    }
}

pub ghost struct SecurityInputView {
    pub asset_id: Seq<char>,
    pub symbol: Seq<char>,
    pub unit_price: Option<Decimal>,
    pub is_eligible_for_increase: bool,
    pub category_values: Seq<(Seq<char>, Decimal)>,
    pub positions: Seq<PositionInputView>,
}

impl View for SecurityInput {
    type V = SecurityInputView;

    open spec fn view(&self) -> SecurityInputView {
        SecurityInputView {
            asset_id: self.asset_id@,
            symbol: self.symbol@,
            unit_price: self.unit_price,
            is_eligible_for_increase: self.is_eligible_for_increase,
            category_values: keyed_views(self.category_values@),
            positions: self.positions@.map_values(|position: PositionInput| position@),
        }
    }
}

/// The views of a list of securities.
pub open spec fn security_views(securities: Seq<SecurityInput>) -> Seq<SecurityInputView> {
    securities.map_values(|security: SecurityInput| security@)
}

/// The securities that the contributions name, cash aside.
pub open spec fn contributed_assets(contributions: Seq<HoldingAllocationContribution>) -> Seq<
    Seq<char>,
> {
    contributions.filter(
        |contribution: HoldingAllocationContribution|
            contribution.holding_type != HoldingType::Cash,
    ).map_values(|contribution: HoldingAllocationContribution| contribution.asset_id@)
}

/// What a security contributes to each category, contribution by contribution.
pub open spec fn contributed_values(
    contributions: Seq<HoldingAllocationContribution>,
    asset_id: Seq<char>,
) -> Seq<(Seq<char>, Decimal)> {
    contributions.filter(
        |contribution: HoldingAllocationContribution|
            contribution.holding_type != HoldingType::Cash && contribution.asset_id@ == asset_id,
    ).map_values(
        |contribution: HoldingAllocationContribution|
            (contribution.category_id@, contribution.value),
    )
}

/// Whether a holding is a position in a security.
pub open spec fn is_position(holding: Holding, asset_id: Seq<char>) -> bool {
    holding.holding_type != HoldingType::Cash && holding.quantity@ > 0 && key_of(holding)
        == asset_id
}

/// The quantities of a security in an account, holding by holding.
pub open spec fn held_in(
    account_id: Seq<char>,
    holdings: Seq<Holding>,
    asset_id: Seq<char>,
) -> Seq<(Seq<char>, Decimal)> {
    holdings.filter(|holding: Holding| is_position(holding, asset_id)).map_values(
        |holding: Holding| (account_id, holding.quantity),
    )
}

/// The quantities of a security in all accounts, holding by holding.
pub open spec fn held_quantities(
    holdings_by_account: Seq<(String, Vec<Holding>)>,
    asset_id: Seq<char>,
) -> Seq<(Seq<char>, Decimal)>
    decreases holdings_by_account.len(),
{
    if holdings_by_account.len() == 0 {
        Seq::empty()
    } else {
        let (account_id, holdings) = holdings_by_account.last();
        held_quantities(holdings_by_account.drop_last(), asset_id) + held_in(
            account_id@,
            holdings@,
            asset_id,
        )
    }
}

/// The categories of a classification, without what it leaves over.
pub open spec fn classified(values: Seq<(Seq<char>, Decimal)>) -> Seq<Seq<char>> {
    keys_of(values).filter(|category_id: Seq<char>| category_id != UNKNOWN_CATEGORY_ID@)
}

/// The recorded asset with an identifier, the last of them where there are more.
pub open spec fn asset_with(assets: Seq<Asset>, asset_id: Seq<char>) -> Option<Asset>
    decreases assets.len(),
{
    if assets.len() == 0 {
        None
    } else if assets.last().id@ == asset_id {
        Some(assets.last())
    } else {
        asset_with(assets.drop_last(), asset_id)
    }
}

/// The positions in a security, from its quantity in each account.
pub open spec fn positions_of(
    quantities: Seq<(Seq<char>, Decimal)>,
    constraints: Seq<AllocationTargetConstraint>,
    asset_id: Seq<char>,
    categories: Seq<Seq<char>>,
) -> Seq<PositionInputView> {
    quantities.map_values(
        |held: (Seq<char>, Decimal)|
            PositionInputView {
                account_id: held.0,
                quantity: held.1,
                can_reduce: !blocks(
                    constraints,
                    WorksheetDirection::Reduce,
                    asset_id,
                    Some(held.0),
                    categories,
                ),
            },
    )
}

/// Whether a security is on the user's list of those to increase.
pub open spec fn is_listed_for_increase(eligible: Option<Vec<String>>,
    asset_id: Seq<char>) -> bool {
    match eligible {
        Some(ids) => texts(ids@).contains(asset_id),
        None => true,
    }
}

/// An asset as the calculation sees it.
pub open spec fn security_of(asset_id: Seq<char>, asset: Asset,
    records: WorksheetRecords) -> Option<
    SecurityInputView,
> {
    let values = totals_of(contributed_values(records.contributions@, asset_id));
    let quantities = totals_of(held_quantities(records.holdings_by_account@, asset_id));
    let price = price_of(
        asset,
        records.snapshots@,
        records.base_currency@,
        rate_views(records.fx_rates@),
        records.minor_units@,
    );
    match (values, quantities, price) {
        (Some(values), Some(quantities), Some(unit_price)) => Some(
            SecurityInputView {
                asset_id,
                symbol: shown_symbol(asset),
                unit_price,
                is_eligible_for_increase: is_listed_for_increase(
                    records.eligible_asset_ids,
                    asset_id,
                ) && !blocks(
                    records.constraints@,
                    WorksheetDirection::Increase,
                    asset_id,
                    None,
                    classified(values),
                ),
                category_values: values,
                positions: positions_of(
                    quantities,
                    records.constraints@,
                    asset_id,
                    classified(values),
                ),
            },
        ),
        _ => None,
    }
}

/// Whether the calculation can act on a security: it is recorded, active and a
/// tracked investment.
pub open spec fn is_candidate(assets: Seq<Asset>, asset_id: Seq<char>) -> bool {
    asset_with(assets, asset_id) matches Some(asset) && asset.is_active && asset.is_investment
}

/// The securities among some assets that the calculation can act on.
pub open spec fn securities_among(asset_ids: Seq<Seq<char>>, records: WorksheetRecords) -> Option<
    Seq<SecurityInputView>,
> {
    all_of(
        asset_ids.filter(
            |asset_id: Seq<char>| is_candidate(records.assets@, asset_id),
        ).map_values(
            |asset_id: Seq<char>|
                security_of(asset_id, asset_with(records.assets@, asset_id)->0, records),
        ),
    )
}

/// Every recorded security the calculation can act on, in ascending order.
pub open spec fn securities_of(records: WorksheetRecords) -> Option<Seq<SecurityInputView>> {
    securities_among(listing(contributed_assets(records.contributions@).to_set()), records)
}

fn find_asset<'a>(assets: &'a Vec<Asset>, asset_id: &String) -> (asset: Option<&'a Asset>)
    ensures
        match asset {
            Some(found) => asset_with(assets@, asset_id@) == Some(*found),
            None => asset_with(assets@, asset_id@) is None,
        },
{
    let mut i: usize = assets.len();
    assert(assets@.take(i as int) =~= assets@);
    while i > 0
        invariant
            i <= assets@.len(),
            asset_with(assets@, asset_id@) == asset_with(assets@.take(i as int), asset_id@),
        decreases i,
    {
        assert(assets@.take(i as int).drop_last() =~= assets@.take(i - 1));
        if assets[i - 1].id == *asset_id {
            return Some(&assets[i - 1]);
        }
        i = i - 1;
    }
    None
}

/// The securities that the contributions name, cash aside.
pub fn collect_assets(contributions: &Vec<HoldingAllocationContribution>) -> (ids: Vec<String>)
    ensures
        texts(ids@) == contributed_assets(contributions@),
{
    let mut ids: Vec<String> = Vec::new();
    proof {
        reveal(Seq::filter);
        assert(texts(ids@) =~= contributed_assets(contributions@.take(0)));
    }
    for i in 0..contributions.len()
        invariant
            texts(ids@) == contributed_assets(contributions@.take(i as int)),
    {
        let ghost before = ids@;
        if contributions[i].holding_type != HoldingType::Cash {
            ids.push(contributions[i].asset_id.clone());
            assert(texts(ids@) =~= texts(before).push(contributions@[i as int].asset_id@));
        }
        proof {
            reveal(Seq::filter);
            let now = contributions@.take(i + 1);
            assert(now.drop_last() =~= contributions@.take(i as int));
            assert(contributed_assets(now) =~= texts(ids@));
        }
    }
    assert(contributions@.take(contributions@.len() as int) =~= contributions@);
    ids
}

fn collect_values(contributions: &Vec<HoldingAllocationContribution>, asset_id: &String) -> (values:
    Vec<(String, Decimal)>)
    ensures
        keyed_views(values@) == contributed_values(contributions@, asset_id@),
{
    let mut values: Vec<(String, Decimal)> = Vec::new();
    proof {
        reveal(Seq::filter);
        assert(keyed_views(values@) =~= contributed_values(contributions@.take(0), asset_id@));
    }
    for i in 0..contributions.len()
        invariant
            keyed_views(values@) == contributed_values(contributions@.take(i as int), asset_id@),
    {
        let ghost before = values@;
        let ghost next = (contributions@[i as int].category_id@, contributions@[i as int].value);
        if contributions[i].holding_type != HoldingType::Cash && contributions[i].asset_id
            == *asset_id {
            values.push((contributions[i].category_id.clone(), contributions[i].value));
            assert(keyed_views(values@) =~= keyed_views(before).push(next));
        }
        proof {
            reveal(Seq::filter);
            let now = contributions@.take(i + 1);
            assert(now.drop_last() =~= contributions@.take(i as int));
            assert(contributed_values(now, asset_id@) =~= keyed_views(values@));
        }
    }
    assert(contributions@.take(contributions@.len() as int) =~= contributions@);
    values
}

fn collect_quantities(
    holdings_by_account: &Vec<(String, Vec<Holding>)>,
    asset_id: &String,
) -> (quantities: Vec<(String, Decimal)>)
    ensures
        keyed_views(quantities@) == held_quantities(holdings_by_account@, asset_id@),
{
    let mut quantities: Vec<(String, Decimal)> = Vec::new();
    assert(keyed_views(quantities@) =~= Seq::empty());
    for a in 0..holdings_by_account.len()
        invariant
            keyed_views(quantities@) == held_quantities(
                holdings_by_account@.take(a as int),
                asset_id@,
            ),
    {
        let ghost so_far = keyed_views(quantities@);
        let account_id = &holdings_by_account[a].0;
        let holdings = &holdings_by_account[a].1;
        proof {
            reveal(Seq::filter);
            assert(so_far =~= so_far + held_in(account_id@, holdings@.take(0), asset_id@));
        }
        for i in 0..holdings.len()
            invariant
                a < holdings_by_account@.len(),
                holdings == &holdings_by_account@[a as int].1,
                keyed_views(quantities@) == so_far + held_in(
                    account_id@,
                    holdings@.take(i as int),
                    asset_id@,
                ),
        {
            let ghost before = quantities@;
            let ghost next = (account_id@, holdings@[i as int].quantity);
            let is_held = holdings[i].holding_type != HoldingType::Cash
                && holdings[i].quantity.is_positive() && asset_key(&holdings[i]) == *asset_id;
            if is_held {
                quantities.push((account_id.clone(), holdings[i].quantity));
                assert(keyed_views(quantities@) =~= keyed_views(before).push(next));
            }
            proof {
                reveal(Seq::filter);
                let now = holdings@.take(i + 1);
                assert(now.drop_last() =~= holdings@.take(i as int));
                assert(so_far + held_in(account_id@, now, asset_id@) =~= keyed_views(quantities@));
            }
        }
        proof {
            assert(holdings@.take(holdings@.len() as int) =~= holdings@);
            let now = holdings_by_account@.take(a + 1);
            assert(now.drop_last() =~= holdings_by_account@.take(a as int));
        }
    }
    assert(holdings_by_account@.take(holdings_by_account@.len() as int) =~= holdings_by_account@);
    quantities
}

/// The categories of a classification, without what it leaves over.
fn classified_ids(values: &Vec<(String, Decimal)>) -> (ids: Vec<String>)
    ensures
        texts(ids@) == classified(keyed_views(values@)),
{
    let ghost views = keyed_views(values@);
    let mut ids: Vec<String> = Vec::new();
    proof {
        reveal(Seq::filter);
        assert(texts(ids@) =~= classified(views.take(0)));
    }
    for i in 0..values.len()
        invariant
            views == keyed_views(values@),
            texts(ids@) == classified(views.take(i as int)),
    {
        let ghost before = ids@;
        if !same_text(values[i].0.as_str(), UNKNOWN_CATEGORY_ID) {
            ids.push(values[i].0.clone());
            assert(texts(ids@) =~= texts(before).push(values@[i as int].0@));
        }
        proof {
            reveal(Seq::filter);
            let now = keys_of(views.take(i + 1));
            assert(now.drop_last() =~= keys_of(views.take(i as int)));
            assert(now.last() == values@[i as int].0@);
            assert(classified(views.take(i + 1)) =~= texts(ids@));
        }
    }
    assert(views.take(views.len() as int) =~= views);
    ids
}

/// An asset as the calculation sees it.
fn security_from(asset_id: &String, asset: &Asset, records: &WorksheetRecords) -> (security: Option<
    SecurityInput,
>)
    ensures
        match security {
            Some(found) => security_of(asset_id@, *asset, *records) == Some(found@),
            None => security_of(asset_id@, *asset, *records) is None,
        },
{
    let category_values = match totals_by_key(&collect_values(&records.contributions, asset_id)) {
        Some(values) => values,
        None => {
            return None;
        },
    };
    let quantities = match totals_by_key(
        &collect_quantities(&records.holdings_by_account, asset_id),
    ) {
        Some(quantities) => quantities,
        None => {
            return None;
        },
    };
    let unit_price = match resolved_unit_price(
        asset,
        &records.snapshots,
        records.base_currency.as_str(),
        &records.fx_rates,
        &records.minor_units,
    ) {
        Some(unit_price) => unit_price,
        None => {
            return None;
        },
    };
    let classified_categories = classified_ids(&category_values);
    let ghost owed = positions_of(
        keyed_views(quantities@),
        records.constraints@,
        asset_id@,
        texts(classified_categories@),
    );
    let mut positions: Vec<PositionInput> = Vec::new();
    for i in 0..quantities.len()
        invariant
            owed == positions_of(
                keyed_views(quantities@),
                records.constraints@,
                asset_id@,
                texts(classified_categories@),
            ),
            positions@.map_values(|position: PositionInput| position@) == owed.take(i as int),
    {
        let ghost before = positions@;
        // Eligibility never restricts a reduction; the do-not-sell constraints
        // do.
        let position = PositionInput {
            account_id: quantities[i].0.clone(),
            quantity: quantities[i].1,
            can_reduce: !is_blocked(
                &records.constraints,
                WorksheetDirection::Reduce,
                asset_id,
                Some(&quantities[i].0),
                &classified_categories,
            ),
        };
        positions.push(position);
        proof {
            assert(keyed_views(quantities@)[i as int].0 == quantities@[i as int].0@);
            assert(owed[i as int] == position@);
            assert(positions@.map_values(|position: PositionInput| position@) =~= before.map_values(
                |position: PositionInput| position@,
            ).push(position@));
            assert(owed.take(i + 1) =~= owed.take(i as int).push(position@));
        }
    }
    assert(positions@.map_values(|position: PositionInput| position@) =~= owed);
    let is_listed = match &records.eligible_asset_ids {
        Some(ids) => lists_text(ids, asset_id),
        None => true,
    };
    let is_eligible_for_increase = is_listed && !is_blocked(
        &records.constraints,
        WorksheetDirection::Increase,
        asset_id,
        None,
        &classified_categories,
    );
    Some(
        SecurityInput {
            asset_id: asset_id.clone(),
            symbol: symbol_of(asset),
            unit_price,
            is_eligible_for_increase,
            category_values,
            positions,
        },
    )
}

/// Every recorded security the calculation can act on, with what it is worth in
/// each category, what a unit costs and where its units sit.
///
/// The classification keeps the unclassified residual, so the projection
/// spreads an amount exactly as the preview's exposures do. Constraints only
/// ever look at the classified part of it.
pub fn securities_from(records: &WorksheetRecords) -> (securities: Option<Vec<SecurityInput>>)
    ensures
        match securities {
            Some(found) => securities_of(*records) == Some(security_views(found@)),
            None => securities_of(*records) is None,
        },
        securities is Some ==> forall|s: int, p: int|
            0 <= s < securities->0@.len() && 0 <= p < securities->0@[s].positions@.len() ==> ((
            #[trigger] securities->0@[s].positions@[p]).can_reduce <==> !(exists|c: int|
                0 <= c < records.constraints@.len() && (#[trigger] records.constraints@[c]).effect
                    == ConstraintEffect::Block && (records.constraints@[c].action
                    == ConstraintAction::Sell || records.constraints@[c].action
                    == ConstraintAction::Trade) && ((records.constraints@[c].subject_type
                    == ConstraintSubjectType::Asset && records.constraints@[c].subject_id@
                    == securities->0@[s].asset_id@) || (records.constraints@[c].subject_type
                    == ConstraintSubjectType::Account && records.constraints@[c].subject_id@
                    == securities->0@[s].positions@[p].account_id@)
                        || (records.constraints@[c].subject_type
                    == ConstraintSubjectType::Category && records.constraints@[c].subject_id@
                    != "__UNKNOWN__"@ && is_valued(securities->0@[s]@,
                        records.constraints@[c].subject_id@))))),
{
    let asset_ids = sorted_distinct(&collect_assets(&records.contributions));
    let ghost ids = texts(asset_ids@);
    let mut securities: Vec<SecurityInput> = Vec::new();
    proof {
        reveal(Seq::filter);
        assert(securities_among(ids.take(0), *records)->0 =~= security_views(securities@));
    }
    #[verifier::loop_isolation(false)]
    for i in 0..asset_ids.len()
        invariant
            securities_among(ids.take(i as int), *records) == Some(security_views(securities@)),
            forall|s: int, p: int|
            0 <= s < securities@.len() && 0 <= p < securities@[s].positions@.len() ==> ((
            #[trigger] securities@[s].positions@[p]).can_reduce <==> !(exists|c: int|
                0 <= c < records.constraints@.len() && (#[trigger] records.constraints@[c]).effect
                    == ConstraintEffect::Block && (records.constraints@[c].action
                    == ConstraintAction::Sell || records.constraints@[c].action
                    == ConstraintAction::Trade) && ((records.constraints@[c].subject_type
                    == ConstraintSubjectType::Asset && records.constraints@[c].subject_id@
                    == securities@[s].asset_id@) || (records.constraints@[c].subject_type
                    == ConstraintSubjectType::Account && records.constraints@[c].subject_id@
                    == securities@[s].positions@[p].account_id@)
                        || (records.constraints@[c].subject_type
                    == ConstraintSubjectType::Category && records.constraints@[c].subject_id@
                    != "__UNKNOWN__"@ && is_valued(securities@[s]@,
                        records.constraints@[c].subject_id@))))),
    {
        let ghost before = securities@;
        let asset_id = &asset_ids[i];
        proof {
            lemma_securities_step(ids, *records, i as int);
            assert(ids[i as int] == asset_id@);
        }
        match find_asset(&records.assets, asset_id) {
            Some(asset) => {
                // The preview refuses a line on anything that is not an active
                // tracked investment, so the prefill must not produce one.
                if asset.is_active && asset.is_investment {
                    match security_from(asset_id, asset, records) {
                        Some(security) => {
                            proof {
                                law_securities_are_protected(asset_id@, *asset, *records);
                                lemma_positions_seen(security);
                            }
                            securities.push(security);
                            assert(forall|s: int| 0 <= s < before.len()
                                ==> #[trigger] securities@[s] == before[s]);
                            assert(security_views(securities@) =~= security_views(before).push(
                                security@,
                            ));
                        },
                        None => {
                            proof {
                                lemma_securities_stay_none(ids, *records, i + 1);
                            }
                            return None;
                        },
                    }
                }
            },
            None => {},
        }
    }
    assert(ids.take(ids.len() as int) =~= ids);
    Some(securities)
}

proof fn lemma_positions_seen(security: SecurityInput)
    ensures
        security@.positions.len() == security.positions@.len(),
        forall|p: int|
            0 <= p < security.positions@.len() ==> security@.positions[p] == (
            #[trigger] security.positions@[p])@,
{
}

proof fn lemma_securities_step(ids: Seq<Seq<char>>, records: WorksheetRecords, i: int)
    requires
        0 <= i < ids.len(),
    ensures
        securities_among(ids.take(i + 1), records) == if is_candidate(records.assets@, ids[i]) {
            match (
                securities_among(ids.take(i), records),
                security_of(ids[i], asset_with(records.assets@, ids[i])->0, records),
            ) {
                (Some(before), Some(security)) => Some(before.push(security)),
                _ => None,
            }
        } else {
            securities_among(ids.take(i), records)
        },
{
    reveal(Seq::filter);
    let kept = |asset_id: Seq<char>| is_candidate(records.assets@, asset_id);
    let made = |asset_id: Seq<char>|
        security_of(asset_id, asset_with(records.assets@, asset_id)->0, records);
    let now = ids.take(i + 1);
    assert(now.drop_last() =~= ids.take(i));
    assert(now.last() == ids[i]);
    if is_candidate(records.assets@, ids[i]) {
        let every = now.filter(kept).map_values(made);
        let before = ids.take(i).filter(kept).map_values(made);
        assert(every =~= before.push(made(ids[i])));
        assert(every.take(before.len() as int) =~= before);
        assert(every.take(every.len() as int) =~= every);
        lemma_all_of_step(every, before.len() as int);
    }
}

proof fn lemma_securities_stay_none(ids: Seq<Seq<char>>, records: WorksheetRecords, n: int)
    requires
        0 <= n <= ids.len(),
        securities_among(ids.take(n), records) is None,
    ensures
        securities_among(ids, records) is None,
    decreases ids.len() - n,
{
    if n < ids.len() {
        lemma_securities_step(ids, records, n);
        lemma_securities_stay_none(ids, records, n + 1);
    } else {
        assert(ids.take(n) =~= ids);
    }
}

/// The accounts in scope in which a security may be increased.
pub open spec fn accounts_open_to(
    security: SecurityInput,
    account_ids: Seq<Seq<char>>,
    constraints: Seq<AllocationTargetConstraint>,
) -> Seq<Seq<char>> {
    account_ids.filter(
        |account_id: Seq<char>|
            !blocks(
                constraints,
                WorksheetDirection::Increase,
                security.asset_id@,
                Some(account_id),
                classified(keyed_views(security.category_values@)),
            ),
    )
}

fn open_accounts(
    security: &SecurityInput,
    account_ids: &Vec<String>,
    constraints: &[AllocationTargetConstraint],
) -> (accounts: Vec<String>)
    ensures
        texts(accounts@) == accounts_open_to(*security, texts(account_ids@), constraints@),
{
    let categories = classified_ids(&security.category_values);
    let ghost ids = texts(account_ids@);
    let mut accounts: Vec<String> = Vec::new();
    proof {
        reveal(Seq::filter);
        assert(texts(accounts@) =~= accounts_open_to(*security, ids.take(0), constraints@));
    }
    for i in 0..account_ids.len()
        invariant
            ids == texts(account_ids@),
            texts(categories@) == classified(keyed_views(security.category_values@)),
            texts(accounts@) == accounts_open_to(*security, ids.take(i as int), constraints@),
    {
        let ghost before = accounts@;
        if !is_blocked(
            constraints,
            WorksheetDirection::Increase,
            &security.asset_id,
            Some(&account_ids[i]),
            &categories,
        ) {
            accounts.push(account_ids[i].clone());
            assert(texts(accounts@) =~= texts(before).push(account_ids@[i as int]@));
        }
        proof {
            reveal(Seq::filter);
            assert(ids.take(i + 1).drop_last() =~= ids.take(i as int));
            assert(accounts_open_to(*security, ids.take(i + 1), constraints@) =~= texts(
                accounts@,
            ));
        }
    }
    assert(ids.take(ids.len() as int) =~= ids);
    accounts
}

/// The last of some securities with an identifier.
pub open spec fn last_security(securities: Seq<SecurityInput>, asset_id: Seq<char>) -> Option<
    SecurityInput,
>
    decreases securities.len(),
{
    if securities.len() == 0 {
        None
    } else if securities.last().asset_id@ == asset_id {
        Some(securities.last())
    } else {
        last_security(securities.drop_last(), asset_id)
    }
}

/// Whether an entry holds the accounts open to the last security with its
/// identifier.
pub open spec fn is_account_entry(
    entry: (String, Vec<String>),
    securities: Seq<SecurityInput>,
    account_ids: Seq<Seq<char>>,
    constraints: Seq<AllocationTargetConstraint>,
) -> bool {
    last_security(securities, entry.0@) matches Some(security) && texts(entry.1@)
        == accounts_open_to(security, account_ids, constraints)
}

/// Whether an entry stands under an identifier.
pub open spec fn has_account_entry(
    entries: Seq<(String, Vec<String>)>,
    asset_id: Seq<char>,
) -> bool {
    exists|k: int| 0 <= k < entries.len() && (#[trigger] entries[k]).0@ == asset_id
}

/// Whether there is one entry for each identifier among the securities and for
/// no other, each with the accounts open to its security.
pub open spec fn are_account_entries(
    entries: Seq<(String, Vec<String>)>,
    securities: Seq<SecurityInput>,
    account_ids: Seq<Seq<char>>,
    constraints: Seq<AllocationTargetConstraint>,
) -> bool {
    &&& forall|i: int, j: int|
        0 <= i < j < entries.len() ==> (#[trigger] entries[i]).0@ != (#[trigger] entries[j]).0@
    &&& forall|k: int|
        0 <= k < entries.len() ==> is_account_entry(
            #[trigger] entries[k],
            securities,
            account_ids,
            constraints,
        )
    &&& forall|i: int|
        0 <= i < securities.len() ==> has_account_entry(
            entries,
            (#[trigger] securities[i]).asset_id@,
        )
}

/// The accounts each security may be increased in: in scope, and not blocked
/// from receiving it. Account type, tax wrapper and contribution room are never
/// inputs.
pub fn eligible_accounts(
    securities: &[SecurityInput],
    account_ids: &Vec<String>,
    constraints: &[AllocationTargetConstraint],
) -> (entries: Vec<(String, Vec<String>)>)
    ensures
        are_account_entries(entries@, securities@, texts(account_ids@), constraints@),
{
    let mut entries: Vec<(String, Vec<String>)> = Vec::new();
    let ghost ids = texts(account_ids@);
    for i in 0..securities.len()
        invariant
            ids == texts(account_ids@),
            are_account_entries(entries@, securities@.take(i as int), ids, constraints@),
    {
        let ghost before = entries@;
        let ghost past = securities@.take(i as int);
        let ghost now = securities@.take(i + 1);
        assert(now.drop_last() =~= past);
        let security = &securities[i];
        let accounts = open_accounts(security, account_ids, constraints);
        let mut place: usize = 0;
        while place < entries.len() && entries[place].0 != security.asset_id
            invariant
                entries@ == before,
                place <= entries@.len(),
                forall|k: int|
                    0 <= k < place ==> (#[trigger] entries@[k]).0@ != security.asset_id@,
            decreases entries@.len() - place,
        {
            place = place + 1;
        }
        let entry = (security.asset_id.clone(), accounts);
        if place < entries.len() {
            entries.set(place, entry);
        } else {
            entries.push(entry);
        }
        proof {
            assert(entries@[place as int] == entry);
            assert forall|k: int| 0 <= k < entries@.len() implies is_account_entry(
                #[trigger] entries@[k],
                now,
                ids,
                constraints@,
            ) by {
                if k != place {
                    assert(entries@[k] == before[k]);
                    assert(is_account_entry(before[k], past, ids, constraints@));
                    if place < before.len() {
                        assert(before[k].0@ != before[place as int].0@);
                    }
                }
            }
            assert forall|i: int, j: int| 0 <= i < j < entries@.len() implies (
            #[trigger] entries@[i]).0@ != (#[trigger] entries@[j]).0@ by {
                if i != place {
                    assert(entries@[i] == before[i]);
                }
                if j != place {
                    assert(entries@[j] == before[j]);
                }
                if place < before.len() {
                    assert(before[i].0@ != before[j].0@);
                }
            }
            assert forall|s: int| 0 <= s < now.len() implies has_account_entry(
                entries@,
                (#[trigger] now[s]).asset_id@,
            ) by {
                if s < past.len() {
                    assert(now[s] == past[s]);
                    assert(has_account_entry(before, past[s].asset_id@));
                    let k = choose|k: int|
                        0 <= k < before.len() && (#[trigger] before[k]).0@ == past[s].asset_id@;
                    assert(entries@[k].0@ == before[k].0@);
                } else {
                    assert(entries@[place as int].0@ == now[s].asset_id@);
                }
            }
        }
    }
    assert(securities@.take(securities@.len() as int) =~= securities@);
    entries
}

} // verus!
