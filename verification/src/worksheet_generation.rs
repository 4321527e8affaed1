//! Prefilling the worksheet from a target, the eligible securities and the
//! allocation rule.
//!
//! The decisions stand in functions of their own, each on plain values.
//! [`AllocationWorksheetService`] asks its services one after the other and
//! takes the decisions in between.

use crate::decimal::{
    decimal_difference, decimal_read, decimal_text, greater, lemma_whole_value, print_decimal,
    read_decimal, representable, subtract_decimals, sum_decimals, total, Decimal,
};
use crate::entries::{put_entry, with_entry};
use crate::errors::{CoreError, CoreErrorView};
use crate::fx::{ExchangeRate, MinorUnit};
use crate::listing::{listing, sorted_distinct};
use crate::portfolios::names_account;
use crate::text::{chain, copy_text, lists_text, optional_text, optional_texts, texts};
use crate::worksheet_calculator::{
    apply_limits, limited, turnover_cap_of, turnover_cap_value, CategoryTarget, DraftIncrease,
    DraftReduction, LimitedAdjustments, LimitedAdjustmentsView, LimitsInput, SecurityInput,
};
use crate::worksheet_model::{
    AdjustmentScaling, AllocationTargetConstraint, Asset, Holding, HoldingAllocationContribution,
    LatestQuoteSnapshot, UnresolvedCategoryAmount, WorksheetDirection,
};
use crate::worksheet_service::{
    are_account_entries, basis, collect_assets, contributed_assets, eligible_accounts,
    last_security, planning_total, securities_from, securities_of, security_views, WorksheetRecords,
};
use crate::worksheet_request_laws::law_cash_is_acceptable;
use std::sync::Arc;
use vstd::prelude::*;

verus! {

/// What the worksheet is for.
#[derive(Clone, Copy, Debug, PartialEq, Eq, Structural)]
pub enum WorksheetMode {
    /// Only the selected cash is deployed.
    DeployCash,
    /// What is overweight is reduced too.
    Rebalance,
}

/// The cash the user selected.
#[derive(Debug)]
pub struct WorksheetCash {
    pub tracked_cash_to_use: Decimal,
    /// Hypothetical cash, by account.
    pub external_contribution: Vec<(String, Decimal)>,
}

/// What the user asks for.
#[derive(Debug)]
pub struct GenerateCalculatedAdjustmentsInput {
    pub target_id: String,
    pub account_ids: Vec<String>,
    pub base_currency: String,
    pub aggregated_account_id: String,
    pub mode: WorksheetMode,
    pub rule: String,
    pub cash: WorksheetCash,
    pub eligible_asset_ids: Option<Vec<String>>,
}

/// The user's target.
#[derive(Debug)]
pub struct AllocationTarget {
    pub taxonomy_id: String,
    pub allow_sells: bool,
    pub min_trade_amount: String,
    pub max_turnover_bps: Option<i32>,
    pub whole_shares_only: bool,
}

/// One category of a drift report.
#[derive(Debug)]
pub struct DriftRow {
    pub category_id: String,
    pub category_name: String,
    pub target_bps: i32,
    pub current_value: Decimal,
    pub is_cash: bool,
}

/// How far the accounts are from the target.
#[derive(Debug)]
pub struct DriftReport {
    pub total_value: Decimal,
    pub deployable_cash: Decimal,
    pub rows: Vec<DriftRow>,
}

// ── What is asked for ────────────────────────────────────────────────────────

/// The amounts under some keys.
pub open spec fn amounts_in(pairs: Seq<(String, Decimal)>) -> Seq<Decimal> {
    pairs.map_values(|pair: (String, Decimal)| pair.1)
}

/// Whether any of the selected cash is negative.
pub open spec fn has_negative_cash(cash: WorksheetCash) -> bool {
    cash.tracked_cash_to_use@ < 0 || exists|i: int|
        0 <= i < cash.external_contribution@.len() && (
        #[trigger] cash.external_contribution@[i]).1@ < 0
}

/// Whether a contribution is for an account that is not in scope.
pub open spec fn is_out_of_scope(pair: (String, Decimal), account_ids: Seq<Seq<char>>) -> bool {
    !account_ids.contains(pair.0@)
}

/// The message that a contribution is for an account that is not in scope.
pub open spec fn scope_message(account_id: Seq<char>) -> Seq<char> {
    "External contribution for account "@ + account_id + " is outside the resolved scope"@
}

/// Whether an error is the right answer to a request whose cash is not
/// acceptable.
pub open spec fn is_cash_objection(
    error: CoreErrorView,
    cash: WorksheetCash,
    account_ids: Seq<Seq<char>>,
) -> bool {
    if has_negative_cash(cash) {
        error == CoreErrorView::InvalidInput("Worksheet cash values must be non-negative"@)
    } else {
        exists|i: int|
            {
                &&& 0 <= i < cash.external_contribution@.len()
                &&& is_out_of_scope(#[trigger] cash.external_contribution@[i], account_ids)
                &&& forall|k: int|
                    0 <= k < i ==> !is_out_of_scope(
                        #[trigger] cash.external_contribution@[k],
                        account_ids,
                    )
                &&& error == CoreErrorView::InvalidInput(
                    scope_message(cash.external_contribution@[i].0@),
                )
            }
    }
}

/// Whether the cash of a request is acceptable: none of it is negative, and
/// none is for an account outside the scope.
pub open spec fn is_cash_acceptable(cash: WorksheetCash, account_ids: Seq<Seq<char>>) -> bool {
    !has_negative_cash(cash) && forall|i: int|
        0 <= i < cash.external_contribution@.len() ==> !is_out_of_scope(
            #[trigger] cash.external_contribution@[i],
            account_ids,
        )
}

/// Whether the cash of a request is acceptable, or what is wrong with it: the
/// first account outside the scope is the one that is named.
pub fn check_cash(cash: &WorksheetCash, account_ids: &Vec<String>) -> (checked: Result<
    (),
    CoreError,
>)
    ensures
        checked is Ok <==> is_cash_acceptable(*cash, texts(account_ids@)),
        checked matches Err(error) ==> is_cash_objection(error@, *cash, texts(account_ids@)),
        checked is Ok ==> cash.tracked_cash_to_use@ >= 0 && forall|i: int|
            0 <= i < cash.external_contribution@.len() ==> (
            #[trigger] cash.external_contribution@[i]).1@ >= 0 && names_account(
                account_ids@,
                cash.external_contribution@[i].0@,
            ),
        cash.tracked_cash_to_use@ < 0 ==> checked is Err,
        forall|i: int|
            0 <= i < cash.external_contribution@.len() && ((
            #[trigger] cash.external_contribution@[i]).1@ < 0 || !names_account(
                account_ids@,
                cash.external_contribution@[i].0@,
            )) ==> checked is Err,
{
    proof {
        law_cash_is_acceptable(*cash, account_ids@);
    }
    let mut is_negative = cash.tracked_cash_to_use.is_negative();
    for i in 0..cash.external_contribution.len()
        invariant
            is_negative == (cash.tracked_cash_to_use@ < 0 || exists|k: int|
                0 <= k < i && (#[trigger] cash.external_contribution@[k]).1@ < 0),
    {
        if cash.external_contribution[i].1.is_negative() {
            is_negative = true;
        }
    }
    if is_negative {
        return Err(
            CoreError::InvalidInput("Worksheet cash values must be non-negative".to_owned()),
        );
    }
    for i in 0..cash.external_contribution.len()
        invariant
            !has_negative_cash(*cash),
            forall|k: int|
                0 <= k < i ==> !is_out_of_scope(
                    #[trigger] cash.external_contribution@[k],
                    texts(account_ids@),
                ),
    {
        let account_id = &cash.external_contribution[i].0;
        if !lists_text(account_ids, account_id) {
            let start = chain("External contribution for account ", account_id.as_str());
            assert(is_out_of_scope(
                cash.external_contribution@[i as int],
                texts(account_ids@),
            ));
            return Err(
                CoreError::InvalidInput(
                    chain(start.as_str(), " is outside the resolved scope"),
                ),
            );
        }
    }
    Ok(())
}

/// What is wrong with the target of a request, where something is.
pub open spec fn target_objection(
    target_id: Seq<char>,
    mode: WorksheetMode,
    target: Option<AllocationTarget>,
) -> Option<CoreErrorView> {
    match target {
        None => Some(
            CoreErrorView::NotFound("AllocationTarget "@ + target_id + " not found"@),
        ),
        Some(target) => if mode == WorksheetMode::Rebalance && !target.allow_sells {
            Some(
                CoreErrorView::InvalidInput(
                    "This target disables reductions; enable them before rebalancing"@,
                ),
            )
        } else {
            None
        },
    }
}

/// The target of a request, or what is wrong with it: there is none, or it does
/// not let a rebalancing reduce anything.
pub fn check_target(
    target_id: &String,
    mode: WorksheetMode,
    target: Option<AllocationTarget>,
) -> (checked: Result<AllocationTarget, CoreError>)
    ensures
        match checked {
            Ok(found) => target == Some(found) && target_objection(
                target_id@,
                mode,
                target,
            ) is None,
            Err(error) => target_objection(target_id@, mode, target) == Some(error@),
        },
        checked is Ok <==> target is Some && (mode == WorksheetMode::DeployCash
            || target->0.allow_sells),
        checked matches Err(error) ==> (error@ is NotFound <==> target is None),
{
    match target {
        None => {
            let start = chain("AllocationTarget ", target_id.as_str());
            Err(CoreError::NotFound(chain(start.as_str(), " not found")))
        },
        Some(target) => {
            if mode == WorksheetMode::Rebalance && !target.allow_sells {
                Err(
                    CoreError::InvalidInput(
                        "This target disables reductions; enable them before rebalancing".to_owned(),
                    ),
                )
            } else {
                Ok(target)
            }
        },
    }
}

/// The message that more cash is selected than there is.
pub open spec fn overdrawn_message(selected: Seq<char>, deployable: Seq<char>) -> Seq<char> {
    "Tracked cash selected ("@ + selected + ") exceeds observed deployable cash ("@ + deployable
        + ")"@
}

/// The tracked cash that a worksheet can use. A selection that is over what is
/// deployable by no more than the currency's minor unit stands for all of it.
pub open spec fn usable_cash(selected: Decimal, deployable: Decimal, minor_unit: Decimal) -> Option<
    Result<Decimal, CoreErrorView>,
> {
    if selected@ <= deployable@ {
        Some(Ok(selected))
    } else {
        match decimal_difference(selected, deployable) {
            None => None,
            Some(overage) => if overage@ <= minor_unit@ {
                Some(Ok(deployable))
            } else {
                Some(
                    Err(
                        CoreErrorView::InvalidInput(
                            overdrawn_message(decimal_text(selected), decimal_text(deployable)),
                        ),
                    ),
                )
            },
        }
    }
}

/// What a result with an error of the library's stands for.
pub open spec fn result_view<A>(r: Option<Result<A, CoreError>>) -> Option<
    Result<A, CoreErrorView>,
> {
    match r {
        None => None,
        Some(Ok(value)) => Some(Ok(value)),
        Some(Err(error)) => Some(Err(error@)),
    }
}

/// The tracked cash that a worksheet can use, which is never more than there
/// is.
pub fn usable_tracked_cash(selected: Decimal, deployable: Decimal, minor_unit: Decimal) -> (usable:
    Option<Result<Decimal, CoreError>>)
    ensures
        result_view(usable) == usable_cash(selected, deployable, minor_unit),
        usable matches Some(Ok(cash)) ==> cash@ <= deployable@ && cash@ <= selected@,
        selected@ <= deployable@ ==> usable is Some && usable->0 == Ok::<Decimal,
            CoreError>(selected),
        usable matches Some(Ok(cash)) ==> (selected@ > deployable@ ==> cash == deployable),
        representable(selected@ - deployable@) ==> usable is Some && (usable->0 is Ok <==> selected@
            - deployable@ <= minor_unit@ || selected@ <= deployable@),
{
    if deployable.is_below(&selected) {
        match subtract_decimals(selected, deployable) {
            None => None,
            Some(overage) => {
                if minor_unit.is_below(&overage) {
                    let first = chain("Tracked cash selected (", print_decimal(selected).as_str());
                    let second = chain(first.as_str(), ") exceeds observed deployable cash (");
                    let third = chain(second.as_str(), print_decimal(deployable).as_str());
                    Some(Err(CoreError::InvalidInput(chain(third.as_str(), ")"))))
                } else {
                    Some(Ok(deployable))
                }
            },
        }
    } else {
        Some(Ok(selected))
    }
}

// ── What the calculation is given ────────────────────────────────────────────

/// Whether a category of the calculation is a row of a drift report.
pub open spec fn is_category_of(category: CategoryTarget, row: DriftRow) -> bool {
    &&& category.category_id@ == row.category_id@
    &&& category.category_name@ == row.category_name@
    &&& category.target_bps == row.target_bps
    &&& category.current_value == row.current_value
}

/// Whether the categories of the calculation are the rows of a drift report.
pub open spec fn are_categories_of(categories: Seq<CategoryTarget>, rows: Seq<DriftRow>) -> bool {
    &&& categories.len() == rows.len()
    &&& forall|i: int|
        0 <= i < rows.len() ==> is_category_of(#[trigger] categories[i], rows[i])
}

/// The categories of the calculation, from the rows of a drift report.
pub fn categories_from(rows: &Vec<DriftRow>) -> (categories: Vec<CategoryTarget>)
    ensures
        are_categories_of(categories@, rows@),
        categories@.len() == rows@.len(),
        forall|i: int|
            0 <= i < rows@.len() ==> (#[trigger] categories@[i]).category_id@
                == rows@[i].category_id@
                && categories@[i].category_name@ == rows@[i].category_name@
                && categories@[i].target_bps == rows@[i].target_bps && categories@[i].current_value
                == rows@[i].current_value,
{
    let mut categories: Vec<CategoryTarget> = Vec::new();
    for i in 0..rows.len()
        invariant
            categories@.len() == i,
            forall|k: int| 0 <= k < i ==> is_category_of(#[trigger] categories@[k], rows@[k]),
    {
        categories.push(
            CategoryTarget {
                category_id: rows[i].category_id.clone(),
                category_name: rows[i].category_name.clone(),
                target_bps: rows[i].target_bps,
                current_value: rows[i].current_value,
            },
        );
    }
    categories
}

/// The first category that is cash.
pub open spec fn first_cash_category(rows: Seq<DriftRow>) -> Option<Seq<char>>
    decreases rows.len(),
{
    if rows.len() == 0 {
        None
    } else if rows[0].is_cash {
        Some(rows[0].category_id@)
    } else {
        first_cash_category(rows.drop_first())
    }
}

/// The first category that is cash.
pub fn cash_category(rows: &Vec<DriftRow>) -> (category_id: Option<String>)
    ensures
        optional_text(category_id) == first_cash_category(rows@),
        category_id is None <==> forall|k: int|
            0 <= k < rows@.len() ==> !(#[trigger] rows@[k]).is_cash,
        category_id matches Some(id) ==> exists|i: int|
            0 <= i < rows@.len() && (#[trigger] rows@[i]).is_cash && rows@[i].category_id@ == id@
                && (
            forall|k: int| 0 <= k < i ==> !(#[trigger] rows@[k]).is_cash),
{
    assert(rows@.skip(0) =~= rows@);
    for i in 0..rows.len()
        invariant
            first_cash_category(rows@) == first_cash_category(rows@.skip(i as int)),
            forall|k: int| 0 <= k < i ==> !(#[trigger] rows@[k]).is_cash,
    {
        if rows[i].is_cash {
            return Some(rows[i].category_id.clone());
        }
        assert(rows@.skip(i as int).drop_first() =~= rows@.skip(i + 1));
    }
    None
}

/// The smallest amount of a line: what was read of the target's setting, or
/// nothing where it is no number or negative.
pub open spec fn smallest_line(read: Option<Decimal>) -> Decimal {
    match read {
        Some(amount) => greater(amount, Decimal::whole(0)),
        None => Decimal::whole(0),
    }
}

/// The smallest amount of a line, from what was read of the target's setting.
pub fn smallest_line_from(read: Option<Decimal>) -> (amount: Decimal)
    ensures
        amount == smallest_line(read),
        amount@ == match read {
            Some(value) => if value@ < 0 {
                0
            } else {
                value@
            },
            None => 0,
        },
{
    proof {
        lemma_whole_value(0);
    }
    match read {
        Some(amount) => amount.max(Decimal::zero()),
        None => Decimal::zero(),
    }
}

/// The smallest amount of a line, from the target's setting.
pub fn min_line_amount(setting: &String) -> (amount: Decimal)
    ensures
        amount == smallest_line(decimal_read(setting@)),
        amount@ >= 0,
{
    smallest_line_from(read_decimal(setting.as_str()))
}

/// All the hypothetical cash.
pub fn external_total(cash: &WorksheetCash) -> (sum: Option<Decimal>)
    ensures
        sum == total(amounts_in(cash.external_contribution@)),
{
    let mut amounts: Vec<Decimal> = Vec::new();
    for i in 0..cash.external_contribution.len()
        invariant
            amounts@ == amounts_in(cash.external_contribution@).take(i as int),
    {
        let ghost every = amounts_in(cash.external_contribution@);
        assert(every.take(i + 1) =~= every.take(i as int).push(every[i as int]));
        amounts.push(cash.external_contribution[i].1);
    }
    assert(amounts@ =~= amounts_in(cash.external_contribution@));
    sum_decimals(&amounts)
}

/// The limits of a target on a worksheet.
pub open spec fn limits_of(
    target: AllocationTarget,
    planning_total: Decimal,
    tracked_cash: Decimal,
    external_cash: Decimal,
) -> Option<LimitsInput> {
    let min_line_amount = smallest_line(decimal_read(target.min_trade_amount@));
    let whole_shares_only = target.whole_shares_only;
    match target.max_turnover_bps {
        None => Some(
            LimitsInput {
                tracked_cash,
                external_cash,
                turnover_cap: None,
                min_line_amount,
                whole_shares_only,
            },
        ),
        Some(bps) => match turnover_cap_of(planning_total, bps as int) {
            None => None,
            Some(cap) => Some(
                LimitsInput {
                    tracked_cash,
                    external_cash,
                    turnover_cap: Some(cap),
                    min_line_amount,
                    whole_shares_only,
                },
            ),
        },
    }
}

/// The limits of a target on a worksheet.
pub fn limits_from(
    target: &AllocationTarget,
    planning_total: Decimal,
    tracked_cash: Decimal,
    external_cash: Decimal,
) -> (limits: Option<LimitsInput>)
    ensures
        limits == limits_of(*target, planning_total, tracked_cash, external_cash),
        limits is None ==> target.max_turnover_bps is Some && turnover_cap_of(
            planning_total,
            target.max_turnover_bps->0 as int,
        ) is None,
        limits matches Some(found) ==> {
            &&& found.tracked_cash == tracked_cash
            &&& found.external_cash == external_cash
            &&& found.turnover_cap is Some <==> target.max_turnover_bps is Some
            &&& found.turnover_cap is Some ==> found.turnover_cap == turnover_cap_of(
                planning_total,
                target.max_turnover_bps->0 as int,
            )
            &&& found.min_line_amount == smallest_line(decimal_read(target.min_trade_amount@))
            &&& found.whole_shares_only == target.whole_shares_only
        },
{
    match turnover_cap_value(planning_total, target.max_turnover_bps) {
        None => None,
        Some(turnover_cap) => Some(
            LimitsInput {
                tracked_cash,
                external_cash,
                turnover_cap,
                min_line_amount: min_line_amount(&target.min_trade_amount),
                whole_shares_only: target.whole_shares_only,
            },
        ),
    }
}

// ── What comes of it ─────────────────────────────────────────────────────────

/// A line that has been placed in an account, where one was found for it.
#[derive(Debug)]
pub struct AssignedLine {
    pub asset_id: String,
    pub account_id: Option<String>,
    /// Signed: negative for a reduction.
    pub amount: Decimal,
    pub quantity: Decimal,
    pub unit_price: Decimal,
    pub is_below_minimum: bool,
}

/// Cash that an account lacks for what was placed in it.
#[derive(Debug)]
pub struct FundingShortfall {
    pub account_id: String,
    pub amount: Decimal,
}

/// One line of the worksheet.
#[derive(Debug)]
pub struct CalculatedAdjustment {
    pub line_id: String,
    pub direction: WorksheetDirection,
    pub symbol: String,
    pub asset_id: String,
    pub account_id: Option<String>,
    pub amount: Decimal,
    pub quantity: Decimal,
    pub unit_price: Decimal,
    pub is_below_minimum: bool,
}

pub ghost struct CalculatedAdjustmentView {
    pub line_id: Seq<char>,
    pub direction: WorksheetDirection,
    pub symbol: Seq<char>,
    pub asset_id: Seq<char>,
    pub account_id: Option<Seq<char>>,
    pub amount: Decimal,
    pub quantity: Decimal,
    pub unit_price: Decimal,
    pub is_below_minimum: bool,
}

impl View for CalculatedAdjustment {
    type V = CalculatedAdjustmentView;

    open spec fn view(&self) -> CalculatedAdjustmentView {
        CalculatedAdjustmentView {
            line_id: self.line_id@,
            direction: self.direction,
            symbol: self.symbol@,
            asset_id: self.asset_id@,
            account_id: optional_text(self.account_id),
            amount: self.amount,
            quantity: self.quantity,
            unit_price: self.unit_price,
            is_below_minimum: self.is_below_minimum,
        }
    }
}

/// The views of the lines of a worksheet.
pub open spec fn adjustment_views(adjustments: Seq<CalculatedAdjustment>) -> Seq<
    CalculatedAdjustmentView,
> {
    adjustments.map_values(|adjustment: CalculatedAdjustment| adjustment@)
}

/// The prefilled worksheet.
#[derive(Debug)]
pub struct CalculatedAdjustments {
    pub mode: WorksheetMode,
    pub rule: String,
    pub adjustments: Vec<CalculatedAdjustment>,
    pub unresolved: Vec<UnresolvedCategoryAmount>,
    pub scaling: AdjustmentScaling,
    pub remaining_cash: Decimal,
    pub funding_shortfalls: Vec<FundingShortfall>,
}

/// What a security is shown as on the worksheet: the symbol of the last one
/// with the identifier, or the identifier where there is none.
pub open spec fn symbol_for(securities: Seq<SecurityInput>, asset_id: Seq<char>) -> Seq<char> {
    match last_security(securities, asset_id) {
        Some(security) => security.symbol@,
        None => asset_id,
    }
}

/// The identifier of a line of the worksheet.
pub open spec fn line_id_of(asset_id: Seq<char>, account_id: Option<Seq<char>>) -> Seq<char> {
    "calc:"@ + asset_id + ":"@ + match account_id {
        Some(account_id) => account_id,
        None => "unassigned"@,
    }
}

/// A line of the worksheet, from a line that has been placed.
pub open spec fn adjustment_of(line: AssignedLine, securities: Seq<SecurityInput>) ->
    CalculatedAdjustmentView {
    CalculatedAdjustmentView {
        line_id: line_id_of(line.asset_id@, optional_text(line.account_id)),
        direction: if line.amount@ < 0 {
            WorksheetDirection::Reduce
        } else {
            WorksheetDirection::Increase
        },
        symbol: symbol_for(securities, line.asset_id@),
        asset_id: line.asset_id@,
        account_id: optional_text(line.account_id),
        amount: line.amount,
        quantity: line.quantity,
        unit_price: line.unit_price,
        is_below_minimum: line.is_below_minimum,
    }
}

/// The lines of the worksheet, from the lines that have been placed.
pub open spec fn adjustments_of(lines: Seq<AssignedLine>, securities: Seq<SecurityInput>) -> Seq<
    CalculatedAdjustmentView,
> {
    lines.map_values(|line: AssignedLine| adjustment_of(line, securities))
}

fn find_symbol(securities: &Vec<SecurityInput>, asset_id: &String) -> (symbol: String)
    ensures
        symbol@ == symbol_for(securities@, asset_id@),
        (forall|k: int|
            0 <= k < securities@.len() ==> (#[trigger] securities@[k]).asset_id@ != asset_id@)
            ==> symbol@ == asset_id@,
{
    let mut i: usize = securities.len();
    assert(securities@.take(i as int) =~= securities@);
    while i > 0
        invariant
            i <= securities@.len(),
            last_security(securities@, asset_id@) == last_security(
                securities@.take(i as int),
                asset_id@,
            ),
        decreases i,
    {
        assert(securities@.take(i as int).drop_last() =~= securities@.take(i - 1));
        if securities[i - 1].asset_id == *asset_id {
            return securities[i - 1].symbol.clone();
        }
        i = i - 1;
    }
    asset_id.clone()
}

/// The identifier of a line of the worksheet.
pub fn line_id(asset_id: &String, account_id: &Option<String>) -> (id: String)
    ensures
        id@ == line_id_of(asset_id@, optional_text(*account_id)),
{
    let start = chain(chain("calc:", asset_id.as_str()).as_str(), ":");
    match account_id {
        Some(account_id) => chain(start.as_str(), account_id.as_str()),
        None => chain(start.as_str(), "unassigned"),
    }
}

/// The lines of the worksheet, from the lines that have been placed: one for
/// each, in their order.
pub fn adjustments_from(lines: Vec<AssignedLine>, securities: &Vec<SecurityInput>) -> (adjustments:
    Vec<CalculatedAdjustment>)
    ensures
        adjustment_views(adjustments@) == adjustments_of(lines@, securities@),
        adjustments@.len() == lines@.len(),
        forall|i: int|
            0 <= i < lines@.len() ==> {
                let line = lines@[i];
                let adjustment = #[trigger] adjustments@[i];
                &&& adjustment.line_id@ == "calc:"@ + line.asset_id@ + ":"@
                    + match line.account_id {
                    Some(account_id) => account_id@,
                    None => "unassigned"@,
                }
                &&& adjustment.direction == WorksheetDirection::Reduce <==> line.amount@ < 0
                &&& adjustment.asset_id@ == line.asset_id@
                &&& adjustment.account_id is Some <==> line.account_id is Some
                &&& line.account_id is Some ==> adjustment.account_id->0@ == line.account_id->0@
                &&& adjustment.amount == line.amount
                &&& adjustment.quantity == line.quantity
                &&& adjustment.unit_price == line.unit_price
                &&& adjustment.is_below_minimum == line.is_below_minimum
            },
{
    let ghost owed = adjustments_of(lines@, securities@);
    let mut adjustments: Vec<CalculatedAdjustment> = Vec::new();
    for i in 0..lines.len()
        invariant
            owed == adjustments_of(lines@, securities@),
            adjustment_views(adjustments@) == owed.take(i as int),
            adjustments@.len() == i,
            forall|k: int|
                0 <= k < i ==> {
                    let line = lines@[k];
                    let adjustment = #[trigger] adjustments@[k];
                    &&& adjustment.line_id@ == "calc:"@ + line.asset_id@ + ":"@
                        + match line.account_id {
                        Some(account_id) => account_id@,
                        None => "unassigned"@,
                    }
                    &&& adjustment.direction == WorksheetDirection::Reduce <==> line.amount@ < 0
                    &&& adjustment.asset_id@ == line.asset_id@
                    &&& adjustment.account_id is Some <==> line.account_id is Some
                    &&& line.account_id is Some ==> adjustment.account_id->0@ == line.account_id->0@
                    &&& adjustment.amount == line.amount
                    &&& adjustment.quantity == line.quantity
                    &&& adjustment.unit_price == line.unit_price
                    &&& adjustment.is_below_minimum == line.is_below_minimum
                },
    {
        let ghost before = adjustments@;
        let line = &lines[i];
        let adjustment = CalculatedAdjustment {
            line_id: line_id(&line.asset_id, &line.account_id),
            direction: if line.amount.is_negative() {
                WorksheetDirection::Reduce
            } else {
                WorksheetDirection::Increase
            },
            symbol: find_symbol(securities, &line.asset_id),
            asset_id: line.asset_id.clone(),
            account_id: copy_text(&line.account_id),
            amount: line.amount,
            quantity: line.quantity,
            unit_price: line.unit_price,
            is_below_minimum: line.is_below_minimum,
        };
        adjustments.push(adjustment);
        proof {
            assert(owed[i as int] == adjustment_of(lines@[i as int], securities@));
            assert(adjustment_views(adjustments@) =~= adjustment_views(before).push(adjustment@));
            assert(owed.take(i + 1) =~= owed.take(i as int).push(adjustment@));
        }
    }
    assert(adjustment_views(adjustments@) =~= owed);
    adjustments
}

// ── Services ─────────────────────────────────────────────────────────────────

pub trait AllocationTargetServiceTrait {
    fn get_target(&self, target_id: &String) -> (r: Result<Option<AllocationTarget>, CoreError>);

    fn list_target_constraints(&self, target_id: &String) -> (r: Result<
        Vec<AllocationTargetConstraint>,
        CoreError,
    >);
}

pub trait DriftServiceTrait {
    fn get_drift_report_for_target(
        &self,
        target_id: &String,
        account_ids: &Vec<String>,
        base_currency: &String,
        aggregated_account_id: &String,
    ) -> (r: Result<DriftReport, CoreError>);
}

pub trait AllocationServiceTrait {
    fn get_holding_contributions_for_taxonomy_for_accounts(
        &self,
        account_ids: &Vec<String>,
        base_currency: &String,
        taxonomy_id: &String,
        aggregated_account_id: &String,
    ) -> (r: Result<Vec<HoldingAllocationContribution>, CoreError>);
}

pub trait HoldingsServiceTrait {
    fn get_holdings(&self, account_id: &String, base_currency: &String) -> (r: Result<
        Vec<Holding>,
        CoreError,
    >);
}

pub trait AssetServiceTrait {
    fn get_assets_by_asset_ids(&self, asset_ids: &Vec<String>) -> (r: Result<
        Vec<Asset>,
        CoreError,
    >);
}

pub trait QuoteServiceTrait {
    fn get_latest_quotes_snapshot(&self, asset_ids: &Vec<String>) -> (r: Result<
        Vec<(String, LatestQuoteSnapshot)>,
        CoreError,
    >);
}

pub trait FxServiceTrait {
    fn get_latest_exchange_rates(&self) -> (r: Result<Vec<ExchangeRate>, CoreError>);
}

/// Drafts of the adjustments, before the limits.
#[derive(Debug)]
pub struct SequenceDrafts {
    pub increases: Vec<DraftIncrease>,
    pub reductions: Vec<DraftReduction>,
    pub unresolved: Vec<UnresolvedCategoryAmount>,
}

/// The rules of currencies, of the sequence of drafts and of accounts, which
/// are kept elsewhere.
pub trait WorksheetRules {
    /// The smallest amount of a currency.
    fn currency_minor_unit(&self, currency: &String) -> (r: Decimal);

    /// The currency codes that stand for a fraction of another's unit.
    fn minor_units(&self) -> (r: Vec<MinorUnit>);

    /// Whether a taxonomy has categories for deployable cash.
    fn has_deployable_cash_categories(&self, taxonomy_id: &String) -> (r: bool);

    /// Drafts the adjustments, pass by pass.
    fn run_sequence(
        &self,
        mode: WorksheetMode,
        categories: &Vec<CategoryTarget>,
        securities: &Vec<SecurityInput>,
        planning_total: Decimal,
        cash: Decimal,
        external_cash: &Vec<(String, Decimal)>,
        cash_category_id: &Option<String>,
    ) -> (r: SequenceDrafts);

    /// Places the lines in accounts.
    fn assign_accounts(
        &self,
        adjustments: &LimitedAdjustments,
        securities: &Vec<SecurityInput>,
        eligible_accounts: &Vec<(String, Vec<String>)>,
        whole_shares_only: bool,
        min_line_amount: Decimal,
    ) -> (r: Vec<AssignedLine>);

    /// The cash that is recorded among the holdings of one account.
    fn tracked_cash(&self, holdings: &Vec<Holding>) -> (r: Decimal);

    /// Whether the cash is in the accounts in which the increases were placed.
    fn account_funding_shortfalls(
        &self,
        assigned: &Vec<AssignedLine>,
        cash_by_account: &Vec<(String, Decimal)>,
        external_cash: &Vec<(String, Decimal)>,
    ) -> (r: Vec<FundingShortfall>);

    /// The cash that the placed lines leave.
    fn remaining_cash(
        &self,
        assigned: &Vec<AssignedLine>,
        tracked_cash: Decimal,
        external_cash: Decimal,
    ) -> (r: Decimal);
}

pub trait AllocationWorksheetServiceTrait {
    /// Prefills the worksheet from the target, the eligible securities and the
    /// allocation rule.
    fn generate_adjustments<W: WorksheetRules>(
        &self,
        rules: &W,
        input: GenerateCalculatedAdjustmentsInput,
    ) -> (r: Option<Result<CalculatedAdjustments, CoreError>>);
}

/// Prefills worksheets from what its services answer.
pub struct AllocationWorksheetService<T, D, A, H, S, Q, F> {
    allocation_target_service: Arc<T>,
    drift_service: Arc<D>,
    allocation_service: Arc<A>,
    holdings_service: Arc<H>,
    asset_service: Arc<S>,
    quote_service: Arc<Q>,
    fx_service: Arc<F>,
}

impl<T, D, A, H, S, Q, F> AllocationWorksheetService<T, D, A, H, S, Q, F> {
    pub closed spec fn targets(self) -> T {
        *self.allocation_target_service
    }

    pub closed spec fn drifts(self) -> D {
        *self.drift_service
    }

    pub closed spec fn allocations(self) -> A {
        *self.allocation_service
    }

    pub closed spec fn holdings(self) -> H {
        *self.holdings_service
    }

    pub closed spec fn assets(self) -> S {
        *self.asset_service
    }

    pub closed spec fn quotes(self) -> Q {
        *self.quote_service
    }

    pub closed spec fn rates(self) -> F {
        *self.fx_service
    }

    /// A service that asks these services.
    pub fn new(
        allocation_target_service: Arc<T>,
        drift_service: Arc<D>,
        allocation_service: Arc<A>,
        holdings_service: Arc<H>,
        asset_service: Arc<S>,
        quote_service: Arc<Q>,
        fx_service: Arc<F>,
    ) -> (service: Self)
        ensures
            service.targets() == *allocation_target_service,
            service.drifts() == *drift_service,
            service.allocations() == *allocation_service,
            service.holdings() == *holdings_service,
            service.assets() == *asset_service,
            service.quotes() == *quote_service,
            service.rates() == *fx_service,
    {
        AllocationWorksheetService {
            allocation_target_service,
            drift_service,
            allocation_service,
            holdings_service,
            asset_service,
            quote_service,
            fx_service,
        }
    }
}

impl<T, D, A, H, S, Q, F> AllocationWorksheetService<T, D, A, H, S, Q, F> where
    S: AssetServiceTrait,
    Q: QuoteServiceTrait,
    F: FxServiceTrait,
 {
    /// What comes of the answers about assets, quotes and rates: the first that
    /// is an error, or the records with the securities in them.
    pub open spec fn is_built(
        self,
        known: WorksheetRecords,
        built: Result<(WorksheetRecords, Option<Vec<SecurityInput>>), CoreError>,
    ) -> bool {
        exists|asset_ids: Vec<String>, assets: Result<Vec<Asset>, CoreError>|
            {
                &&& texts(asset_ids@) == listing(contributed_assets(known.contributions@).to_set())
                &&& #[trigger] call_ensures(
                    S::get_assets_by_asset_ids,
                    (&self.assets(), &asset_ids),
                    assets,
                )
                &&& match assets {
                    Err(error) => built == Err::<
                        (WorksheetRecords, Option<Vec<SecurityInput>>),
                        CoreError,
                    >(error),
                    Ok(assets) => self.is_built_with_assets(known, asset_ids, assets, built),
                }
            }
    }

    pub open spec fn is_built_with_assets(
        self,
        known: WorksheetRecords,
        asset_ids: Vec<String>,
        assets: Vec<Asset>,
        built: Result<(WorksheetRecords, Option<Vec<SecurityInput>>), CoreError>,
    ) -> bool {
        exists|quotes: Result<Vec<(String, LatestQuoteSnapshot)>, CoreError>|
            {
                &&& #[trigger] call_ensures(
                    Q::get_latest_quotes_snapshot,
                    (&self.quotes(), &asset_ids),
                    quotes,
                )
                &&& match quotes {
                    Err(error) => built == Err::<
                        (WorksheetRecords, Option<Vec<SecurityInput>>),
                        CoreError,
                    >(error),
                    Ok(snapshots) => self.is_built_with_quotes(known, assets, snapshots, built),
                }
            }
    }

    pub open spec fn is_built_with_quotes(
        self,
        known: WorksheetRecords,
        assets: Vec<Asset>,
        snapshots: Vec<(String, LatestQuoteSnapshot)>,
        built: Result<(WorksheetRecords, Option<Vec<SecurityInput>>), CoreError>,
    ) -> bool {
        exists|rates: Result<Vec<ExchangeRate>, CoreError>|
            {
                &&& #[trigger] call_ensures(
                    F::get_latest_exchange_rates,
                    (&self.rates(),),
                    rates,
                )
                &&& match rates {
                    Err(error) => built == Err::<
                        (WorksheetRecords, Option<Vec<SecurityInput>>),
                        CoreError,
                    >(error),
                    Ok(fx_rates) => built is Ok && built->Ok_0.0 == (WorksheetRecords {
                        assets,
                        snapshots,
                        fx_rates,
                        ..known
                    }) && are_securities_of(built->Ok_0.1, built->Ok_0.0),
                }
            }
    }

    /// Every recorded security the calculation can act on, with the records
    /// completed by what the services answer about assets, quotes and rates.
    pub fn build_securities(&self, known: WorksheetRecords) -> (built: Result<
        (WorksheetRecords, Option<Vec<SecurityInput>>),
        CoreError,
    >)
        ensures
            self.is_built(known, built),
    {
        let asset_ids = sorted_distinct(
            &collect_assets(&known.contributions),
        );
        let answer = self.asset_service.get_assets_by_asset_ids(&asset_ids);
        assert(call_ensures(S::get_assets_by_asset_ids, (&self.assets(), &asset_ids), answer));
        let assets = match answer {
            Ok(assets) => assets,
            Err(error) => {
                return Err(error);
            },
        };
        let answer = self.quote_service.get_latest_quotes_snapshot(&asset_ids);
        assert(call_ensures(Q::get_latest_quotes_snapshot, (&self.quotes(), &asset_ids), answer));
        let snapshots = match answer {
            Ok(snapshots) => snapshots,
            Err(error) => {
                return Err(error);
            },
        };
        let answer = self.fx_service.get_latest_exchange_rates();
        assert(call_ensures(F::get_latest_exchange_rates, (&self.rates(),), answer));
        let fx_rates = match answer {
            Ok(fx_rates) => fx_rates,
            Err(error) => {
                return Err(error);
            },
        };
        let records = WorksheetRecords { assets, snapshots, fx_rates, ..known };
        let securities = securities_from(&records);
        Ok((records, securities))
    }
}

/// Whether securities are all that the calculation can act on.
pub open spec fn are_securities_of(
    securities: Option<Vec<SecurityInput>>,
    records: WorksheetRecords,
) -> bool {
    match securities {
        Some(found) => securities_of(records) == Some(security_views(found@)),
        None => securities_of(records) is None,
    }
}

fn copy_list(list: &Option<Vec<String>>) -> (copy: Option<Vec<String>>)
    ensures
        optional_texts(copy) == optional_texts(*list),
{
    match list {
        None => None,
        Some(list) => {
            let mut copy: Vec<String> = Vec::new();
            for i in 0..list.len()
                invariant
                    texts(copy@) == texts(list@).take(i as int),
            {
                let ghost before = copy@;
                copy.push(list[i].clone());
                assert(texts(copy@) =~= texts(before).push(list@[i as int]@));
                assert(texts(list@).take(i + 1) =~= texts(list@).take(i as int).push(
                    list@[i as int]@,
                ));
            }
            assert(texts(copy@) =~= texts(list@));
            Some(copy)
        },
    }
}

/// Whether a request is refused with an error.
pub open spec fn is_refused(
    outcome: Option<Result<CalculatedAdjustments, CoreError>>,
    error: CoreErrorView,
) -> bool {
    outcome matches Some(Err(given)) && given@ == error
}

/// The holdings of the first accounts, from what was answered of each: the
/// last answer about an account stands.
pub open spec fn gathered(
    account_ids: Seq<String>,
    answers: Seq<Result<Vec<Holding>, CoreError>>,
    n: nat,
) -> Seq<(String, Vec<Holding>)>
    decreases n,
{
    if n == 0 {
        Seq::empty()
    } else {
        with_entry(
            gathered(account_ids, answers, (n - 1) as nat),
            account_ids[n - 1],
            answers[n - 1]->Ok_0,
        )
    }
}

/// A request with another selection of tracked cash.
pub open spec fn with_tracked_cash(
    input: GenerateCalculatedAdjustmentsInput,
    tracked_cash: Decimal,
) -> GenerateCalculatedAdjustmentsInput {
    GenerateCalculatedAdjustmentsInput {
        cash: WorksheetCash { tracked_cash_to_use: tracked_cash, ..input.cash },
        ..input
    }
}

/// Whether an answer is one about the drift from the target of a request.
pub open spec fn is_drift_answer<T, D: DriftServiceTrait, A, H, S, Q, F>(
    service: AllocationWorksheetService<T, D, A, H, S, Q, F>,
    input: GenerateCalculatedAdjustmentsInput,
    answer: Result<DriftReport, CoreError>,
) -> bool {
    call_ensures(
        D::get_drift_report_for_target,
        (
            &service.drifts(),
            &input.target_id,
            &input.account_ids,
            &input.base_currency,
            &input.aggregated_account_id,
        ),
        answer,
    )
}

/// What the decisions so far have settled.
pub ghost struct Settled {
    pub target: AllocationTarget,
    pub drift: DriftReport,
    pub tracked_cash: Decimal,
    pub contributions: Vec<HoldingAllocationContribution>,
}

impl<T, D, A, H, S, Q, F> AllocationWorksheetService<T, D, A, H, S, Q, F> where
    T: AllocationTargetServiceTrait,
    D: DriftServiceTrait,
    A: AllocationServiceTrait,
    H: HoldingsServiceTrait,
    S: AssetServiceTrait,
    Q: QuoteServiceTrait,
    F: FxServiceTrait,
 {
    /// What comes of a request: an objection to its cash, or what comes of the
    /// answer about its target.
    pub open spec fn is_outcome<W: WorksheetRules>(
        self,
        rules: W,
        input: GenerateCalculatedAdjustmentsInput,
        outcome: Option<Result<CalculatedAdjustments, CoreError>>,
    ) -> bool {
        if !is_cash_acceptable(input.cash, texts(input.account_ids@)) {
            outcome matches Some(Err(error)) && is_cash_objection(
                error@,
                input.cash,
                texts(input.account_ids@),
            )
        } else {
            exists|answer: Result<Option<AllocationTarget>, CoreError>|
                {
                    &&& #[trigger] call_ensures(
                        T::get_target,
                        (&self.targets(), &input.target_id),
                        answer,
                    )
                    &&& match answer {
                        Err(error) => is_refused(outcome, error@),
                        Ok(target) => match target_objection(
                            input.target_id@,
                            input.mode,
                            target,
                        ) {
                            Some(error) => is_refused(outcome, error),
                            None => self.is_outcome_for_target(rules, input, target->0, outcome),
                        },
                    }
                }
        }
    }

    /// What comes of the answer about the drift from a target: the cash that
    /// can be used follows from it.
    pub open spec fn is_outcome_for_target<W: WorksheetRules>(
        self,
        rules: W,
        input: GenerateCalculatedAdjustmentsInput,
        target: AllocationTarget,
        outcome: Option<Result<CalculatedAdjustments, CoreError>>,
    ) -> bool {
        exists|answer: Result<DriftReport, CoreError>|
            {
                &&& #[trigger] is_drift_answer(self, input, answer)
                &&& match answer {
                    Err(error) => is_refused(outcome, error@),
                    Ok(drift) => self.is_outcome_for_drift(rules, input, target, drift, outcome),
                }
            }
    }

    pub open spec fn is_outcome_for_drift<W: WorksheetRules>(
        self,
        rules: W,
        input: GenerateCalculatedAdjustmentsInput,
        target: AllocationTarget,
        drift: DriftReport,
        outcome: Option<Result<CalculatedAdjustments, CoreError>>,
    ) -> bool {
        exists|minor_unit: Decimal|
            {
                &&& #[trigger] call_ensures(
                    W::currency_minor_unit,
                    (&rules, &input.base_currency),
                    minor_unit,
                )
                &&& match usable_cash(
                    input.cash.tracked_cash_to_use,
                    drift.deployable_cash,
                    minor_unit,
                ) {
                    None => outcome is None,
                    Some(Err(error)) => is_refused(outcome, error),
                    Some(Ok(tracked_cash)) => self.is_outcome_for_cash(
                        rules,
                        with_tracked_cash(input, tracked_cash),
                        target,
                        drift,
                        tracked_cash,
                        outcome,
                    ),
                }
            }
    }

    /// What comes of the answer about the contributions to the target's
    /// taxonomy.
    pub open spec fn is_outcome_for_cash<W: WorksheetRules>(
        self,
        rules: W,
        input: GenerateCalculatedAdjustmentsInput,
        target: AllocationTarget,
        drift: DriftReport,
        tracked_cash: Decimal,
        outcome: Option<Result<CalculatedAdjustments, CoreError>>,
    ) -> bool {
        exists|answer: Result<Vec<HoldingAllocationContribution>, CoreError>|
            {
                &&& #[trigger] call_ensures(
                    A::get_holding_contributions_for_taxonomy_for_accounts,
                    (
                        &self.allocations(),
                        &input.account_ids,
                        &input.base_currency,
                        &target.taxonomy_id,
                        &input.aggregated_account_id,
                    ),
                    answer,
                )
                &&& match answer {
                    Err(error) => is_refused(outcome, error@),
                    Ok(contributions) => self.is_outcome_for_contributions(
                        rules,
                        input,
                        Settled { target, drift, tracked_cash, contributions },
                        outcome,
                    ),
                }
            }
    }

    /// Whether each answer is one about the holdings of the account in its
    /// place.
    pub open spec fn are_holdings_answers(
        self,
        input: GenerateCalculatedAdjustmentsInput,
        answers: Seq<Result<Vec<Holding>, CoreError>>,
    ) -> bool {
        &&& answers.len() <= input.account_ids@.len()
        &&& forall|i: int|
            0 <= i < answers.len() ==> call_ensures(
                H::get_holdings,
                (&self.holdings(), &input.account_ids@[i], &input.base_currency),
                #[trigger] answers[i],
            )
    }

    /// What comes of the answers about the holdings of each account: the first
    /// error among them ends it.
    pub open spec fn is_outcome_for_contributions<W: WorksheetRules>(
        self,
        rules: W,
        input: GenerateCalculatedAdjustmentsInput,
        settled: Settled,
        outcome: Option<Result<CalculatedAdjustments, CoreError>>,
    ) -> bool {
        exists|answers: Seq<Result<Vec<Holding>, CoreError>>|
            {
                &&& #[trigger] self.are_holdings_answers(input, answers)
                &&& forall|i: int| 0 <= i < answers.len() - 1 ==> (#[trigger] answers[i]) is Ok
                &&& if answers.len() > 0 && answers.last() is Err {
                    is_refused(outcome, answers.last()->Err_0@)
                } else {
                    answers.len() == input.account_ids@.len() && self.is_outcome_for_holdings(
                        rules,
                        input,
                        settled,
                        gathered(input.account_ids@, answers, answers.len()),
                        outcome,
                    )
                }
            }
    }

    /// What comes of the answer about the target's constraints.
    pub open spec fn is_outcome_for_holdings<W: WorksheetRules>(
        self,
        rules: W,
        input: GenerateCalculatedAdjustmentsInput,
        settled: Settled,
        holdings: Seq<(String, Vec<Holding>)>,
        outcome: Option<Result<CalculatedAdjustments, CoreError>>,
    ) -> bool {
        exists|answer: Result<Vec<AllocationTargetConstraint>, CoreError>|
            {
                &&& #[trigger] call_ensures(
                    T::list_target_constraints,
                    (&self.targets(), &input.target_id),
                    answer,
                )
                &&& match answer {
                    Err(error) => is_refused(outcome, error@),
                    Ok(constraints) => self.is_outcome_for_constraints(
                        rules,
                        input,
                        settled,
                        holdings,
                        constraints,
                        outcome,
                    ),
                }
            }
    }

    /// What comes of the securities that are built from all the answers.
    pub open spec fn is_outcome_for_constraints<W: WorksheetRules>(
        self,
        rules: W,
        input: GenerateCalculatedAdjustmentsInput,
        settled: Settled,
        holdings: Seq<(String, Vec<Holding>)>,
        constraints: Vec<AllocationTargetConstraint>,
        outcome: Option<Result<CalculatedAdjustments, CoreError>>,
    ) -> bool {
        exists|
            known: WorksheetRecords,
            built: Result<(WorksheetRecords, Option<Vec<SecurityInput>>), CoreError>,
        |
            {
                &&& call_ensures(W::minor_units, (&rules,), known.minor_units)
                &&& known.contributions == settled.contributions
                &&& known.holdings_by_account@ == holdings
                &&& known.constraints == constraints
                &&& optional_texts(known.eligible_asset_ids) == optional_texts(
                    input.eligible_asset_ids,
                )
                &&& known.base_currency == input.base_currency
                &&& #[trigger] self.is_built(known, built)
                &&& match built {
                    Err(error) => is_refused(outcome, error@),
                    Ok((records, None)) => outcome is None,
                    Ok((records, Some(securities))) => is_outcome_for_securities(
                        rules,
                        input,
                        settled,
                        records,
                        securities,
                        outcome,
                    ),
                }
            }
    }
}

/// What comes of the securities: the basis of the weights, the drafts, the
/// limits and the accounts follow from them.
pub open spec fn is_outcome_for_securities<W: WorksheetRules>(
    rules: W,
    input: GenerateCalculatedAdjustmentsInput,
    settled: Settled,
    records: WorksheetRecords,
    securities: Vec<SecurityInput>,
    outcome: Option<Result<CalculatedAdjustments, CoreError>>,
) -> bool {
    match total(amounts_in(input.cash.external_contribution@)) {
        None => outcome is None,
        Some(external) => exists|has_cash_sleeve: bool|
            {
                &&& #[trigger] call_ensures(
                    W::has_deployable_cash_categories,
                    (&rules, &settled.target.taxonomy_id),
                    has_cash_sleeve,
                )
                &&& match basis(
                    settled.drift.total_value,
                    settled.tracked_cash,
                    external,
                    has_cash_sleeve,
                ) {
                    None => outcome is None,
                    Some(planning_total) => is_outcome_for_basis(
                        rules,
                        input,
                        settled,
                        records,
                        securities,
                        external,
                        planning_total,
                        outcome,
                    ),
                }
            },
    }
}

pub open spec fn is_outcome_for_basis<W: WorksheetRules>(
    rules: W,
    input: GenerateCalculatedAdjustmentsInput,
    settled: Settled,
    records: WorksheetRecords,
    securities: Vec<SecurityInput>,
    external: Decimal,
    planning_total: Decimal,
    outcome: Option<Result<CalculatedAdjustments, CoreError>>,
) -> bool {
    exists|
        categories: Vec<CategoryTarget>,
        cash_category_id: Option<String>,
        drafts: SequenceDrafts,
    |
        {
            &&& are_categories_of(categories@, settled.drift.rows@)
            &&& optional_text(cash_category_id) == first_cash_category(settled.drift.rows@)
            &&& #[trigger] call_ensures(
                W::run_sequence,
                (
                    &rules,
                    input.mode,
                    &categories,
                    &securities,
                    planning_total,
                    settled.tracked_cash,
                    &input.cash.external_contribution,
                    &cash_category_id,
                ),
                drafts,
            )
            &&& match limits_of(settled.target, planning_total, settled.tracked_cash, external) {
                None => outcome is None,
                Some(limits) => match limited(
                    drafts.increases@,
                    drafts.reductions@,
                    securities@,
                    limits,
                ) {
                    None => outcome is None,
                    Some(adjustments) => is_outcome_for_limits(
                        rules,
                        input,
                        settled,
                        records,
                        securities,
                        external,
                        drafts,
                        limits,
                        adjustments,
                        outcome,
                    ),
                },
            }
        }
}

/// What comes of the limited adjustments: they are placed in accounts, and the
/// worksheet says what was placed, what was not, and what cash is left or
/// lacking.
pub open spec fn is_outcome_for_limits<W: WorksheetRules>(
    rules: W,
    input: GenerateCalculatedAdjustmentsInput,
    settled: Settled,
    records: WorksheetRecords,
    securities: Vec<SecurityInput>,
    external: Decimal,
    drafts: SequenceDrafts,
    limits: LimitsInput,
    adjustments: LimitedAdjustmentsView,
    outcome: Option<Result<CalculatedAdjustments, CoreError>>,
) -> bool {
    exists|
        adjusted: LimitedAdjustments,
        accounts: Vec<(String, Vec<String>)>,
        assigned: Vec<AssignedLine>,
        cash_by_account: Vec<(String, Decimal)>,
    |
        {
            &&& adjusted@ == adjustments
            &&& #[trigger] is_cash_by_account(
                rules,
                records.holdings_by_account@,
                cash_by_account@,
            )
            &&& are_account_entries(
                accounts@,
                securities@,
                texts(input.account_ids@),
                records.constraints@,
            )
            &&& #[trigger] call_ensures(
                W::assign_accounts,
                (
                    &rules,
                    &adjusted,
                    &securities,
                    &accounts,
                    settled.target.whole_shares_only,
                    limits.min_line_amount,
                ),
                assigned,
            )
            &&& outcome matches Some(Ok(worksheet)) && {
                &&& worksheet.mode == input.mode
                &&& worksheet.rule == input.rule
                &&& adjustment_views(worksheet.adjustments@) == adjustments_of(
                    assigned@,
                    securities@,
                )
                &&& worksheet.unresolved == drafts.unresolved
                &&& worksheet.scaling == adjustments.scaling
                &&& call_ensures(
                    W::account_funding_shortfalls,
                    (
                        &rules,
                        &assigned,
                        &cash_by_account,
                        &input.cash.external_contribution,
                    ),
                    worksheet.funding_shortfalls,
                )
                &&& call_ensures(
                    W::remaining_cash,
                    (&rules, &assigned, settled.tracked_cash, external),
                    worksheet.remaining_cash,
                )
            }
        }
}

/// Whether cash is what is recorded in each account, in the order of the
/// accounts.
pub open spec fn is_cash_by_account<W: WorksheetRules>(
    rules: W,
    holdings_by_account: Seq<(String, Vec<Holding>)>,
    cash_by_account: Seq<(String, Decimal)>,
) -> bool {
    &&& cash_by_account.len() == holdings_by_account.len()
    &&& forall|i: int|
        0 <= i < holdings_by_account.len() ==> (#[trigger] cash_by_account[i]).0@
            == holdings_by_account[i].0@ && call_ensures(
            W::tracked_cash,
            (&rules, &holdings_by_account[i].1),
            cash_by_account[i].1,
        )
}

/// The cash that is recorded in each account.
fn recorded_cash<W: WorksheetRules>(
    rules: &W,
    holdings_by_account: &Vec<(String, Vec<Holding>)>,
) -> (cash_by_account: Vec<(String, Decimal)>)
    ensures
        is_cash_by_account(*rules, holdings_by_account@, cash_by_account@),
{
    let mut cash_by_account: Vec<(String, Decimal)> = Vec::new();
    for i in 0..holdings_by_account.len()
        invariant
            cash_by_account@.len() == i,
            forall|k: int|
                0 <= k < i ==> (#[trigger] cash_by_account@[k]).0@ == holdings_by_account@[k].0@
                    && call_ensures(
                    W::tracked_cash,
                    (rules, &holdings_by_account@[k].1),
                    cash_by_account@[k].1,
                ),
    {
        let cash = rules.tracked_cash(&holdings_by_account[i].1);
        cash_by_account.push((holdings_by_account[i].0.clone(), cash));
    }
    cash_by_account
}

/// Takes the decisions that follow from the securities.
fn worksheet_from<W: WorksheetRules>(
    rules: &W,
    input: GenerateCalculatedAdjustmentsInput,
    target: AllocationTarget,
    drift: DriftReport,
    tracked_cash: Decimal,
    records: WorksheetRecords,
    securities: Vec<SecurityInput>,
    Ghost(settled): Ghost<Settled>,
) -> (outcome: Option<Result<CalculatedAdjustments, CoreError>>)
    requires
        settled.target == target,
        settled.drift == drift,
        settled.tracked_cash == tracked_cash,
    ensures
        is_outcome_for_securities(*rules, input, settled, records, securities, outcome),
{
    let external = match external_total(&input.cash) {
        Some(external) => external,
        None => {
            return None;
        },
    };
    let has_cash_sleeve = rules.has_deployable_cash_categories(&target.taxonomy_id);
    assert(call_ensures(
        W::has_deployable_cash_categories,
        (rules, &settled.target.taxonomy_id),
        has_cash_sleeve,
    ));
    let basis = match planning_total(
        drift.total_value,
        tracked_cash,
        external,
        has_cash_sleeve,
    ) {
        Some(basis) => basis,
        None => {
            return None;
        },
    };
    let categories = categories_from(&drift.rows);
    let cash_category_id = cash_category(&drift.rows);
    let drafts = rules.run_sequence(
        input.mode,
        &categories,
        &securities,
        basis,
        tracked_cash,
        &input.cash.external_contribution,
        &cash_category_id,
    );
    assert(call_ensures(
        W::run_sequence,
        (
            rules,
            input.mode,
            &categories,
            &securities,
            basis,
            settled.tracked_cash,
            &input.cash.external_contribution,
            &cash_category_id,
        ),
        drafts,
    ));
    let limits = match limits_from(&target, basis, tracked_cash, external) {
        Some(limits) => limits,
        None => {
            return None;
        },
    };
    let adjusted = match apply_limits(&drafts.increases, &drafts.reductions, &securities, &limits) {
        Some(adjusted) => adjusted,
        None => {
            return None;
        },
    };
    let accounts = eligible_accounts(&securities, &input.account_ids, &records.constraints);
    let assigned = rules.assign_accounts(
        &adjusted,
        &securities,
        &accounts,
        target.whole_shares_only,
        limits.min_line_amount,
    );
    assert(call_ensures(
        W::assign_accounts,
        (
            rules,
            &adjusted,
            &securities,
            &accounts,
            settled.target.whole_shares_only,
            limits.min_line_amount,
        ),
        assigned,
    ));
    // What the user selected caps the total the limits will spend; this only
    // answers whether the cash is in the account the increase was placed in.
    let cash_by_account = recorded_cash(rules, &records.holdings_by_account);
    assert(is_cash_by_account(*rules, records.holdings_by_account@, cash_by_account@));
    let funding_shortfalls = rules.account_funding_shortfalls(
        &assigned,
        &cash_by_account,
        &input.cash.external_contribution,
    );
    let remaining_cash = rules.remaining_cash(&assigned, tracked_cash, external);
    let adjustments = adjustments_from(assigned, &securities);
    Some(
        Ok(
            CalculatedAdjustments {
                mode: input.mode,
                rule: input.rule,
                adjustments,
                unresolved: drafts.unresolved,
                scaling: adjusted.scaling,
                remaining_cash,
                funding_shortfalls,
            },
        ),
    )
}

impl<T, D, A, H, S, Q, F> AllocationWorksheetService<T, D, A, H, S, Q, F> where
    T: AllocationTargetServiceTrait,
    D: DriftServiceTrait,
    A: AllocationServiceTrait,
    H: HoldingsServiceTrait,
    S: AssetServiceTrait,
    Q: QuoteServiceTrait,
    F: FxServiceTrait,
 {
    /// Asks about the holdings of each account, and goes on from there.
    fn generate_from_contributions<W: WorksheetRules>(
        &self,
        rules: &W,
        input: GenerateCalculatedAdjustmentsInput,
        target: AllocationTarget,
        drift: DriftReport,
        tracked_cash: Decimal,
        contributions: Vec<HoldingAllocationContribution>,
    ) -> (outcome: Option<Result<CalculatedAdjustments, CoreError>>)
        ensures
            self.is_outcome_for_contributions(
                *rules,
                input,
                Settled { target, drift, tracked_cash, contributions },
                outcome,
            ),
    {
        let ghost settled = Settled { target, drift, tracked_cash, contributions };
        let mut holdings_by_account: Vec<(String, Vec<Holding>)> = Vec::new();
        let ghost mut answers: Seq<Result<Vec<Holding>, CoreError>> = Seq::empty();
        for i in 0..input.account_ids.len()
            invariant
                answers.len() == i,
                self.are_holdings_answers(input, answers),
                forall|k: int| 0 <= k < answers.len() ==> (#[trigger] answers[k]) is Ok,
                holdings_by_account@ == gathered(input.account_ids@, answers, i as nat),
        {
            let answer = self.holdings_service.get_holdings(
                &input.account_ids[i],
                &input.base_currency,
            );
            let ghost before = answers;
            proof {
                answers = answers.push(answer);
                assert(call_ensures(
                    H::get_holdings,
                    (&self.holdings(), &input.account_ids@[i as int], &input.base_currency),
                    answer,
                ));
                assert(self.are_holdings_answers(input, answers)) by {
                    assert forall|k: int| 0 <= k < answers.len() implies call_ensures(
                        H::get_holdings,
                        (&self.holdings(), &input.account_ids@[k], &input.base_currency),
                        #[trigger] answers[k],
                    ) by {
                        if k < before.len() {
                            assert(answers[k] == before[k]);
                        }
                    }
                }
                lemma_gathered_agrees(input.account_ids@, before, answers, i as nat);
            }
            match answer {
                Ok(holdings) => {
                    put_entry(&mut holdings_by_account, input.account_ids[i].clone(), holdings);
                },
                Err(error) => {
                    assert(answers.last() is Err);
                    return Some(Err(error));
                },
            }
        }
        let answer = self.allocation_target_service.list_target_constraints(&input.target_id);
        assert(call_ensures(
            T::list_target_constraints,
            (&self.targets(), &input.target_id),
            answer,
        ));
        let constraints = match answer {
            Ok(constraints) => constraints,
            Err(error) => {
                return Some(Err(error));
            },
        };
        let minor_units = rules.minor_units();
        let known = WorksheetRecords {
            contributions,
            assets: Vec::new(),
            snapshots: Vec::new(),
            fx_rates: Vec::new(),
            minor_units,
            holdings_by_account,
            constraints,
            eligible_asset_ids: copy_list(&input.eligible_asset_ids),
            base_currency: input.base_currency.clone(),
        };
        let ghost asked = known;
        let built = self.build_securities(known);
        assert(self.is_built(asked, built));
        match built {
            Err(error) => Some(Err(error)),
            Ok((records, None)) => None,
            Ok((records, Some(securities))) => worksheet_from(
                rules,
                input,
                target,
                drift,
                tracked_cash,
                records,
                securities,
                Ghost(settled),
            ),
        }
    }
}

/// The answers that count are the ones that were gathered.
proof fn lemma_gathered_agrees(
    account_ids: Seq<String>,
    a: Seq<Result<Vec<Holding>, CoreError>>,
    b: Seq<Result<Vec<Holding>, CoreError>>,
    n: nat,
)
    requires
        n <= a.len(),
        n <= b.len(),
        forall|k: int| 0 <= k < n ==> a[k] == b[k],
    ensures
        gathered(account_ids, a, n) == gathered(account_ids, b, n),
    decreases n,
{
    if n > 0 {
        lemma_gathered_agrees(account_ids, a, b, (n - 1) as nat);
    }
}

impl<T, D, A, H, S, Q, F> AllocationWorksheetServiceTrait for AllocationWorksheetService<
    T,
    D,
    A,
    H,
    S,
    Q,
    F,
> where
    T: AllocationTargetServiceTrait,
    D: DriftServiceTrait,
    A: AllocationServiceTrait,
    H: HoldingsServiceTrait,
    S: AssetServiceTrait,
    Q: QuoteServiceTrait,
    F: FxServiceTrait,
 {
    fn generate_adjustments<W: WorksheetRules>(
        &self,
        rules: &W,
        input: GenerateCalculatedAdjustmentsInput,
    ) -> (outcome: Option<Result<CalculatedAdjustments, CoreError>>)
        ensures
            self.is_outcome(*rules, input, outcome),
    {
        match check_cash(&input.cash, &input.account_ids) {
            Ok(_) => {},
            Err(error) => {
                return Some(Err(error));
            },
        }
        let answer = self.allocation_target_service.get_target(&input.target_id);
        assert(call_ensures(T::get_target, (&self.targets(), &input.target_id), answer));
        let found = match answer {
            Ok(found) => found,
            Err(error) => {
                return Some(Err(error));
            },
        };
        let target = match check_target(&input.target_id, input.mode, found) {
            Ok(target) => target,
            Err(error) => {
                return Some(Err(error));
            },
        };
        let answer = self.drift_service.get_drift_report_for_target(
            &input.target_id,
            &input.account_ids,
            &input.base_currency,
            &input.aggregated_account_id,
        );
        assert(is_drift_answer(*self, input, answer));
        let drift = match answer {
            Ok(drift) => drift,
            Err(error) => {
                return Some(Err(error));
            },
        };
        let minor_unit = rules.currency_minor_unit(&input.base_currency);
        assert(call_ensures(
            W::currency_minor_unit,
            (rules, &input.base_currency),
            minor_unit,
        ));
        let tracked_cash = match usable_tracked_cash(
            input.cash.tracked_cash_to_use,
            drift.deployable_cash,
            minor_unit,
        ) {
            None => {
                return None;
            },
            Some(Err(error)) => {
                return Some(Err(error));
            },
            Some(Ok(tracked_cash)) => tracked_cash,
        };
        let ghost asked = input;
        let mut input = input;
        input.cash.tracked_cash_to_use = tracked_cash;
        assert(input == with_tracked_cash(asked, tracked_cash));
        let answer = self.allocation_service.get_holding_contributions_for_taxonomy_for_accounts(
            &input.account_ids,
            &input.base_currency,
            &target.taxonomy_id,
            &input.aggregated_account_id,
        );
        assert(call_ensures(
            A::get_holding_contributions_for_taxonomy_for_accounts,
            (
                &self.allocations(),
                &input.account_ids,
                &input.base_currency,
                &target.taxonomy_id,
                &input.aggregated_account_id,
            ),
            answer,
        ));
        match answer {
            Ok(contributions) => self.generate_from_contributions(
                rules,
                input,
                target,
                drift,
                tracked_cash,
                contributions,
            ),
            Err(error) => Some(Err(error)),
        }
    }
}

/// Cash that is over what is deployable by no more than the currency's minor
/// unit is never spent: a request that selects it has the outcomes of the same
/// request with the deployable cash selected. Both requests hear of the same
/// deployable cash and the same minor unit.
pub proof fn law_small_overage_is_clamped<T, D, A, H, S, Q, F, W>(
    service: AllocationWorksheetService<T, D, A, H, S, Q, F>,
    rules: W,
    input: GenerateCalculatedAdjustmentsInput,
    deployable: Decimal,
    minor_unit: Decimal,
    outcome: Option<Result<CalculatedAdjustments, CoreError>>,
) where
    T: AllocationTargetServiceTrait,
    D: DriftServiceTrait,
    A: AllocationServiceTrait,
    H: HoldingsServiceTrait,
    S: AssetServiceTrait,
    Q: QuoteServiceTrait,
    F: FxServiceTrait,
    W: WorksheetRules,

    requires
        is_cash_acceptable(input.cash, texts(input.account_ids@)),
        0 <= deployable@ < input.cash.tracked_cash_to_use@,
        decimal_difference(input.cash.tracked_cash_to_use, deployable) matches Some(overage)
            && overage@ <= minor_unit@,
        forall|answer: Result<DriftReport, CoreError>| #[trigger]
            is_drift_answer(service, input, answer) && answer is Ok ==> answer->Ok_0.deployable_cash
                == deployable,
        call_ensures(W::currency_minor_unit, (&rules, &input.base_currency), minor_unit),
        forall|answer: Decimal| #[trigger]
            call_ensures(W::currency_minor_unit, (&rules, &input.base_currency), answer) ==> answer
                == minor_unit,
    ensures
        service.is_outcome(rules, input, outcome) <==> service.is_outcome(
            rules,
            with_tracked_cash(input, deployable),
            outcome,
        ),
{
    let clamped = with_tracked_cash(input, deployable);
    assert(is_cash_acceptable(clamped.cash, texts(clamped.account_ids@)));
    assert forall|target: AllocationTarget|
        service.is_outcome_for_target(rules, input, target, outcome)
            == #[trigger] service.is_outcome_for_target(rules, clamped, target, outcome) by {
        assert forall|drift: DriftReport| drift.deployable_cash == deployable implies
            service.is_outcome_for_drift(rules, input, target, drift, outcome)
            == #[trigger] service.is_outcome_for_drift(
            rules,
            clamped,
            target,
            drift,
            outcome,
        ) by {
            lemma_same_after_clamping(
                service,
                rules,
                input,
                target,
                drift,
                minor_unit,
                outcome,
            );
        }
        if service.is_outcome_for_target(rules, input, target, outcome) {
            let answer = choose|answer: Result<DriftReport, CoreError>|
                {
                    &&& is_drift_answer(service, input, answer)
                    &&& match answer {
                        Err(error) => is_refused(outcome, error@),
                        Ok(drift) => service.is_outcome_for_drift(
                            rules,
                            input,
                            target,
                            drift,
                            outcome,
                        ),
                    }
                };
            assert(is_drift_answer(service, clamped, answer));
        }
        if service.is_outcome_for_target(rules, clamped, target, outcome) {
            let answer = choose|answer: Result<DriftReport, CoreError>|
                {
                    &&& is_drift_answer(service, clamped, answer)
                    &&& match answer {
                        Err(error) => is_refused(outcome, error@),
                        Ok(drift) => service.is_outcome_for_drift(
                            rules,
                            clamped,
                            target,
                            drift,
                            outcome,
                        ),
                    }
                };
            assert(is_drift_answer(service, input, answer));
        }
    }
}

proof fn lemma_same_after_clamping<T, D, A, H, S, Q, F, W>(
    service: AllocationWorksheetService<T, D, A, H, S, Q, F>,
    rules: W,
    input: GenerateCalculatedAdjustmentsInput,
    target: AllocationTarget,
    drift: DriftReport,
    minor_unit: Decimal,
    outcome: Option<Result<CalculatedAdjustments, CoreError>>,
) where
    T: AllocationTargetServiceTrait,
    D: DriftServiceTrait,
    A: AllocationServiceTrait,
    H: HoldingsServiceTrait,
    S: AssetServiceTrait,
    Q: QuoteServiceTrait,
    F: FxServiceTrait,
    W: WorksheetRules,

    requires
        drift.deployable_cash@ < input.cash.tracked_cash_to_use@,
        decimal_difference(
            input.cash.tracked_cash_to_use,
            drift.deployable_cash,
        ) matches Some(overage) && overage@ <= minor_unit@,
        call_ensures(W::currency_minor_unit, (&rules, &input.base_currency), minor_unit),
        forall|answer: Decimal| #[trigger]
            call_ensures(W::currency_minor_unit, (&rules, &input.base_currency), answer) ==> answer
                == minor_unit,
    ensures
        service.is_outcome_for_drift(rules, input, target, drift, outcome)
            == service.is_outcome_for_drift(
            rules,
            with_tracked_cash(input, drift.deployable_cash),
            target,
            drift,
            outcome,
        ),
{
    let deployable = drift.deployable_cash;
    let clamped = with_tracked_cash(input, deployable);
    assert(with_tracked_cash(clamped, deployable) == clamped);
    assert(call_ensures(W::currency_minor_unit, (&rules, &clamped.base_currency), minor_unit));
}

/// Cash that is over what is deployable by more than the currency's minor unit
/// is always refused, once the target and the drift from it are known.
pub proof fn law_large_overage_is_refused<T, D, A, H, S, Q, F, W>(
    service: AllocationWorksheetService<T, D, A, H, S, Q, F>,
    rules: W,
    input: GenerateCalculatedAdjustmentsInput,
    target: AllocationTarget,
    drift: DriftReport,
    outcome: Option<Result<CalculatedAdjustments, CoreError>>,
) where
    T: AllocationTargetServiceTrait,
    D: DriftServiceTrait,
    A: AllocationServiceTrait,
    H: HoldingsServiceTrait,
    S: AssetServiceTrait,
    Q: QuoteServiceTrait,
    F: FxServiceTrait,
    W: WorksheetRules,

    requires
        drift.deployable_cash@ < input.cash.tracked_cash_to_use@,
        forall|minor_unit: Decimal| #[trigger]
            call_ensures(W::currency_minor_unit, (&rules, &input.base_currency), minor_unit) ==> (
            decimal_difference(
                input.cash.tracked_cash_to_use,
                drift.deployable_cash,
            ) matches Some(overage) && overage@ > minor_unit@),
        service.is_outcome_for_drift(rules, input, target, drift, outcome),
    ensures
        is_refused(
            outcome,
            CoreErrorView::InvalidInput(
                overdrawn_message(
                    decimal_text(input.cash.tracked_cash_to_use),
                    decimal_text(drift.deployable_cash),
                ),
            ),
        ),
{
}

} // verus!
