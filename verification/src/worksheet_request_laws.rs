//! What a request for a worksheet comes to: which requests are taken up, what is
//! gathered for them and what the worksheet says.


use crate::decimal::{decimal_difference, decimal_read, decimal_sum, decimal_text, total, Decimal};
use crate::entries::{lemma_with_entry, with_entry};
use crate::errors::{CoreError, CoreErrorView};
use crate::portfolios::names_account;
use crate::text::{optional_text, optional_texts, texts};
use crate::worksheet_calculator::{
    amounts_for, has_entry, is_combination, is_combined_entry, limited, turnover_cap_of,
    CategoryTarget, IntentView, LimitedAdjustments, LimitedAdjustmentsView, LimitsInput,
    SecurityInput,
};
use crate::worksheet_generation::{
    adjustment_views, adjustments_of, amounts_in, are_categories_of, first_cash_category, gathered,
    has_negative_cash, is_cash_acceptable, is_cash_by_account, is_cash_objection, is_category_of,
    is_out_of_scope, is_outcome_for_basis, is_outcome_for_limits, is_outcome_for_securities,
    is_refused, limits_of, scope_message, smallest_line, symbol_for, target_objection, usable_cash,
    with_tracked_cash, AllocationServiceTrait, AllocationTarget, AllocationTargetServiceTrait,
    AllocationWorksheetService, AssetServiceTrait, AssignedLine, CalculatedAdjustment,
    CalculatedAdjustments, DriftReport, DriftRow, DriftServiceTrait, FxServiceTrait,
    GenerateCalculatedAdjustmentsInput, HoldingsServiceTrait, QuoteServiceTrait, SequenceDrafts,
    Settled, WorksheetCash, WorksheetMode, WorksheetRules,
};
use crate::worksheet_model::{
    AllocationTargetConstraint, Asset, Holding, HoldingAllocationContribution, LatestQuoteSnapshot,
    WorksheetDirection,
};
use crate::worksheet_record_laws::law_last_security_is_found;
use crate::worksheet_service::{
    accounts_open_to, are_account_entries, basis, contributed_assets, has_account_entry,
    is_account_entry, last_security, securities_of, security_views, WorksheetRecords,
};
use crate::listing::{lemma_listing_exists, listing};
use crate::fx::ExchangeRate;
use vstd::prelude::*;

verus! {

/// Cash is acceptable exactly where no amount of it is negative and every
/// contribution is for an account in scope.
pub proof fn law_cash_is_acceptable(cash: WorksheetCash, account_ids: Seq<String>)
    ensures
        is_cash_acceptable(cash, texts(account_ids)) <==> cash.tracked_cash_to_use@ >= 0 && forall|
            i: int,
        |
            0 <= i < cash.external_contribution@.len() ==> (
            #[trigger] cash.external_contribution@[i]).1@ >= 0 && names_account(
                account_ids,
                cash.external_contribution@[i].0@,
            ),
{
    let views = texts(account_ids);
    assert forall|id: Seq<char>| #[trigger] views.contains(id) <==> names_account(account_ids,
        id) by {
        if views.contains(id) {
            let i = choose|i: int| 0 <= i < views.len() && views[i] == id;
            assert(account_ids[i]@ == id);
        }
        if names_account(account_ids, id) {
            let i = choose|i: int| 0 <= i < account_ids.len() && (#[trigger] account_ids[i])@ == id;
            assert(views[i] == id);
        }
    }
}

/// The hypothetical cash is the amount of every contribution.
pub proof fn law_every_contribution_of_cash_counts(cash: WorksheetCash)
    ensures
        amounts_in(cash.external_contribution@).len() == cash.external_contribution@.len(),
        forall|i: int|
            0 <= i < cash.external_contribution@.len() ==> #[trigger] amounts_in(
                cash.external_contribution@,
            )[i] == cash.external_contribution@[i].1,
{
}

/// The category of cash is the first row that is cash.
pub proof fn law_cash_category_is_the_first(rows: Seq<DriftRow>)
    ensures
        match first_cash_category(rows) {
            Some(category_id) => exists|i: int|
                0 <= i < rows.len() && (#[trigger] rows[i]).is_cash && rows[i].category_id@
                    == category_id && (forall|k: int| 0 <= k < i ==> !(#[trigger] rows[k]).is_cash),
            None => forall|k: int| 0 <= k < rows.len() ==> !(#[trigger] rows[k]).is_cash,
        },
    decreases rows.len(),
{
    if rows.len() > 0 && !rows[0].is_cash {
        let rest = rows.drop_first();
        law_cash_category_is_the_first(rest);
        match first_cash_category(rest) {
            Some(category_id) => {
                let i = choose|i: int|
                    0 <= i < rest.len() && (#[trigger] rest[i]).is_cash && rest[i].category_id@
                        == category_id && (forall|k: int|
                        0 <= k < i ==> !(#[trigger] rest[k]).is_cash);
                assert(rows[i + 1].is_cash);
                assert forall|k: int| 0 <= k < i + 1 implies !(#[trigger] rows[k]).is_cash by {
                    if k > 0 {
                        assert(rest[k - 1] == rows[k]);
                    }
                }
            },
            None => {
                assert forall|k: int| 0 <= k < rows.len() implies !(#[trigger] rows[k]).is_cash by {
                    if k > 0 {
                        assert(rest[k - 1] == rows[k]);
                    }
                }
            },
        }
    }
}

/// The smallest line is what the setting says where that is not negative, and
/// nothing otherwise.
pub proof fn law_smallest_line_is_not_negative(read: Option<Decimal>)
    ensures
        read is Some && read->0@ > 0 ==> smallest_line(read) == read->0,
        read is None || read->0@ <= 0 ==> smallest_line(read)@ == 0,
{
    crate::decimal::lemma_whole_value(0);
}

/// A line is shown by the symbol of the last security with its identifier, and
/// by the identifier where there is none.
pub proof fn law_line_is_shown_by_its_symbol(securities: Seq<SecurityInput>, asset_id: Seq<char>)
    ensures
        (forall|k: int|
            0 <= k < securities.len() ==> (#[trigger] securities[k]).asset_id@ != asset_id)
            ==> symbol_for(securities, asset_id) == asset_id,
        (exists|k: int|
            0 <= k < securities.len() && (#[trigger] securities[k]).asset_id@ == asset_id)
            ==> exists|k: int|
            0 <= k < securities.len() && (#[trigger] securities[k]).asset_id@ == asset_id
                && securities[k].symbol@ == symbol_for(securities, asset_id) && (forall|j: int|
                k < j < securities.len() ==> (#[trigger] securities[j]).asset_id@ != asset_id),
{
    law_last_security_is_found(securities, asset_id);
}

/// A line of the worksheet is seen with everything that it says.
pub proof fn law_adjustment_is_seen_whole(adjustment: CalculatedAdjustment)
    ensures
        adjustment@.line_id == adjustment.line_id@,
        adjustment@.direction == adjustment.direction,
        adjustment@.symbol == adjustment.symbol@,
        adjustment@.asset_id == adjustment.asset_id@,
        adjustment@.account_id is Some <==> adjustment.account_id is Some,
        adjustment.account_id is Some ==> adjustment@.account_id->0 == adjustment.account_id->0@,
        adjustment@.amount == adjustment.amount,
        adjustment@.quantity == adjustment.quantity,
        adjustment@.unit_price == adjustment.unit_price,
        adjustment@.is_below_minimum == adjustment.is_below_minimum,
{
}

/// Every line that was placed stands on the worksheet, in its order, as it was
/// placed: a reduction where its amount is negative.
pub proof fn law_every_placed_line_is_on_the_worksheet(
    lines: Seq<AssignedLine>,
    securities: Seq<SecurityInput>,
)
    ensures
        adjustments_of(lines, securities).len() == lines.len(),
        forall|i: int|
            0 <= i < lines.len() ==> {
                let shown = #[trigger] adjustments_of(lines, securities)[i];
                &&& lines[i].account_id is Some ==> shown.line_id == "calc:"@ + lines[i].asset_id@
                    + ":"@ + lines[i].account_id->0@
                &&& lines[i].account_id is None ==> shown.line_id == "calc:"@ + lines[i].asset_id@
                    + ":"@ + "unassigned"@
                &&& lines[i].amount@ < 0 ==> shown.direction == WorksheetDirection::Reduce
                &&& lines[i].amount@ >= 0 ==> shown.direction == WorksheetDirection::Increase
                &&& shown.symbol == symbol_for(securities, lines[i].asset_id@)
                &&& shown.asset_id == lines[i].asset_id@
                &&& shown.account_id is Some <==> lines[i].account_id is Some
                &&& lines[i].account_id is Some ==> shown.account_id->0
                    == lines[i].account_id->0@
                &&& shown.amount == lines[i].amount
                &&& shown.quantity == lines[i].quantity
                &&& shown.unit_price == lines[i].unit_price
                &&& shown.is_below_minimum == lines[i].is_below_minimum
            },
{
}

/// Whether an account is not named again before a place.
pub open spec fn is_last_named(account_ids: Seq<String>, i: int, n: int) -> bool {
    forall|j: int| i < j < n ==> (#[trigger] account_ids[j])@ != account_ids[i]@
}

/// Whether an entry holds these holdings under an account.
pub open spec fn has_holdings(
    entries: Seq<(String, Vec<Holding>)>,
    account_id: Seq<char>,
    holdings: Vec<Holding>,
) -> bool {
    exists|e: int|
        0 <= e < entries.len() && (#[trigger] entries[e]).0@ == account_id && entries[e].1
            == holdings
}

/// Every account that was asked about has an entry in what is gathered, with the
/// last answer about it.
pub proof fn law_every_account_is_gathered(
    account_ids: Seq<String>,
    answers: Seq<Result<Vec<Holding>, CoreError>>,
    n: nat,
    i: int,
)
    requires
        n <= account_ids.len(),
        0 <= i < n,
        is_last_named(account_ids, i, n as int),
    ensures
        has_holdings(gathered(account_ids, answers, n), account_ids[i]@, answers[i]->Ok_0),
    decreases n,
{
    let last = n - 1;
    let before = gathered(account_ids, answers, last as nat);
    let key = account_ids[last];
    let value = answers[last]->Ok_0;
    let place = first_under(before, key@);
    lemma_with_entry(before, key, value, place);
    let now = with_entry(before, key, value);
    if i == last {
        assert(now[place] == (key, value));
    } else {
        assert(account_ids[last]@ != account_ids[i]@);
        law_every_account_is_gathered(account_ids, answers, last as nat, i);
        let e = choose|e: int|
            0 <= e < before.len() && (#[trigger] before[e]).0@ == account_ids[i]@ && before[e].1
                == answers[i]->Ok_0;
        assert(e != place);
        assert(now[e] == before[e]);
    }
}

/// Whether no account has two entries.
pub open spec fn are_distinct(entries: Seq<(String, Vec<Holding>)>) -> bool {
    forall|d: int, e: int|
        0 <= d < e < entries.len() ==> (#[trigger] entries[d]).0@ != (#[trigger] entries[e]).0@
}

/// What is gathered has no two entries for an account, and none for an account
/// that was not asked about.
pub proof fn law_only_accounts_asked_about_are_gathered(
    account_ids: Seq<String>,
    answers: Seq<Result<Vec<Holding>, CoreError>>,
    n: nat,
)
    requires
        n <= account_ids.len(),
    ensures
        are_distinct(gathered(account_ids, answers, n)),
        forall|e: int|
            0 <= e < gathered(account_ids, answers, n).len() ==> names_account(
                account_ids,
                (#[trigger] gathered(account_ids, answers, n)[e]).0@,
            ),
    decreases n,
{
    if n > 0 {
        let last = n - 1;
        let before = gathered(account_ids, answers, last as nat);
        let key = account_ids[last];
        let value = answers[last]->Ok_0;
        law_only_accounts_asked_about_are_gathered(account_ids, answers, last as nat);
        let place = first_under(before, key@);
        lemma_with_entry(before, key, value, place);
        lemma_distinct_with_entry(before, key, value, place);
        let now = with_entry(before, key, value);
        assert(names_account(account_ids, key@));
        assert forall|e: int| 0 <= e < now.len() implies names_account(
            account_ids,
            (#[trigger] now[e]).0@,
        ) by {
            if e != place {
                assert(now[e] == before[e]);
            } else {
                assert(now[e] == (key, value));
            }
        }
        assert(gathered(account_ids, answers, n) == now);
    }
}

proof fn lemma_distinct_with_entry(
    before: Seq<(String, Vec<Holding>)>,
    key: String,
    value: Vec<Holding>,
    place: int,
)
    requires
        are_distinct(before),
        0 <= place <= before.len(),
        forall|k: int| 0 <= k < place ==> (#[trigger] before[k]).0@ != key@,
        place < before.len() ==> before[place].0@ == key@,
    ensures
        are_distinct(with_entry(before, key, value)),
{
    lemma_with_entry(before, key, value, place);
    let now = with_entry(before, key, value);
    assert(now[place] == (key, value));
    assert forall|d: int, e: int| 0 <= d < e < now.len() implies (#[trigger] now[d]).0@ != (
    #[trigger] now[e]).0@ by {
        if d == place {
            assert(now[e] == before[e]);
            assert(before[d].0@ != before[e].0@);
        } else if e == place {
            assert(now[d] == before[d]);
        } else {
            assert(now[d] == before[d]);
            assert(now[e] == before[e]);
        }
    }
}

/// The first place of a key among entries, or the place behind them.
proof fn first_under(entries: Seq<(String, Vec<Holding>)>, key: Seq<char>) -> (place: int)
    ensures
        0 <= place <= entries.len(),
        forall|k: int| 0 <= k < place ==> (#[trigger] entries[k]).0@ != key,
        place < entries.len() ==> entries[place].0@ == key,
    decreases entries.len(),
{
    if entries.len() == 0 {
        0
    } else {
        let fewer = entries.drop_last();
        let place = first_under(fewer, key);
        assert forall|k: int| 0 <= k < place implies (#[trigger] entries[k]).0@ != key by {
            assert(fewer[k] == entries[k]);
        }
        if place < fewer.len() {
            assert(fewer[place] == entries[place]);
            place
        } else if entries[place].0@ == key {
            place
        } else {
            place + 1
        }
    }
}

/// Whether the lines of a worksheet are those that were placed, one for each, in
/// their order.
pub open spec fn are_placed_lines(
    adjustments: Seq<CalculatedAdjustment>,
    assigned: Seq<AssignedLine>,
) -> bool {
    &&& adjustments.len() == assigned.len()
    &&& forall|i: int|
        0 <= i < assigned.len() ==> (#[trigger] adjustments[i]).asset_id@ == assigned[i].asset_id@
            && adjustments[i].amount == assigned[i].amount && adjustments[i].quantity
            == assigned[i].quantity && adjustments[i].unit_price == assigned[i].unit_price
            && adjustments[i].is_below_minimum == assigned[i].is_below_minimum && (
        adjustments[i].account_id is Some <==> assigned[i].account_id is Some) && (
        assigned[i].account_id is Some ==> adjustments[i].account_id->0@
            == assigned[i].account_id->0@) && (adjustments[i].direction
            == WorksheetDirection::Reduce <==> assigned[i].amount@ < 0)
}

/// A worksheet is in the mode and under the rule that were asked for, has every
/// line that was placed, every amount that was not and the factors that were
/// applied, and says what cash is left and lacking after the lines that were
/// placed.
pub proof fn law_worksheet_says_what_was_placed<W: WorksheetRules>(
    rules: W,
    input: GenerateCalculatedAdjustmentsInput,
    settled: Settled,
    records: WorksheetRecords,
    securities: Vec<SecurityInput>,
    external: Decimal,
    drafts: SequenceDrafts,
    limits: LimitsInput,
    adjustments: LimitedAdjustmentsView,
    outcome: Option<Result<CalculatedAdjustments, CoreError>>,
) -> (assigned: Vec<AssignedLine>)
    requires
        is_outcome_for_limits(
            rules,
            input,
            settled,
            records,
            securities,
            external,
            drafts,
            limits,
            adjustments,
            outcome,
        ),
    ensures
        outcome is Some && outcome->0 is Ok,
        ({
            let worksheet = outcome->0->Ok_0;
            &&& worksheet.mode == input.mode
            &&& worksheet.rule == input.rule
            &&& worksheet.unresolved == drafts.unresolved
            &&& worksheet.scaling == adjustments.scaling
            &&& are_placed_lines(worksheet.adjustments@, assigned@)
            &&& call_ensures(
                W::remaining_cash,
                (&rules, &assigned, settled.tracked_cash, external),
                worksheet.remaining_cash,
            )
        }),
{
    let (adjusted, accounts, assigned, cash_by_account) = choose|
        adjusted: LimitedAdjustments,
        accounts: Vec<(String, Vec<String>)>,
        assigned: Vec<AssignedLine>,
        cash_by_account: Vec<(String, Decimal)>,
    |
        {
            &&& adjusted@ == adjustments
            &&& #[trigger] is_cash_by_account(
                rules,
                records.holdings_by_account@,
                cash_by_account@,
            )
            &&& are_account_entries(
                accounts@,
                securities@,
                texts(input.account_ids@),
                records.constraints@,
            )
            &&& #[trigger] call_ensures(
                W::assign_accounts,
                (
                    &rules,
                    &adjusted,
                    &securities,
                    &accounts,
                    settled.target.whole_shares_only,
                    limits.min_line_amount,
                ),
                assigned,
            )
            &&& outcome matches Some(Ok(worksheet)) && {
                &&& worksheet.mode == input.mode
                &&& worksheet.rule == input.rule
                &&& adjustment_views(worksheet.adjustments@) == adjustments_of(
                    assigned@,
                    securities@,
                )
                &&& worksheet.unresolved == drafts.unresolved
                &&& worksheet.scaling == adjustments.scaling
                &&& call_ensures(
                    W::account_funding_shortfalls,
                    (
                        &rules,
                        &assigned,
                        &cash_by_account,
                        &input.cash.external_contribution,
                    ),
                    worksheet.funding_shortfalls,
                )
                &&& call_ensures(
                    W::remaining_cash,
                    (&rules, &assigned, settled.tracked_cash, external),
                    worksheet.remaining_cash,
                )
            }
        };
    let worksheet = outcome->0->Ok_0;
    let shown = adjustments_of(assigned@, securities@);
    assert(adjustment_views(worksheet.adjustments@).len() == worksheet.adjustments@.len());
    assert forall|i: int| 0 <= i < assigned@.len() implies (
    #[trigger] worksheet.adjustments@[i])@ == shown[i] by {
        assert(adjustment_views(worksheet.adjustments@)[i] == worksheet.adjustments@[i]@);
    }
    law_every_placed_line_is_on_the_worksheet(assigned@, securities@);
    assert forall|i: int| 0 <= i < assigned@.len() implies (
    #[trigger] worksheet.adjustments@[i]).asset_id@ == assigned@[i].asset_id@ && (
    worksheet.adjustments@[i].account_id is Some <==> assigned@[i].account_id is Some) && (
    assigned@[i].account_id is Some ==> worksheet.adjustments@[i].account_id->0@
        == assigned@[i].account_id->0@) && (worksheet.adjustments@[i].direction
        == WorksheetDirection::Reduce <==> assigned@[i].amount@ < 0) by {
        law_adjustment_is_seen_whole(worksheet.adjustments@[i]);
        assert(worksheet.adjustments@[i]@ == shown[i]);
    }
    assigned
}

/// A worksheet comes only of a request whose cash is not negative and for
/// accounts in scope, and of a target that is there and, for a rebalancing, lets
/// something be reduced.
pub proof fn law_worksheet_comes_of_an_acceptable_request<T, D, A, H, S, Q, F, W>(
    service: AllocationWorksheetService<T, D, A, H, S, Q, F>,
    rules: W,
    input: GenerateCalculatedAdjustmentsInput,
    outcome: Option<Result<CalculatedAdjustments, CoreError>>,
) where
    T: AllocationTargetServiceTrait,
    D: DriftServiceTrait,
    A: AllocationServiceTrait,
    H: HoldingsServiceTrait,
    S: AssetServiceTrait,
    Q: QuoteServiceTrait,
    F: FxServiceTrait,
    W: WorksheetRules,

    requires
        service.is_outcome(rules, input, outcome),
        outcome is Some && outcome->0 is Ok,
    ensures
        input.cash.tracked_cash_to_use@ >= 0,
        forall|i: int|
            0 <= i < input.cash.external_contribution@.len() ==> (
            #[trigger] input.cash.external_contribution@[i]).1@ >= 0 && names_account(
                input.account_ids@,
                input.cash.external_contribution@[i].0@,
            ),
        exists|target: AllocationTarget|
            #[trigger] call_ensures(
                T::get_target,
                (&service.targets(), &input.target_id),
                Ok::<Option<AllocationTarget>, CoreError>(Some(target)),
            ) && (input.mode == WorksheetMode::DeployCash || target.allow_sells),
{
    law_cash_is_acceptable(input.cash, input.account_ids@);
    assert(is_cash_acceptable(input.cash, texts(input.account_ids@)));
    let answer = choose|answer: Result<Option<AllocationTarget>, CoreError>|
        {
            &&& #[trigger] call_ensures(
                T::get_target,
                (&service.targets(), &input.target_id),
                answer,
            )
            &&& match answer {
                Err(error) => is_refused(outcome, error@),
                Ok(target) => match target_objection(input.target_id@, input.mode, target) {
                    Some(error) => is_refused(outcome, error),
                    None => service.is_outcome_for_target(rules, input, target->0, outcome),
                },
            }
        };
    let target = answer->Ok_0->0;
    assert(answer == Ok::<Option<AllocationTarget>, CoreError>(Some(target)));
    assert(call_ensures(
        T::get_target,
        (&service.targets(), &input.target_id),
        Ok::<Option<AllocationTarget>, CoreError>(Some(target)),
    ));
}

/// Every security has one entry of accounts, those open to the last security
/// with its identifier, and there is no other entry.
pub proof fn law_every_security_has_its_accounts(
    entries: Seq<(String, Vec<String>)>,
    securities: Seq<SecurityInput>,
    account_ids: Seq<Seq<char>>,
    constraints: Seq<AllocationTargetConstraint>,
)
    requires
        are_account_entries(entries, securities, account_ids, constraints),
    ensures
        forall|i: int, j: int|
            0 <= i < j < entries.len() ==> (#[trigger] entries[i]).0@ != (#[trigger] entries[j]).0@,
        forall|s: int| #![trigger securities[s]]
            0 <= s < securities.len() ==> exists|k: int|
                0 <= k < entries.len() && (#[trigger] entries[k]).0@
                    == securities[s].asset_id@,
        forall|k: int|
            0 <= k < entries.len() ==> last_security(
                securities,
                (#[trigger] entries[k]).0@,
            ) is Some,
        forall|k: int|
            0 <= k < entries.len() ==> texts((#[trigger] entries[k]).1@) == accounts_open_to(
                last_security(securities, entries[k].0@)->0,
                account_ids,
                constraints,
            ),
{
    assert forall|s: int| #![trigger securities[s]] 0 <= s < securities.len() implies exists|k: int|
        0 <= k < entries.len() && (#[trigger] entries[k]).0@
            == securities[s].asset_id@ by {
        assert(has_account_entry(entries, securities[s].asset_id@));
    }
    assert forall|k: int| 0 <= k < entries.len() implies last_security(
        securities,
        (#[trigger] entries[k]).0@,
    ) is Some && texts(entries[k].1@) == accounts_open_to(
        last_security(securities, entries[k].0@)->0,
        account_ids,
        constraints,
    ) by {
        assert(is_account_entry(entries[k], securities, account_ids, constraints));
    }
}

/// The cash of every account is told, under the account and in its place, as the
/// rules find it among the account's own holdings.
pub proof fn law_cash_is_told_of_every_account<W: WorksheetRules>(
    rules: W,
    holdings_by_account: Seq<(String, Vec<Holding>)>,
    cash_by_account: Seq<(String, Decimal)>,
)
    requires
        is_cash_by_account(rules, holdings_by_account, cash_by_account),
    ensures
        cash_by_account.len() == holdings_by_account.len(),
        forall|i: int|
            0 <= i < holdings_by_account.len() ==> (#[trigger] cash_by_account[i]).0@
                == holdings_by_account[i].0@,
        forall|i: int|
            0 <= i < holdings_by_account.len() ==> call_ensures(
                W::tracked_cash,
                (&rules, &holdings_by_account[i].1),
                (#[trigger] cash_by_account[i]).1,
            ),
{
}

/// Every security that an intent is for has one combined amount: the total of
/// what all the intents ask of it.
pub proof fn law_every_intent_is_combined(
    entries: Seq<(String, Decimal)>,
    intents: Seq<IntentView>,
)
    requires
        is_combination(entries, intents),
    ensures
        forall|i: int, j: int|
            0 <= i < j < entries.len() ==> (#[trigger] entries[i]).0@ != (#[trigger] entries[j]).0@,
        forall|j: int|
            0 <= j < entries.len() ==> total(amounts_for(intents, (#[trigger] entries[j]).0@))
                == Some(entries[j].1),
        forall|j: int|
            0 <= j < entries.len() ==> amounts_for(intents, (#[trigger] entries[j]).0@).len() > 0,
{
    assert forall|j: int| 0 <= j < entries.len() implies total(
        amounts_for(intents, (#[trigger] entries[j]).0@),
    ) == Some(entries[j].1) && amounts_for(intents, entries[j].0@).len() > 0 by {
        assert(is_combined_entry(entries[j], intents));
    }
}

/// Every intent's security has a combined amount.
pub proof fn law_no_intent_is_left_out(
    entries: Seq<(String, Decimal)>,
    intents: Seq<IntentView>,
    i: int,
)
    requires
        is_combination(entries, intents),
        0 <= i < intents.len(),
    ensures
        exists|j: int|
            0 <= j < entries.len() && (#[trigger] entries[j]).0@ == intents[i].asset_id,
{
    assert(has_entry(entries, intents[i].asset_id));
}

/// The records from which securities are built are those that were known, with
/// the assets and the quotes that were had for every security in the
/// contributions, and the rates that were had; the securities are those of the
/// records.
pub proof fn law_records_are_completed<T, D, A, H, S, Q, F>(
    service: AllocationWorksheetService<T, D, A, H, S, Q, F>,
    known: WorksheetRecords,
    records: WorksheetRecords,
    securities: Option<Vec<SecurityInput>>,
) -> (asset_ids: Vec<String>) where S: AssetServiceTrait, Q: QuoteServiceTrait, F: FxServiceTrait
    requires
        service.is_built(
            known,
            Ok::<(WorksheetRecords, Option<Vec<SecurityInput>>), CoreError>((records, securities)),
        ),
    ensures
        forall|id: Seq<char>| #[trigger]
            texts(asset_ids@).contains(id)
                <==> contributed_assets(known.contributions@).contains(id),
        call_ensures(
            S::get_assets_by_asset_ids,
            (&service.assets(), &asset_ids),
            Ok::<Vec<Asset>, CoreError>(records.assets),
        ),
        call_ensures(
            Q::get_latest_quotes_snapshot,
            (&service.quotes(), &asset_ids),
            Ok::<Vec<(String, LatestQuoteSnapshot)>, CoreError>(records.snapshots),
        ),
        call_ensures(
            F::get_latest_exchange_rates,
            (&service.rates(),),
            Ok::<Vec<ExchangeRate>, CoreError>(records.fx_rates),
        ),
        records.contributions == known.contributions,
        records.minor_units == known.minor_units,
        records.holdings_by_account == known.holdings_by_account,
        records.constraints == known.constraints,
        records.eligible_asset_ids == known.eligible_asset_ids,
        records.base_currency == known.base_currency,
        securities is Some ==> securities_of(records) == Some(security_views(securities->0@)),
        securities is None ==> securities_of(records) is None,
{
    let built = Ok::<(WorksheetRecords, Option<Vec<SecurityInput>>), CoreError>(
        (records, securities),
    );
    let (asset_ids, assets) = choose|asset_ids: Vec<String>, assets: Result<Vec<Asset>, CoreError>|
        {
            &&& texts(asset_ids@) == listing(contributed_assets(known.contributions@).to_set())
            &&& #[trigger] call_ensures(
                S::get_assets_by_asset_ids,
                (&service.assets(), &asset_ids),
                assets,
            )
            &&& match assets {
                Err(error) => built == Err::<
                    (WorksheetRecords, Option<Vec<SecurityInput>>),
                    CoreError,
                >(error),
                Ok(assets) => service.is_built_with_assets(known, asset_ids, assets, built),
            }
        };
    let named = contributed_assets(known.contributions@);
    lemma_listing_exists(named);
    assert forall|id: Seq<char>| #[trigger]
        texts(asset_ids@).contains(id) <==> named.contains(id) by {
        assert(texts(asset_ids@).to_set().contains(id) <==> named.to_set().contains(id));
    }
    asset_ids
}

/// The holdings of every account in scope are asked for, in the base currency,
/// and a worksheet comes only of answers about all of them.
pub proof fn law_holdings_of_every_account_are_asked_for<T, D, A, H, S, Q, F, W>(
    service: AllocationWorksheetService<T, D, A, H, S, Q, F>,
    rules: W,
    input: GenerateCalculatedAdjustmentsInput,
    settled: Settled,
    outcome: Option<Result<CalculatedAdjustments, CoreError>>,
) -> (answers: Seq<Result<Vec<Holding>, CoreError>>) where
    T: AllocationTargetServiceTrait,
    D: DriftServiceTrait,
    A: AllocationServiceTrait,
    H: HoldingsServiceTrait,
    S: AssetServiceTrait,
    Q: QuoteServiceTrait,
    F: FxServiceTrait,
    W: WorksheetRules,

    requires
        service.is_outcome_for_contributions(rules, input, settled, outcome),
        outcome is Some && outcome->0 is Ok,
    ensures
        answers.len() == input.account_ids@.len(),
        forall|i: int|
            0 <= i < answers.len() ==> (#[trigger] answers[i]) is Ok && call_ensures(
                H::get_holdings,
                (&service.holdings(), &input.account_ids@[i], &input.base_currency),
                answers[i],
            ),
        service.is_outcome_for_holdings(
            rules,
            input,
            settled,
            gathered(input.account_ids@, answers, answers.len()),
            outcome,
        ),
{
    let answers = choose|answers: Seq<Result<Vec<Holding>, CoreError>>|
        {
            &&& #[trigger] service.are_holdings_answers(input, answers)
            &&& forall|i: int| 0 <= i < answers.len() - 1 ==> (#[trigger] answers[i]) is Ok
            &&& if answers.len() > 0 && answers.last() is Err {
                is_refused(outcome, answers.last()->Err_0@)
            } else {
                answers.len() == input.account_ids@.len() && service.is_outcome_for_holdings(
                    rules,
                    input,
                    settled,
                    gathered(input.account_ids@, answers, answers.len()),
                    outcome,
                )
            }
        };
    assert forall|i: int| 0 <= i < answers.len() implies (#[trigger] answers[i]) is Ok by {
        if i == answers.len() - 1 {
            assert(answers.last() == answers[i]);
        }
    }
    answers
}

/// The securities are built from the contributions, the holdings and the
/// constraints that were had, in the base currency and with the list of
/// securities of the request.
pub proof fn law_worksheet_is_built_from_what_was_had<T, D, A, H, S, Q, F, W>(
    service: AllocationWorksheetService<T, D, A, H, S, Q, F>,
    rules: W,
    input: GenerateCalculatedAdjustmentsInput,
    settled: Settled,
    holdings: Seq<(String, Vec<Holding>)>,
    outcome: Option<Result<CalculatedAdjustments, CoreError>>,
) -> (built: (WorksheetRecords, Vec<SecurityInput>)) where
    T: AllocationTargetServiceTrait,
    D: DriftServiceTrait,
    A: AllocationServiceTrait,
    H: HoldingsServiceTrait,
    S: AssetServiceTrait,
    Q: QuoteServiceTrait,
    F: FxServiceTrait,
    W: WorksheetRules,

    requires
        service.is_outcome_for_holdings(rules, input, settled, holdings, outcome),
        outcome is Some && outcome->0 is Ok,
    ensures
        built.0.contributions == settled.contributions,
        built.0.holdings_by_account@ == holdings,
        call_ensures(
            T::list_target_constraints,
            (&service.targets(), &input.target_id),
            Ok::<Vec<AllocationTargetConstraint>, CoreError>(built.0.constraints),
        ),
        built.0.eligible_asset_ids is Some <==> input.eligible_asset_ids is Some,
        input.eligible_asset_ids is Some ==> texts(built.0.eligible_asset_ids->0@) == texts(
            input.eligible_asset_ids->0@,
        ),
        built.0.base_currency == input.base_currency,
        call_ensures(W::minor_units, (&rules,), built.0.minor_units),
        securities_of(built.0) == Some(security_views(built.1@)),
        is_outcome_for_securities(rules, input, settled, built.0, built.1, outcome),
{
    let answer = choose|answer: Result<Vec<AllocationTargetConstraint>, CoreError>|
        {
            &&& #[trigger] call_ensures(
                T::list_target_constraints,
                (&service.targets(), &input.target_id),
                answer,
            )
            &&& match answer {
                Err(error) => is_refused(outcome, error@),
                Ok(constraints) => service.is_outcome_for_constraints(
                    rules,
                    input,
                    settled,
                    holdings,
                    constraints,
                    outcome,
                ),
            }
        };
    let constraints = answer->Ok_0;
    assert(answer == Ok::<Vec<AllocationTargetConstraint>, CoreError>(constraints));
    let (known, built) = choose|
        known: WorksheetRecords,
        built: Result<(WorksheetRecords, Option<Vec<SecurityInput>>), CoreError>,
    |
        {
            &&& call_ensures(W::minor_units, (&rules,), known.minor_units)
            &&& known.contributions == settled.contributions
            &&& known.holdings_by_account@ == holdings
            &&& known.constraints == constraints
            &&& optional_texts(known.eligible_asset_ids) == optional_texts(
                input.eligible_asset_ids,
            )
            &&& known.base_currency == input.base_currency
            &&& #[trigger] service.is_built(known, built)
            &&& match built {
                Err(error) => is_refused(outcome, error@),
                Ok((records, None)) => outcome is None,
                Ok((records, Some(securities))) => is_outcome_for_securities(
                    rules,
                    input,
                    settled,
                    records,
                    securities,
                    outcome,
                ),
            }
        };
    let records = (built->Ok_0).0;
    let securities = (built->Ok_0).1->0;
    assert(built == Ok::<(WorksheetRecords, Option<Vec<SecurityInput>>), CoreError>(
        (records, Some(securities)),
    ));
    let asked = law_records_are_completed(service, known, records, Some(securities));
    (records, securities)
}

/// The weights are sized against what the accounts hold and the hypothetical
/// cash, and against the tracked cash too where the taxonomy has no category for
/// it.
pub proof fn law_worksheet_is_sized_on_its_basis<W: WorksheetRules>(
    rules: W,
    input: GenerateCalculatedAdjustmentsInput,
    settled: Settled,
    records: WorksheetRecords,
    securities: Vec<SecurityInput>,
    outcome: Option<Result<CalculatedAdjustments, CoreError>>,
) -> (sized: (Decimal, Decimal, bool))
    requires
        is_outcome_for_securities(rules, input, settled, records, securities, outcome),
        outcome is Some && outcome->0 is Ok,
    ensures
        total(amounts_in(input.cash.external_contribution@)) == Some(sized.0),
        call_ensures(
            W::has_deployable_cash_categories,
            (&rules, &settled.target.taxonomy_id),
            sized.2,
        ),
        sized.2 ==> decimal_sum(settled.drift.total_value, sized.0) == Some(sized.1),
        !sized.2 ==> decimal_sum(settled.drift.total_value, settled.tracked_cash) is Some
            && decimal_sum(
            decimal_sum(settled.drift.total_value, settled.tracked_cash)->0,
            sized.0,
        ) == Some(sized.1),
        is_outcome_for_basis(
            rules,
            input,
            settled,
            records,
            securities,
            sized.0,
            sized.1,
            outcome,
        ),
{
    let external = total(amounts_in(input.cash.external_contribution@))->0;
    let has_cash_sleeve = choose|has_cash_sleeve: bool|
        {
            &&& #[trigger] call_ensures(
                W::has_deployable_cash_categories,
                (&rules, &settled.target.taxonomy_id),
                has_cash_sleeve,
            )
            &&& match basis(
                settled.drift.total_value,
                settled.tracked_cash,
                external,
                has_cash_sleeve,
            ) {
                None => outcome is None,
                Some(planning_total) => is_outcome_for_basis(
                    rules,
                    input,
                    settled,
                    records,
                    securities,
                    external,
                    planning_total,
                    outcome,
                ),
            }
        };
    let planning_total = basis(
        settled.drift.total_value,
        settled.tracked_cash,
        external,
        has_cash_sleeve,
    )->0;
    (external, planning_total, has_cash_sleeve)
}

/// The drafts are made in the mode of the request, for every category of the
/// drift report, over the securities, with the selected cash; and they are
/// limited by the target's settings and by that cash.
pub proof fn law_worksheet_is_limited_by_the_target<W: WorksheetRules>(
    rules: W,
    input: GenerateCalculatedAdjustmentsInput,
    settled: Settled,
    records: WorksheetRecords,
    securities: Vec<SecurityInput>,
    external: Decimal,
    planning_total: Decimal,
    outcome: Option<Result<CalculatedAdjustments, CoreError>>,
) -> (made: (Vec<CategoryTarget>, SequenceDrafts, LimitsInput, Option<String>))
    requires
        is_outcome_for_basis(
            rules,
            input,
            settled,
            records,
            securities,
            external,
            planning_total,
            outcome,
        ),
        outcome is Some && outcome->0 is Ok,
    ensures
        made.0@.len() == settled.drift.rows@.len(),
        forall|i: int|
            0 <= i < made.0@.len() ==> (#[trigger] made.0@[i]).category_id@
                == settled.drift.rows@[i].category_id@ && made.0@[i].category_name@
                == settled.drift.rows@[i].category_name@ && made.0@[i].target_bps
                == settled.drift.rows@[i].target_bps && made.0@[i].current_value
                == settled.drift.rows@[i].current_value,
        optional_text(made.3) == first_cash_category(settled.drift.rows@),
        call_ensures(
            W::run_sequence,
            (
                &rules,
                input.mode,
                &made.0,
                &securities,
                planning_total,
                settled.tracked_cash,
                &input.cash.external_contribution,
                &made.3,
            ),
            made.1,
        ),
        made.2.tracked_cash == settled.tracked_cash,
        made.2.external_cash == external,
        made.2.whole_shares_only == settled.target.whole_shares_only,
        made.2.min_line_amount == smallest_line(decimal_read(settled.target.min_trade_amount@)),
        made.2.turnover_cap is Some <==> settled.target.max_turnover_bps is Some,
        made.2.turnover_cap is Some ==> made.2.turnover_cap == turnover_cap_of(
            planning_total,
            settled.target.max_turnover_bps->0 as int,
        ),
        limited(made.1.increases@, made.1.reductions@, securities@, made.2) is Some,
        is_outcome_for_limits(
            rules,
            input,
            settled,
            records,
            securities,
            external,
            made.1,
            made.2,
            limited(made.1.increases@, made.1.reductions@, securities@, made.2)->0,
            outcome,
        ),
{
    let (categories, cash_category_id, drafts) = choose|
        categories: Vec<CategoryTarget>,
        cash_category_id: Option<String>,
        drafts: SequenceDrafts,
    |
        {
            &&& are_categories_of(categories@, settled.drift.rows@)
            &&& optional_text(cash_category_id) == first_cash_category(settled.drift.rows@)
            &&& #[trigger] call_ensures(
                W::run_sequence,
                (
                    &rules,
                    input.mode,
                    &categories,
                    &securities,
                    planning_total,
                    settled.tracked_cash,
                    &input.cash.external_contribution,
                    &cash_category_id,
                ),
                drafts,
            )
            &&& match limits_of(settled.target, planning_total, settled.tracked_cash, external) {
                None => outcome is None,
                Some(limits) => match limited(
                    drafts.increases@,
                    drafts.reductions@,
                    securities@,
                    limits,
                ) {
                    None => outcome is None,
                    Some(adjustments) => is_outcome_for_limits(
                        rules,
                        input,
                        settled,
                        records,
                        securities,
                        external,
                        drafts,
                        limits,
                        adjustments,
                        outcome,
                    ),
                },
            }
        };
    let limits = limits_of(settled.target, planning_total, settled.tracked_cash, external)->0;
    assert forall|i: int| 0 <= i < categories@.len() implies is_category_of(
        #[trigger] categories@[i],
        settled.drift.rows@[i],
    ) by {}
    (categories, drafts, limits, cash_category_id)
}

/// The worksheet uses the tracked cash that was selected where there is as much,
/// and all there is where the selection is over it by no more than the
/// currency's minor unit; nothing else of the request changes.
pub proof fn law_worksheet_uses_the_selected_cash<T, D, A, H, S, Q, F, W>(
    service: AllocationWorksheetService<T, D, A, H, S, Q, F>,
    rules: W,
    input: GenerateCalculatedAdjustmentsInput,
    target: AllocationTarget,
    drift: DriftReport,
    outcome: Option<Result<CalculatedAdjustments, CoreError>>,
) -> (used: (Decimal, GenerateCalculatedAdjustmentsInput)) where
    T: AllocationTargetServiceTrait,
    D: DriftServiceTrait,
    A: AllocationServiceTrait,
    H: HoldingsServiceTrait,
    S: AssetServiceTrait,
    Q: QuoteServiceTrait,
    F: FxServiceTrait,
    W: WorksheetRules,

    requires
        service.is_outcome_for_drift(rules, input, target, drift, outcome),
        outcome is Some && outcome->0 is Ok,
    ensures
        input.cash.tracked_cash_to_use@ <= drift.deployable_cash@ ==> used.0
            == input.cash.tracked_cash_to_use,
        input.cash.tracked_cash_to_use@ > drift.deployable_cash@ ==> used.0
            == drift.deployable_cash && exists|minor_unit: Decimal|
            #[trigger] call_ensures(
                W::currency_minor_unit,
                (&rules, &input.base_currency),
                minor_unit,
            ) && decimal_difference(
                input.cash.tracked_cash_to_use,
                drift.deployable_cash,
            ) is Some && decimal_difference(
                input.cash.tracked_cash_to_use,
                drift.deployable_cash,
            )->0@ <= minor_unit@,
        used.1.cash.tracked_cash_to_use == used.0,
        used.1.cash.external_contribution == input.cash.external_contribution,
        used.1.target_id == input.target_id,
        used.1.account_ids == input.account_ids,
        used.1.base_currency == input.base_currency,
        used.1.aggregated_account_id == input.aggregated_account_id,
        used.1.mode == input.mode,
        used.1.rule == input.rule,
        used.1.eligible_asset_ids == input.eligible_asset_ids,
        service.is_outcome_for_cash(rules, used.1, target, drift, used.0, outcome),
{
    let minor_unit = choose|minor_unit: Decimal|
        {
            &&& #[trigger] call_ensures(
                W::currency_minor_unit,
                (&rules, &input.base_currency),
                minor_unit,
            )
            &&& match usable_cash(
                input.cash.tracked_cash_to_use,
                drift.deployable_cash,
                minor_unit,
            ) {
                None => outcome is None,
                Some(Err(error)) => is_refused(outcome, error),
                Some(Ok(tracked_cash)) => service.is_outcome_for_cash(
                    rules,
                    with_tracked_cash(input, tracked_cash),
                    target,
                    drift,
                    tracked_cash,
                    outcome,
                ),
            }
        };
    assert(call_ensures(W::currency_minor_unit, (&rules, &input.base_currency), minor_unit));
    let usable = usable_cash(input.cash.tracked_cash_to_use, drift.deployable_cash, minor_unit);
    let tracked_cash = usable->0->Ok_0;
    (tracked_cash, with_tracked_cash(input, tracked_cash))
}

/// The contributions are asked for the accounts, the base currency and the
/// composite of the request and the taxonomy of the target, and what was settled
/// before stays as it was.
pub proof fn law_contributions_are_asked_for_the_request<T, D, A, H, S, Q, F, W>(
    service: AllocationWorksheetService<T, D, A, H, S, Q, F>,
    rules: W,
    input: GenerateCalculatedAdjustmentsInput,
    target: AllocationTarget,
    drift: DriftReport,
    tracked_cash: Decimal,
    outcome: Option<Result<CalculatedAdjustments, CoreError>>,
) -> (settled: Settled) where
    T: AllocationTargetServiceTrait,
    D: DriftServiceTrait,
    A: AllocationServiceTrait,
    H: HoldingsServiceTrait,
    S: AssetServiceTrait,
    Q: QuoteServiceTrait,
    F: FxServiceTrait,
    W: WorksheetRules,

    requires
        service.is_outcome_for_cash(rules, input, target, drift, tracked_cash, outcome),
        outcome is Some && outcome->0 is Ok,
    ensures
        settled.target == target,
        settled.drift == drift,
        settled.tracked_cash == tracked_cash,
        call_ensures(
            A::get_holding_contributions_for_taxonomy_for_accounts,
            (
                &service.allocations(),
                &input.account_ids,
                &input.base_currency,
                &target.taxonomy_id,
                &input.aggregated_account_id,
            ),
            Ok::<Vec<HoldingAllocationContribution>, CoreError>(settled.contributions),
        ),
        service.is_outcome_for_contributions(rules, input, settled, outcome),
{
    let answer = choose|answer: Result<Vec<HoldingAllocationContribution>, CoreError>|
        {
            &&& #[trigger] call_ensures(
                A::get_holding_contributions_for_taxonomy_for_accounts,
                (
                    &service.allocations(),
                    &input.account_ids,
                    &input.base_currency,
                    &target.taxonomy_id,
                    &input.aggregated_account_id,
                ),
                answer,
            )
            &&& match answer {
                Err(error) => is_refused(outcome, error@),
                Ok(contributions) => service.is_outcome_for_contributions(
                    rules,
                    input,
                    Settled { target, drift, tracked_cash, contributions },
                    outcome,
                ),
            }
        };
    let contributions = answer->Ok_0;
    assert(answer == Ok::<Vec<HoldingAllocationContribution>, CoreError>(contributions));
    Settled { target, drift, tracked_cash, contributions }
}

/// A request is refused for its cash with the reason: that an amount is negative,
/// or else the first account that is not in scope, by its identifier.
pub proof fn law_refused_cash_is_named(
    error: CoreErrorView,
    cash: WorksheetCash,
    account_ids: Seq<String>,
)
    requires
        is_cash_objection(error, cash, texts(account_ids)),
    ensures
        cash.tracked_cash_to_use@ < 0 || (exists|i: int|
            0 <= i < cash.external_contribution@.len() && (
            #[trigger] cash.external_contribution@[i]).1@ < 0) ==> error
            == CoreErrorView::InvalidInput("Worksheet cash values must be non-negative"@),
        cash.tracked_cash_to_use@ >= 0 && (forall|i: int|
            0 <= i < cash.external_contribution@.len() ==> (
            #[trigger] cash.external_contribution@[i]).1@ >= 0) ==> exists|i: int|
            0 <= i < cash.external_contribution@.len() && error == CoreErrorView::InvalidInput(
                "External contribution for account "@ + (
                #[trigger] cash.external_contribution@[i]).0@ + " is outside the resolved scope"@,
            ) && !texts(account_ids).contains(cash.external_contribution@[i].0@) && (forall|k: int|
                0 <= k < i ==> texts(account_ids).contains(
                    (#[trigger] cash.external_contribution@[k]).0@,
                )),
{
    if !has_negative_cash(cash) {
        let i = choose|i: int|
            {
                &&& 0 <= i < cash.external_contribution@.len()
                &&& is_out_of_scope(
                    #[trigger] cash.external_contribution@[i],
                    texts(account_ids),
                )
                &&& forall|k: int|
                    0 <= k < i ==> !is_out_of_scope(
                        #[trigger] cash.external_contribution@[k],
                        texts(account_ids),
                    )
                &&& error == CoreErrorView::InvalidInput(
                    scope_message(cash.external_contribution@[i].0@),
                )
            };
        assert(!texts(account_ids).contains(cash.external_contribution@[i].0@));
        assert forall|k: int| 0 <= k < i implies texts(account_ids).contains(
            (#[trigger] cash.external_contribution@[k]).0@,
        ) by {
            assert(!is_out_of_scope(cash.external_contribution@[k], texts(account_ids)));
        }
    }
}

/// A selection of more cash than there is, by more than the minor unit, is
/// refused with both amounts; a target that is missing or lets nothing be
/// reduced is refused with the reason.
pub proof fn law_refusals_name_what_is_wrong(
    selected: Decimal,
    deployable: Decimal,
    minor_unit: Decimal,
    target_id: Seq<char>,
    mode: WorksheetMode,
    target: Option<AllocationTarget>,
)
    ensures
        selected@ > deployable@ && decimal_difference(selected, deployable) is Some
            && decimal_difference(selected, deployable)->0@ > minor_unit@ ==> usable_cash(
            selected,
            deployable,
            minor_unit,
        ) == Some(
            Err::<Decimal, CoreErrorView>(
                CoreErrorView::InvalidInput(
                    "Tracked cash selected ("@ + decimal_text(selected)
                        + ") exceeds observed deployable cash ("@ + decimal_text(deployable)
                        + ")"@,
                ),
            ),
        ),
        target is None ==> target_objection(target_id, mode, target) == Some(
            CoreErrorView::NotFound("AllocationTarget "@ + target_id + " not found"@),
        ),
        target is Some && mode == WorksheetMode::Rebalance && !target->0.allow_sells
            ==> target_objection(target_id, mode, target) == Some(
            CoreErrorView::InvalidInput(
                "This target disables reductions; enable them before rebalancing"@,
            ),
        ),
        target is Some && (mode == WorksheetMode::DeployCash || target->0.allow_sells)
            ==> target_objection(target_id, mode, target) is None,
{
}

} // verus!
