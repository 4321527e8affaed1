//! Daily valuations of accounts: the queries for them, and what the rows say.

use crate::decimal::{decimal_read, read_decimal, Decimal};
use crate::text::{chain, join, joined, texts};
use crate::time::{current_time, day_read, read_day, read_rfc3339, rfc3339_read, Timestamp};
use vstd::prelude::*;

verus! {

/// What an account was worth on a day.
#[derive(Debug)]
pub struct DailyAccountValuation {
    pub id: String,
    pub account_id: String,
    /// In days since the start of 1970.
    pub valuation_date: i64,
    pub account_currency: String,
    pub base_currency: String,
    pub fx_rate_to_base: Decimal,
    pub cash_balance: Decimal,
    pub investment_market_value: Decimal,
    pub total_value: Decimal,
    pub cost_basis: Decimal,
    pub net_contribution: Decimal,
    pub calculated_at: Timestamp,
}

pub ghost struct DailyAccountValuationView {
    pub id: Seq<char>,
    pub account_id: Seq<char>,
    pub valuation_date: i64,
    pub account_currency: Seq<char>,
    pub base_currency: Seq<char>,
    pub fx_rate_to_base: Decimal,
    pub cash_balance: Decimal,
    pub investment_market_value: Decimal,
    pub total_value: Decimal,
    pub cost_basis: Decimal,
    pub net_contribution: Decimal,
    pub calculated_at: Timestamp,
}

impl View for DailyAccountValuation {
    type V = DailyAccountValuationView;

    open spec fn view(&self) -> DailyAccountValuationView {
        DailyAccountValuationView {
            id: self.id@,
            account_id: self.account_id@,
            valuation_date: self.valuation_date,
            account_currency: self.account_currency@,
            base_currency: self.base_currency@,
            fx_rate_to_base: self.fx_rate_to_base,
            cash_balance: self.cash_balance,
            investment_market_value: self.investment_market_value,
            total_value: self.total_value,
            cost_basis: self.cost_basis,
            net_contribution: self.net_contribution,
            calculated_at: self.calculated_at,
        }
    }
}

impl DailyAccountValuation {
    /// The same valuation once more.
    pub fn copy(&self) -> (r: DailyAccountValuation)
        ensures
            r@ == self@,
            r.id@ == self.id@,
            r.account_id@ == self.account_id@,
            r.valuation_date == self.valuation_date,
            r.account_currency@ == self.account_currency@,
            r.base_currency@ == self.base_currency@,
            r.fx_rate_to_base == self.fx_rate_to_base,
            r.cash_balance == self.cash_balance,
            r.investment_market_value == self.investment_market_value,
            r.total_value == self.total_value,
            r.cost_basis == self.cost_basis,
            r.net_contribution == self.net_contribution,
            r.calculated_at == self.calculated_at,
    {
        DailyAccountValuation {
            id: self.id.clone(),
            account_id: self.account_id.clone(),
            valuation_date: self.valuation_date,
            account_currency: self.account_currency.clone(),
            base_currency: self.base_currency.clone(),
            fx_rate_to_base: self.fx_rate_to_base,
            cash_balance: self.cash_balance,
            investment_market_value: self.investment_market_value,
            total_value: self.total_value,
            cost_basis: self.cost_basis,
            net_contribution: self.net_contribution,
            calculated_at: self.calculated_at,
        }
    }
}

/// The views of a list of valuations.
pub open spec fn valuation_views(valuations: Seq<DailyAccountValuation>) -> Seq<
    DailyAccountValuationView,
> {
    valuations.map_values(|valuation: DailyAccountValuation| valuation@)
}

// ── Queries ──────────────────────────────────────────────────────────────────

/// A place for each of some values in a query.
pub open spec fn places(count: nat, separator: Seq<char>) -> Seq<char> {
    joined(Seq::new(count, |i: int| "?"@), separator)
}

/// A place for each of some values in a query.
pub fn placeholders(count: usize, separator: &str) -> (text: String)
    ensures
        text@ == places(count as nat, separator@),
{
    let mut marks: Vec<String> = Vec::new();
    for i in 0..count
        invariant
            marks@.len() == i,
            forall|k: int| 0 <= k < i ==> (#[trigger] marks@[k])@ == "?"@,
    {
        marks.push("?".to_owned());
    }
    assert(texts(marks@) =~= Seq::new(count as nat, |i: int| "?"@));
    join(&marks, separator)
}

/// The query for the latest valuations, up to the accounts.
pub const LATEST_START: &'static str = "WITH RankedValuations AS ( SELECT id, account_id, valuation_date, account_currency, base_currency, fx_rate_to_base, cash_balance, investment_market_value, total_value, cost_basis, net_contribution, calculated_at, ROW_NUMBER() OVER (PARTITION BY account_id ORDER BY valuation_date DESC) as rn FROM daily_account_valuation WHERE account_id IN (";

/// The query for the latest valuations, behind the accounts.
pub const LATEST_END: &'static str = ") ) SELECT id, account_id, valuation_date, account_currency, base_currency, fx_rate_to_base, cash_balance, investment_market_value, total_value, cost_basis, net_contribution, calculated_at FROM RankedValuations WHERE rn = 1";

/// The query for the latest valuation of each of some accounts.
pub fn latest_valuations_query(accounts: usize) -> (sql: String)
    ensures
        sql@ == LATEST_START@ + places(accounts as nat, ", "@) + LATEST_END@,
{
    chain(chain(LATEST_START, placeholders(accounts, ", ").as_str()).as_str(), LATEST_END)
}

/// The query for the first negative valuations, up to the accounts.
pub const NEGATIVE_START: &'static str = "SELECT account_id, MIN(valuation_date) AS first_negative_date, cash_balance, total_value, account_currency FROM daily_account_valuation WHERE CAST(total_value AS REAL) < 0 AND account_id IN (";

/// The query for the first negative valuations, behind the accounts.
pub const NEGATIVE_END: &'static str = ") GROUP BY account_id";

/// The query for the first negative valuation of each of some accounts.
pub fn negative_balance_query(accounts: usize) -> (sql: String)
    ensures
        sql@ == NEGATIVE_START@ + places(accounts as nat, ", "@) + NEGATIVE_END@,
{
    chain(chain(NEGATIVE_START, placeholders(accounts, ", ").as_str()).as_str(), NEGATIVE_END)
}

/// The query for the valuations of accounts taken together, up to the accounts.
pub const TOGETHER_START: &'static str = "SELECT valuation_date,
                    MAX(base_currency) AS base_currency,
                    SUM(CAST(cash_balance AS REAL)) AS cash_balance,
                    SUM(CAST(investment_market_value AS REAL)) AS investment_market_value,
                    SUM(CAST(total_value AS REAL)) AS total_value,
                    SUM(CAST(cost_basis AS REAL)) AS cost_basis,
                    SUM(CAST(net_contribution AS REAL)) AS net_contribution,
                    MAX(calculated_at) AS calculated_at
             FROM daily_account_valuation
             WHERE account_id IN (";

/// The query for the valuations of accounts taken together: one row for each
/// day, from a first day on and up to a last one where they are given.
pub open spec fn together_sql(accounts: nat, has_start: bool, has_end: bool) -> Seq<char> {
    let start = TOGETHER_START@ + places(accounts, ","@) + ")"@;
    let from = if has_start {
        " AND valuation_date >= ?"@
    } else {
        Seq::empty()
    };
    let to = if has_end {
        " AND valuation_date <= ?"@
    } else {
        Seq::empty()
    };
    start + from + to + " GROUP BY valuation_date ORDER BY valuation_date ASC"@
}

/// The query for the valuations of accounts taken together.
pub fn together_query(accounts: usize, has_start: bool, has_end: bool) -> (sql: String)
    ensures
        sql@ == together_sql(accounts as nat, has_start, has_end),
{
    let list = placeholders(accounts, ",");
    let mut sql = chain(chain(TOGETHER_START, list.as_str()).as_str(), ")");
    let ghost start = TOGETHER_START@ + places(accounts as nat, ","@) + ")"@;
    if has_start {
        sql = chain(sql.as_str(), " AND valuation_date >= ?");
    } else {
        assert(sql@ =~= start + Seq::empty());
    }
    let ghost ranged = sql@;
    if has_end {
        sql = chain(sql.as_str(), " AND valuation_date <= ?");
    } else {
        assert(sql@ =~= ranged + Seq::empty());
    }
    chain(sql.as_str(), " GROUP BY valuation_date ORDER BY valuation_date ASC")
}

// ── Latest valuations ────────────────────────────────────────────────────────

/// The last row of an account.
pub open spec fn row_of(rows: Seq<DailyAccountValuation>, account_id: Seq<char>) -> Option<
    DailyAccountValuation,
>
    decreases rows.len(),
{
    if rows.len() == 0 {
        None
    } else if rows.last().account_id@ == account_id {
        Some(rows.last())
    } else {
        row_of(rows.drop_last(), account_id)
    }
}

/// The rows of accounts, in the order of the accounts, each account once.
pub open spec fn in_order(rows: Seq<DailyAccountValuation>, account_ids: Seq<Seq<char>>) -> Seq<
    DailyAccountValuationView,
>
    decreases account_ids.len(),
{
    if account_ids.len() == 0 {
        Seq::empty()
    } else {
        let before = in_order(rows, account_ids.drop_last());
        match row_of(rows, account_ids.last()) {
            Some(row) => if account_ids.drop_last().contains(account_ids.last()) {
                before
            } else {
                before.push(row@)
            },
            None => before,
        }
    }
}

fn find_row<'a>(rows: &'a Vec<DailyAccountValuation>, account_id: &String) -> (row: Option<
    &'a DailyAccountValuation,
>)
    ensures
        match row {
            Some(found) => row_of(rows@, account_id@) == Some(*found),
            None => row_of(rows@, account_id@) is None,
        },
{
    let mut i: usize = rows.len();
    assert(rows@.take(i as int) =~= rows@);
    while i > 0
        invariant
            i <= rows@.len(),
            row_of(rows@, account_id@) == row_of(rows@.take(i as int), account_id@),
        decreases i,
    {
        assert(rows@.take(i as int).drop_last() =~= rows@.take(i - 1));
        if rows[i - 1].account_id == *account_id {
            return Some(&rows[i - 1]);
        }
        i = i - 1;
    }
    None
}

/// The latest valuations, in the order in which the accounts were asked for.
pub fn order_valuations(rows: &Vec<DailyAccountValuation>, account_ids: &Vec<String>) -> (ordered:
    Vec<DailyAccountValuation>)
    ensures
        valuation_views(ordered@) == in_order(rows@, texts(account_ids@)),
{
    let ghost ids = texts(account_ids@);
    let mut ordered: Vec<DailyAccountValuation> = Vec::new();
    assert(valuation_views(ordered@) =~= Seq::empty());
    for i in 0..account_ids.len()
        invariant
            ids == texts(account_ids@),
            valuation_views(ordered@) == in_order(rows@, ids.take(i as int)),
    {
        let ghost before = ordered@;
        let mut is_repeated = false;
        for k in 0..i
            invariant
                i < account_ids@.len(),
                ids == texts(account_ids@),
                is_repeated == exists|j: int| 0 <= j < k && #[trigger] ids[j] == ids[i as int],
        {
            assert(ids[k as int] == account_ids@[k as int]@);
            assert(ids[i as int] == account_ids@[i as int]@);
            if account_ids[k] == account_ids[i] {
                is_repeated = true;
            }
        }
        proof {
            let past = ids.take(i as int);
            assert(ids.take(i + 1).drop_last() =~= past);
            assert(ids.take(i + 1).last() == account_ids@[i as int]@);
            if is_repeated {
                let j = choose|j: int| 0 <= j < i && #[trigger] ids[j] == ids[i as int];
                assert(past[j] == ids[i as int]);
            }
        }
        match find_row(rows, &account_ids[i]) {
            Some(row) => {
                if !is_repeated {
                    let copy = row.copy();
                    ordered.push(copy);
                    assert(valuation_views(ordered@) =~= valuation_views(before).push(copy@));
                }
            },
            None => {},
        }
    }
    assert(ids.take(ids.len() as int) =~= ids);
    ordered
}

proof fn lemma_ordered_rows(rows: Seq<DailyAccountValuation>, account_id: Seq<char>)
    ensures
        row_of(rows, account_id) matches Some(row) ==> row.account_id@ == account_id,
    decreases rows.len(),
{
    if rows.len() > 0 && rows.last().account_id@ != account_id {
        lemma_ordered_rows(rows.drop_last(), account_id);
    }
}

/// The latest valuations are of accounts that were asked for, and no account has
/// two of them.
pub proof fn law_each_account_has_one_valuation(
    rows: Seq<DailyAccountValuation>,
    account_ids: Seq<Seq<char>>,
)
    ensures
        forall|k: int|
            0 <= k < in_order(rows, account_ids).len() ==> account_ids.contains(
                (#[trigger] in_order(rows, account_ids)[k]).account_id,
            ),
        forall|j: int, k: int|
            0 <= j < k < in_order(rows, account_ids).len() ==> (#[trigger] in_order(
                rows,
                account_ids,
            )[j]).account_id != (#[trigger] in_order(rows, account_ids)[k]).account_id,
    decreases account_ids.len(),
{
    if account_ids.len() > 0 {
        let fewer = account_ids.drop_last();
        let last = account_ids.last();
        law_each_account_has_one_valuation(rows, fewer);
        lemma_ordered_rows(rows, last);
        let before = in_order(rows, fewer);
        let now = in_order(rows, account_ids);
        assert forall|k: int| 0 <= k < now.len() implies account_ids.contains(
            (#[trigger] now[k]).account_id,
        ) by {
            if k < before.len() {
                assert(now[k] == before[k]);
                assert(fewer.contains(before[k].account_id));
                let i = choose|i: int| 0 <= i < fewer.len() && fewer[i] == before[k].account_id;
                assert(account_ids[i] == before[k].account_id);
            } else {
                assert(account_ids[account_ids.len() - 1] == last);
            }
        }
        assert forall|j: int, k: int| 0 <= j < k < now.len() implies (#[trigger] now[j]).account_id
            != (#[trigger] now[k]).account_id by {
            assert(now[j] == before[j]);
            if k < before.len() {
                assert(now[k] == before[k]);
            } else {
                assert(fewer.contains(before[j].account_id));
            }
        }
    }
}

// ── Negative balances ────────────────────────────────────────────────────────

/// A row of the query for the first negative valuations.
#[derive(Debug)]
pub struct NegativeBalanceRow {
    pub account_id: String,
    pub first_negative_date: String,
    pub cash_balance: String,
    pub total_value: String,
    pub account_currency: String,
}

/// When an account was first worth less than nothing.
#[derive(Debug)]
pub struct NegativeBalanceInfo {
    pub account_id: String,
    /// In days since the start of 1970.
    pub first_negative_date: i64,
    pub cash_balance: Decimal,
    pub total_value: Decimal,
    pub account_currency: String,
}

pub ghost struct NegativeBalanceInfoView {
    pub account_id: Seq<char>,
    pub first_negative_date: i64,
    pub cash_balance: Decimal,
    pub total_value: Decimal,
    pub account_currency: Seq<char>,
}

impl View for NegativeBalanceInfo {
    type V = NegativeBalanceInfoView;

    open spec fn view(&self) -> NegativeBalanceInfoView {
        NegativeBalanceInfoView {
            account_id: self.account_id@,
            first_negative_date: self.first_negative_date,
            cash_balance: self.cash_balance,
            total_value: self.total_value,
            account_currency: self.account_currency@,
        }
    }
}

/// What a row says, with what was read in it: nothing where any of it could not
/// be read.
pub open spec fn negative_balance_with(
    row: NegativeBalanceRow,
    date: Option<i64>,
    cash: Option<Decimal>,
    total: Option<Decimal>,
) -> Option<NegativeBalanceInfoView> {
    match (date, cash, total) {
        (Some(first_negative_date), Some(cash_balance), Some(total_value)) => Some(
            NegativeBalanceInfoView {
                account_id: row.account_id@,
                first_negative_date,
                cash_balance,
                total_value,
                account_currency: row.account_currency@,
            },
        ),
        _ => None,
    }
}

/// What a row says, with what was read in it.
pub fn negative_balance_from(
    row: &NegativeBalanceRow,
    date: Option<i64>,
    cash: Option<Decimal>,
    total: Option<Decimal>,
) -> (info: Option<NegativeBalanceInfo>)
    ensures
        match info {
            Some(found) => negative_balance_with(*row, date, cash, total) == Some(found@),
            None => negative_balance_with(*row, date, cash, total) is None,
        },
        info is Some <==> date is Some && cash is Some && total is Some,
        info matches Some(found) ==> {
            &&& found.account_id@ == row.account_id@
            &&& found.first_negative_date == date->0
            &&& found.cash_balance == cash->0
            &&& found.total_value == total->0
            &&& found.account_currency@ == row.account_currency@
        },
{
    match (date, cash, total) {
        (Some(first_negative_date), Some(cash_balance), Some(total_value)) => Some(
            NegativeBalanceInfo {
                account_id: row.account_id.clone(),
                first_negative_date,
                cash_balance,
                total_value,
                account_currency: row.account_currency.clone(),
            },
        ),
        _ => None,
    }
}

/// What a row says.
pub open spec fn negative_balance_of(row: NegativeBalanceRow) -> Option<NegativeBalanceInfoView> {
    negative_balance_with(
        row,
        day_read(row.first_negative_date@),
        decimal_read(row.cash_balance@),
        decimal_read(row.total_value@),
    )
}

/// What rows say, those left out in which something could not be read.
pub open spec fn negative_balances_of(rows: Seq<NegativeBalanceRow>) -> Seq<NegativeBalanceInfoView>
    decreases rows.len(),
{
    if rows.len() == 0 {
        Seq::empty()
    } else {
        match negative_balance_of(rows.last()) {
            Some(info) => negative_balances_of(rows.drop_last()).push(info),
            None => negative_balances_of(rows.drop_last()),
        }
    }
}

/// What rows say, those left out in which something could not be read.
pub fn negative_balances(rows: &Vec<NegativeBalanceRow>) -> (infos: Vec<NegativeBalanceInfo>)
    ensures
        infos@.map_values(|info: NegativeBalanceInfo| info@) == negative_balances_of(rows@),
{
    let mut infos: Vec<NegativeBalanceInfo> = Vec::new();
    assert(infos@.map_values(|info: NegativeBalanceInfo| info@) =~= negative_balances_of(
        rows@.take(0),
    ));
    for i in 0..rows.len()
        invariant
            infos@.map_values(|info: NegativeBalanceInfo| info@) == negative_balances_of(
                rows@.take(i as int),
            ),
    {
        let ghost before = infos@;
        assert(rows@.take(i + 1).drop_last() =~= rows@.take(i as int));
        let row = &rows[i];
        match negative_balance_from(
            row,
            read_day(row.first_negative_date.as_str()),
            read_decimal(row.cash_balance.as_str()),
            read_decimal(row.total_value.as_str()),
        ) {
            Some(info) => {
                infos.push(info);
                assert(infos@.map_values(|info: NegativeBalanceInfo| info@) =~= before.map_values(
                    |info: NegativeBalanceInfo| info@,
                ).push(info@));
            },
            None => {},
        }
    }
    assert(rows@.take(rows@.len() as int) =~= rows@);
    infos
}

// ── Accounts taken together ──────────────────────────────────────────────────

/// A row of the query for the valuations of accounts taken together.
#[derive(Debug)]
pub struct TogetherRow {
    pub valuation_date: String,
    pub base_currency: String,
    pub cash_balance: String,
    pub investment_market_value: String,
    pub total_value: String,
    pub cost_basis: String,
    pub net_contribution: String,
    pub calculated_at: String,
}

/// What was read in the amounts of a row.
#[derive(Clone, Copy, Debug)]
pub struct ReadAmounts {
    pub cash_balance: Option<Decimal>,
    pub investment_market_value: Option<Decimal>,
    pub total_value: Option<Decimal>,
    pub cost_basis: Option<Decimal>,
    pub net_contribution: Option<Decimal>,
}

/// An amount, or zero where none was read.
pub open spec fn or_zero(amount: Option<Decimal>) -> Decimal {
    match amount {
        Some(amount) => amount,
        None => Decimal::whole(0),
    }
}

fn amount_or_zero(amount: Option<Decimal>) -> (r: Decimal)
    ensures
        r == or_zero(amount),
        amount is None ==> r@ == 0,
{
    match amount {
        Some(amount) => amount,
        None => Decimal::zero(),
    }
}

/// The valuation of accounts taken together that a row says, with what was read
/// in it: none where the day could not be read; what amounts could not be read
/// count as zero, and the present moment stands for one that could not.
pub open spec fn together_with(
    row: TogetherRow,
    composite_id: Seq<char>,
    date: Option<i64>,
    amounts: ReadAmounts,
    calculated_at: Option<Timestamp>,
    now: Timestamp,
) -> Option<DailyAccountValuationView> {
    match date {
        None => None,
        Some(valuation_date) => Some(
            DailyAccountValuationView {
                id: composite_id + "-"@ + row.valuation_date@,
                account_id: composite_id,
                valuation_date,
                account_currency: row.base_currency@,
                base_currency: row.base_currency@,
                fx_rate_to_base: Decimal::whole(1),
                cash_balance: or_zero(amounts.cash_balance),
                investment_market_value: or_zero(amounts.investment_market_value),
                total_value: or_zero(amounts.total_value),
                cost_basis: or_zero(amounts.cost_basis),
                net_contribution: or_zero(amounts.net_contribution),
                calculated_at: match calculated_at {
                    Some(moment) => moment,
                    None => now,
                },
            },
        ),
    }
}

/// The valuation of accounts taken together that a row says, with what was read
/// in it.
pub fn together_from(
    row: &TogetherRow,
    composite_id: &str,
    date: Option<i64>,
    amounts: ReadAmounts,
    calculated_at: Option<Timestamp>,
    now: Timestamp,
) -> (valuation: Option<DailyAccountValuation>)
    ensures
        match valuation {
            Some(found) => together_with(
                *row,
                composite_id@,
                date,
                amounts,
                calculated_at,
                now,
            ) == Some(found@),
            None => together_with(*row, composite_id@, date, amounts, calculated_at, now) is None,
        },
        valuation is Some <==> date is Some,
        valuation matches Some(found) ==> {
            &&& found.id@ == composite_id@ + "-"@ + row.valuation_date@
            &&& found.account_id@ == composite_id@
            &&& found.valuation_date == date->0
            &&& found.account_currency@ == row.base_currency@
            &&& found.base_currency@ == row.base_currency@
            &&& found.fx_rate_to_base@ == crate::decimal::unit()
            &&& amounts.cash_balance is Some ==> found.cash_balance == amounts.cash_balance->0
            &&& amounts.cash_balance is None ==> found.cash_balance@ == 0
            &&& amounts.investment_market_value is Some ==> found.investment_market_value
                == amounts.investment_market_value->0
            &&& amounts.investment_market_value is None ==> found.investment_market_value@ == 0
            &&& amounts.total_value is Some ==> found.total_value == amounts.total_value->0
            &&& amounts.total_value is None ==> found.total_value@ == 0
            &&& amounts.cost_basis is Some ==> found.cost_basis == amounts.cost_basis->0
            &&& amounts.cost_basis is None ==> found.cost_basis@ == 0
            &&& amounts.net_contribution is Some ==> found.net_contribution
                == amounts.net_contribution->0
            &&& amounts.net_contribution is None ==> found.net_contribution@ == 0
            &&& calculated_at is Some ==> found.calculated_at == calculated_at->0
            &&& calculated_at is None ==> found.calculated_at == now
        },
{
    match date {
        None => None,
        Some(valuation_date) => Some(
            DailyAccountValuation {
                id: chain(chain(composite_id, "-").as_str(), row.valuation_date.as_str()),
                account_id: composite_id.to_owned(),
                valuation_date,
                account_currency: row.base_currency.clone(),
                base_currency: row.base_currency.clone(),
                fx_rate_to_base: Decimal::one(),
                cash_balance: amount_or_zero(amounts.cash_balance),
                investment_market_value: amount_or_zero(amounts.investment_market_value),
                total_value: amount_or_zero(amounts.total_value),
                cost_basis: amount_or_zero(amounts.cost_basis),
                net_contribution: amount_or_zero(amounts.net_contribution),
                calculated_at: match calculated_at {
                    Some(moment) => moment,
                    None => now,
                },
            },
        ),
    }
}

/// What is read in the amounts of a row.
pub open spec fn amounts_of(row: TogetherRow) -> ReadAmounts {
    ReadAmounts {
        cash_balance: decimal_read(row.cash_balance@),
        investment_market_value: decimal_read(row.investment_market_value@),
        total_value: decimal_read(row.total_value@),
        cost_basis: decimal_read(row.cost_basis@),
        net_contribution: decimal_read(row.net_contribution@),
    }
}

/// The valuation of accounts taken together that a row says.
pub open spec fn together_of(row: TogetherRow, composite_id: Seq<char>, now: Timestamp) -> Option<
    DailyAccountValuationView,
> {
    together_with(
        row,
        composite_id,
        day_read(row.valuation_date@),
        amounts_of(row),
        rfc3339_read(row.calculated_at@),
        now,
    )
}

/// The valuations of accounts taken together that rows say, in their order.
pub open spec fn all_together_of(
    rows: Seq<TogetherRow>,
    composite_id: Seq<char>,
    now: Timestamp,
) -> Seq<DailyAccountValuationView>
    decreases rows.len(),
{
    if rows.len() == 0 {
        Seq::empty()
    } else {
        match together_of(rows.last(), composite_id, now) {
            Some(valuation) => all_together_of(rows.drop_last(), composite_id, now).push(valuation),
            None => all_together_of(rows.drop_last(), composite_id, now),
        }
    }
}

/// The valuations of accounts taken together that rows say, as of a moment.
pub fn together_valuations_at(rows: &Vec<TogetherRow>, composite_id: &str, now: Timestamp) -> (
valuations: Vec<DailyAccountValuation>)
    ensures
        valuation_views(valuations@) == all_together_of(rows@, composite_id@, now),
{
    let mut valuations: Vec<DailyAccountValuation> = Vec::new();
    assert(valuation_views(valuations@) =~= all_together_of(rows@.take(0), composite_id@, now));
    for i in 0..rows.len()
        invariant
            valuation_views(valuations@) == all_together_of(
                rows@.take(i as int),
                composite_id@,
                now,
            ),
    {
        let ghost before = valuations@;
        assert(rows@.take(i + 1).drop_last() =~= rows@.take(i as int));
        let row = &rows[i];
        let amounts = ReadAmounts {
            cash_balance: read_decimal(row.cash_balance.as_str()),
            investment_market_value: read_decimal(row.investment_market_value.as_str()),
            total_value: read_decimal(row.total_value.as_str()),
            cost_basis: read_decimal(row.cost_basis.as_str()),
            net_contribution: read_decimal(row.net_contribution.as_str()),
        };
        match together_from(
            row,
            composite_id,
            read_day(row.valuation_date.as_str()),
            amounts,
            read_rfc3339(row.calculated_at.as_str()),
            now,
        ) {
            Some(valuation) => {
                valuations.push(valuation);
                assert(valuation_views(valuations@) =~= valuation_views(before).push(valuation@));
            },
            None => {},
        }
    }
    assert(rows@.take(rows@.len() as int) =~= rows@);
    valuations
}

/// The valuations of accounts taken together that rows say, as of the present
/// moment.
pub fn together_valuations(rows: &Vec<TogetherRow>, composite_id: &str) -> (valuations: Vec<
    DailyAccountValuation,
>)
    ensures
        exists|now: Timestamp|
            valuation_views(valuations@) == #[trigger] all_together_of(rows@, composite_id@, now),
{
    let now = current_time();
    together_valuations_at(rows, composite_id, now)
}

} // verus!
