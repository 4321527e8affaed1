use wealthfolio::decimal::Decimal;
use wealthfolio::time::Timestamp;
use wealthfolio::valuations::{
    latest_valuations_query, negative_balance_from, negative_balance_query, negative_balances,
    order_valuations, placeholders, together_from, together_query, together_valuations,
    together_valuations_at, DailyAccountValuation, NegativeBalanceRow, ReadAmounts, TogetherRow,
};

fn dec(mantissa: i128, scale: u32) -> Decimal {
    Decimal::from_parts(mantissa, scale).unwrap()
}

const NOW: Timestamp = Timestamp {
    seconds: 1_714_998_896,
    nanos: 5,
};

fn valuation(account_id: &str, total: i128) -> DailyAccountValuation {
    DailyAccountValuation {
        id: format!("{account_id}-{total}"),
        account_id: account_id.to_string(),
        valuation_date: 19_723,
        account_currency: "USD".to_string(),
        base_currency: "USD".to_string(),
        fx_rate_to_base: Decimal::one(),
        cash_balance: Decimal::zero(),
        investment_market_value: dec(total, 0),
        total_value: dec(total, 0),
        cost_basis: Decimal::zero(),
        net_contribution: Decimal::zero(),
        calculated_at: NOW,
    }
}

#[test]
fn a_query_has_a_place_for_each_account() {
    assert_eq!(placeholders(0, ", "), "");
    assert_eq!(placeholders(1, ", "), "?");
    assert_eq!(placeholders(3, ", "), "?, ?, ?");
    let latest = latest_valuations_query(2);
    assert!(latest.contains("WHERE account_id IN (?, ?) ) SELECT id,"));
    assert!(latest.ends_with("FROM RankedValuations WHERE rn = 1"));
    let negative = negative_balance_query(2);
    assert!(negative.ends_with("AND account_id IN (?, ?) GROUP BY account_id"));
}

#[test]
fn accounts_are_queried_together_from_a_day_to_a_day() {
    let end = " GROUP BY valuation_date ORDER BY valuation_date ASC";
    assert!(together_query(2, false, false).ends_with(&format!("account_id IN (?,?){end}")));
    assert!(together_query(1, true, false).ends_with(&format!(
        "account_id IN (?) AND valuation_date >= ?{end}"
    )));
    assert!(together_query(1, false, true).ends_with(&format!(
        "account_id IN (?) AND valuation_date <= ?{end}"
    )));
    assert!(together_query(1, true, true).ends_with(&format!(
        "account_id IN (?) AND valuation_date >= ? AND valuation_date <= ?{end}"
    )));
}

#[test]
fn the_latest_valuations_follow_the_accounts() {
    let rows = vec![
        valuation("b", 1),
        valuation("a", 2),
        valuation("b", 3),
        valuation("z", 4),
    ];
    let accounts: Vec<String> = ["a", "missing", "b", "a"]
        .iter()
        .map(|id| id.to_string())
        .collect();
    let ordered = order_valuations(&rows, &accounts);
    let found: Vec<&str> = ordered.iter().map(|row| row.id.as_str()).collect();
    assert_eq!(found, vec!["a-2", "b-3"]);
    assert_eq!(ordered[1].total_value, dec(3, 0));
    assert_eq!(ordered[1].calculated_at, NOW);
}

fn negative(date: &str, cash: &str, total: &str) -> NegativeBalanceRow {
    NegativeBalanceRow {
        account_id: "a".to_string(),
        first_negative_date: date.to_string(),
        cash_balance: cash.to_string(),
        total_value: total.to_string(),
        account_currency: "EUR".to_string(),
    }
}

#[test]
fn rows_that_cannot_be_read_are_left_out() {
    let rows = vec![
        negative("2024-01-01", "-5", "-12.5"),
        negative("01/02/2024", "-5", "-12.5"),
        negative("2024-01-01", "much", "-12.5"),
        negative("2024-01-01", "-5", "little"),
    ];
    let infos = negative_balances(&rows);
    assert_eq!(infos.len(), 1);
    assert_eq!(infos[0].account_id, "a");
    assert_eq!(infos[0].first_negative_date, 19_723);
    assert_eq!(infos[0].cash_balance, dec(-5, 0));
    assert_eq!(infos[0].total_value, dec(-125, 1));
    assert_eq!(infos[0].account_currency, "EUR");
    assert!(negative_balance_from(&rows[0], None, None, None).is_none());
}

fn together(date: &str, total: &str, calculated_at: &str) -> TogetherRow {
    TogetherRow {
        valuation_date: date.to_string(),
        base_currency: "USD".to_string(),
        cash_balance: "0.0".to_string(),
        investment_market_value: total.to_string(),
        total_value: total.to_string(),
        cost_basis: "?".to_string(),
        net_contribution: "1300.0".to_string(),
        calculated_at: calculated_at.to_string(),
    }
}

#[test]
fn a_row_is_the_valuation_of_accounts_taken_together() {
    let rows = vec![
        together("2024-01-01", "3000.0", "2024-01-01T01:00:00.5+01:00"),
        together("yesterday", "1.0", "2024-01-01T00:00:00Z"),
        together("2024-01-02", "3200.0", "2024-01-02 00:00:00"),
    ];
    let valuations = together_valuations_at(&rows, "MULTI:acc-a,acc-b", NOW);
    assert_eq!(valuations.len(), 2);
    let first = &valuations[0];
    assert_eq!(first.id, "MULTI:acc-a,acc-b-2024-01-01");
    assert_eq!(first.account_id, "MULTI:acc-a,acc-b");
    assert_eq!(first.valuation_date, 19_723);
    assert_eq!(first.account_currency, "USD");
    assert_eq!(first.base_currency, "USD");
    assert_eq!(first.fx_rate_to_base, Decimal::one());
    assert_eq!(first.total_value, dec(3000, 0));
    assert_eq!(first.cost_basis, Decimal::zero());
    assert_eq!(first.net_contribution, dec(1300, 0));
    assert_eq!(
        first.calculated_at,
        Timestamp {
            seconds: 1_704_067_200,
            nanos: 500_000_000
        }
    );
    assert_eq!(valuations[1].total_value, dec(3200, 0));
    assert_eq!(valuations[1].calculated_at, NOW);
    assert_eq!(together_valuations(&rows, "x").len(), 2);
}

#[test]
fn what_was_read_of_a_row_is_taken_over() {
    let amounts = ReadAmounts {
        cash_balance: Some(dec(1, 0)),
        investment_market_value: None,
        total_value: Some(dec(2, 0)),
        cost_basis: None,
        net_contribution: Some(dec(3, 0)),
    };
    let row = together("2024-01-01", "x", "y");
    let valuation = together_from(&row, "m", Some(7), amounts, None, NOW).unwrap();
    assert_eq!(valuation.id, "m-2024-01-01");
    assert_eq!(valuation.valuation_date, 7);
    assert_eq!(valuation.cash_balance, dec(1, 0));
    assert_eq!(valuation.investment_market_value, Decimal::zero());
    assert_eq!(valuation.total_value, dec(2, 0));
    assert_eq!(valuation.net_contribution, dec(3, 0));
    assert_eq!(valuation.calculated_at, NOW);
    assert!(together_from(&row, "m", None, amounts, None, NOW).is_none());
}
