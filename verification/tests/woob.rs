use wealthfolio::amounts::{parse_amount, Amount, AmountValue, FloatBits, ParsedAmount, UnitPrice};
use wealthfolio::decimal::Decimal;
use wealthfolio::time::Timestamp;
use wealthfolio::woob::{
    config_script, failure_message, find_python, find_woob, history_args, json_list, list_args,
    module_config_script, python_candidates, script_interpreter, woob_candidates,
    CONFIG_SCRIPT_END, CONFIG_SCRIPT_START,
};
use wealthfolio::woob_import::{
    existing_fingerprints, history_step, latest_transaction_date, map_woob_transaction,
    plan_import, plan_sync, shown_account, sync_result, ExistingActivity, Fingerprint,
    HistoryStep, WoobAccount, WoobInvestment, WoobTransaction, INITIAL_BATCH, MAX_BATCH,
};

fn bits(x: f64) -> FloatBits {
    FloatBits { bits: x.to_bits() }
}

fn amount(x: f64) -> Amount {
    Amount {
        value: bits(x),
        two_places: format!("{:.2}", x.abs()),
    }
}

fn transaction(id: &str, date: &str, value: f64) -> WoobTransaction {
    WoobTransaction {
        id: id.to_string(),
        date: Some(date.to_string()),
        label: Some("label".to_string()),
        raw: None,
        amount: Some(amount(value)),
        tx_type: None,
        commission: None,
        investments: None,
    }
}

fn order(date: &str, value: f64) -> WoobTransaction {
    let mut tx = transaction("@bank", date, value);
    tx.tx_type = Some(9);
    tx.commission = Some(bits(-1.5));
    tx.investments = Some(vec![WoobInvestment {
        label: Some("Some fund".to_string()),
        code: Some("FR0000".to_string()),
        stock_symbol: Some(String::new()),
        quantity: Some(bits(-4.0)),
        unitvalue: None,
    }]);
    tx
}

#[test]
fn bits_are_compared_as_numbers_are() {
    for x in [
        0.0,
        -0.0,
        1.0,
        -1.0,
        5e-324,
        -5e-324,
        f64::MAX,
        f64::MIN,
        f64::INFINITY,
        f64::NEG_INFINITY,
        f64::NAN,
        -f64::NAN,
    ] {
        let b = bits(x);
        assert_eq!(b.is_zero(), x == 0.0, "{x}");
        assert_eq!(b.is_positive(), x > 0.0, "{x}");
        assert_eq!(b.is_negative(), x < 0.0, "{x}");
        assert_eq!(b.abs().bits, x.abs().to_bits(), "{x}");
    }
}

#[test]
fn an_amount_is_a_number_or_a_text_with_a_comma() {
    assert!(matches!(
        parse_amount(&AmountValue::Number(bits(2.5))),
        ParsedAmount::Value(value) if value == bits(2.5)
    ));
    assert!(matches!(
        parse_amount(&AmountValue::Text("-1,50".to_string())),
        ParsedAmount::Text(text) if text == "-1.50"
    ));
    assert!(matches!(
        parse_amount(&AmountValue::Other),
        ParsedAmount::Missing
    ));
}

#[test]
fn woob_is_looked_for_in_order() {
    let paths = woob_candidates("/home/me");
    assert_eq!(paths.len(), 8);
    assert_eq!(paths[0], "/home/me/Library/Python/3.14/bin/woob");
    assert_eq!(paths[4], "/home/me/Library/Python/3.10/bin/woob");
    assert_eq!(paths[5], "/usr/local/bin/woob");
    assert_eq!(paths[7], "/opt/homebrew/bin/woob");
    let mut present = vec![false; 8];
    assert_eq!(
        find_woob("/home/me", &present).unwrap_err(),
        "Woob not found. Install with: pip3 install woob"
    );
    present[6] = true;
    present[7] = true;
    assert_eq!(find_woob("/home/me", &present).unwrap(), "/usr/bin/woob");
}

#[test]
fn the_interpreter_is_read_in_the_first_line() {
    assert_eq!(
        script_interpreter("#!/usr/bin/env python3\nimport woob\n").as_deref(),
        Some("python3")
    );
    assert_eq!(
        script_interpreter("#! /usr/local/bin/python3 -E\n").as_deref(),
        Some("/usr/local/bin/python3")
    );
    assert_eq!(script_interpreter("import woob\n"), None);
    assert_eq!(script_interpreter("#!\n"), None);
    assert_eq!(script_interpreter(""), None);
}

#[test]
fn python_is_what_woob_runs_or_the_usual_one() {
    let named = Some("python3.12".to_string());
    let paths = python_candidates(&named);
    assert_eq!(
        paths,
        vec![
            "python3.12",
            "/usr/local/bin/python3.12",
            "/opt/homebrew/bin/python3.12",
            "/usr/bin/python3.12",
            "/usr/local/bin/python3",
            "/opt/homebrew/bin/python3",
            "/usr/bin/python3",
        ]
    );
    let mut present = vec![false; 7];
    assert_eq!(find_python(&named, &present), "python3");
    present[3] = true;
    present[6] = true;
    assert_eq!(find_python(&named, &present), "/usr/bin/python3.12");
    assert_eq!(
        find_python(&None, &vec![false, true, true]),
        "/opt/homebrew/bin/python3"
    );
}

#[test]
fn woob_is_asked_for_accounts_and_history() {
    assert_eq!(list_args(&None), vec!["bank", "-f", "json", "list"]);
    assert_eq!(
        list_args(&Some("bourso".to_string())),
        vec!["bank", "-b", "bourso", "-f", "json", "list"]
    );
    assert_eq!(
        history_args(600, &Some("2024-01-01".to_string()), "acc@bank"),
        vec![
            "bank", "-f", "json", "-n", "600", "--since", "2024-01-01", "history", "acc@bank"
        ]
    );
    assert_eq!(
        history_args(200, &None, "acc"),
        vec!["bank", "-f", "json", "-n", "200", "history", "acc"]
    );
}

#[test]
fn the_list_is_cut_out_of_the_output() {
    assert_eq!(json_list("warning\n[{}]").as_deref(), Some("[{}]"));
    assert_eq!(json_list("nothing"), None);
    assert_eq!(failure_message("Woob", "  oops \n"), "Woob error: oops");
}

#[test]
fn a_module_is_named_in_quotes() {
    let script = module_config_script("a\"b");
    assert_eq!(script, config_script("\"a\\\"b\""));
    assert_eq!(
        script,
        format!("{CONFIG_SCRIPT_START}\"a\\\"b\"{CONFIG_SCRIPT_END}")
    );
    assert!(script.contains("w.load_or_install_module(\"a\\\"b\")\n"));
}

#[test]
fn control_characters_are_escaped() {
    let quoted = |module: &str| {
        let script = module_config_script(module);
        script[CONFIG_SCRIPT_START.len()..script.len() - CONFIG_SCRIPT_END.len()].to_string()
    };
    assert_eq!(quoted("\u{8}\t\n\u{c}\r"), "\"\\b\\t\\n\\f\\r\"");
    assert_eq!(quoted("\u{0}\u{1b}\u{1f}"), "\"\\u0000\\u001b\\u001f\"");
    assert_eq!(quoted("\\/\u{7f}\u{e9}\u{2028}"), "\"\\\\/\u{7f}\u{e9}\u{2028}\"");
    assert_eq!(quoted(""), "\"\"");
}

#[test]
fn an_account_is_shown_with_its_defaults() {
    let shown = shown_account(&WoobAccount {
        id: "1@bank".to_string(),
        label: None,
        balance: None,
        currency: None,
    });
    assert_eq!(shown.id, "1@bank");
    assert_eq!(shown.label, "1@bank");
    assert_eq!(shown.balance, bits(0.0));
    assert_eq!(shown.currency, "EUR");
}

#[test]
fn an_order_is_bought_or_sold() {
    let activity = map_woob_transaction(&order("2024-05-06", -200.0), "EUR").unwrap();
    assert_eq!(activity.id, "WOOB-2024-05-06-BUY-200.00-FR0000");
    assert_eq!(activity.source_system, "WOOB");
    assert_eq!(activity.activity_type, "BUY");
    assert_eq!(activity.trade_date, "2024-05-06");
    assert_eq!(
        activity.price,
        UnitPrice::Quotient {
            amount: bits(200.0),
            quantity: bits(4.0)
        }
    );
    assert_eq!(activity.units, bits(4.0));
    assert_eq!(activity.amount.value, bits(200.0));
    assert_eq!(activity.currency, "EUR");
    assert_eq!(activity.fee, bits(1.5));
    assert_eq!(activity.symbol.as_deref(), Some("FR0000"));
    assert!(activity.needs_review);

    let mut sale = order("2024-05-06", 200.0);
    sale.investments = None;
    sale.commission = None;
    let activity = map_woob_transaction(&sale, "EUR").unwrap();
    assert_eq!(activity.id, "WOOB-2024-05-06-SELL-200.00-label");
    assert_eq!(activity.units, bits(1.0));
    assert_eq!(
        activity.price,
        UnitPrice::Quotient {
            amount: bits(200.0),
            quantity: bits(1.0)
        }
    );
    assert_eq!(activity.fee, bits(0.0));
    assert_eq!(activity.symbol, None);
}

#[test]
fn an_order_without_a_quantity_costs_its_amount() {
    let mut tx = order("2024-05-06", -200.0);
    tx.investments.as_mut().unwrap()[0].quantity = Some(bits(0.0));
    let activity = map_woob_transaction(&tx, "EUR").unwrap();
    assert_eq!(activity.price, UnitPrice::Stated(bits(200.0)));
    tx.investments.as_mut().unwrap()[0].unitvalue = Some(bits(12.5));
    let activity = map_woob_transaction(&tx, "EUR").unwrap();
    assert_eq!(activity.price, UnitPrice::Stated(bits(12.5)));
}

#[test]
fn cash_is_deposited_or_withdrawn() {
    let mut tx = transaction("12@bank", "2024-05-06", -12.345);
    tx.label = None;
    tx.raw = Some("RAW".to_string());
    let activity = map_woob_transaction(&tx, "USD").unwrap();
    assert_eq!(activity.activity_type, "WITHDRAWAL");
    assert_eq!(
        activity.id,
        format!("WOOB-2024-05-06-WITHDRAWAL-{:.2}", 12.345)
    );
    assert_eq!(activity.price, UnitPrice::Stated(bits(12.345)));
    assert_eq!(activity.units, bits(1.0));
    assert_eq!(activity.description, "RAW");
    assert!(!activity.needs_review);

    let activity =
        map_woob_transaction(&transaction("own-id", "2024-05-06", 5.0), "USD").unwrap();
    assert_eq!(activity.activity_type, "DEPOSIT");
    assert_eq!(activity.id, "own-id");

    let activity =
        map_woob_transaction(&transaction("WOOB-a@b", "2024-05-06", 5.0), "USD").unwrap();
    assert_eq!(activity.id, "WOOB-a@b");
}

#[test]
fn a_transaction_that_says_nothing_is_skipped() {
    assert!(map_woob_transaction(&transaction("a", "2024-05-06", 0.0), "EUR").is_none());
    let mut tx = transaction("a", "2024-05-06", 1.0);
    tx.date = None;
    assert!(map_woob_transaction(&tx, "EUR").is_none());
    let mut tx = transaction("a", "2024-05-06", 1.0);
    tx.amount = None;
    assert!(map_woob_transaction(&tx, "EUR").is_none());
}

fn batch(days: &[&str]) -> Vec<WoobTransaction> {
    days.iter().map(|day| transaction("a", day, 1.0)).collect()
}

#[test]
fn a_history_is_fetched_until_it_goes_back_far_enough() {
    let since = Some("2024-01-10".to_string());
    let until = Some("2024-01-20".to_string());
    let days = ["2024-01-25", "2024-01-20", "2024-01-10", "2024-01-09"];
    match history_step(4, batch(&days), &since, &until) {
        HistoryStep::Done(found) => {
            assert_eq!(found.len(), 2);
            assert_eq!(found[0].date.as_deref(), Some("2024-01-20"));
            assert_eq!(found[1].date.as_deref(), Some("2024-01-10"));
        }
        HistoryStep::Retry(_) => panic!("the batch goes back far enough"),
    }
    // The first day may go on in the next batch.
    match history_step(3, batch(&days[..3]), &since, &until) {
        HistoryStep::Retry(next) => assert_eq!(next, 9),
        HistoryStep::Done(_) => panic!("the first day may be cut in two"),
    }
    // The bank has no more.
    match history_step(4, batch(&days[..3]), &since, &until) {
        HistoryStep::Done(found) => assert_eq!(found.len(), 2),
        HistoryStep::Retry(_) => panic!("there is no more"),
    }
    // A full batch that is all behind the last day says nothing of the first.
    let behind = vec!["2024-02-15"; 200];
    let since_start = Some("2024-01-01".to_string());
    let until_end = Some("2024-01-31".to_string());
    match history_step(200, batch(&behind), &since_start, &until_end) {
        HistoryStep::Retry(next) => assert_eq!(next, 600),
        HistoryStep::Done(_) => panic!("the first day was not reached"),
    }
    // Without a first day, one batch is enough.
    match history_step(3, batch(&days[..3]), &None, &None) {
        HistoryStep::Done(found) => assert_eq!(found.len(), 3),
        HistoryStep::Retry(_) => panic!("everything was asked for"),
    }
}

#[test]
fn batches_grow_up_to_the_cap() {
    let since = Some("2000-01-01".to_string());
    let mut n = INITIAL_BATCH;
    let mut seen = vec![n];
    loop {
        let days = vec!["2024-01-01"; n as usize];
        match history_step(n, batch(&days), &since, &None) {
            HistoryStep::Retry(next) => {
                n = next;
                seen.push(n);
            }
            HistoryStep::Done(found) => {
                assert_eq!(found.len() as u64, n);
                break;
            }
        }
    }
    assert_eq!(seen, vec![200, 600, 1800, 5000]);
    assert_eq!(n, MAX_BATCH);
}

#[test]
fn the_latest_date_is_the_greatest() {
    let mut list = batch(&["2024-01-01", "2024-03-01", "2024-02-01"]);
    list[2].date = None;
    assert_eq!(latest_transaction_date(&list).as_deref(), Some("2024-03-01"));
    assert_eq!(latest_transaction_date(&vec![]), None);
}

#[test]
fn what_the_account_has_already_is_not_imported() {
    let known = vec![Fingerprint {
        activity_type: "DEPOSIT".to_string(),
        date: "2024-05-06".to_string(),
        amount: "5.00".to_string(),
    }];
    let transactions = vec![
        transaction("a", "2024-05-06T10:00", 5.0),
        transaction("b", "2024-05-06", 6.0),
        transaction("c", "2024-05-06", 0.0),
        transaction("d", "2024-05-06", -5.0),
    ];
    let plan = plan_import(&transactions, "EUR", &known);
    assert_eq!(plan.skipped, 2);
    assert_eq!(plan.activities.len(), 2);
    assert_eq!(plan.activities[0].id, "b");
    assert_eq!(plan.activities[1].id, "d");
    assert_eq!(
        plan.latest_transaction_date.as_deref(),
        Some("2024-05-06T10:00")
    );
}

#[test]
fn the_cash_behind_an_order_is_not_imported() {
    let transactions = vec![
        order("2024-05-06", -200.0),
        transaction("cash", "2024-05-06", -200.0),
        transaction("other day", "2024-05-07", -200.0),
        transaction("other amount", "2024-05-06", -201.0),
    ];
    let plan = plan_import(&transactions, "EUR", &vec![]);
    let ids: Vec<&str> = plan.activities.iter().map(|a| a.id.as_str()).collect();
    assert_eq!(
        ids,
        vec![
            "WOOB-2024-05-06-BUY-200.00-FR0000",
            "other day",
            "other amount"
        ]
    );
    assert_eq!(plan.skipped, 1);
    let result = sync_result("wf".to_string(), &plan, 3);
    assert_eq!(result.wf_account_id, "wf");
    assert_eq!(result.transactions_imported, 3);
    assert_eq!(result.transactions_skipped, 1);
    assert_eq!(
        result.latest_transaction_date.as_deref(),
        Some("2024-05-07")
    );
}

fn existing(system: Option<&str>, value: Option<Decimal>) -> ExistingActivity {
    ExistingActivity {
        source_system: system.map(|system| system.to_string()),
        activity_type: "DEPOSIT".to_string(),
        // 2024-05-06 12:00:00 UTC
        activity_date: Timestamp {
            seconds: 1_714_996_800,
            nanos: 0,
        },
        amount: value,
    }
}

#[test]
fn an_activity_is_told_by_its_type_day_and_amount() {
    let five = Decimal::from_parts(5, 0).unwrap();
    let fingerprints = existing_fingerprints(&vec![
        existing(Some("WOOB"), Some(five)),
        existing(None, None),
        existing(Some("MANUAL"), Some(five)),
    ]);
    assert_eq!(fingerprints.len(), 1);
    assert_eq!(fingerprints[0].activity_type, "DEPOSIT");
    assert_eq!(fingerprints[0].date, "2024-05-06");
    assert_eq!(fingerprints[0].amount, "5.00");
}

#[test]
fn an_amount_is_cut_to_two_places() {
    for (mantissa, scale, text) in [
        (0, 0, "0.00"),
        (0, 3, "0.00"),
        (5678, 3, "5.67"),
        (-1, 3, "-0.00"),
        (-25, 1, "-2.50"),
        (123456, 1, "12345.60"),
        (999, 2, "9.99"),
        (7, 28, "0.00"),
    ] {
        let amount = Decimal::from_parts(mantissa, scale);
        let fingerprints = existing_fingerprints(&vec![existing(None, amount)]);
        assert_eq!(fingerprints[0].amount, text);
    }
}

#[test]
fn a_manual_entry_keeps_its_transaction_out() {
    let five = Decimal::from_parts(5, 0).unwrap();
    let transactions = vec![transaction("a", "2024-05-06", 5.0)];
    let plan = plan_sync(&transactions, "EUR", &vec![existing(None, Some(five))]);
    assert!(plan.activities.is_empty());
    assert_eq!(plan.skipped, 1);
    let plan = plan_sync(
        &transactions,
        "EUR",
        &vec![existing(Some("WOOB"), Some(five))],
    );
    assert_eq!(plan.activities.len(), 1);
}
