use wealthfolio::decimal::Decimal;
use wealthfolio::time::Timestamp;
use wealthfolio::transfers::{
    activity_as_transfer, find_transfer_pairs, link_pair, link_pair_in_new_group, match_transfers,
    side_outcome, transfer_from, Activity, TransferPairSelection,
};

fn dec(mantissa: i128, scale: u32) -> Decimal {
    Decimal::from_parts(mantissa, scale).unwrap()
}

fn activity(id: &str, account: &str, activity_type: &str, amount: Decimal, day: i64) -> Activity {
    Activity {
        id: id.to_string(),
        account_id: account.to_string(),
        activity_type: activity_type.to_string(),
        subtype: Some("INTERNAL".to_string()),
        activity_date: Timestamp {
            seconds: day * 86_400 + 3_600,
            nanos: 0,
        },
        quantity: Some(dec(1, 0)),
        unit_price: Some(amount),
        currency: "EUR".to_string(),
        fee: None,
        amount: Some(amount),
        status: "POSTED".to_string(),
        notes: Some("note".to_string()),
        fx_rate: None,
        metadata: Some("{}".to_string()),
        needs_review: true,
        source_system: Some("WOOB".to_string()),
        source_record_id: Some("record".to_string()),
        source_group_id: None,
    }
}

fn out(id: &str, day: i64) -> Activity {
    activity(id, "a", "WITHDRAWAL", dec(100, 0), day)
}

fn into(id: &str, day: i64) -> Activity {
    activity(id, "b", "DEPOSIT", dec(1000, 1), day)
}

#[test]
fn a_transfer_is_the_same_amount_in_two_accounts() {
    assert_eq!(match_transfers(&vec![out("o", 10), into("i", 10)]), vec![(0, 1)]);
    assert_eq!(match_transfers(&vec![into("i", 11), out("o", 10)]), vec![(1, 0)]);
    assert_eq!(match_transfers(&vec![out("o", 10), into("i", 9)]), vec![(0, 1)]);
    assert!(match_transfers(&vec![out("o", 10), into("i", 12)]).is_empty());
    assert!(match_transfers(&vec![out("o", 10), into("i", 8)]).is_empty());
}

#[test]
fn days_before_the_epoch_are_counted_too() {
    assert_eq!(match_transfers(&vec![out("o", -1), into("i", 0)]), vec![(0, 1)]);
    assert!(match_transfers(&vec![out("o", -2), into("i", 0)]).is_empty());
}

#[test]
fn what_differs_is_no_transfer() {
    let mut other = into("i", 10);
    other.account_id = "a".to_string();
    assert!(match_transfers(&vec![out("o", 10), other]).is_empty());

    let mut other = into("i", 10);
    other.currency = "USD".to_string();
    assert!(match_transfers(&vec![out("o", 10), other]).is_empty());

    let mut other = into("i", 10);
    other.amount = Some(dec(1001, 1));
    assert!(match_transfers(&vec![out("o", 10), other]).is_empty());

    let mut other = into("i", 10);
    other.source_group_id = Some("linked".to_string());
    assert!(match_transfers(&vec![out("o", 10), other]).is_empty());

    let mut other = into("i", 10);
    other.activity_type = "INTEREST".to_string();
    assert!(match_transfers(&vec![out("o", 10), other]).is_empty());

    let mut empty_out = out("o", 10);
    let mut empty_in = into("i", 10);
    empty_out.amount = Some(Decimal::zero());
    empty_in.amount = Some(Decimal::zero());
    assert!(match_transfers(&vec![empty_out, empty_in]).is_empty());
}

#[test]
fn amounts_are_compared_without_their_sign() {
    let mut negative = out("o", 10);
    negative.amount = Some(dec(-100, 0));
    assert_eq!(match_transfers(&vec![negative, into("i", 10)]), vec![(0, 1)]);
}

#[test]
fn each_side_is_in_one_pair_only() {
    let activities = vec![
        out("o1", 10),
        out("o2", 10),
        into("i1", 10),
        activity("i2", "c", "TRANSFER_IN", dec(100, 0), 11),
        out("o3", 10),
    ];
    assert_eq!(match_transfers(&activities), vec![(0, 2), (1, 3)]);
}

#[test]
fn a_pair_is_proposed_with_all_there_is_to_know() {
    let activities = vec![out("o", 10), into("i", 11)];
    let accounts = vec![("a".to_string(), "Checking".to_string())];
    let candidates = find_transfer_pairs(&activities, &accounts).unwrap();
    assert_eq!(candidates.len(), 1);
    let candidate = &candidates[0];
    assert_eq!(candidate.id.len(), 36);
    assert_eq!(candidate.out_activity_id, "o");
    assert_eq!(candidate.out_account_id, "a");
    assert_eq!(candidate.out_account_name, "Checking");
    assert_eq!(candidate.out_date, "1970-01-11");
    assert_eq!(candidate.in_activity_id, "i");
    assert_eq!(candidate.in_account_name, "b");
    assert_eq!(candidate.in_date, "1970-01-12");
    assert_eq!(candidate.amount, "100");
    assert_eq!(candidate.currency, "EUR");
    assert!(!candidate.same_day);
}

#[test]
fn an_amount_is_shown_with_all_its_digits() {
    for (mantissa, scale, text) in [
        (100, 0, "100"),
        (1005, 2, "10.05"),
        (-7, 3, "-0.007"),
        (1200, 2, "12.00"),
    ] {
        let amount = dec(mantissa, scale);
        let activities = vec![
            activity("o", "a", "TRANSFER_OUT", amount, 10),
            activity("i", "b", "TRANSFER_IN", amount, 10),
        ];
        let candidates = find_transfer_pairs(&activities, &vec![]).unwrap();
        assert_eq!(candidates[0].amount, text);
        assert!(candidates[0].same_day);
    }
}

#[test]
fn an_activity_becomes_a_transfer() {
    let recorded = out("o", 10);
    let copy = activity_as_transfer(&recorded, "TRANSFER_OUT", &"group".to_string()).unwrap();
    assert_eq!(copy.id, None);
    assert_eq!(copy.account_id, "a");
    assert_eq!(copy.activity_type, "TRANSFER_OUT");
    assert_eq!(copy.activity_date, "1970-01-11T01:00:00+00:00");
    assert_eq!(copy.amount, Some(dec(100, 0)));
    assert_eq!(copy.status.as_deref(), Some("POSTED"));
    assert_eq!(copy.notes.as_deref(), Some("note"));
    assert_eq!(copy.metadata.as_deref(), Some("{}"));
    assert_eq!(copy.subtype.as_deref(), Some("INTERNAL"));
    assert_eq!(copy.needs_review, Some(true));
    assert_eq!(copy.source_record_id.as_deref(), Some("record"));
    assert_eq!(copy.source_group_id.as_deref(), Some("group"));
    let copy = transfer_from(&recorded, "X", &"g".to_string(), "when".to_string());
    assert_eq!(copy.activity_date, "when");
    let mut plain = out("o", 10);
    plain.subtype = None;
    plain.needs_review = false;
    let copy = activity_as_transfer(&plain, "TRANSFER_OUT", &"group".to_string()).unwrap();
    assert_eq!(copy.subtype, None);
    assert_eq!(copy.needs_review, Some(false));
}

#[test]
fn a_moment_out_of_the_calendar_cannot_be_written() {
    let mut recorded = out("o", 10);
    recorded.activity_date.seconds = i64::MAX;
    assert!(activity_as_transfer(&recorded, "TRANSFER_OUT", &"g".to_string()).is_none());
}

fn pair(out: &str, into: &str) -> TransferPairSelection {
    TransferPairSelection {
        out_activity_id: out.to_string(),
        in_activity_id: into.to_string(),
    }
}

#[test]
fn both_sides_are_linked_in_one_group() {
    let activities = vec![out("o", 10), into("i", 11)];
    let linked = link_pair(&activities, &pair("o", "i"), &"group".to_string())
        .unwrap()
        .unwrap();
    assert_eq!(linked.out_side.create.activity_type, "TRANSFER_OUT");
    assert_eq!(linked.out_side.delete_id, "o");
    assert_eq!(linked.in_side.create.activity_type, "TRANSFER_IN");
    assert_eq!(linked.in_side.delete_id, "i");
    assert_eq!(
        linked.out_side.create.source_group_id,
        linked.in_side.create.source_group_id
    );
    let linked = link_pair_in_new_group(&activities, &pair("o", "i"))
        .unwrap()
        .unwrap();
    assert_eq!(
        linked.out_side.create.source_group_id,
        linked.in_side.create.source_group_id
    );
    assert_eq!(
        linked.in_side.create.source_group_id.map(|id| id.len()),
        Some(36)
    );
}

#[test]
fn a_side_that_is_not_there_is_named() {
    let activities = vec![out("o", 10), into("i", 11)];
    let error = link_pair(&activities, &pair("x", "y"), &"g".to_string())
        .unwrap()
        .unwrap_err();
    assert_eq!(error, "Activity not found: x");
    let error = link_pair(&activities, &pair("o", "y"), &"g".to_string())
        .unwrap()
        .unwrap_err();
    assert_eq!(error, "Activity not found: y");
}

#[test]
fn the_first_error_of_a_side_is_told() {
    assert!(side_outcome("OUT", &vec![]).is_ok());
    assert_eq!(
        side_outcome("IN", &vec!["first".to_string(), "second".to_string()]).unwrap_err(),
        "Failed to apply IN side: first"
    );
}
