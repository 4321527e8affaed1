use wealthfolio::amounts::{Amount, FloatBits, UnitPrice};
use wealthfolio::nordigen::{
    account_details_url, amount_text, expired_message, failure, gc_sync_result, has_credentials,
    institutions_url, map_gc_transaction, new_token_url, plan_gc_import, refresh_token_url,
    requisition_reference, requisition_url, requisitions_url, secret_name_for, start_day,
    start_day_at, token_step, transactions_url, GcTransaction, TokenQuestion, TokenStep,
};
use wealthfolio::time::Timestamp;

fn bits(x: f64) -> FloatBits {
    FloatBits { bits: x.to_bits() }
}

fn transaction(amount: &str) -> GcTransaction {
    GcTransaction {
        transaction_id: None,
        booking_date: Some("2024-05-06".to_string()),
        value_date: Some("2024-05-07".to_string()),
        amount: amount.to_string(),
        parsed_amount: amount_text(amount).parse::<f64>().ok().map(|x| Amount {
            value: bits(x),
            two_places: format!("{:.2}", x.abs()),
        }),
        currency: "EUR".to_string(),
        remittance_information_unstructured: None,
        remittance_information_structured: Some("structured".to_string()),
        debtor_name: Some("debtor".to_string()),
        creditor_name: Some("creditor".to_string()),
    }
}

#[test]
fn addresses_are_put_together() {
    let base = "https://bankaccountdata.gocardless.com/api/v2";
    assert_eq!(new_token_url(), format!("{base}/token/new/"));
    assert_eq!(refresh_token_url(), format!("{base}/token/refresh/"));
    assert_eq!(
        institutions_url("FR"),
        format!("{base}/institutions/?country=FR")
    );
    assert_eq!(requisitions_url(), format!("{base}/requisitions/"));
    assert_eq!(requisition_url("r1"), format!("{base}/requisitions/r1/"));
    assert_eq!(
        account_details_url("a1"),
        format!("{base}/accounts/a1/details/")
    );
    assert_eq!(
        transactions_url("a1", "2024-01-01"),
        format!("{base}/accounts/a1/transactions/?date_from=2024-01-01")
    );
}

#[test]
fn a_reference_is_new_each_time() {
    let first = requisition_reference();
    let second = requisition_reference();
    assert!(first.starts_with("wealthfolio-"));
    assert_eq!(first.len(), "wealthfolio-".len() + 36);
    assert_ne!(first, second);
}

fn some(text: &str) -> Result<Option<String>, String> {
    Ok(Some(text.to_string()))
}

type Answer = Result<Option<String>, String>;

/// Follows the way to access through the answers of a store, and gives back how
/// it ends and which secrets were asked for.
fn access(
    cached: Answer,
    refresh: Answer,
    client_id: Answer,
    client_secret: Answer,
) -> (TokenStep, Vec<&'static str>) {
    let store = [
        ("nordigen_access_token", cached),
        ("nordigen_refresh_token", refresh),
        ("nordigen_client_id", client_id),
        ("nordigen_client_secret", client_secret),
    ];
    let mut asked = Vec::new();
    let mut step = TokenStep::Ask(TokenQuestion::AccessToken);
    while let TokenStep::Ask(question) = step {
        let name = secret_name_for(&question);
        asked.push(name);
        let answer = store.iter().find(|(key, _)| *key == name).unwrap().1.clone();
        step = token_step(question, answer);
    }
    (step, asked)
}

#[test]
fn a_token_that_is_there_is_used() {
    let (step, asked) = access(some("cached"), Ok(None), Ok(None), Ok(None));
    assert!(matches!(step, TokenStep::Use(token) if token == "cached"));
    assert_eq!(asked, ["nordigen_access_token"]);
}

#[test]
fn a_token_is_refreshed_when_everything_else_is_there() {
    for cached in [Ok(None), some(""), Err("locked".to_string())] {
        let (step, asked) = access(cached, some("refresh"), some("id"), some("secret"));
        assert!(matches!(step, TokenStep::Refresh(token) if token == "refresh"));
        assert_eq!(
            asked,
            [
                "nordigen_access_token",
                "nordigen_refresh_token",
                "nordigen_client_id",
                "nordigen_client_secret"
            ]
        );
    }
}

#[test]
fn what_is_missing_is_named() {
    let cases = [
        (
            access(Ok(None), Ok(None), some("id"), some("secret")),
            "Not authenticated with GoCardless. Please connect first.",
            2,
        ),
        (
            access(Ok(None), some("refresh"), Ok(None), Ok(None)),
            "GoCardless client ID not configured.",
            3,
        ),
        (
            access(Ok(None), some("refresh"), some("id"), Ok(None)),
            "GoCardless client secret not configured.",
            4,
        ),
        (
            access(Ok(None), Err("locked".to_string()), Ok(None), Ok(None)),
            "locked",
            2,
        ),
        (
            access(Ok(None), some("refresh"), some("id"), Err("lost".to_string())),
            "lost",
            4,
        ),
    ];
    for ((step, asked), reason, count) in cases {
        assert!(matches!(step, TokenStep::Fail(given) if given == reason));
        assert_eq!(asked.len(), count);
    }
}

#[test]
fn empty_secrets_other_than_the_access_token_are_there() {
    let (step, _) = access(Ok(None), some(""), some(""), some(""));
    assert!(matches!(step, TokenStep::Refresh(token) if token.is_empty()));
}

#[test]
fn credentials_are_a_client_and_a_token() {
    let filled = Some("x".to_string());
    let empty = Some(String::new());
    assert!(has_credentials(&filled, &filled));
    assert!(!has_credentials(&empty, &filled));
    assert!(!has_credentials(&filled, &empty));
    assert!(!has_credentials(&None, &filled));
    assert!(!has_credentials(&filled, &None));
}

#[test]
fn failures_are_told() {
    assert_eq!(
        expired_message("401"),
        "GoCardless session expired (401). Please reconnect."
    );
    assert_eq!(failure("Failed to x", "why"), "Failed to x: why");
}

#[test]
fn transactions_start_ninety_days_back() {
    // 2024-05-06 12:00:00 UTC
    let now = Timestamp {
        seconds: 1_714_996_800,
        nanos: 0,
    };
    assert_eq!(start_day_at(&None, now).as_deref(), Some("2024-02-06"));
    assert_eq!(
        start_day_at(&Some("2020-01-01".to_string()), now).as_deref(),
        Some("2020-01-01")
    );
    let past = Timestamp {
        seconds: i64::MIN,
        nanos: 0,
    };
    assert_eq!(start_day_at(&None, past), None);
    assert_eq!(start_day(&None).map(|day| day.len()), Some(10));
}

#[test]
fn money_that_enters_is_a_deposit() {
    let activity = map_gc_transaction(&transaction("12,50")).unwrap();
    assert_eq!(activity.id, "gc-2024-05-06-12_50");
    assert_eq!(activity.source_system, "GOCARDLESS");
    assert_eq!(activity.activity_type, "DEPOSIT");
    assert_eq!(activity.trade_date, "2024-05-06");
    assert_eq!(activity.price, UnitPrice::Stated(bits(12.5)));
    assert_eq!(activity.units, bits(1.0));
    assert_eq!(activity.amount.value, bits(12.5));
    assert_eq!(activity.currency, "EUR");
    assert_eq!(activity.description, "structured");
    assert_eq!(activity.fee, bits(0.0));
    assert_eq!(activity.symbol, None);
}

#[test]
fn money_that_leaves_is_a_withdrawal() {
    let mut tx = transaction("-7.25");
    tx.booking_date = None;
    tx.remittance_information_structured = None;
    let activity = map_gc_transaction(&tx).unwrap();
    assert_eq!(activity.id, "gc-2024-05-07-m7_25");
    assert_eq!(activity.activity_type, "WITHDRAWAL");
    assert_eq!(activity.amount.value, bits(7.25));
    assert_eq!(activity.description, "creditor");
    tx.creditor_name = None;
    assert_eq!(map_gc_transaction(&tx).unwrap().description, "debtor");
    tx.debtor_name = None;
    assert_eq!(map_gc_transaction(&tx).unwrap().description, "");
    tx.transaction_id = Some("own".to_string());
    tx.remittance_information_unstructured = Some("free".to_string());
    let activity = map_gc_transaction(&tx).unwrap();
    assert_eq!(activity.id, "own");
    assert_eq!(activity.description, "free");
}

#[test]
fn what_moves_nothing_is_skipped() {
    let mut undated = transaction("5");
    undated.booking_date = None;
    undated.value_date = None;
    let plan = plan_gc_import(&vec![
        transaction("0,00"),
        transaction("much"),
        undated,
        transaction("5"),
    ]);
    assert_eq!(plan.activities.len(), 1);
    assert_eq!(plan.skipped, 3);
    let result = gc_sync_result("wf".to_string(), &plan, 1);
    assert_eq!(result.account_id, "wf");
    assert_eq!(result.transactions_imported, 1);
    assert_eq!(result.transactions_skipped, 3);
}
