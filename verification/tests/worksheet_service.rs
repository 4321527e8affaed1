use wealthfolio::decimal::Decimal;
use wealthfolio::fx::{ExchangeRate, MinorUnit};
use wealthfolio::time::Timestamp;
use wealthfolio::worksheet_calculator::SecurityInput;
use wealthfolio::worksheet_model::{
    AllocationTargetConstraint, Asset, ConstraintAction, ConstraintEffect, ConstraintSubjectType,
    Holding, HoldingAllocationContribution, HoldingType, LatestQuoteSnapshot, Quote,
    WorksheetDirection,
};
use wealthfolio::worksheet_service::{
    action_matches, asset_key, eligible_accounts, is_blocked, planning_total, securities_from,
    symbol_of, WorksheetRecords, UNKNOWN_CATEGORY_ID,
};

fn dec(mantissa: i128, scale: u32) -> Decimal {
    Decimal::from_parts(mantissa, scale).unwrap()
}

fn asset(id: &str) -> Asset {
    Asset {
        id: id.to_string(),
        display_code: Some(id.to_ascii_uppercase()),
        instrument_symbol: None,
        is_active: true,
        is_investment: true,
        contract_multiplier: Decimal::one(),
    }
}

fn contribution(
    asset_id: &str,
    category_id: &str,
    value: Decimal,
) -> HoldingAllocationContribution {
    HoldingAllocationContribution {
        asset_id: asset_id.to_string(),
        category_id: category_id.to_string(),
        holding_type: HoldingType::Security,
        value,
    }
}

fn holding(asset_id: &str, account_id: &str, quantity: Decimal) -> Holding {
    Holding {
        id: format!("{account_id}-{asset_id}"),
        instrument_id: Some(asset_id.to_string()),
        holding_type: HoldingType::Security,
        quantity,
    }
}

fn snapshot(close: Decimal, currency: &str) -> LatestQuoteSnapshot {
    LatestQuoteSnapshot {
        quote: Some(Quote {
            close,
            currency: currency.to_string(),
        }),
    }
}

fn constraint(
    subject_type: ConstraintSubjectType,
    subject_id: &str,
    action: ConstraintAction,
    effect: ConstraintEffect,
) -> AllocationTargetConstraint {
    AllocationTargetConstraint {
        subject_type,
        subject_id: subject_id.to_string(),
        action,
        effect,
    }
}

fn records() -> WorksheetRecords {
    WorksheetRecords {
        contributions: vec![contribution("vti", "EQUITY", dec(1000, 0))],
        assets: vec![asset("vti")],
        snapshots: vec![("vti".to_string(), snapshot(dec(100, 0), "USD"))],
        fx_rates: vec![],
        minor_units: vec![],
        holdings_by_account: vec![],
        constraints: vec![],
        eligible_asset_ids: None,
        base_currency: "USD".to_string(),
    }
}

/// One security worth 1000 of equity, 10 units of it in `acc-1`, priced at 100
/// in the base currency.
fn securities(
    constraints: Vec<AllocationTargetConstraint>,
    eligible: Option<Vec<String>>,
) -> Vec<SecurityInput> {
    let mut records = records();
    records.holdings_by_account = vec![(
        "acc-1".to_string(),
        vec![holding("vti", "acc-1", dec(10, 0))],
    )];
    records.constraints = constraints;
    records.eligible_asset_ids = eligible;
    securities_from(&records).unwrap()
}

#[test]
fn the_prefill_and_the_preview_are_sized_against_the_same_total() {
    // With a cash sleeve the tracked cash is already counted; without one,
    // deploying it grows the classified universe.
    assert_eq!(
        planning_total(dec(1000, 0), dec(200, 0), dec(100, 0), true),
        Some(dec(1100, 0))
    );
    assert_eq!(
        planning_total(dec(1000, 0), dec(200, 0), dec(100, 0), false),
        Some(dec(1300, 0))
    );
}

#[test]
fn selecting_no_eligible_security_is_a_valid_state() {
    // The increases that cannot be placed become unresolved category amounts.
    // It is not a validation error.
    let securities = securities(vec![], Some(vec![]));

    assert_eq!(securities.len(), 1);
    assert!(!securities[0].is_eligible_for_increase);
}

#[test]
fn eligibility_gates_increases_and_never_reductions() {
    let securities = securities(vec![], Some(vec!["other".to_string()]));

    assert!(!securities[0].is_eligible_for_increase);
    assert!(
        securities[0]
            .positions
            .iter()
            .all(|position| position.can_reduce),
        "an excluded security can still be sold: not adding to it is a different intent"
    );
}

#[test]
fn no_allowlist_means_every_recorded_security() {
    assert!(securities(vec![], None)[0].is_eligible_for_increase);
}

#[test]
fn a_do_not_sell_constraint_protects_the_position_it_covers() {
    let blocked = securities(
        vec![constraint(
            ConstraintSubjectType::Asset,
            "vti",
            ConstraintAction::Sell,
            ConstraintEffect::Block,
        )],
        None,
    );

    assert!(blocked[0]
        .positions
        .iter()
        .all(|position| !position.can_reduce));
    assert!(
        blocked[0].is_eligible_for_increase,
        "a do-not-sell constraint says nothing about buying"
    );
}

#[test]
fn an_avoid_constraint_leaves_the_prefill_alone() {
    // Avoid warns on the reviewed worksheet; only Block keeps a line from
    // being produced in the first place.
    let securities = securities(
        vec![constraint(
            ConstraintSubjectType::Asset,
            "vti",
            ConstraintAction::Trade,
            ConstraintEffect::Avoid,
        )],
        None,
    );

    assert!(securities[0].is_eligible_for_increase);
    assert!(securities[0]
        .positions
        .iter()
        .all(|position| position.can_reduce));
}

#[test]
fn a_category_constraint_covers_the_securities_that_carry_it() {
    let securities = securities(
        vec![constraint(
            ConstraintSubjectType::Category,
            "EQUITY",
            ConstraintAction::Buy,
            ConstraintEffect::Block,
        )],
        None,
    );

    assert!(!securities[0].is_eligible_for_increase);
}

#[test]
fn an_account_blocked_from_buying_cannot_receive_an_increase() {
    let blocked = || {
        vec![constraint(
            ConstraintSubjectType::Account,
            "acc-2",
            ConstraintAction::Buy,
            ConstraintEffect::Block,
        )]
    };
    let securities = securities(blocked(), None);

    let eligible = eligible_accounts(
        &securities,
        &vec!["acc-1".to_string(), "acc-2".to_string()],
        &blocked(),
    );

    assert_eq!(
        eligible,
        vec![("vti".to_string(), vec!["acc-1".to_string()])]
    );
}

#[test]
fn a_security_the_preview_would_refuse_is_never_a_candidate() {
    let mut records = records();
    records.assets[0].is_active = false;

    let securities = securities_from(&records).unwrap();

    assert!(securities.is_empty());
}

#[test]
fn a_security_without_a_usable_price_carries_none() {
    let mut records = records();
    records.snapshots = vec![];

    let securities = securities_from(&records).unwrap();

    assert_eq!(securities[0].unit_price, None);
}

#[test]
fn a_price_is_converted_into_the_base_currency() {
    let mut records = records();
    records.snapshots = vec![("vti".to_string(), snapshot(dec(100, 0), "EUR"))];
    records.fx_rates = vec![ExchangeRate {
        id: "eur-usd".to_string(),
        from_currency: "EUR".to_string(),
        to_currency: "USD".to_string(),
        rate: dec(11, 1),
        source: "manual".to_string(),
        timestamp: Timestamp {
            seconds: 1_700_000_000,
            nanos: 0,
        },
    }];

    let securities = securities_from(&records).unwrap();

    assert_eq!(securities[0].unit_price, Some(dec(1100, 1)));
}

#[test]
fn the_unclassified_residual_travels_with_the_classification() {
    // The projection has to spread an amount exactly as the preview's
    // exposures do, so the residual is part of the security's value. It
    // carries no target, so no category gap ever reaches it.
    let mut records = records();
    records.contributions = vec![
        contribution("vti", "EQUITY", dec(650, 0)),
        contribution("vti", UNKNOWN_CATEGORY_ID, dec(350, 0)),
    ];

    let securities = securities_from(&records).unwrap();

    assert_eq!(
        securities[0].category_values,
        vec![
            ("EQUITY".to_string(), dec(650, 0)),
            (UNKNOWN_CATEGORY_ID.to_string(), dec(350, 0)),
        ]
    );
}

#[test]
fn a_position_is_where_the_units_actually_sit() {
    let mut records = records();
    records.holdings_by_account = vec![
        (
            "acc-1".to_string(),
            vec![holding("vti", "acc-1", dec(6, 0))],
        ),
        (
            "acc-2".to_string(),
            vec![holding("vti", "acc-2", dec(4, 0))],
        ),
    ];

    let securities = securities_from(&records).unwrap();

    let positions = &securities[0].positions;
    assert_eq!(positions.len(), 2);
    assert_eq!(positions[0].account_id, "acc-1");
    assert_eq!(positions[0].quantity, dec(6, 0));
    assert_eq!(positions[1].account_id, "acc-2");
    assert_eq!(positions[1].quantity, dec(4, 0));
}

#[test]
fn securities_come_in_ascending_order_each_once() {
    let mut records = records();
    records.contributions = vec![
        contribution("vxus", "EQUITY", dec(10, 0)),
        contribution("bnd", "FIXED_INCOME", dec(20, 0)),
        contribution("vxus", "EQUITY", dec(5, 0)),
    ];
    records.assets = vec![asset("vxus"), asset("bnd")];

    let securities = securities_from(&records).unwrap();

    assert_eq!(securities.len(), 2);
    assert_eq!(securities[0].asset_id, "bnd");
    assert_eq!(securities[0].symbol, "BND");
    assert_eq!(securities[1].asset_id, "vxus");
    assert_eq!(
        securities[1].category_values,
        vec![("EQUITY".to_string(), dec(15, 0))]
    );
}

#[test]
fn cash_contributions_and_empty_holdings_are_left_out() {
    let mut records = records();
    records.contributions[0].holding_type = HoldingType::Cash;
    assert!(securities_from(&records).unwrap().is_empty());

    records.contributions[0].holding_type = HoldingType::Security;
    records.holdings_by_account = vec![(
        "acc-1".to_string(),
        vec![
            holding("vti", "acc-1", Decimal::zero()),
            holding("vti", "acc-1", dec(-3, 0)),
        ],
    )];
    assert!(securities_from(&records).unwrap()[0].positions.is_empty());
}

#[test]
fn a_price_in_pence_is_converted_through_the_pound() {
    let mut records = records();
    records.snapshots = vec![("vti".to_string(), snapshot(dec(500, 0), "GBp"))];
    records.base_currency = "GBP".to_string();
    records.minor_units = vec![MinorUnit {
        code: "GBp".to_string(),
        major: "GBP".to_string(),
        multiplier: dec(100, 0),
    }];

    let securities = securities_from(&records).unwrap();

    // Pence and pounds share their letters, and a pound is still a hundred pence.
    assert_eq!(securities[0].unit_price, Some(dec(5, 0)));

    records.minor_units[0].code = "GBX".to_string();
    records.snapshots = vec![("vti".to_string(), snapshot(dec(250, 0), "GBX"))];
    let securities = securities_from(&records).unwrap();
    assert_eq!(securities[0].unit_price, Some(dec(25, 1)));
}

#[test]
fn a_price_that_is_not_positive_is_none() {
    let mut records = records();
    records.snapshots = vec![("vti".to_string(), snapshot(Decimal::zero(), "USD"))];
    assert_eq!(securities_from(&records).unwrap()[0].unit_price, None);

    records.snapshots = vec![("vti".to_string(), snapshot(dec(100, 0), "CHF"))];
    assert_eq!(securities_from(&records).unwrap()[0].unit_price, None);
}

#[test]
fn a_sum_that_does_not_fit_is_reported() {
    let largest = dec(79_228_162_514_264_337_593_543_950_335, 0);
    let mut records = records();
    records.contributions = vec![
        contribution("vti", "EQUITY", largest),
        contribution("vti", "EQUITY", largest),
    ];
    assert!(securities_from(&records).is_none());
    assert_eq!(
        planning_total(largest, largest, Decimal::zero(), false),
        None
    );
}

#[test]
fn an_action_restricts_its_own_direction() {
    assert!(action_matches(
        WorksheetDirection::Increase,
        ConstraintAction::Buy
    ));
    assert!(!action_matches(
        WorksheetDirection::Increase,
        ConstraintAction::Sell
    ));
    assert!(action_matches(
        WorksheetDirection::Reduce,
        ConstraintAction::Sell
    ));
    assert!(!action_matches(
        WorksheetDirection::Reduce,
        ConstraintAction::Buy
    ));
    assert!(action_matches(
        WorksheetDirection::Reduce,
        ConstraintAction::Trade
    ));
}

#[test]
fn an_account_constraint_needs_an_account() {
    let constraints = vec![constraint(
        ConstraintSubjectType::Account,
        "acc-1",
        ConstraintAction::Trade,
        ConstraintEffect::Block,
    )];
    let asset_id = "vti".to_string();
    let account_id = "acc-1".to_string();
    let other = "acc-2".to_string();
    let none = vec![];
    assert!(!is_blocked(
        &constraints,
        WorksheetDirection::Increase,
        &asset_id,
        None,
        &none
    ));
    assert!(is_blocked(
        &constraints,
        WorksheetDirection::Increase,
        &asset_id,
        Some(&account_id),
        &none
    ));
    assert!(!is_blocked(
        &constraints,
        WorksheetDirection::Increase,
        &asset_id,
        Some(&other),
        &none
    ));
}

#[test]
fn a_holding_is_keyed_by_its_instrument_or_itself() {
    let mut held = holding("vti", "acc-1", dec(1, 0));
    assert_eq!(asset_key(&held), "vti");
    held.instrument_id = None;
    assert_eq!(asset_key(&held), "acc-1-vti");
}

#[test]
fn an_asset_is_shown_by_its_code_its_symbol_or_its_id() {
    let mut shown = asset("vti");
    assert_eq!(symbol_of(&shown), "VTI");
    shown.display_code = None;
    shown.instrument_symbol = Some("VTI.US".to_string());
    assert_eq!(symbol_of(&shown), "VTI.US");
    shown.instrument_symbol = None;
    assert_eq!(symbol_of(&shown), "vti");
}
