use std::sync::Arc;
use wealthfolio::decimal::Decimal;
use wealthfolio::errors::CoreError;
use wealthfolio::fx::{ExchangeRate, MinorUnit};
use wealthfolio::worksheet_calculator::{
    CategoryTarget, DraftIncrease, DraftReduction, IncreaseFunding, LimitedAdjustments,
    SecurityInput,
};
use wealthfolio::worksheet_generation::{
    check_cash, check_target, line_id, min_line_amount, smallest_line_from, usable_tracked_cash,
    AllocationServiceTrait, AllocationTarget, AllocationTargetServiceTrait,
    AllocationWorksheetService, AllocationWorksheetServiceTrait, AssetServiceTrait, AssignedLine,
    DriftReport, DriftRow, DriftServiceTrait, FundingShortfall, FxServiceTrait,
    GenerateCalculatedAdjustmentsInput, HoldingsServiceTrait, QuoteServiceTrait, SequenceDrafts,
    WorksheetCash, WorksheetMode, WorksheetRules,
};
use wealthfolio::worksheet_model::{
    AllocationTargetConstraint, Asset, Holding, HoldingAllocationContribution, HoldingType,
    LatestQuoteSnapshot, Quote, WorksheetDirection,
};

fn dec(mantissa: i128, scale: u32) -> Decimal {
    Decimal::from_parts(mantissa, scale).unwrap()
}

fn target() -> AllocationTarget {
    AllocationTarget {
        taxonomy_id: "asset_classes".to_string(),
        allow_sells: true,
        min_trade_amount: "25".to_string(),
        max_turnover_bps: Some(1000),
        whole_shares_only: true,
    }
}

struct Targets {
    known: bool,
    allow_sells: bool,
}

impl AllocationTargetServiceTrait for Targets {
    fn get_target(&self, target_id: &String) -> Result<Option<AllocationTarget>, CoreError> {
        assert_eq!(target_id, "target-1");
        let mut found = target();
        found.allow_sells = self.allow_sells;
        Ok(if self.known { Some(found) } else { None })
    }

    fn list_target_constraints(
        &self,
        _target_id: &String,
    ) -> Result<Vec<AllocationTargetConstraint>, CoreError> {
        Ok(vec![])
    }
}

struct Drifts;

impl DriftServiceTrait for Drifts {
    fn get_drift_report_for_target(
        &self,
        _target_id: &String,
        _account_ids: &Vec<String>,
        _base_currency: &String,
        _aggregated_account_id: &String,
    ) -> Result<DriftReport, CoreError> {
        Ok(DriftReport {
            total_value: dec(10000, 0),
            deployable_cash: dec(1000, 0),
            rows: vec![
                DriftRow {
                    category_id: "EQUITY".to_string(),
                    category_name: "Equity".to_string(),
                    target_bps: 9000,
                    current_value: dec(8000, 0),
                    is_cash: false,
                },
                DriftRow {
                    category_id: "CASH".to_string(),
                    category_name: "Cash".to_string(),
                    target_bps: 1000,
                    current_value: dec(2000, 0),
                    is_cash: true,
                },
            ],
        })
    }
}

struct Allocations;

impl AllocationServiceTrait for Allocations {
    fn get_holding_contributions_for_taxonomy_for_accounts(
        &self,
        _account_ids: &Vec<String>,
        _base_currency: &String,
        taxonomy_id: &String,
        _aggregated_account_id: &String,
    ) -> Result<Vec<HoldingAllocationContribution>, CoreError> {
        assert_eq!(taxonomy_id, "asset_classes");
        Ok(vec![HoldingAllocationContribution {
            asset_id: "vti".to_string(),
            category_id: "EQUITY".to_string(),
            holding_type: HoldingType::Security,
            value: dec(8000, 0),
        }])
    }
}

struct Holdings {
    fails: bool,
}

impl HoldingsServiceTrait for Holdings {
    fn get_holdings(
        &self,
        account_id: &String,
        _base_currency: &String,
    ) -> Result<Vec<Holding>, CoreError> {
        if self.fails && account_id == "acc-2" {
            return Err(CoreError::NotFound("acc-2 is gone".to_string()));
        }
        Ok(vec![Holding {
            id: format!("{account_id}-vti"),
            instrument_id: Some("vti".to_string()),
            holding_type: HoldingType::Security,
            quantity: dec(40, 0),
        }])
    }
}

struct Assets;

impl AssetServiceTrait for Assets {
    fn get_assets_by_asset_ids(&self, asset_ids: &Vec<String>) -> Result<Vec<Asset>, CoreError> {
        assert_eq!(asset_ids, &vec!["vti".to_string()]);
        Ok(vec![Asset {
            id: "vti".to_string(),
            display_code: Some("VTI".to_string()),
            instrument_symbol: None,
            is_active: true,
            is_investment: true,
            contract_multiplier: Decimal::one(),
        }])
    }
}

struct Quotes;

impl QuoteServiceTrait for Quotes {
    fn get_latest_quotes_snapshot(
        &self,
        _asset_ids: &Vec<String>,
    ) -> Result<Vec<(String, LatestQuoteSnapshot)>, CoreError> {
        Ok(vec![(
            "vti".to_string(),
            LatestQuoteSnapshot {
                quote: Some(Quote {
                    close: dec(100, 0),
                    currency: "USD".to_string(),
                }),
            },
        )])
    }
}

struct Rates;

impl FxServiceTrait for Rates {
    fn get_latest_exchange_rates(&self) -> Result<Vec<ExchangeRate>, CoreError> {
        Ok(vec![])
    }
}

struct Rules;

impl WorksheetRules for Rules {
    fn currency_minor_unit(&self, _currency: &String) -> Decimal {
        dec(1, 2)
    }

    fn minor_units(&self) -> Vec<MinorUnit> {
        vec![]
    }

    fn has_deployable_cash_categories(&self, taxonomy_id: &String) -> bool {
        taxonomy_id == "asset_classes"
    }

    fn run_sequence(
        &self,
        mode: WorksheetMode,
        categories: &Vec<CategoryTarget>,
        securities: &Vec<SecurityInput>,
        planning_total: Decimal,
        cash: Decimal,
        external_cash: &Vec<(String, Decimal)>,
        cash_category_id: &Option<String>,
    ) -> SequenceDrafts {
        assert_eq!(mode, WorksheetMode::Rebalance);
        assert_eq!(categories.len(), 2);
        assert_eq!(securities.len(), 1);
        assert_eq!(securities[0].positions.len(), 2);
        assert_eq!(planning_total, dec(10200, 0));
        assert_eq!(cash, dec(950, 0));
        assert_eq!(external_cash.len(), 1);
        assert_eq!(cash_category_id.as_deref(), Some("CASH"));
        SequenceDrafts {
            increases: vec![DraftIncrease {
                asset_id: "vti".to_string(),
                amount: dec(1150, 0),
                funding: IncreaseFunding::Cash,
            }],
            reductions: vec![DraftReduction {
                asset_id: "gone".to_string(),
                amount: dec(50, 0),
            }],
            unresolved: vec![],
        }
    }

    fn assign_accounts(
        &self,
        adjustments: &LimitedAdjustments,
        _securities: &Vec<SecurityInput>,
        eligible_accounts: &Vec<(String, Vec<String>)>,
        whole_shares_only: bool,
        min_line_amount: Decimal,
    ) -> Vec<AssignedLine> {
        assert!(whole_shares_only);
        assert_eq!(min_line_amount, dec(25, 0));
        assert_eq!(eligible_accounts.len(), 1);
        assert_eq!(eligible_accounts[0].1.len(), 3);
        assert!(adjustments.reductions.is_empty());
        let line = &adjustments.increases[0];
        vec![
            AssignedLine {
                asset_id: line.asset_id.clone(),
                account_id: Some("acc-1".to_string()),
                amount: line.amount,
                quantity: line.quantity,
                unit_price: line.unit_price,
                is_below_minimum: line.is_below_minimum,
            },
            AssignedLine {
                asset_id: "other".to_string(),
                account_id: None,
                amount: dec(-5, 0),
                quantity: dec(-1, 0),
                unit_price: dec(5, 0),
                is_below_minimum: true,
            },
        ]
    }

    fn tracked_cash(&self, holdings: &Vec<Holding>) -> Decimal {
        assert_eq!(holdings.len(), 1);
        if holdings[0].id == "acc-1-vti" {
            dec(600, 0)
        } else {
            dec(350, 0)
        }
    }

    fn account_funding_shortfalls(
        &self,
        assigned: &Vec<AssignedLine>,
        cash_by_account: &Vec<(String, Decimal)>,
        _external_cash: &Vec<(String, Decimal)>,
    ) -> Vec<FundingShortfall> {
        assert_eq!(assigned.len(), 2);
        assert_eq!(
            cash_by_account,
            &vec![
                ("acc-1".to_string(), dec(600, 0)),
                ("acc-2".to_string(), dec(350, 0)),
            ]
        );
        vec![FundingShortfall {
            account_id: "acc-1".to_string(),
            amount: dec(7, 0),
        }]
    }

    fn remaining_cash(
        &self,
        _assigned: &Vec<AssignedLine>,
        tracked_cash: Decimal,
        external_cash: Decimal,
    ) -> Decimal {
        assert_eq!(tracked_cash, dec(950, 0));
        assert_eq!(external_cash, dec(200, 0));
        dec(55, 0)
    }
}

fn input() -> GenerateCalculatedAdjustmentsInput {
    GenerateCalculatedAdjustmentsInput {
        target_id: "target-1".to_string(),
        account_ids: vec![
            "acc-1".to_string(),
            "acc-2".to_string(),
            "acc-1".to_string(),
        ],
        base_currency: "USD".to_string(),
        aggregated_account_id: "TOTAL".to_string(),
        mode: WorksheetMode::Rebalance,
        rule: "current_holdings".to_string(),
        cash: WorksheetCash {
            tracked_cash_to_use: dec(950, 0),
            external_contribution: vec![("acc-2".to_string(), dec(200, 0))],
        },
        eligible_asset_ids: None,
    }
}

type Service = AllocationWorksheetService<
    Targets,
    Drifts,
    Allocations,
    Holdings,
    Assets,
    Quotes,
    Rates,
>;

fn service(known: bool, allow_sells: bool, fails: bool) -> Service {
    AllocationWorksheetService::new(
        Arc::new(Targets { known, allow_sells }),
        Arc::new(Drifts),
        Arc::new(Allocations),
        Arc::new(Holdings { fails }),
        Arc::new(Assets),
        Arc::new(Quotes),
        Arc::new(Rates),
    )
}

#[test]
fn a_worksheet_is_prefilled() {
    let worksheet = service(true, true, false)
        .generate_adjustments(&Rules, input())
        .unwrap()
        .unwrap();

    assert_eq!(worksheet.mode, WorksheetMode::Rebalance);
    assert_eq!(worksheet.rule, "current_holdings");
    assert_eq!(worksheet.adjustments.len(), 2);
    let first = &worksheet.adjustments[0];
    assert_eq!(first.line_id, "calc:vti:acc-1");
    assert_eq!(first.direction, WorksheetDirection::Increase);
    assert_eq!(first.symbol, "VTI");
    assert_eq!(first.account_id.as_deref(), Some("acc-1"));
    assert_eq!(first.quantity, dec(11, 0));
    assert_eq!(first.amount, dec(1100, 0));
    assert!(!first.is_below_minimum);
    let second = &worksheet.adjustments[1];
    assert_eq!(second.line_id, "calc:other:unassigned");
    assert_eq!(second.direction, WorksheetDirection::Reduce);
    assert_eq!(second.symbol, "other");
    assert_eq!(second.account_id, None);
    assert!(second.is_below_minimum);
    assert!(worksheet.unresolved.is_empty());
    assert_eq!(worksheet.scaling.reduction_factor, None);
    assert_eq!(worksheet.remaining_cash, dec(55, 0));
    assert_eq!(worksheet.funding_shortfalls.len(), 1);
}

#[test]
fn a_missing_target_is_not_found() {
    let error = service(false, true, false)
        .generate_adjustments(&Rules, input())
        .unwrap()
        .unwrap_err();
    assert!(matches!(error, CoreError::NotFound(_)));
    assert_eq!(error.message(), "AllocationTarget target-1 not found");
}

#[test]
fn a_target_without_sells_cannot_be_rebalanced() {
    let error = service(true, false, false)
        .generate_adjustments(&Rules, input())
        .unwrap()
        .unwrap_err();
    assert_eq!(
        error.message(),
        "This target disables reductions; enable them before rebalancing"
    );
    let mut found = target();
    found.allow_sells = false;
    assert!(check_target(
        &"target-1".to_string(),
        WorksheetMode::DeployCash,
        Some(found)
    )
    .is_ok());
}

#[test]
fn an_error_of_a_service_is_passed_on() {
    let error = service(true, true, true)
        .generate_adjustments(&Rules, input())
        .unwrap()
        .unwrap_err();
    assert_eq!(error.message(), "acc-2 is gone");
}

#[test]
fn negative_cash_is_refused() {
    let mut asked = input();
    asked.cash.tracked_cash_to_use = dec(-1, 0);
    let error = service(true, true, false)
        .generate_adjustments(&Rules, asked)
        .unwrap()
        .unwrap_err();
    assert_eq!(error.message(), "Worksheet cash values must be non-negative");

    let cash = WorksheetCash {
        tracked_cash_to_use: Decimal::zero(),
        external_contribution: vec![("acc-1".to_string(), dec(-1, 2))],
    };
    assert!(check_cash(&cash, &vec!["acc-1".to_string()]).is_err());
}

#[test]
fn a_contribution_outside_the_scope_is_refused() {
    let cash = WorksheetCash {
        tracked_cash_to_use: Decimal::zero(),
        external_contribution: vec![
            ("acc-1".to_string(), dec(1, 0)),
            ("acc-9".to_string(), dec(1, 0)),
        ],
    };
    let error = check_cash(&cash, &vec!["acc-1".to_string()]).unwrap_err();
    assert_eq!(
        error.message(),
        "External contribution for account acc-9 is outside the resolved scope"
    );
    assert!(check_cash(&cash, &vec!["acc-9".to_string(), "acc-1".to_string()]).is_ok());
}

#[test]
fn tracked_cash_is_limited_to_what_is_deployable() {
    let unit = dec(1, 2);
    assert_eq!(
        usable_tracked_cash(dec(100, 0), dec(100, 0), unit)
            .unwrap()
            .unwrap(),
        dec(100, 0)
    );
    assert_eq!(
        usable_tracked_cash(dec(10001, 2), dec(100, 0), unit)
            .unwrap()
            .unwrap(),
        dec(100, 0)
    );
    let error = usable_tracked_cash(dec(10002, 2), dec(100, 0), unit)
        .unwrap()
        .unwrap_err();
    assert_eq!(
        error.message(),
        "Tracked cash selected (100.02) exceeds observed deployable cash (100)"
    );
}

#[test]
fn the_smallest_line_is_never_negative() {
    assert_eq!(min_line_amount(&"12.5".to_string()), dec(125, 1));
    assert_eq!(min_line_amount(&"-3".to_string()), Decimal::zero());
    assert_eq!(min_line_amount(&"none".to_string()), Decimal::zero());
    assert_eq!(smallest_line_from(Some(dec(3, 0))), dec(3, 0));
    assert_eq!(smallest_line_from(None), Decimal::zero());
}

#[test]
fn a_line_is_identified_by_its_security_and_account() {
    assert_eq!(
        line_id(&"vti".to_string(), &Some("acc".to_string())),
        "calc:vti:acc"
    );
    assert_eq!(line_id(&"vti".to_string(), &None), "calc:vti:unassigned");
}

#[test]
fn a_small_overage_is_cut_off() {
    let exact = || {
        let mut asked = input();
        asked.cash.tracked_cash_to_use = dec(1000, 0);
        asked
    };
    let over = || {
        let mut asked = input();
        asked.cash.tracked_cash_to_use = dec(100001, 2);
        asked
    };
    let first = service(true, true, false)
        .generate_adjustments(&Cut, exact())
        .unwrap()
        .unwrap();
    let second = service(true, true, false)
        .generate_adjustments(&Cut, over())
        .unwrap()
        .unwrap();
    assert_eq!(first.remaining_cash, dec(1000, 0));
    assert_eq!(second.remaining_cash, dec(1000, 0));

    let mut more = input();
    more.cash.tracked_cash_to_use = dec(100002, 2);
    let error = service(true, true, false)
        .generate_adjustments(&Cut, more)
        .unwrap()
        .unwrap_err();
    assert_eq!(
        error.message(),
        "Tracked cash selected (1000.02) exceeds observed deployable cash (1000)"
    );
}

/// Rules under which nothing is drafted.
struct Cut;

impl WorksheetRules for Cut {
    fn currency_minor_unit(&self, _currency: &String) -> Decimal {
        dec(1, 2)
    }

    fn minor_units(&self) -> Vec<MinorUnit> {
        vec![]
    }

    fn has_deployable_cash_categories(&self, _taxonomy_id: &String) -> bool {
        true
    }

    fn run_sequence(
        &self,
        _mode: WorksheetMode,
        _categories: &Vec<CategoryTarget>,
        _securities: &Vec<SecurityInput>,
        _planning_total: Decimal,
        cash: Decimal,
        _external_cash: &Vec<(String, Decimal)>,
        _cash_category_id: &Option<String>,
    ) -> SequenceDrafts {
        assert_eq!(cash, dec(1000, 0));
        SequenceDrafts {
            increases: vec![],
            reductions: vec![],
            unresolved: vec![],
        }
    }

    fn assign_accounts(
        &self,
        _adjustments: &LimitedAdjustments,
        _securities: &Vec<SecurityInput>,
        _eligible_accounts: &Vec<(String, Vec<String>)>,
        _whole_shares_only: bool,
        _min_line_amount: Decimal,
    ) -> Vec<AssignedLine> {
        vec![]
    }

    fn tracked_cash(&self, _holdings: &Vec<Holding>) -> Decimal {
        Decimal::zero()
    }

    fn account_funding_shortfalls(
        &self,
        _assigned: &Vec<AssignedLine>,
        _cash_by_account: &Vec<(String, Decimal)>,
        _external_cash: &Vec<(String, Decimal)>,
    ) -> Vec<FundingShortfall> {
        vec![]
    }

    fn remaining_cash(
        &self,
        _assigned: &Vec<AssignedLine>,
        tracked_cash: Decimal,
        _external_cash: Decimal,
    ) -> Decimal {
        tracked_cash
    }
}

#[test]
fn a_minus_sign_of_zero_is_shown() {
    let minus_zero = Decimal::minus_zero(0).unwrap();
    let error = usable_tracked_cash(minus_zero, dec(-5, 0), dec(1, 2))
        .unwrap()
        .unwrap_err();
    assert_eq!(
        error.message(),
        "Tracked cash selected (-0) exceeds observed deployable cash (-5)"
    );
    assert_eq!(
        usable_tracked_cash(minus_zero, Decimal::zero(), dec(1, 2))
            .unwrap()
            .unwrap(),
        Decimal::zero()
    );
}
