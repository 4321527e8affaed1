use std::sync::Arc;
use wealthfolio::decimal::Decimal;
use wealthfolio::portfolio_targets::{
    default_account_id, AiEnvironment, AiError, CategoryDeviation, DeviationReport,
    GetPortfolioTargetsArgs, GetPortfolioTargetsTool, HoldingTarget, PortfolioTarget,
    TargetAllocation,
};

fn dec(mantissa: i128, scale: u32) -> Decimal {
    Decimal::from_parts(mantissa, scale).unwrap()
}

fn target(id: &str, is_active: bool) -> PortfolioTarget {
    PortfolioTarget {
        id: id.to_string(),
        is_active,
    }
}

fn deviation(category_id: &str) -> CategoryDeviation {
    CategoryDeviation {
        category_id: category_id.to_string(),
        category_name: format!("{category_id} name"),
        target_percent: dec(60, 0),
        current_percent: dec(55, 0),
        deviation_percent: dec(-5, 0),
        current_value: dec(5500, 0),
        target_value: dec(6000, 0),
        value_delta: dec(500, 0),
        is_locked: true,
    }
}

struct Environment;

impl AiEnvironment for Environment {
    fn base_currency(&self) -> String {
        "CHF".to_string()
    }

    fn get_targets_by_account(&self, account_id: &String) -> Result<Vec<PortfolioTarget>, String> {
        match account_id.as_str() {
            "TOTAL" => Ok(vec![
                target("t1", true),
                target("t2", false),
                target("t3", true),
            ]),
            "broken" => Ok(vec![target("t1", true), target("no report", true)]),
            "half" => Ok(vec![target("no allocations", true)]),
            _ => Err("no such account".to_string()),
        }
    }

    fn get_deviation_report(
        &self,
        target_id: &String,
        base_currency: &String,
    ) -> Result<DeviationReport, String> {
        assert_eq!(base_currency, "CHF");
        if target_id == "no report" {
            return Err("no report".to_string());
        }
        Ok(DeviationReport {
            target_id: target_id.clone(),
            target_name: format!("{target_id} name"),
            account_id: "TOTAL".to_string(),
            taxonomy_id: "classes".to_string(),
            total_value: dec(10000, 0),
            deviations: vec![deviation("EQUITY"), deviation("BONDS"), deviation("GOLD")],
        })
    }

    fn get_allocations_by_target(
        &self,
        target_id: &String,
    ) -> Result<Vec<TargetAllocation>, String> {
        if target_id == "no allocations" {
            return Err("no allocations".to_string());
        }
        Ok(vec![
            TargetAllocation {
                id: "equity".to_string(),
                category_id: "EQUITY".to_string(),
            },
            TargetAllocation {
                id: "lost".to_string(),
                category_id: "BONDS".to_string(),
            },
        ])
    }

    fn get_holding_targets_by_allocation(
        &self,
        allocation_id: &String,
    ) -> Result<Vec<HoldingTarget>, String> {
        if allocation_id == "equity" {
            Ok(vec![HoldingTarget {
                asset_id: "vti".to_string(),
                target_percent: 30,
                is_locked: false,
            }])
        } else {
            Err("lost".to_string())
        }
    }
}

fn call(
    account_id: &str,
) -> Result<wealthfolio::portfolio_targets::GetPortfolioTargetsOutput, AiError> {
    let tool = GetPortfolioTargetsTool::new(Arc::new(Environment));
    tool.clone().call(GetPortfolioTargetsArgs {
        account_id: account_id.to_string(),
    })
}

#[test]
fn every_active_target_is_reported() {
    assert_eq!(default_account_id(), "TOTAL");
    let output = call(&default_account_id()).unwrap();
    assert_eq!(output.targets.len(), 2);
    assert_eq!(output.targets[0].target_id, "t1");
    assert_eq!(output.targets[1].target_id, "t3");
    let summary = &output.targets[1];
    assert_eq!(summary.target_name, "t3 name");
    assert_eq!(summary.account_id, "TOTAL");
    assert_eq!(summary.taxonomy_id, "classes");
    assert_eq!(summary.total_value, dec(10000, 0));
    assert_eq!(summary.currency, "CHF");
    assert_eq!(summary.deviations.len(), 3);
    let equity = &summary.deviations[0];
    assert_eq!(equity.category_id, "EQUITY");
    assert_eq!(equity.category_name, "EQUITY name");
    assert_eq!(equity.target_percent, dec(60, 0));
    assert_eq!(equity.current_percent, dec(55, 0));
    assert_eq!(equity.deviation_percent, dec(-5, 0));
    assert_eq!(equity.current_value, dec(5500, 0));
    assert_eq!(equity.target_value, dec(6000, 0));
    assert_eq!(equity.value_delta, dec(500, 0));
    assert!(equity.is_locked);
    assert_eq!(equity.holding_targets.len(), 1);
    assert_eq!(equity.holding_targets[0].asset_id, "vti");
    assert_eq!(equity.holding_targets[0].target_percent, 30);
    assert!(!equity.holding_targets[0].is_locked);
    assert!(summary.deviations[1].holding_targets.is_empty());
    assert!(summary.deviations[2].holding_targets.is_empty());
}

#[test]
fn the_first_error_is_passed_on() {
    for (account_id, reason) in [
        ("nobody", "no such account"),
        ("broken", "no report"),
        ("half", "no allocations"),
    ] {
        let AiError::ToolExecutionFailed(given) = call(account_id).unwrap_err();
        assert_eq!(given, reason);
    }
}
