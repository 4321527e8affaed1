use wealthfolio::decimal::{sum_decimals, Decimal};
use wealthfolio::worksheet_calculator::{
    apply_limits, cap_to_held_quantity, category_gaps, combine_intents, finalize, scale_to_funding,
    scale_to_turnover_cap, split_gap, spread_gaps, turnover_cap_value, CategoryTarget,
    DraftIncrease, DraftReduction, IncreaseFunding, Intent, LimitsInput, PositionInput,
    SecurityInput,
};
use wealthfolio::worksheet_model::{UnresolvedReason, WorksheetDirection};

fn dec(mantissa: i128, scale: u32) -> Decimal {
    Decimal::from_parts(mantissa, scale).unwrap()
}

fn combined_amount(combined: &[(String, Decimal)], asset_id: &str) -> Decimal {
    combined
        .iter()
        .find(|entry| entry.0 == asset_id)
        .map(|entry| entry.1)
        .unwrap()
}


fn category(id: &str, target_bps: i32, current_value: Decimal) -> CategoryTarget {
    CategoryTarget {
        category_id: id.to_string(),
        category_name: format!("{id} name"),
        target_bps,
        current_value,
    }
}

fn security(id: &str, values: &[(&str, Decimal)]) -> SecurityInput {
    SecurityInput {
        asset_id: id.to_string(),
        symbol: id.to_string(),
        unit_price: Some(dec(100, 0)),
        is_eligible_for_increase: true,
        category_values: values
            .iter()
            .map(|(category, value)| (category.to_string(), *value))
            .collect(),
        positions: vec![PositionInput {
            account_id: "acc-1".to_string(),
            quantity: dec(10, 0),
            can_reduce: true,
        }],
    }
}

#[test]
fn gap_is_target_value_minus_current_value() {
    let categories = vec![
        category("EQUITY", 6000, dec(5000, 0)),
        category("FIXED_INCOME", 4000, dec(5000, 0)),
    ];

    let gaps = category_gaps(&categories, dec(10000, 0)).unwrap();

    assert_eq!(gaps[0], ("EQUITY".to_string(), dec(1000, 0)));
    assert_eq!(gaps[1], ("FIXED_INCOME".to_string(), dec(-1000, 0)));
}

#[test]
fn gap_uses_planning_total_not_current_total() {
    // Taxonomy without a cash sleeve: the cash being deployed widens the
    // basis, so a category already at its target against the old total is
    // underweight against the new one.
    let categories = vec![category("EQUITY", 10000, dec(10000, 0))];

    let gaps = category_gaps(&categories, dec(12000, 0)).unwrap();

    assert_eq!(gaps[0].1, dec(2000, 0));
}

#[test]
fn split_follows_current_holding_proportions() {
    let securities = vec![
        security("vti", &[("EQUITY", dec(7500, 0))]),
        security("vxus", &[("EQUITY", dec(2500, 0))]),
    ];

    let intents = split_gap("EQUITY", dec(1000, 0), &securities).unwrap().unwrap();

    assert_eq!(intents.len(), 2);
    assert_eq!(intents[0].amount, dec(750, 0));
    assert_eq!(intents[1].amount, dec(250, 0));
}

#[test]
fn split_of_a_negative_gap_produces_reductions() {
    let securities = vec![
        security("vti", &[("EQUITY", dec(6000, 0))]),
        security("vxus", &[("EQUITY", dec(2000, 0))]),
    ];

    let intents = split_gap("EQUITY", dec(-800, 0), &securities).unwrap().unwrap();

    assert_eq!(intents[0].amount, dec(-600, 0));
    assert_eq!(intents[1].amount, dec(-200, 0));
}

#[test]
fn split_weights_only_the_value_attributed_to_the_category() {
    // A 60/40 security carries 6000 of equity, not its whole 10000.
    let securities = vec![
        security(
            "blend",
            &[("EQUITY", dec(6000, 0)), ("FIXED_INCOME", dec(4000, 0))],
        ),
        security("vti", &[("EQUITY", dec(2000, 0))]),
    ];

    let intents = split_gap("EQUITY", dec(800, 0), &securities).unwrap().unwrap();

    assert_eq!(intents[0].amount, dec(600, 0));
    assert_eq!(intents[1].amount, dec(200, 0));
}

#[test]
fn combination_sums_every_category_intent_for_a_security() {
    let intents = vec![
        Intent {
            asset_id: "blend".to_string(),
            category_id: "EQUITY".to_string(),
            amount: dec(600, 0),
        },
        Intent {
            asset_id: "blend".to_string(),
            category_id: "FIXED_INCOME".to_string(),
            amount: dec(-250, 0),
        },
        Intent {
            asset_id: "vti".to_string(),
            category_id: "EQUITY".to_string(),
            amount: dec(200, 0),
        },
    ];

    let combined = combine_intents(&intents).unwrap();

    assert_eq!(combined_amount(&combined, "blend"), dec(350, 0));
    assert_eq!(combined_amount(&combined, "vti"), dec(200, 0));
}

#[test]
fn ineligible_securities_cannot_receive_an_increase() {
    let mut securities = vec![
        security("vti", &[("EQUITY", dec(7500, 0))]),
        security("vxus", &[("EQUITY", dec(2500, 0))]),
    ];
    securities[0].is_eligible_for_increase = false;

    let intents = split_gap("EQUITY", dec(1000, 0), &securities).unwrap().unwrap();

    assert_eq!(intents.len(), 1);
    assert_eq!(intents[0].asset_id, "vxus");
    assert_eq!(intents[0].amount, dec(1000, 0));
}

#[test]
fn eligibility_never_restricts_reductions() {
    let mut securities = vec![security("vti", &[("EQUITY", dec(8000, 0))])];
    securities[0].is_eligible_for_increase = false;

    let intents = split_gap("EQUITY", dec(-500, 0), &securities).unwrap().unwrap();

    assert_eq!(intents[0].asset_id, "vti");
    assert_eq!(intents[0].amount, dec(-500, 0));
}

#[test]
fn protected_positions_cannot_carry_a_reduction() {
    let mut securities = vec![security("vti", &[("EQUITY", dec(8000, 0))])];
    securities[0].positions[0].can_reduce = false;

    let reason = split_gap("EQUITY", dec(-500, 0), &securities).unwrap().unwrap_err();

    assert_eq!(reason, UnresolvedReason::NoEligibleSecurity);
}

#[test]
fn category_with_nothing_recorded_is_unresolved() {
    let securities = vec![security("vti", &[("EQUITY", dec(8000, 0))])];

    let reason = split_gap("COMMODITIES", dec(1000, 0), &securities).unwrap().unwrap_err();

    assert_eq!(reason, UnresolvedReason::NoRecordedSecurity);
}

#[test]
fn category_with_everything_excluded_is_unresolved() {
    let mut securities = vec![security("gld", &[("COMMODITIES", dec(1000, 0))])];
    securities[0].is_eligible_for_increase = false;

    let reason = split_gap("COMMODITIES", dec(1000, 0), &securities).unwrap().unwrap_err();

    assert_eq!(reason, UnresolvedReason::NoEligibleSecurity);
}

#[test]
fn category_without_a_usable_price_is_unresolved() {
    let mut securities = vec![security("gld", &[("COMMODITIES", dec(1000, 0))])];
    securities[0].unit_price = None;

    let reason = split_gap("COMMODITIES", dec(1000, 0), &securities).unwrap().unwrap_err();

    assert_eq!(reason, UnresolvedReason::NoUsablePrice);
}

#[test]
fn carriers_worth_nothing_give_no_proportions_to_work_from() {
    let securities = vec![security("gld", &[("COMMODITIES", dec(0, 0))])];

    let reason = split_gap("COMMODITIES", dec(1000, 0), &securities).unwrap().unwrap_err();

    assert_eq!(reason, UnresolvedReason::NoRecordedSecurity);
}

#[test]
fn a_category_already_on_target_produces_nothing() {
    let securities = vec![security("vti", &[("EQUITY", dec(8000, 0))])];

    assert!(split_gap("EQUITY", Decimal::zero(), &securities)
        .unwrap()
        .unwrap()
        .is_empty());
}

#[test]
fn spreading_keeps_placed_intents_and_unresolved_amounts_apart() {
    let categories = vec![
        category("EQUITY", 8000, dec(7000, 0)),
        category("COMMODITIES", 2000, dec(1000, 0)),
    ];
    let securities = vec![security("vti", &[("EQUITY", dec(7000, 0))])];

    let (intents, unresolved) = spread_gaps(&categories, dec(10000, 0), &securities).unwrap();

    assert_eq!(intents.len(), 1);
    assert_eq!(intents[0].asset_id, "vti");
    assert_eq!(intents[0].amount, dec(1000, 0));
    assert_eq!(unresolved.len(), 1);
    assert_eq!(unresolved[0].category_id, "COMMODITIES");
    assert_eq!(unresolved[0].amount, dec(1000, 0));
    assert_eq!(unresolved[0].reason, UnresolvedReason::NoRecordedSecurity);
}

// ── Limits ───────────────────────────────────────────────────────────────

fn limits() -> LimitsInput {
    LimitsInput {
        tracked_cash: Decimal::zero(),
        external_cash: Decimal::zero(),
        turnover_cap: None,
        min_line_amount: Decimal::zero(),
        whole_shares_only: false,
    }
}

fn increase(asset_id: &str, amount: Decimal, funding: IncreaseFunding) -> DraftIncrease {
    DraftIncrease {
        asset_id: asset_id.to_string(),
        amount,
        funding,
    }
}

fn reduction(asset_id: &str, amount: Decimal) -> DraftReduction {
    DraftReduction {
        asset_id: asset_id.to_string(),
        amount,
    }
}

#[test]
fn turnover_cap_derives_an_amount_from_basis_points() {
    assert_eq!(
        turnover_cap_value(dec(10000, 0), Some(1000)).unwrap(),
        Some(dec(1000, 0))
    );
    assert_eq!(turnover_cap_value(dec(10000, 0), None).unwrap(), None);
}

#[test]
fn a_reduction_cannot_exceed_the_recorded_position() {
    // 10 units at 100 is 1000 held, against a 2500 intent.
    let securities = vec![security("vti", &[("EQUITY", dec(1000, 0))])];

    let result = apply_limits(
        &[],
        &[reduction("vti", dec(2500, 0))],
        &securities,
        &limits(),
    ).unwrap();

    assert_eq!(result.reductions[0].amount, dec(-1000, 0));
    assert_eq!(result.reductions[0].quantity, dec(-10, 0));
}

#[test]
fn a_protected_position_holds_nothing_to_reduce() {
    let mut securities = vec![security("vti", &[("EQUITY", dec(1000, 0))])];
    securities[0].positions[0].can_reduce = false;

    let result = apply_limits(
        &[],
        &[reduction("vti", dec(500, 0))],
        &securities,
        &limits(),
    ).unwrap();

    assert!(result.reductions.is_empty());
}

#[test]
fn turnover_cap_scales_every_reduction_by_the_same_factor() {
    let securities = vec![
        security("vti", &[("EQUITY", dec(1000, 0))]),
        security("vxus", &[("EQUITY", dec(1000, 0))]),
    ];
    let mut input = limits();
    input.turnover_cap = Some(dec(600, 0));

    let result = apply_limits(
        &[],
        &[reduction("vti", dec(800, 0)), reduction("vxus", dec(400, 0))],
        &securities,
        &input,
    ).unwrap();

    // 1200 of reductions scaled by 0.5 to fit a 600 cap.
    assert_eq!(result.scaling.reduction_factor, Some(dec(5, 1)));
    assert_eq!(result.reductions[0].amount, dec(-400, 0));
    assert_eq!(result.reductions[1].amount, dec(-200, 0));
}

#[test]
fn turnover_cap_that_does_not_bind_is_not_reported() {
    let securities = vec![security("vti", &[("EQUITY", dec(1000, 0))])];
    let mut input = limits();
    input.turnover_cap = Some(dec(900, 0));

    let result = apply_limits(
        &[],
        &[reduction("vti", dec(500, 0))],
        &securities,
        &input,
    ).unwrap();

    assert_eq!(result.scaling.reduction_factor, None);
    assert_eq!(result.reductions[0].amount, dec(-500, 0));
}

#[test]
fn increases_are_scaled_to_the_funding_available() {
    let securities = vec![security("vti", &[("EQUITY", dec(1000, 0))])];
    let mut input = limits();
    input.tracked_cash = dec(400, 0);

    let result = apply_limits(
        &[increase("vti", dec(1000, 0), IncreaseFunding::Proceeds)],
        &[],
        &securities,
        &input,
    ).unwrap();

    assert_eq!(result.scaling.increase_factor, Some(dec(4, 1)));
    assert_eq!(result.increases[0].amount, dec(400, 0));
}

#[test]
fn a_shortfall_never_scales_increases_the_first_pass_already_funded() {
    // 500 of cash-funded increases, plus 500 that expected proceeds. The
    // turnover cap leaves only 200 of proceeds, so the 300 shortfall comes
    // off the proceeds-funded line alone.
    let securities = vec![
        security("vti", &[("EQUITY", dec(1000, 0))]),
        security("vxus", &[("EQUITY", dec(1000, 0))]),
        security("bnd", &[("FIXED_INCOME", dec(1000, 0))]),
    ];
    let mut input = limits();
    input.tracked_cash = dec(500, 0);
    input.turnover_cap = Some(dec(200, 0));

    let result = apply_limits(
        &[
            increase("vti", dec(500, 0), IncreaseFunding::Cash),
            increase("vxus", dec(500, 0), IncreaseFunding::Proceeds),
        ],
        &[reduction("bnd", dec(500, 0))],
        &securities,
        &input,
    ).unwrap();

    assert_eq!(result.scaling.increase_factor, Some(dec(4, 1)));
    assert_eq!(
        result.increases[0].amount,
        dec(500, 0),
        "cash-funded untouched"
    );
    assert_eq!(
        result.increases[1].amount,
        dec(200, 0),
        "absorbs the shortfall"
    );
}

#[test]
fn funding_that_covers_everything_scales_nothing() {
    let securities = vec![security("vti", &[("EQUITY", dec(1000, 0))])];
    let mut input = limits();
    input.tracked_cash = dec(1000, 0);

    let result = apply_limits(
        &[increase("vti", dec(600, 0), IncreaseFunding::Cash)],
        &[],
        &securities,
        &input,
    ).unwrap();

    assert_eq!(result.scaling.increase_factor, None);
    assert_eq!(result.increases[0].amount, dec(600, 0));
    assert_eq!(result.remaining_cash, dec(400, 0));
}

#[test]
fn whole_unit_policy_floors_quantities_and_leaves_the_residue_as_cash() {
    let securities = vec![security("vti", &[("EQUITY", dec(1000, 0))])];
    let mut input = limits();
    input.tracked_cash = dec(950, 0);
    input.whole_shares_only = true;

    let result = apply_limits(
        &[increase("vti", dec(950, 0), IncreaseFunding::Cash)],
        &[],
        &securities,
        &input,
    ).unwrap();

    // 9.5 units at 100 floors to 9, so 900 is deployed and 50 is left.
    assert_eq!(result.increases[0].quantity, dec(9, 0));
    assert_eq!(result.increases[0].amount, dec(900, 0));
    assert_eq!(result.remaining_cash, dec(50, 0));
}

#[test]
fn a_sub_minimum_line_is_reported_rather_than_dropped() {
    let securities = vec![security("vti", &[("EQUITY", dec(1000, 0))])];
    let mut input = limits();
    input.tracked_cash = dec(50, 0);
    input.min_line_amount = dec(200, 0);

    let result = apply_limits(
        &[increase("vti", dec(50, 0), IncreaseFunding::Cash)],
        &[],
        &securities,
        &input,
    ).unwrap();

    assert_eq!(result.increases.len(), 1);
    assert!(result.increases[0].is_below_minimum);
    assert_eq!(result.increases[0].amount, dec(50, 0), "never re-rounded up");
}

#[test]
fn reduction_proceeds_fund_increases() {
    let securities = vec![
        security("vti", &[("EQUITY", dec(1000, 0))]),
        security("bnd", &[("FIXED_INCOME", dec(1000, 0))]),
    ];

    let result = apply_limits(
        &[increase("vti", dec(700, 0), IncreaseFunding::Proceeds)],
        &[reduction("bnd", dec(700, 0))],
        &securities,
        &limits(),
    ).unwrap();

    assert_eq!(result.scaling.increase_factor, None);
    assert_eq!(result.increases[0].amount, dec(700, 0));
    assert_eq!(result.reductions[0].amount, dec(-700, 0));
    assert_eq!(result.remaining_cash, Decimal::zero());
}

// ── Single steps ─────────────────────────────────────────────────────────────

#[test]
fn a_reduction_of_an_unknown_security_is_nothing() {
    let securities = vec![security("vti", &[("EQUITY", dec(1000, 0))])];
    let amounts = cap_to_held_quantity(
        &[reduction("vti", dec(400, 0)), reduction("gone", dec(400, 0))],
        &securities,
    )
    .unwrap();
    assert_eq!(amounts, vec![dec(400, 0), Decimal::zero()]);
}

#[test]
fn scaling_to_a_cap_keeps_the_proportions() {
    let amounts = vec![dec(800, 0), dec(400, 0)];
    let (scaled, factor) = scale_to_turnover_cap(&amounts, Some(dec(300, 0))).unwrap();
    assert_eq!(factor, Some(dec(25, 2)));
    assert_eq!(scaled, vec![dec(200, 0), dec(100, 0)]);

    let (kept, factor) = scale_to_turnover_cap(&amounts, None).unwrap();
    assert_eq!(factor, None);
    assert_eq!(kept, amounts);

    let (kept, factor) = scale_to_turnover_cap(&amounts, Some(dec(1200, 0))).unwrap();
    assert_eq!(factor, None);
    assert_eq!(kept, amounts);
}

#[test]
fn a_shortfall_deeper_than_the_proceeds_leaves_nothing_of_them() {
    let drafts = vec![
        increase("vti", dec(1000, 0), IncreaseFunding::Cash),
        increase("vxus", dec(100, 0), IncreaseFunding::Proceeds),
    ];
    let (amounts, factor) = scale_to_funding(&drafts, dec(500, 0)).unwrap();
    assert_eq!(factor, Some(Decimal::zero()));
    assert_eq!(amounts, vec![dec(1000, 0), Decimal::zero()]);
}

#[test]
fn cash_funded_increases_alone_are_never_scaled() {
    let drafts = vec![increase("vti", dec(1000, 0), IncreaseFunding::Cash)];
    let (amounts, factor) = scale_to_funding(&drafts, dec(500, 0)).unwrap();
    assert_eq!(factor, None);
    assert_eq!(amounts, vec![dec(1000, 0)]);
}

#[test]
fn a_line_is_signed_by_its_direction() {
    let line = finalize(
        &"vti".to_string(),
        dec(950, 0),
        dec(100, 0),
        WorksheetDirection::Reduce,
        &limits(),
    )
    .unwrap();
    assert_eq!(line.quantity, dec(-95, 1));
    assert_eq!(line.amount, dec(-950, 0));
    assert_eq!(line.unit_price, dec(100, 0));
    assert!(!line.is_below_minimum);
}

#[test]
fn a_line_without_a_price_cannot_be_made() {
    assert!(finalize(
        &"vti".to_string(),
        dec(950, 0),
        Decimal::zero(),
        WorksheetDirection::Increase,
        &limits(),
    )
    .is_none());
}

#[test]
fn a_draft_without_a_usable_price_gives_no_line() {
    let mut securities = vec![
        security("vti", &[("EQUITY", dec(1000, 0))]),
        security("vxus", &[("EQUITY", dec(1000, 0))]),
    ];
    securities[0].unit_price = None;
    let mut input = limits();
    input.tracked_cash = dec(1000, 0);
    let result = apply_limits(
        &[
            increase("vti", dec(500, 0), IncreaseFunding::Cash),
            increase("vxus", dec(300, 0), IncreaseFunding::Cash),
            increase("vxus", Decimal::zero(), IncreaseFunding::Cash),
        ],
        &[],
        &securities,
        &input,
    )
    .unwrap();
    assert_eq!(result.increases.len(), 1);
    assert_eq!(result.increases[0].asset_id, "vxus");
    assert_eq!(result.remaining_cash, dec(700, 0));
}

#[test]
fn exact_shares_add_up_to_the_gap() {
    let securities = vec![
        security("a", &[("EQUITY", dec(1, 0))]),
        security("b", &[("EQUITY", dec(3, 0))]),
        security("c", &[("EQUITY", dec(4, 0))]),
    ];
    let intents = split_gap("EQUITY", dec(80, 0), &securities).unwrap().unwrap();
    let shares: Vec<Decimal> = intents.iter().map(|intent| intent.amount).collect();
    assert_eq!(shares, vec![dec(10, 0), dec(30, 0), dec(40, 0)]);
    assert_eq!(sum_decimals(&shares), Some(dec(80, 0)));
}

#[test]
fn exact_gaps_cancel_out() {
    let categories = vec![
        category("EQUITY", 6000, dec(9000, 0)),
        category("FIXED_INCOME", 3000, dec(500, 0)),
        category("CASH", 1000, dec(500, 0)),
    ];
    let gaps: Vec<Decimal> = category_gaps(&categories, dec(10000, 0))
        .unwrap()
        .into_iter()
        .map(|gap| gap.1)
        .collect();
    assert_eq!(gaps, vec![dec(-3000, 0), dec(2500, 0), dec(500, 0)]);
    assert_eq!(sum_decimals(&gaps), Some(Decimal::zero()));
}

#[test]
fn what_may_be_reduced_makes_no_difference_to_an_increase() {
    let mut securities = vec![
        security("vti", &[("EQUITY", dec(7500, 0))]),
        security("vxus", &[("EQUITY", dec(2500, 0))]),
    ];
    securities[0].positions[0].can_reduce = false;
    securities[1].positions = vec![];
    let intents = split_gap("EQUITY", dec(1000, 0), &securities)
        .unwrap()
        .unwrap();
    assert_eq!(intents[0].amount, dec(750, 0));
    assert_eq!(intents[1].amount, dec(250, 0));
}

#[test]
fn an_amount_that_does_not_fit_is_reported() {
    let largest = dec(79_228_162_514_264_337_593_543_950_335, 0);
    assert_eq!(turnover_cap_value(largest, Some(20000)), None);
    assert!(combine_intents(&[
        Intent {
            asset_id: "vti".to_string(),
            category_id: "EQUITY".to_string(),
            amount: largest,
        },
        Intent {
            asset_id: "vti".to_string(),
            category_id: "BONDS".to_string(),
            amount: largest,
        },
    ])
    .is_none());
}

#[test]
fn combining_keeps_the_total_and_ignores_the_order() {
    let intent = |asset_id: &str, amount: i128| Intent {
        asset_id: asset_id.to_string(),
        category_id: "EQUITY".to_string(),
        amount: dec(amount, 1),
    };
    let intents = vec![
        intent("a", 5),
        intent("b", -20),
        intent("a", 15),
        intent("c", 7),
        intent("b", 3),
    ];
    let mut turned = intents.clone();
    turned.reverse();
    let combined = combine_intents(&intents).unwrap();
    let amounts: Vec<Decimal> = combined.iter().map(|entry| entry.1).collect();
    assert_eq!(sum_decimals(&amounts), Some(dec(10, 1)));
    let again = combine_intents(&turned).unwrap();
    assert_eq!(again.len(), combined.len());
    for (asset_id, amount) in &combined {
        assert_eq!(combined_amount(&again, asset_id), *amount);
    }
}

#[test]
fn what_is_placed_and_what_is_not_add_up_to_the_gaps() {
    let categories = vec![
        category("EQUITY", 8000, dec(7000, 0)),
        category("BONDS", 1000, dec(1500, 0)),
        category("COMMODITIES", 1000, dec(200, 0)),
    ];
    let securities = vec![
        security("vti", &[("EQUITY", dec(4, 0))]),
        security("vxus", &[("EQUITY", dec(1, 0))]),
        security("bnd", &[("BONDS", dec(1500, 0))]),
    ];
    let gaps: Vec<Decimal> = category_gaps(&categories, dec(10000, 0))
        .unwrap()
        .into_iter()
        .map(|gap| gap.1)
        .collect();
    let (intents, unresolved) = spread_gaps(&categories, dec(10000, 0), &securities).unwrap();
    let placed: Vec<Decimal> = intents.iter().map(|intent| intent.amount).collect();
    let left: Vec<Decimal> = unresolved.iter().map(|gap| gap.amount).collect();
    assert_eq!(placed, vec![dec(800, 0), dec(200, 0), dec(-500, 0)]);
    assert_eq!(left, vec![dec(800, 0)]);
    let all = [placed, left].concat();
    assert_eq!(sum_decimals(&all), sum_decimals(&gaps));
}

#[test]
fn lines_are_signed_and_whole_and_leave_cash() {
    let securities = vec![
        security("vti", &[("EQUITY", dec(1000, 0))]),
        security("bnd", &[("BONDS", dec(1000, 0))]),
    ];
    let mut input = limits();
    input.tracked_cash = dec(500, 0);
    let drafted = [increase("vti", dec(725, 0), IncreaseFunding::Cash)];
    let reduced = [reduction("bnd", dec(250, 0))];
    let result = apply_limits(&drafted, &reduced, &securities, &input).unwrap();
    assert_eq!(result.increases[0].quantity, dec(725, 2));
    assert_eq!(result.reductions[0].quantity, dec(-25, 1));
    assert_eq!(result.remaining_cash, dec(25, 0));

    input.whole_shares_only = true;
    let result = apply_limits(&drafted, &reduced, &securities, &input).unwrap();
    assert_eq!(result.increases[0].quantity, dec(7, 0));
    assert!(result.increases[0].amount.is_positive());
    assert!(result.increases[0].unit_price.is_positive());
    assert!(result.reductions[0].quantity.is_negative());
    assert!(result.reductions[0].amount.is_negative());
}
