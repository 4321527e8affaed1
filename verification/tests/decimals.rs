use wealthfolio::decimal::{sum_decimals, Decimal};

fn dec(mantissa: i128, scale: u32) -> Decimal {
    Decimal::from_parts(mantissa, scale).unwrap()
}

#[test]
fn a_decimal_has_bounds() {
    assert!(Decimal::from_parts(1, 28).is_some());
    assert!(Decimal::from_parts(1, 29).is_none());
    assert!(Decimal::from_parts(79_228_162_514_264_337_593_543_950_335, 0).is_some());
    assert!(Decimal::from_parts(79_228_162_514_264_337_593_543_950_336, 0).is_none());
    assert!(Decimal::from_parts(-79_228_162_514_264_337_593_543_950_336, 0).is_none());
}

#[test]
fn decimals_are_equal_by_value() {
    assert_eq!(dec(110, 1), dec(11, 0));
    assert_eq!(dec(0, 5), Decimal::zero());
    assert_ne!(dec(11, 1), dec(11, 0));
}

#[test]
fn decimals_are_ordered_by_value() {
    assert!(dec(19, 1).is_below(&dec(2, 0)));
    assert!(!dec(20, 1).is_below(&dec(2, 0)));
    assert!(dec(-1, 0).is_negative());
    assert!(dec(1, 28).is_positive());
    assert!(dec(0, 3).is_zero());
    assert_eq!(dec(15, 1).min(dec(1, 0)), dec(1, 0));
    assert_eq!(dec(15, 1).max(dec(1, 0)), dec(15, 1));
    assert_eq!(dec(-25, 1).abs(), dec(25, 1));
}

#[test]
fn a_decimal_keeps_its_parts() {
    let d = dec(-12345, 3);
    assert_eq!(d.mantissa(), -12345);
    assert_eq!(d.scale(), 3);
}

#[test]
fn decimals_add_up() {
    assert_eq!(
        sum_decimals(&[dec(1, 1), dec(2, 1), dec(-3, 1), dec(5, 0)]),
        Some(dec(5, 0))
    );
    assert_eq!(sum_decimals(&[]), Some(Decimal::zero()));
    let largest = dec(79_228_162_514_264_337_593_543_950_335, 0);
    assert_eq!(sum_decimals(&[largest, Decimal::one()]), None);
}

#[test]
fn zero_can_have_a_minus_sign() {
    let minus_zero = Decimal::minus_zero(2).unwrap();
    assert!(minus_zero.is_negated());
    assert!(!minus_zero.is_negative());
    assert!(minus_zero.is_zero());
    assert_eq!(minus_zero.mantissa(), 0);
    assert_eq!(minus_zero.scale(), 2);
    assert_eq!(minus_zero, Decimal::zero());
    assert!(!minus_zero.abs().is_negated());
    assert!(dec(-1, 0).is_negated());
    assert!(!Decimal::zero().is_negated());
    assert!(Decimal::minus_zero(29).is_none());
}
