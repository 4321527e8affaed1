use wealthfolio::decimal::Decimal;
use wealthfolio::errors::CoreError;
use wealthfolio::fx::{
    convert, find_route, resolve_fx_source, resolve_fx_source_at, ExchangeRate, MinorUnit,
};
use wealthfolio::time::Timestamp;
use wealthfolio::walks::{least_walk, Arc};

fn dec(mantissa: i128, scale: u32) -> Decimal {
    Decimal::from_parts(mantissa, scale).unwrap()
}

fn at(seconds: i64) -> Timestamp {
    Timestamp { seconds, nanos: 0 }
}

fn rate(id: &str, from: &str, to: &str, value: Decimal, seconds: i64) -> ExchangeRate {
    ExchangeRate {
        id: id.to_string(),
        from_currency: from.to_string(),
        to_currency: to.to_string(),
        rate: value,
        source: "manual".to_string(),
        timestamp: at(seconds),
    }
}

#[test]
fn the_same_currency_needs_no_rate() {
    let (value, source, used) = resolve_fx_source_at(&[], &[], "usd", "USD", at(0))
        .unwrap()
        .unwrap();
    assert_eq!(value, Decimal::one());
    assert!(source.is_none());
    assert!(used.is_empty());
}

#[test]
fn one_rate_is_taken_in_either_direction() {
    let rates = vec![rate("eur-usd", "EUR", "USD", dec(125, 2), 86_400)];
    let (value, source, used) = resolve_fx_source_at(&rates, &[], "EUR", "USD", at(90_000))
        .unwrap()
        .unwrap();
    assert_eq!(value, dec(125, 2));
    let source = source.unwrap();
    assert_eq!(source.id, "eur-usd");
    assert_eq!(source.source_type, "fx_rate");
    assert_eq!(source.value, dec(125, 2));
    assert_eq!(source.from_currency, "EUR");
    assert_eq!(source.to_currency, "USD");
    assert_eq!(source.timestamp, "1970-01-02T00:00:00+00:00");
    assert!(!source.is_stale);
    assert_eq!(used.len(), 1);

    let (value, _, _) = resolve_fx_source_at(&rates, &[], "USD", "EUR", at(90_000))
        .unwrap()
        .unwrap();
    assert_eq!(value, dec(8, 1));
}

#[test]
fn a_rate_from_an_earlier_day_is_stale() {
    let rates = vec![rate("eur-usd", "EUR", "USD", dec(125, 2), 86_399)];
    let (_, source, _) = resolve_fx_source_at(&rates, &[], "EUR", "USD", at(86_400))
        .unwrap()
        .unwrap();
    assert!(source.unwrap().is_stale);
}

#[test]
fn the_present_moment_makes_an_old_rate_stale() {
    let rates = vec![rate("eur-usd", "EUR", "USD", dec(125, 2), 86_399)];
    let (value, source, _) = resolve_fx_source("EUR", "USD", &rates, &[])
        .unwrap()
        .unwrap();
    assert_eq!(value, dec(125, 2));
    assert!(source.unwrap().is_stale);
}

#[test]
fn a_path_takes_as_few_rates_as_it_can() {
    let rates = vec![
        rate("a", "EUR", "GBP", dec(2, 0), 300),
        rate("b", "GBP", "CHF", dec(3, 0), 200),
        rate("c", "CHF", "USD", dec(5, 0), 100),
        rate("d", "EUR", "JPY", dec(7, 0), 50),
        rate("e", "JPY", "USD", dec(11, 0), 400),
    ];
    let (value, source, used) = resolve_fx_source_at(&rates, &[], "EUR", "USD", at(500))
        .unwrap()
        .unwrap();
    assert_eq!(value, dec(77, 0));
    let source = source.unwrap();
    assert_eq!(source.id, "d>e");
    assert_eq!(source.source_type, "fx_path");
    assert_eq!(source.timestamp, "1970-01-01T00:00:50+00:00");
    assert_eq!(used.len(), 2);
}

#[test]
fn paths_as_long_go_by_the_currency_then_the_id_then_the_place() {
    let rates = vec![
        rate("z", "EUR", "JPY", dec(7, 0), 0),
        rate("z", "JPY", "USD", dec(11, 0), 0),
        rate("m", "EUR", "CHF", dec(3, 0), 0),
        rate("k", "EUR", "CHF", dec(2, 0), 0),
        rate("k", "EUR", "CHF", dec(4, 0), 0),
        rate("y", "CHF", "USD", dec(5, 0), 0),
    ];
    let (value, steps) = convert(&rates, &[], "EUR", "USD").unwrap().unwrap();
    assert_eq!(value, dec(10, 0));
    assert_eq!(steps.len(), 2);
    assert_eq!(steps[0].index, 3);
    assert!(!steps[0].reversed);
    assert_eq!(steps[1].index, 5);
}

#[test]
fn useless_rates_are_passed_over() {
    let rates = vec![
        rate("zero", "EUR", "USD", Decimal::zero(), 0),
        rate("negative", "EUR", "USD", dec(-1, 0), 0),
        rate("self", "EUR", "eur", dec(2, 0), 0),
    ];
    let error = convert(&rates, &[], "EUR", "USD").unwrap().unwrap_err();
    assert!(matches!(error, CoreError::InvalidInput(_)));
    assert_eq!(
        error.message(),
        "No attributable FX rate is available for EUR/USD"
    );
    assert!(find_route(&rates, &[], &"EUR".to_string(), &"USD".to_string()).is_none());
}

#[test]
fn a_minor_unit_is_counted_in_its_major_one() {
    let units = vec![MinorUnit {
        code: "GBX".to_string(),
        major: "GBP".to_string(),
        multiplier: dec(100, 0),
    }];
    let rates = vec![rate("gbp-usd", "GBP", "USD", dec(125, 2), 0)];
    let (value, _) = convert(&rates, &units, "GBX", "USD").unwrap().unwrap();
    assert_eq!(value, dec(125, 4));
    let (value, steps) = convert(&rates, &units, "GBX", "GBP").unwrap().unwrap();
    assert_eq!(value, dec(1, 2));
    assert!(steps.is_empty());
    let (value, _) = convert(&rates, &units, "USD", "GBX").unwrap().unwrap();
    assert_eq!(value, dec(80, 0));
}

#[test]
fn a_rate_that_does_not_fit_is_reported() {
    let largest = dec(79_228_162_514_264_337_593_543_950_335, 0);
    let rates = vec![
        rate("a", "EUR", "GBP", largest, 0),
        rate("b", "GBP", "USD", largest, 0),
    ];
    assert!(convert(&rates, &[], "EUR", "USD").is_none());
}

#[test]
fn a_moment_out_of_the_calendar_is_reported() {
    let rates = vec![rate("eur-usd", "EUR", "USD", dec(125, 2), i64::MAX)];
    assert!(resolve_fx_source_at(&rates, &[], "EUR", "USD", at(0)).is_none());
}

fn arc(from: &str, to: &str) -> Arc {
    Arc {
        from: from.to_string(),
        to: to.to_string(),
    }
}

#[test]
fn the_least_walk_is_short_and_early() {
    let arcs = vec![
        arc("a", "b"),
        arc("a", "c"),
        arc("c", "d"),
        arc("b", "d"),
        arc("b", "a"),
    ];
    assert_eq!(
        least_walk(&arcs, &"a".to_string(), &"d".to_string()),
        Some(vec![0, 3])
    );
    assert_eq!(
        least_walk(&arcs, &"a".to_string(), &"a".to_string()),
        Some(vec![])
    );
    assert_eq!(least_walk(&arcs, &"d".to_string(), &"a".to_string()), None);
}
