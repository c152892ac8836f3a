//! The finite-number test on cell text agrees with `f64` parsing at the
//! overflow boundary.
use jz_office_core::xlsx::decimal::{is_finite_number, DOUBLE_LIMIT};

fn f64_finite(s: &str) -> bool {
    s.parse::<f64>().map(|v| v.is_finite()).unwrap_or(false)
}

fn agree(s: &str) {
    assert_eq!(is_finite_number(s), f64_finite(s), "{s}");
}

#[test]
fn limit_itself_overflows() {
    assert!(!is_finite_number(DOUBLE_LIMIT));
    agree(DOUBLE_LIMIT);
}

#[test]
fn one_below_limit_is_finite() {
    let mut below = DOUBLE_LIMIT.to_owned();
    below.pop();
    below.push('1');
    assert!(is_finite_number(&below));
    agree(&below);
}

#[test]
fn largest_double_is_finite() {
    let max = format!("{:.0}", f64::MAX);
    assert!(is_finite_number(&max));
    agree(&max);
}

#[test]
fn boundary_in_scientific_notation() {
    for s in [
        "1.7976931348623157e308",
        "1.7976931348623158e308",
        "1.7976931348623159e308",
        "-1.7976931348623158E+308",
        "-1.7976931348623159e308",
        "17976931348623158.0793e292",
        "0.17976931348623158079e309",
        "0.17976931348623158080e309",
        "1e308",
        "1e309",
        "2e308",
        "+1.0e-400",
    ] {
        agree(s);
    }
}
