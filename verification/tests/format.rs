//! Number format rendering: exact renderings of supported codes and `None` for the rest.
use jz_office_core::xlsx::dates::calendar;
use jz_office_core::xlsx::format::{builtin, display};

#[test]
fn general_preserves_big_integer() {
    let actual = display("9007199254740993", "General", false);
    assert_eq!(actual.as_deref(), Some("9007199254740993"));
}

#[test]
fn general_preserves_exponent() {
    let actual = display("1.234567890123456789e-20", "general", false);
    assert_eq!(actual.as_deref(), Some("1.234567890123456789e-20"));
}

#[test]
fn text_preserves_spelling() {
    let actual = display("001.200", "@", false);
    assert_eq!(actual.as_deref(), Some("001.200"));
}

#[test]
fn integer_rounds_half_up() {
    let actual = display("12.5", "0", false);
    assert_eq!(actual.as_deref(), Some("13"));
}

#[test]
fn negative_rounds_away_from_zero() {
    let actual = display("-12.5", "0", false);
    assert_eq!(actual.as_deref(), Some("-13"));
}

#[test]
fn decimal_pads_zeros() {
    let actual = display("12", "0.00", false);
    assert_eq!(actual.as_deref(), Some("12.00"));
}

#[test]
fn decimal_rounds_exact_tie() {
    let actual = display("1.005", "0.00", false);
    assert_eq!(actual.as_deref(), Some("1.01"));
}

#[test]
fn decimal_retains_source_precision() {
    let actual = display("9007199254740993.125", "0.00", false);
    assert_eq!(actual.as_deref(), Some("9007199254740993.13"));
}

#[test]
fn grouping_retains_big_integer() {
    let actual = display("9007199254740993", "#,##0", false);
    assert_eq!(actual.as_deref(), Some("9,007,199,254,740,993"));
}

#[test]
fn grouping_rounds_across_carry() {
    let actual = display("999999.995", "#,##0.00", false);
    assert_eq!(actual.as_deref(), Some("1,000,000.00"));
}

#[test]
fn grouping_keeps_negative_sign() {
    let actual = display("-1234.5", "#,##0.00", false);
    assert_eq!(actual.as_deref(), Some("-1,234.50"));
}

#[test]
fn percent_scales_exactly() {
    let actual = display("0.12345", "0.00%", false);
    assert_eq!(actual.as_deref(), Some("12.35%"));
}

#[test]
fn percent_rounds_integer() {
    let actual = display(".125", "0%", false);
    assert_eq!(actual.as_deref(), Some("13%"));
}

#[test]
fn percent_groups() {
    let actual = display("123.456", "#,##0.0%", false);
    assert_eq!(actual.as_deref(), Some("12,345.6%"));
}

#[test]
fn exponent_input_renders_decimal() {
    let actual = display("+1.2345E+3", "0.00", false);
    assert_eq!(actual.as_deref(), Some("1234.50"));
}

#[test]
fn exponent_input_rounds_tiny() {
    let actual = display("5e-3", "0.00", false);
    assert_eq!(actual.as_deref(), Some("0.01"));
}

#[test]
fn decimal_handles_leading_zeros() {
    let actual = display("00012.3000", "0.00", false);
    assert_eq!(actual.as_deref(), Some("12.30"));
}

#[test]
fn decimal_handles_dot_prefix() {
    let actual = display("-.50", "0.00", false);
    assert_eq!(actual.as_deref(), Some("-0.50"));
}

#[test]
fn decimal_handles_dot_suffix() {
    let actual = display("12.", "0.00", false);
    assert_eq!(actual.as_deref(), Some("12.00"));
}

#[test]
fn zero_omits_negative_sign() {
    let actual = display("-0.0001", "0.00", false);
    assert_eq!(actual.as_deref(), Some("0.00"));
}

#[test]
fn optional_decimals_trim() {
    let actual = display("1.20", "0.0##", false);
    assert_eq!(actual.as_deref(), Some("1.2"));
}

#[test]
fn optional_decimals_omit_dot() {
    let actual = display("1.000", "0.##", false);
    assert_eq!(actual.as_deref(), Some("1"));
}

#[test]
fn mandatory_decimals_remain() {
    let actual = display("1.000", "0.00##", false);
    assert_eq!(actual.as_deref(), Some("1.00"));
}

#[test]
fn zero_with_exponent() {
    let actual = display("0e300", "0.00", false);
    assert_eq!(actual.as_deref(), Some("0.00"));
}

#[test]
fn tiny_finite_value() {
    let actual = display("1e-300", "0.00", false);
    assert_eq!(actual.as_deref(), Some("0.00"));
}

#[test]
fn first_1900_day() {
    let actual = display("1", "yyyy-mm-dd", false);
    assert_eq!(actual.as_deref(), Some("1900-01-01"));
}

#[test]
fn pre_leap_1900_day() {
    let actual = display("59", "yyyy-mm-dd", false);
    assert_eq!(actual.as_deref(), Some("1900-02-28"));
}

#[test]
fn fake_1900_leap_day() {
    let actual = display("60", "yyyy-mm-dd", false);
    assert_eq!(actual.as_deref(), Some("1900-02-29"));
}

#[test]
fn post_leap_1900_day() {
    let actual = display("61", "yyyy-mm-dd", false);
    assert_eq!(actual.as_deref(), Some("1900-03-01"));
}

#[test]
fn first_1904_day() {
    let actual = display("0", "yyyy-mm-dd", true);
    assert_eq!(actual.as_deref(), Some("1904-01-01"));
}

#[test]
fn real_1904_leap_day() {
    let actual = display("59", "yyyy-mm-dd", true);
    assert_eq!(actual.as_deref(), Some("1904-02-29"));
}

#[test]
fn modern_1900_date() {
    let actual = display("45292", "yyyy-mm-dd", false);
    assert_eq!(actual.as_deref(), Some("2024-01-01"));
}

#[test]
fn modern_1904_date() {
    let actual = display("43830", "yyyy-mm-dd", true);
    assert_eq!(actual.as_deref(), Some("2024-01-01"));
}

#[test]
fn leap_2000_day() {
    let actual = display("36585", "yyyy-mm-dd", false);
    assert_eq!(actual.as_deref(), Some("2000-02-29"));
}

#[test]
fn century_2100_march() {
    let actual = display("73110", "yyyy-mm-dd", false);
    assert_eq!(actual.as_deref(), Some("2100-03-01"));
}

#[test]
fn numeric_short_date() {
    let actual = display("45292", "m/d/yy", false);
    assert_eq!(actual.as_deref(), Some("1/1/24"));
}

#[test]
fn padded_short_date() {
    let actual = display("45292", "mm-dd-yy", false);
    assert_eq!(actual.as_deref(), Some("01-01-24"));
}

#[test]
fn month_name_date() {
    let actual = display("45292", "d-mmm-yy", false);
    assert_eq!(actual.as_deref(), Some("1-Jan-24"));
}

#[test]
fn month_day_date() {
    let actual = display("45292", "d-mmm", false);
    assert_eq!(actual.as_deref(), Some("1-Jan"));
}

#[test]
fn month_year_date() {
    let actual = display("45292", "mmm-yy", false);
    assert_eq!(actual.as_deref(), Some("Jan-24"));
}

#[test]
fn datetime_has_month_and_minutes() {
    let actual = display("45292.75", "m/d/yy h:mm", false);
    assert_eq!(actual.as_deref(), Some("1/1/24 18:00"));
}

#[test]
fn noon_time() {
    let actual = display("0.5", "h:mm", false);
    assert_eq!(actual.as_deref(), Some("12:00"));
}

#[test]
fn seconds_time() {
    let actual = display("0.0625", "h:mm:ss", false);
    assert_eq!(actual.as_deref(), Some("1:30:00"));
}

#[test]
fn padded_hour_time() {
    let actual = display("0.0625", "hh:mm:ss", false);
    assert_eq!(actual.as_deref(), Some("01:30:00"));
}

#[test]
fn morning_time() {
    let actual = display("0.0625", "h:mm AM/PM", false);
    assert_eq!(actual.as_deref(), Some("1:30 AM"));
}

#[test]
fn evening_time() {
    let actual = display("0.75", "h:mm:ss AM/PM", false);
    assert_eq!(actual.as_deref(), Some("6:00:00 PM"));
}

#[test]
fn midnight_time() {
    let actual = display("0", "h:mm AM/PM", false);
    assert_eq!(actual.as_deref(), Some("12:00 AM"));
}

#[test]
fn noon_meridiem() {
    let actual = display("0.5", "h:mm AM/PM", false);
    assert_eq!(actual.as_deref(), Some("12:00 PM"));
}

#[test]
fn minute_second_time() {
    let actual = display("0.0625", "mm:ss", false);
    assert_eq!(actual.as_deref(), Some("30:00"));
}

#[test]
fn elapsed_hours() {
    let actual = display("2.5", "[h]:mm:ss", false);
    assert_eq!(actual.as_deref(), Some("60:00:00"));
}

#[test]
fn clock_wraps_day() {
    let actual = display("2.5", "h:mm:ss", false);
    assert_eq!(actual.as_deref(), Some("12:00:00"));
}

#[test]
fn fractions_roll_over_seconds() {
    let actual = display("0.9999999", "h:mm:ss", false);
    assert_eq!(actual.as_deref(), Some("0:00:00"));
}

#[test]
fn fractions_roll_into_fake_leap_day() {
    let actual = display("59.9999999", "m/d/yy h:mm", false);
    assert_eq!(actual.as_deref(), Some("2/29/00 0:00"));
}

#[test]
fn fractions_roll_out_of_fake_leap_day() {
    let actual = display("60.9999999", "m/d/yy h:mm", false);
    assert_eq!(actual.as_deref(), Some("3/1/00 0:00"));
}

#[test]
fn date_only_uses_whole_day() {
    let actual = display("59.9999999", "yyyy-mm-dd", false);
    assert_eq!(actual.as_deref(), Some("1900-02-28"));
}

#[test]
fn upper_1900_date() {
    let actual = display("2958465", "yyyy-mm-dd", false);
    assert_eq!(actual.as_deref(), Some("9999-12-31"));
}

#[test]
fn upper_1904_date() {
    let actual = display("2957003", "yyyy-mm-dd", true);
    assert_eq!(actual.as_deref(), Some("9999-12-31"));
}

#[test]
fn uppercase_date_code() {
    let actual = display("45292", "YYYY-MM-DD", false);
    assert_eq!(actual.as_deref(), Some("2024-01-01"));
}

#[test]
fn unsupported_zero_calendar_day() {
    let actual = display("0", "yyyy-mm-dd", false);
    assert_eq!(actual.as_deref(), None);
}

#[test]
fn unsupported_negative_date() {
    let actual = display("-1", "yyyy-mm-dd", false);
    assert_eq!(actual.as_deref(), None);
}

#[test]
fn unsupported_negative_time() {
    let actual = display("-0.5", "h:mm", true);
    assert_eq!(actual.as_deref(), None);
}

#[test]
fn unsupported_date_range() {
    let actual = display("2958466", "yyyy-mm-dd", false);
    assert_eq!(actual.as_deref(), None);
}

#[test]
fn unsupported_1904_date_range() {
    let actual = display("2957004", "yyyy-mm-dd", true);
    assert_eq!(actual.as_deref(), None);
}

#[test]
fn unsupported_date_rollover_range() {
    let actual = display("2958465.9999999", "m/d/yy h:mm", false);
    assert_eq!(actual.as_deref(), None);
}

#[test]
fn unsupported_colors() {
    let actual = display("12", "[Red]0", false);
    assert_eq!(actual.as_deref(), None);
}

#[test]
fn unsupported_conditions() {
    let actual = display("12", "[>0]0", false);
    assert_eq!(actual.as_deref(), None);
}

#[test]
fn unsupported_currency() {
    let actual = display("12", "$0.00", false);
    assert_eq!(actual.as_deref(), None);
}

#[test]
fn unsupported_fraction() {
    let actual = display("12.5", "# ?/?", false);
    assert_eq!(actual.as_deref(), None);
}

#[test]
fn unsupported_locale() {
    let actual = display("45292", "[$-409]m/d/yy", false);
    assert_eq!(actual.as_deref(), None);
}

#[test]
fn unsupported_sections() {
    let actual = display("12", "0;[Red]-0", false);
    assert_eq!(actual.as_deref(), None);
}

#[test]
fn unsupported_scale_comma() {
    let actual = display("12000", "0,", false);
    assert_eq!(actual.as_deref(), None);
}

#[test]
fn unsupported_optional_then_mandatory() {
    let actual = display("1.23", "0.#0", false);
    assert_eq!(actual.as_deref(), None);
}

#[test]
fn unsupported_scientific_code() {
    let actual = display("123", "0.00E+00", false);
    assert_eq!(actual.as_deref(), None);
}

#[test]
fn unsupported_literal() {
    let actual = display("123", "0\" kg\"", false);
    assert_eq!(actual.as_deref(), None);
}

#[test]
fn unsupported_trailing_space() {
    let actual = display("123", "0 ", false);
    assert_eq!(actual.as_deref(), None);
}

#[test]
fn unsupported_empty_code() {
    let actual = display("123", "", false);
    assert_eq!(actual.as_deref(), None);
}

#[test]
fn invalid_nan() {
    let actual = display("NaN", "0.00", false);
    assert_eq!(actual.as_deref(), None);
}

#[test]
fn invalid_infinity() {
    let actual = display("inf", "yyyy-mm-dd", false);
    assert_eq!(actual.as_deref(), None);
}

#[test]
fn invalid_number() {
    let actual = display("nope", "0", false);
    assert_eq!(actual.as_deref(), None);
}

#[test]
fn invalid_double_sign() {
    let actual = display("--1", "0", false);
    assert_eq!(actual.as_deref(), None);
}

#[test]
fn invalid_extra_dot() {
    let actual = display("1.2.3", "0", false);
    assert_eq!(actual.as_deref(), None);
}

#[test]
fn invalid_empty_number() {
    let actual = display("", "0", false);
    assert_eq!(actual.as_deref(), None);
}

#[test]
fn builtin_codes_match_supported_standard_ids() {
    let expected = [
        (0, "General"),
        (1, "0"),
        (2, "0.00"),
        (3, "#,##0"),
        (4, "#,##0.00"),
        (9, "0%"),
        (10, "0.00%"),
        (14, "mm-dd-yy"),
        (15, "d-mmm-yy"),
        (16, "d-mmm"),
        (17, "mmm-yy"),
        (18, "h:mm AM/PM"),
        (19, "h:mm:ss AM/PM"),
        (20, "h:mm"),
        (21, "h:mm:ss"),
        (22, "m/d/yy h:mm"),
        (45, "mm:ss"),
        (46, "[h]:mm:ss"),
        (49, "@"),
    ];
    for (id, code) in expected {
        let actual = builtin(id);
        assert_eq!(actual, Some(code), "built-in {id}");
    }
}

#[test]
fn unsupported_builtin_ids_defer_to_caller() {
    for id in [5, 11, 12, 13, 23, 27, 37, 38, 47, 48, 164, u32::MAX] {
        let actual = builtin(id);
        assert_eq!(actual, None, "built-in {id}");
    }
}

#[test]
fn long_values_and_precision_requests_are_bounded() {
    for (raw, code) in [
        ("1".repeat(1024), "0".into()),
        ("1".into(), format!("0.{}", "0".repeat(1000))),
    ] {
        let actual = display(&raw, &code, false);
        assert_eq!(actual, None);
    }
}

#[test]
fn calendar_next_day_crosses_year_and_leap_day() {
    let ymd = |s: u32, d: bool| calendar(s, d).map(|c| (c.year, c.month, c.day));
    assert_eq!(ymd(365, true), Some((1904, 12, 31)));
    assert_eq!(ymd(366, true), Some((1905, 1, 1)));
    assert_eq!(ymd(59, true), Some((1904, 2, 29)));
    assert_eq!(ymd(60, true), Some((1904, 3, 1)));
    assert_eq!(ymd(1, false), Some((1900, 1, 1)));
    assert_eq!(ymd(2, false), Some((1900, 1, 2)));
    assert_eq!(ymd(61, false), Some((1900, 3, 1)));
    assert_eq!(ymd(62, false), Some((1900, 3, 2)));
}
