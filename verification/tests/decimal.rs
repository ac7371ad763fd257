use foreman::digits::{parse_progress, u64_to_decimal};

#[test]
fn renders_decimals() {
    assert_eq!(u64_to_decimal(0), "0");
    assert_eq!(u64_to_decimal(7), "7");
    assert_eq!(u64_to_decimal(10), "10");
    assert_eq!(u64_to_decimal(3000), "3000");
    assert_eq!(u64_to_decimal(49152), "49152");
    assert_eq!(u64_to_decimal(65535), "65535");
    assert_eq!(u64_to_decimal(18446744073709551615), "18446744073709551615");
}

#[test]
fn parses_progress_decimals() {
    assert_eq!(parse_progress("0"), Some(0));
    assert_eq!(parse_progress("1"), Some(1000));
    assert_eq!(parse_progress("0.75"), Some(750));
    assert_eq!(parse_progress("0.5"), Some(500));
    assert_eq!(parse_progress("0.999"), Some(999));
    assert_eq!(parse_progress("1.000"), Some(1000));
    assert_eq!(parse_progress("0."), Some(0));
    assert_eq!(parse_progress("00.25"), Some(250));
}

#[test]
fn extra_fraction_digits_are_dropped() {
    assert_eq!(parse_progress("0.9999"), Some(999));
    assert_eq!(parse_progress("0.12345"), Some(123));
}

#[test]
fn progress_outside_zero_to_one_is_unset() {
    assert_eq!(parse_progress("2"), None);
    assert_eq!(parse_progress("1.5"), None);
    assert_eq!(parse_progress("1.001"), None);
    assert_eq!(parse_progress("1000"), None);
    assert_eq!(parse_progress("18446744073709551616"), None);
}

#[test]
fn malformed_progress_is_unset() {
    assert_eq!(parse_progress(""), None);
    assert_eq!(parse_progress("."), None);
    assert_eq!(parse_progress(".5"), None);
    assert_eq!(parse_progress("0.5.5"), None);
    assert_eq!(parse_progress("abc"), None);
    assert_eq!(parse_progress("0.x"), None);
    assert_eq!(parse_progress("-0.5"), None);
    assert_eq!(parse_progress("0,5"), None);
    assert_eq!(parse_progress(" 0.5"), None);
}
