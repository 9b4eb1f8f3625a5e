use control_music::number::{parse_i32, parse_int};
use control_music::text::{decimal, join, starts_with};

#[test]
fn parses_signed_decimal() {
    assert_eq!(parse_i32("42"), Some(42));
    assert_eq!(parse_i32("-17"), Some(-17));
    assert_eq!(parse_i32("+5"), Some(5));
    assert_eq!(parse_i32("007"), Some(7));
    assert_eq!(parse_i32("2147483647"), Some(i32::MAX));
    assert_eq!(parse_i32("-2147483648"), Some(i32::MIN));
}

#[test]
fn rejects_bad_decimal() {
    assert_eq!(parse_i32(""), None);
    assert_eq!(parse_i32("-"), None);
    assert_eq!(parse_i32("+"), None);
    assert_eq!(parse_i32("12a"), None);
    assert_eq!(parse_i32(" 1"), None);
    assert_eq!(parse_i32("2147483648"), None);
    assert_eq!(parse_i32("-2147483649"), None);
    assert_eq!(parse_i32("99999999999999999999"), None);
}

#[test]
fn parse_int_reads_battery_values() {
    assert_eq!(parse_int("52000000".to_string()), 52000000);
    assert_eq!(parse_int("-1".to_string()), -1);
}

#[test]
fn decimal_text() {
    assert_eq!(decimal(0), "0");
    assert_eq!(decimal(120000000), "120000000");
    assert_eq!(decimal(-42), "-42");
    assert_eq!(decimal(i64::MIN), "-9223372036854775808");
    assert_eq!(decimal(i64::MAX), "9223372036854775807");
}

#[test]
fn join_and_prefix() {
    let xs = vec!["A".to_string(), "B".to_string(), "C".to_string()];
    assert_eq!(join(&xs, ", "), "A, B, C");
    assert_eq!(join(&Vec::new(), ", "), "");
    assert!(starts_with("org.mpris.MediaPlayer2.x", "org.mpris"));
    assert!(!starts_with("org", "org.mpris"));
    assert!(starts_with("abc", ""));
}
