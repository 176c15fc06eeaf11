use recognition_bot::decimal::{i64_text, parse_i64};
use recognition_bot::text::{find_char, starts_with};

#[test]
fn integers_print_in_decimal() {
    assert_eq!(i64_text(0), "0");
    assert_eq!(i64_text(42), "42");
    assert_eq!(i64_text(-1005), "-1005");
    assert_eq!(i64_text(i64::MAX), "9223372036854775807");
    assert_eq!(i64_text(i64::MIN), "-9223372036854775808");
}

#[test]
fn integers_parse_strictly() {
    assert_eq!(parse_i64("42"), Some(42));
    assert_eq!(parse_i64("+42"), Some(42));
    assert_eq!(parse_i64("-0042"), Some(-42));
    assert_eq!(parse_i64("-9223372036854775808"), Some(i64::MIN));
    assert_eq!(parse_i64("9223372036854775807"), Some(i64::MAX));
    assert_eq!(parse_i64("9223372036854775808"), None);
    assert_eq!(parse_i64("99999999999999999999999"), None);
    assert_eq!(parse_i64(""), None);
    assert_eq!(parse_i64("-"), None);
    assert_eq!(parse_i64("4 2"), None);
    assert_eq!(parse_i64("x"), None);
}

#[test]
fn text_search() {
    assert_eq!(find_char("ab cd", 0, ' '), 2);
    assert_eq!(find_char("ab cd", 3, ' '), 5);
    assert!(starts_with("/help@bot", "/help"));
    assert!(!starts_with("/hel", "/help"));
}
