use sentinel::decimal::{i32_to_string, parse_i32_str, u64_to_string};

#[test]
fn u64_rendering_is_decimal() {
    assert_eq!(u64_to_string(0), "0");
    assert_eq!(u64_to_string(9), "9");
    assert_eq!(u64_to_string(10), "10");
    assert_eq!(u64_to_string(1048576), "1048576");
    assert_eq!(u64_to_string(u64::MAX), "18446744073709551615");
}

#[test]
fn i32_rendering_is_decimal() {
    assert_eq!(i32_to_string(0), "0");
    assert_eq!(i32_to_string(-5), "-5");
    assert_eq!(i32_to_string(i32::MAX), "2147483647");
    assert_eq!(i32_to_string(i32::MIN), "-2147483648");
}

#[test]
fn i32_parsing_checks_grammar_and_range() {
    assert_eq!(parse_i32_str("0"), Some(0));
    assert_eq!(parse_i32_str("-5"), Some(-5));
    assert_eq!(parse_i32_str("2147483647"), Some(i32::MAX));
    assert_eq!(parse_i32_str("-2147483648"), Some(i32::MIN));
    assert_eq!(parse_i32_str("2147483648"), None);
    assert_eq!(parse_i32_str("-2147483649"), None);
    assert_eq!(parse_i32_str("12x"), None);
    assert_eq!(parse_i32_str(""), None);
    assert_eq!(parse_i32_str("-"), None);
    assert_eq!(parse_i32_str("1.5"), None);
    assert_eq!(parse_i32_str("99999999999999999999"), None);
}
