use menu_engine::codec::{
    is_blank, parse_i64, parse_u128, str_eq, u128_to_string,
};

fn chars(s: &str) -> Vec<char> {
    s.chars().collect()
}

#[test]
fn decimal_text_of_numbers() {
    assert_eq!(u128_to_string(0), "0");
    assert_eq!(u128_to_string(7), "7");
    assert_eq!(u128_to_string(1000), "1000");
    assert_eq!(
        u128_to_string(u128::MAX),
        "340282366920938463463374607431768211455"
    );
}

#[test]
fn parsing_unsigned_numbers() {
    assert_eq!(parse_u128(&chars("0,"), 0), Some((0, 1)));
    assert_eq!(parse_u128(&chars("12345]"), 0), Some((12345, 5)));
    assert_eq!(
        parse_u128(&chars("340282366920938463463374607431768211455,"), 0),
        Some((u128::MAX, 39))
    );
    // One past the maximum overflows and is rejected.
    assert_eq!(parse_u128(&chars("340282366920938463463374607431768211456,"), 0), None);
    // Leading zeros are not canonical.
    assert_eq!(parse_u128(&chars("01"), 0), None);
    assert_eq!(parse_u128(&chars("x"), 0), None);
    assert_eq!(parse_u128(&chars(""), 0), None);
}

#[test]
fn parsing_signed_numbers() {
    assert_eq!(parse_i64(&chars("-1,"), 0), Some((-1, 2)));
    assert_eq!(parse_i64(&chars("9223372036854775807,"), 0), Some((i64::MAX, 19)));
    assert_eq!(parse_i64(&chars("-9223372036854775808,"), 0), Some((i64::MIN, 20)));
    assert_eq!(parse_i64(&chars("9223372036854775808,"), 0), None);
    assert_eq!(parse_i64(&chars("-0,"), 0), None);
    assert_eq!(parse_i64(&chars("-x"), 0), None);
}

#[test]
fn text_helpers() {
    assert!(str_eq("abc", "abc"));
    assert!(!str_eq("abc", "abd"));
    assert!(!str_eq("abc", "ab"));
    assert!(str_eq("", ""));
    assert!(is_blank(""));
    assert!(is_blank(" \t\r\n\u{a0}"));
    assert!(!is_blank(" x "));
}
