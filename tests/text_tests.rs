use rust_portforward::text::{parse_decimal, split_chars};

#[test]
fn decimal_numbers() {
    assert_eq!(parse_decimal("8080", 65535), Some(8080));
    assert_eq!(parse_decimal("+12", 65535), Some(12));
    assert_eq!(parse_decimal("0", 65535), Some(0));
    assert_eq!(parse_decimal("65535", 65535), Some(65535));
    assert_eq!(parse_decimal("007", 65535), Some(7));
}

#[test]
fn not_decimal_numbers() {
    assert_eq!(parse_decimal("", 65535), None);
    assert_eq!(parse_decimal("+", 65535), None);
    assert_eq!(parse_decimal("65536", 65535), None);
    assert_eq!(parse_decimal("12a", 65535), None);
    assert_eq!(parse_decimal("-1", 65535), None);
    assert_eq!(parse_decimal(" 1", 65535), None);
    assert_eq!(parse_decimal("99999999999999999999999", u64::MAX), None);
}

#[test]
fn split_keeps_empty_pieces() {
    assert_eq!(split_chars("a:b::c", ':'), vec!["a", "b", "", "c"]);
    assert_eq!(split_chars("", ':'), vec![""]);
    assert_eq!(split_chars(":", ':'), vec!["", ""]);
    assert_eq!(split_chars("abc", ':'), vec!["abc"]);
}
