use mousehole::json::zod_type;
use mousehole::text::{
    bytes_contain, decimal_text, exceeds, find_text, parse_unsigned, signed_text, split,
    split_at_first, trim,
};

#[test]
fn white_space_is_unicode() {
    assert_eq!(trim("\u{3000} a b\u{85}\n"), "a b");
    assert_eq!(trim(" \t"), "");
    assert_eq!(trim("\u{feff}x"), "\u{feff}x");
}

#[test]
fn splits_keep_empty_pieces() {
    assert_eq!(split("a,,b,", ','), vec!["a", "", "b", ""]);
    assert_eq!(split("", ','), vec![""]);
    assert_eq!(split_at_first("k=v=w", '='), Some(("k", "v=w")));
    assert_eq!(split_at_first("kv", '='), None);
}

#[test]
fn numbers_are_written_and_read_in_decimal() {
    assert_eq!(decimal_text(0), "0");
    assert_eq!(decimal_text(u64::MAX), "18446744073709551615");
    assert_eq!(signed_text(i64::MIN), "-9223372036854775808");
    assert_eq!(signed_text(42), "42");
    assert_eq!(parse_unsigned("+007", 10), Some(7));
    assert_eq!(parse_unsigned("11", 10), None);
    assert_eq!(parse_unsigned("", 10), None);
    assert_eq!(parse_unsigned("+", 10), None);
    assert_eq!(parse_unsigned("1 ", 10), None);
    assert_eq!(parse_unsigned("18446744073709551616", u64::MAX), None);
    assert!(exceeds("18446744073709551616", u64::MAX));
    assert!(!exceeds("x", 0));
}

#[test]
fn parts_are_found() {
    assert_eq!(find_text("abcabc", "ca"), Some(2));
    assert_eq!(find_text("abc", "d"), None);
    assert!(bytes_contain(b"abc", b"bc"));
    assert!(!bytes_contain(b"abc", b"cb"));
}

#[test]
fn kinds_of_json_have_names() {
    let kind = |text: &str| zod_type(&serde_json::from_str(text).unwrap());
    assert_eq!(kind("null"), "null");
    assert_eq!(kind("true"), "boolean");
    assert_eq!(kind("1"), "number");
    assert_eq!(kind("-1"), "number");
    assert_eq!(kind("1.5"), "number");
    assert_eq!(kind("\"s\""), "string");
    assert_eq!(kind("[]"), "array");
    assert_eq!(kind("{}"), "object");
}
