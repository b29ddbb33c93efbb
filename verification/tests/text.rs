use reverse_proxy::text::{is_mentioned, parse_number, same_text};

#[test]
fn numbers_are_read() {
    assert_eq!(parse_number("0"), Some(0));
    assert_eq!(parse_number("42"), Some(42));
    assert_eq!(parse_number("+42"), Some(42));
    assert_eq!(parse_number("0042"), Some(42));
    assert_eq!(parse_number("10485760"), Some(10_485_760));
    assert_eq!(parse_number("18446744073709551615"), Some(usize::MAX));
}

#[test]
fn large_numbers_are_bounded() {
    assert_eq!(parse_number("18446744073709551616"), Some(usize::MAX));
    assert_eq!(parse_number("99999999999999999999999999"), Some(usize::MAX));
    assert_eq!(parse_number("99999999999999999999999999x"), None);
}

#[test]
fn other_texts_are_no_numbers() {
    assert_eq!(parse_number(""), None);
    assert_eq!(parse_number("+"), None);
    assert_eq!(parse_number("-1"), None);
    assert_eq!(parse_number("++1"), None);
    assert_eq!(parse_number(" 1"), None);
    assert_eq!(parse_number("1 "), None);
    assert_eq!(parse_number("1.5"), None);
    assert_eq!(parse_number("0x10"), None);
    assert_eq!(parse_number("\u{0661}"), None);
}

#[test]
fn words_are_found_in_either_case() {
    assert!(is_mentioned(b"no-store", "no-store"));
    assert!(is_mentioned(b"max-age=0, NO-Store", "no-store"));
    assert!(is_mentioned(b"nno-store", "no-store"));
    assert!(!is_mentioned(b"no-stor", "no-store"));
    assert!(!is_mentioned(b"no store", "no-store"));
    assert!(!is_mentioned(b"", "no-store"));
    assert!(is_mentioned(b"", ""));
    assert!(is_mentioned(b"[\\]^_`", "[\\]^_`"));
}

#[test]
fn texts_are_compared() {
    assert!(same_text("GET", "GET"));
    assert!(!same_text("GET", "get"));
    assert!(!same_text("GET", "GETS"));
    assert!(same_text("", ""));
}
