use files_proxy::text::{bool_text, decimal_text, starts_with};

#[test]
fn decimal_numbers() {
    assert_eq!(decimal_text(0), "0");
    assert_eq!(decimal_text(9), "9");
    assert_eq!(decimal_text(10), "10");
    assert_eq!(decimal_text(123456789), "123456789");
    assert_eq!(decimal_text(u64::MAX), u64::MAX.to_string());
    for n in 0..2000u64 {
        assert_eq!(decimal_text(n).parse::<u64>().unwrap(), n);
    }
}

#[test]
fn truth_values() {
    assert_eq!(bool_text(true), "true");
    assert_eq!(bool_text(false), "false");
}

#[test]
fn prefixes() {
    assert!(starts_with("webpublic-1", "webpublic-"));
    assert!(starts_with("webpublic-", "webpublic-"));
    assert!(!starts_with("webpublic", "webpublic-"));
    assert!(!starts_with("Webpublic-1", "webpublic-"));
    assert!(starts_with("", ""));
    assert!(!starts_with("", "a"));
    assert!(starts_with("\u{e9}t\u{e9}", "\u{e9}"));
    assert!(!starts_with("\u{e9}t\u{e9}", "\u{e8}"));
}
