use roster_sync::text::{chars_of, contains_text, decimal_text, parse_u32, same_text};

#[test]
fn numbers_are_read_like_unsigned_integers() {
    assert_eq!(parse_u32("0"), Some(0));
    assert_eq!(parse_u32("12345678"), Some(12345678));
    assert_eq!(parse_u32("+7"), Some(7));
    assert_eq!(parse_u32("007"), Some(7));
    assert_eq!(parse_u32("4294967295"), Some(u32::MAX));
    assert_eq!(parse_u32("4294967296"), None);
    assert_eq!(parse_u32("99999999999999999999"), None);
    assert_eq!(parse_u32(""), None);
    assert_eq!(parse_u32("+"), None);
    assert_eq!(parse_u32("++1"), None);
    assert_eq!(parse_u32("-1"), None);
    assert_eq!(parse_u32("-0"), None);
    assert_eq!(parse_u32(" 1"), None);
    assert_eq!(parse_u32("1 "), None);
    assert_eq!(parse_u32("1a"), None);
    assert_eq!(parse_u32("\u{661}\u{662}"), None);
}

#[test]
fn reading_agrees_with_the_standard_parser() {
    let samples = [
        "0", "1", "+1", "-1", "", "+", "42", "042", "4294967295", "4294967296", "18446744073709551616",
        "1_000", "0x10", "1e3", " 5", "5\n", "٣",
    ];
    for s in samples {
        assert_eq!(parse_u32(s), s.parse::<u32>().ok(), "{:?}", s);
    }
}

#[test]
fn numbers_are_written_in_decimal() {
    assert_eq!(decimal_text(0), "0");
    assert_eq!(decimal_text(9), "9");
    assert_eq!(decimal_text(10), "10");
    assert_eq!(decimal_text(404), "404");
    assert_eq!(decimal_text(u64::MAX), "18446744073709551615");
    for n in [0u32, 5, 17, 1000, 99999999, u32::MAX] {
        assert_eq!(parse_u32(&decimal_text(n as u64)), Some(n));
    }
}

#[test]
fn texts_are_searched() {
    assert!(contains_text("hello world", "lo w"));
    assert!(contains_text("hello", "hello"));
    assert!(contains_text("hello", ""));
    assert!(contains_text("", ""));
    assert!(!contains_text("", "a"));
    assert!(!contains_text("hello", "hello!"));
    assert!(!contains_text("aaab", "aab "));
    assert!(contains_text("aaab", "aab"));
    assert!(contains_text("na\u{ef}ve caf\u{e9}", "caf\u{e9}"));
}

#[test]
fn texts_are_compared() {
    assert!(same_text("abc", "abc"));
    assert!(same_text("", ""));
    assert!(!same_text("abc", "abd"));
    assert!(!same_text("abc", "ab"));
}

#[test]
fn characters_are_listed_in_order() {
    assert_eq!(chars_of("a=b;c"), vec!['a', '=', 'b', ';', 'c']);
    assert_eq!(chars_of(""), Vec::<char>::new());
    assert_eq!(chars_of("caf\u{e9}"), vec!['c', 'a', 'f', '\u{e9}']);
}
