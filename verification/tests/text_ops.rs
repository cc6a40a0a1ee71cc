use bibledesk::text::{compare_str, decimal_string, is_whitespace, parse_u32, str_contains, str_eq, trim, words_of, Order};

#[test]
fn trim_removes_surrounding_whitespace() {
    assert_eq!(trim("  In the beginning \t\n"), "In the beginning");
    assert_eq!(trim("\u{3000}\u{a0}word\u{2029}"), "word");
    assert_eq!(trim("   "), "");
    assert_eq!(trim(""), "");
    assert_eq!(trim("inner  space"), "inner  space");
}

#[test]
fn trim_is_idempotent() {
    let once = trim("\t a b \n");
    assert_eq!(trim(&once), once);
}

#[test]
fn trim_agrees_with_std() {
    for s in ["", " x ", "\u{85}y\u{1680}", "z\u{200b}", "\u{202f}w\u{205f}"] {
        assert_eq!(trim(s), s.trim());
    }
}

#[test]
fn whitespace_matches_std() {
    for u in 0u32..0x3100 {
        if let Some(c) = char::from_u32(u) {
            assert_eq!(is_whitespace(c), c.is_whitespace(), "{:x}", u);
        }
    }
}

#[test]
fn decimal_formats() {
    assert_eq!(decimal_string(0), "0");
    assert_eq!(decimal_string(7), "7");
    assert_eq!(decimal_string(40), "40");
    assert_eq!(decimal_string(u64::MAX), "18446744073709551615");
}

#[test]
fn parse_u32_cases() {
    assert_eq!(parse_u32("12"), Some(12));
    assert_eq!(parse_u32("+3"), Some(3));
    assert_eq!(parse_u32("007"), Some(7));
    assert_eq!(parse_u32("4294967295"), Some(u32::MAX));
    assert_eq!(parse_u32("4294967296"), None);
    assert_eq!(parse_u32("99999999999"), None);
    assert_eq!(parse_u32(""), None);
    assert_eq!(parse_u32("+"), None);
    assert_eq!(parse_u32("-1"), None);
    assert_eq!(parse_u32(" 1"), None);
    assert_eq!(parse_u32("1a"), None);
    for s in ["", "+", "-0", "0", "12", "+7", "4294967295", "4294967296", "3x", "٣"] {
        assert_eq!(parse_u32(s), s.parse::<u32>().ok(), "{}", s);
    }
}

#[test]
fn parse_reads_back_decimal() {
    for n in [0u32, 1, 9, 10, 99, 1000, 65535, u32::MAX] {
        assert_eq!(parse_u32(&decimal_string(n as u64)), Some(n));
    }
}

#[test]
fn contains_by_bytes() {
    assert!(str_contains("for god so loved", "god"));
    assert!(str_contains("abc", ""));
    assert!(!str_contains("abc", "abcd"));
    assert!(!str_contains("abc", "ac"));
    assert!(str_contains("grüße", "üß"));
}

#[test]
fn compare_orders_by_bytes() {
    assert_eq!(compare_str("English", "German"), Order::Less);
    assert_eq!(compare_str("abc", "abc"), Order::Equal);
    assert_eq!(compare_str("abd", "abc"), Order::Greater);
    assert_eq!(compare_str("ab", "abc"), Order::Less);
    assert_eq!(compare_str("Z", "a"), Order::Less);
    assert_eq!(compare_str("é", "z"), Order::Greater);
}

#[test]
fn string_equality() {
    assert!(str_eq("de", "de"));
    assert!(!str_eq("de", "en"));
    assert!(!str_eq("", "a"));
}

#[test]
fn words_split_like_std() {
    for s in ["", "  ", "In the  beginning", " God\tcreated\n", "one", "a\u{3000}b c"] {
        let expected: Vec<String> = s.split_whitespace().map(|w| w.to_string()).collect();
        assert_eq!(words_of(s), expected, "{:?}", s);
    }
}
