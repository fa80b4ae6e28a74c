use solana_arb_executor::text::{begins_with, decimal_text, parse_unsigned, same_text, trim};

#[test]
fn decimal_text_matches_display() {
    for n in [0u64, 7, 10, 99, 100, 1_001, 10_000_000, u64::MAX] {
        assert_eq!(decimal_text(n), n.to_string());
    }
}

#[test]
fn parse_unsigned_matches_the_standard_parser() {
    for text in [
        "0", "5", "+5", "007", "4294967295", "4294967296", "", "+", "-1", "1.0", " 1", "1 ", "1_000",
        "++1", "99999999999999999999", "abc", "\u{0661}",
    ] {
        assert_eq!(
            parse_unsigned(text, u32::MAX as u64),
            text.parse::<u32>().ok().map(|n| n as u64),
            "{text:?}"
        );
        assert_eq!(parse_unsigned(text, u64::MAX), text.parse::<u64>().ok(), "{text:?}");
    }
    assert_eq!(parse_unsigned("18446744073709551615", u64::MAX), Some(u64::MAX));
    assert_eq!(parse_unsigned("18446744073709551616", u64::MAX), None);
}

#[test]
fn decimal_text_is_read_back() {
    for n in [0u64, 12_345, u64::MAX] {
        assert_eq!(parse_unsigned(&decimal_text(n), u64::MAX), Some(n));
    }
}

#[test]
fn trim_matches_the_standard_trim() {
    for text in ["", "  ", "YES", " YES\n", "\t YES \r\n", "a b", "\u{3000}x\u{a0}", "\u{200b}x"] {
        assert_eq!(trim(text), text.trim(), "{text:?}");
    }
}

#[test]
fn text_comparisons() {
    assert!(same_text("abc", "abc"));
    assert!(!same_text("abc", "ABC"));
    assert!(begins_with("https://host", "https://"));
    assert!(!begins_with("http://host", "https://"));
    assert!(!begins_with("http", "https://"));
    assert!(begins_with("anything", ""));
}
