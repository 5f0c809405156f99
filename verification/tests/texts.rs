//! Text as file names, messages and feeds need it.
use amm_replay::codec::Base64Error;
use amm_replay::session::pair_key;
use amm_replay::text::{
    contains_part, decimal_text, has_bytes, padded, parse_i64, parse_u64, replace_char, trim_hex_prefix,
    try_byte_prefix,
};

#[test]
fn prefixes_are_cut_between_characters() {
    assert_eq!(try_byte_prefix("abcdef", 3).as_deref(), Some("abc"));
    assert_eq!(try_byte_prefix("a\u{e9}f", 2), None);
    assert_eq!(try_byte_prefix("a\u{e9}f", 3).as_deref(), Some("a\u{e9}"));
    assert_eq!(try_byte_prefix("ab", 3), None);
    assert_eq!(try_byte_prefix("ab", 0).as_deref(), Some(""));
    assert!(has_bytes("\u{20ac}", 3));
    assert!(!has_bytes("\u{20ac}", 4));
}

#[test]
fn hex_prefixes_fall_off_one_after_another() {
    assert_eq!(trim_hex_prefix("0xabc"), "abc");
    assert_eq!(trim_hex_prefix("0x0x1"), "1");
    assert_eq!(trim_hex_prefix("00x1"), "00x1");
    assert_eq!(trim_hex_prefix("0x"), "");
    assert_eq!(trim_hex_prefix("0"), "0");
}

#[test]
fn numbers_as_text() {
    assert_eq!(decimal_text(0), "0");
    assert_eq!(decimal_text(u64::MAX), "18446744073709551615");
    assert_eq!(padded(7), "0007");
    assert_eq!(padded(12345), "12345");
    assert_eq!(parse_u64("18446744073709551615"), Some(u64::MAX));
    assert_eq!(parse_u64("18446744073709551616"), None);
    assert_eq!(parse_u64("+5"), Some(5));
    assert_eq!(parse_u64(""), None);
    assert_eq!(parse_u64("+"), None);
    assert_eq!(parse_u64("-0"), None);
    assert_eq!(parse_u64("1 "), None);
    assert_eq!(parse_i64("-9223372036854775808"), Some(i64::MIN));
    assert_eq!(parse_i64("-9223372036854775809"), None);
    assert_eq!(parse_i64("9223372036854775808"), None);
    assert_eq!(parse_i64("-0"), Some(0));
    assert_eq!(parse_i64("-"), None);
}

#[test]
fn numbers_read_as_the_standard_library_reads_them() {
    for s in ["0", "00", "+0", "-1", "1-", "x", "007", "+-1", "\u{661}", "99999999999999999999"] {
        assert_eq!(parse_u64(s), s.parse::<u64>().ok(), "{s}");
        assert_eq!(parse_i64(s), s.parse::<i64>().ok(), "{s}");
    }
}

#[test]
fn parts_of_a_symbol() {
    assert!(contains_part("SOL/USDC", "USDC"));
    assert!(contains_part("SOL/USDC", ""));
    assert!(!contains_part("SOL/USD", "USDC"));
    assert_eq!(replace_char("a/b//c", '/', '-'), "a-b--c");
}

#[test]
fn pairs_are_named_by_symbol_or_pool() {
    assert_eq!(pair_key(&Some("SOL/USDC".to_string()), "whatever").as_deref(), Some("SOL-USDC"));
    assert_eq!(pair_key(&None, "0123456789abcdef").as_deref(), Some("0123456789ab"));
    assert_eq!(pair_key(&None, "short").as_deref(), Some("short"));
    assert_eq!(pair_key(&None, "01234567890\u{e9}x"), None);
}

#[test]
fn base64_errors_in_words() {
    assert_eq!(Base64Error::InvalidByte { offset: 3, byte: 33 }.message(), "Invalid symbol 33, offset 3.");
    assert_eq!(Base64Error::InvalidLength { len: 5 }.message(), "Invalid input length: 5");
    assert_eq!(
        Base64Error::InvalidLastSymbol { offset: 2, byte: 65 }.message(),
        "Invalid last symbol 65, offset 2."
    );
    assert_eq!(Base64Error::InvalidPadding.message(), "Invalid padding");
}
