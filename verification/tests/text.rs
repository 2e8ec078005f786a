use binance_pnl::text::{
    align_left, align_right, contains, decimal, decimal_signed, same_text, to_ascii_lower, trim,
};

#[test]
fn numbers_are_written_in_decimal() {
    assert_eq!(decimal(0), "0");
    assert_eq!(decimal(10), "10");
    assert_eq!(decimal(u64::MAX), "18446744073709551615");
    assert_eq!(decimal_signed(i64::MIN), "-9223372036854775808");
    assert_eq!(decimal_signed(7), "7");
}

#[test]
fn text_is_aligned_in_its_field() {
    assert_eq!(align_right("ab", 4), "  ab");
    assert_eq!(align_left("äb", 4), "äb  ");
    assert_eq!(align_right("abcde", 4), "abcde");
}

#[test]
fn white_space_is_trimmed() {
    assert_eq!(trim("\u{2003} a b\u{85}\u{3000}\n"), "a b");
    assert_eq!(trim(" \t "), "");
    assert_eq!(trim("\u{200b}a"), "\u{200b}a");
    for c in (0u32..0x11_0000).filter_map(char::from_u32) {
        assert_eq!(binance_pnl::text::white_space(c), c.is_whitespace());
    }
}

#[test]
fn patterns_are_found() {
    assert!(contains("aabab", "bab"));
    assert!(!contains("aabab", "bb"));
    assert!(contains("", ""));
    assert!(!contains("", "a"));
}

#[test]
fn ascii_capitals_become_small() {
    assert_eq!(to_ascii_lower("X-Mbx-ÄZ"), "x-mbx-Äz");
    assert!(same_text("é", "é") && !same_text("e", "é"));
}
