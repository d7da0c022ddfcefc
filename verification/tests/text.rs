//! Texts and numbers.

use hikvision_unifi_fire_bridge::text::{
    contains, decimal_text, parse_whole, replace, same, to_lower, trim, IntError,
};

#[test]
fn white_space_is_trimmed_as_std_does() {
    for s in ["", " ", "a", " a b ", "\t\n\u{b}\u{c}\r x", "\u{85}x\u{a0}", "\u{2000}y\u{3000}", "\u{200b}z"] {
        assert_eq!(trim(s), s.trim(), "{s:?}");
    }
}

#[test]
fn letters_are_lowered_as_std_does() {
    for s in ["", "AZaz09[`{", "\u{c4}\u{df}K"] {
        assert_eq!(to_lower(s), s.to_ascii_lowercase(), "{s:?}");
    }
}

#[test]
fn replacing_is_what_std_does() {
    for (s, from, to) in [
        ("", "a", "b"),
        ("aaa", "aa", "b"),
        ("abcabc", "bc", "<x>"),
        ("abc", "", "-"),
        ("", "", "-"),
        ("abc", "abcd", "x"),
        ("aabaab", "aab", ""),
    ] {
        assert_eq!(replace(s, from, to), s.replace(from, to), "{s:?} {from:?}");
        assert_eq!(contains(s, from), s.contains(from), "{s:?} {from:?}");
    }
}

#[test]
fn texts_are_compared() {
    assert!(same("caf\u{e9}", "caf\u{e9}"));
    assert!(!same("cafe", "caf\u{e9}"));
    assert!(!same("a", "ab"));
}

#[test]
fn numbers_are_read_as_std_does() {
    for s in ["", "+", "-", "0", "007", "+12", "-1", "1a", "18446744073709551615", "18446744073709551616", "99999999999999999999x", "\u{661}"] {
        assert_eq!(parse_whole(s, u64::MAX).ok(), s.parse::<u64>().ok(), "{s:?}");
    }
    assert_eq!(parse_whole("", 9), Err(IntError::Empty));
    assert_eq!(parse_whole("x", 9), Err(IntError::InvalidDigit));
    assert_eq!(parse_whole("10", 9), Err(IntError::TooLarge));
}

#[test]
fn numbers_are_written_in_decimal_and_read_back() {
    for n in [0u64, 7, 10, 909, u64::MAX] {
        assert_eq!(decimal_text(n as u128), n.to_string());
        assert_eq!(parse_whole(&decimal_text(n as u128), u64::MAX), Ok(n));
    }
}
