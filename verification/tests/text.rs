//! Characters, numbers and joining.

use rargs::text::{
    as_text, duplicate, int_to_string, is_digit, is_space, is_word, join_range, parse_number,
    parse_number_saturating, to_chars, trim_bounds,
};
use std::borrow::Cow;

fn number(text: &str) -> Option<i32> {
    let chars = to_chars(text);
    parse_number(&chars, 0, chars.len())
}

#[test]
fn character_classes_are_ascii() {
    for c in [' ', '\t', '\n', '\r', '\x0B', '\x0C'] {
        assert!(is_space(c));
    }
    for c in ['a', '0', '_', '\0', '\u{a0}', '\u{2003}', '\x1c'] {
        assert!(!is_space(c));
    }
    for c in ['0', '5', '9'] {
        assert!(is_digit(c));
        assert!(is_word(c));
    }
    for c in ['/', ':', 'a', '\u{663}', '\u{ff11}'] {
        assert!(!is_digit(c));
    }
    for c in ['a', 'z', 'A', 'Z', '_', 'm'] {
        assert!(is_word(c));
    }
    for c in ['-', ' ', '@', '[', '`', '{', '\u{e9}', '.'] {
        assert!(!is_word(c));
    }
}

#[test]
fn to_chars_gives_every_character() {
    assert_eq!(to_chars(""), Vec::<char>::new());
    assert_eq!(to_chars("a\u{e9}\u{20ac}z"), vec!['a', '\u{e9}', '\u{20ac}', 'z']);
}

#[test]
fn trim_bounds_cuts_white_space_at_both_ends() {
    let chars = to_chars("{  ab c \t}");
    assert_eq!(trim_bounds(&chars, 1, 9), (3, 7));
    assert_eq!(trim_bounds(&chars, 0, 10), (0, 10));
    assert_eq!(trim_bounds(&chars, 3, 7), (3, 7));
    assert_eq!(trim_bounds(&chars, 1, 3), (3, 3));
    assert_eq!(trim_bounds(&chars, 5, 5), (5, 5));
    assert_eq!(trim_bounds(&chars, 7, 9), (9, 9));
}

#[test]
fn parse_number_reads_decimal_numbers() {
    assert_eq!(number("0"), Some(0));
    assert_eq!(number("42"), Some(42));
    assert_eq!(number("-42"), Some(-42));
    assert_eq!(number("-0"), Some(0));
    assert_eq!(number("0042"), Some(42));
    assert_eq!(number("2147483647"), Some(i32::MAX));
    assert_eq!(number("-2147483648"), Some(i32::MIN));
    assert_eq!(number("00000000000000000000000000012"), Some(12));
}

#[test]
fn parse_number_refuses_what_is_no_number_of_32_bits() {
    assert_eq!(number(""), None);
    assert_eq!(number("-"), None);
    assert_eq!(number("+1"), None);
    assert_eq!(number("1-"), None);
    assert_eq!(number("--1"), None);
    assert_eq!(number("1 "), None);
    assert_eq!(number("12a"), None);
    assert_eq!(number("\u{663}"), None);
    assert_eq!(number("2147483648"), None);
    assert_eq!(number("-2147483649"), None);
    assert_eq!(number("21474836470"), None);
    assert_eq!(number("99999999999999999999999999999999999999"), None);
    assert_eq!(number("-99999999999999999999999999999999999999"), None);
}

#[test]
fn parse_number_saturating_gives_the_nearest_number_of_32_bits() {
    let nearest = |text: &str| {
        let chars = to_chars(text);
        parse_number_saturating(&chars, 0, chars.len())
    };
    assert_eq!(nearest("0"), Some(0));
    assert_eq!(nearest("-17"), Some(-17));
    assert_eq!(nearest("2147483647"), Some(i32::MAX));
    assert_eq!(nearest("2147483648"), Some(i32::MAX));
    assert_eq!(nearest("2147483649"), Some(i32::MAX));
    assert_eq!(nearest("21474836470"), Some(i32::MAX));
    assert_eq!(nearest("99999999999999999999999999999999999999"), Some(i32::MAX));
    assert_eq!(nearest("-2147483648"), Some(i32::MIN));
    assert_eq!(nearest("-2147483649"), Some(i32::MIN));
    assert_eq!(nearest("-2147483650"), Some(i32::MIN));
    assert_eq!(nearest("-99999999999999999999999999999999999999"), Some(i32::MIN));
    assert_eq!(nearest(""), None);
    assert_eq!(nearest("-"), None);
    assert_eq!(nearest("12a"), None);
    assert_eq!(nearest("+1"), None);
}

#[test]
fn parse_number_reads_a_part_of_the_text() {
    let chars = to_chars("{12..-345}");
    assert_eq!(parse_number(&chars, 1, 3), Some(12));
    assert_eq!(parse_number(&chars, 5, 9), Some(-345));
    assert_eq!(parse_number(&chars, 6, 8), Some(34));
    assert_eq!(parse_number(&chars, 1, 4), None);
    assert_eq!(parse_number(&chars, 3, 3), None);
}

#[test]
fn int_to_string_writes_decimal() {
    assert_eq!(int_to_string(0), "0");
    assert_eq!(int_to_string(7), "7");
    assert_eq!(int_to_string(10), "10");
    assert_eq!(int_to_string(1234567890), "1234567890");
    assert_eq!(int_to_string(-1), "-1");
    assert_eq!(int_to_string(-100), "-100");
    assert_eq!(int_to_string(i32::MAX), "2147483647");
    assert_eq!(int_to_string(i32::MIN), "-2147483648");
    for n in [-99999, -11, -10, -9, 9, 11, 99, 100, 101, 65535] {
        assert_eq!(int_to_string(n), n.to_string());
    }
}

#[test]
fn join_range_puts_the_separator_between_parts() {
    let parts: Vec<Cow<str>> =
        vec![Cow::Borrowed("a"), Cow::Owned("b".to_string()), Cow::Borrowed(""), Cow::Borrowed("d")];
    assert_eq!(join_range(&parts, 0, 4, ", "), "a, b, , d");
    assert_eq!(join_range(&parts, 1, 3, "-"), "b-");
    assert_eq!(join_range(&parts, 2, 3, "-"), "");
    assert_eq!(join_range(&parts, 3, 4, "-"), "d");
    assert_eq!(join_range(&parts, 2, 2, "-"), "");
    assert_eq!(join_range(&parts, 0, 4, ""), "abd");
}

#[test]
fn text_handles_keep_their_text() {
    let owned: Cow<str> = Cow::Owned("owned".to_string());
    let borrowed: Cow<str> = Cow::Borrowed("borrowed");
    assert_eq!(as_text(&owned), "owned");
    assert_eq!(as_text(&borrowed), "borrowed");
    assert_eq!(duplicate(&owned), owned);
    assert!(matches!(duplicate(&borrowed), Cow::Borrowed("borrowed")));
    assert!(matches!(duplicate(&owned), Cow::Owned(_)));
}
