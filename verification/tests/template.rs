//! The field grammar and the compiler of templates.

use rargs::context::RegexContext;
use rargs::range::Range;
use rargs::template::{ArgFragment, ArgTemplate};
use rargs::pattern::Pattern;
use std::borrow::Cow;

fn literal(text: &str) -> ArgFragment {
    ArgFragment::Literal(text.to_string())
}

fn named(name: &str) -> ArgFragment {
    ArgFragment::NamedGroup(name.to_string())
}

fn ranged(range: Range) -> ArgFragment {
    ArgFragment::RangeGroup(range, None)
}

fn ranged_by(range: Range, sep: &str) -> ArgFragment {
    ArgFragment::RangeGroup(range, Some(sep.to_string()))
}

#[test]
fn parse_single_index() {
    assert_eq!(ArgFragment::parse("{1}"), ranged(Range::Single(1)));
    assert_eq!(ArgFragment::parse("{0}"), ranged(Range::Single(0)));
    assert_eq!(ArgFragment::parse("{-3}"), ranged(Range::Single(-3)));
    assert_eq!(ArgFragment::parse("{007}"), ranged(Range::Single(7)));
    assert_eq!(ArgFragment::parse("{-0}"), ranged(Range::Single(0)));
    assert_eq!(ArgFragment::parse("{12345}"), ranged(Range::Single(12345)));
}

#[test]
fn parse_single_index_ignores_white_space_around_it() {
    assert_eq!(ArgFragment::parse("{ 2 }"), ranged(Range::Single(2)));
    assert_eq!(ArgFragment::parse("{\t-2\n}"), ranged(Range::Single(-2)));
    assert_eq!(ArgFragment::parse("{\r\x0B\x0C 5}"), ranged(Range::Single(5)));
    assert_eq!(ArgFragment::parse("{- 2}"), literal("{- 2}"));
    assert_eq!(ArgFragment::parse("{1 2}"), literal("{1 2}"));
}

#[test]
fn parse_single_index_at_the_limits_of_32_bits() {
    assert_eq!(ArgFragment::parse("{2147483647}"), ranged(Range::Single(i32::MAX)));
    assert_eq!(ArgFragment::parse("{-2147483648}"), ranged(Range::Single(i32::MIN)));
}

#[test]
fn parse_single_index_beyond_32_bits_is_the_nearest_index() {
    assert_eq!(ArgFragment::parse("{2147483648}"), ranged(Range::Single(i32::MAX)));
    assert_eq!(ArgFragment::parse("{99999999999999999999999}"), ranged(Range::Single(i32::MAX)));
    assert_eq!(ArgFragment::parse("{ 4294967297 }"), ranged(Range::Single(i32::MAX)));
    assert_eq!(ArgFragment::parse("{-2147483649}"), ranged(Range::Single(i32::MIN)));
    assert_eq!(ArgFragment::parse("{-99999999999999999999999}"), ranged(Range::Single(i32::MIN)));
}

#[test]
fn single_index_beyond_32_bits_selects_nothing_or_the_whole_line() {
    let pattern = Pattern::new(r"(\w+)").unwrap();
    let context = RegexContext::builder(&pattern, "a b c").build();
    assert_eq!(ArgTemplate::from("[{2147483648}]").apply_context(&context), "[]");
    assert_eq!(ArgTemplate::from("[{99999999999}]").apply_context(&context), "[]");
    assert_eq!(ArgTemplate::from("[{-2147483649}]").apply_context(&context), "[a b c]");
    assert_eq!(ArgTemplate::from("[{-99999999999}]").apply_context(&context), "[a b c]");
}

#[test]
fn parse_name() {
    assert_eq!(ArgFragment::parse("{}"), named(""));
    assert_eq!(ArgFragment::parse("{   }"), named(""));
    assert_eq!(ArgFragment::parse("{year}"), named("year"));
    assert_eq!(ArgFragment::parse("{ name_1 }"), named("name_1"));
    assert_eq!(ArgFragment::parse("{1a}"), named("1a"));
    assert_eq!(ArgFragment::parse("{LN}"), named("LN"));
    assert_eq!(ArgFragment::parse("{_}"), named("_"));
    assert_eq!(ArgFragment::parse("{azAZ09_}"), named("azAZ09_"));
}

#[test]
fn parse_range_shapes() {
    assert_eq!(ArgFragment::parse("{..}"), ranged(Range::Inf()));
    assert_eq!(ArgFragment::parse("{..3}"), ranged(Range::LeftInf(3)));
    assert_eq!(ArgFragment::parse("{..-2}"), ranged(Range::LeftInf(-2)));
    assert_eq!(ArgFragment::parse("{3..}"), ranged(Range::RightInf(3)));
    assert_eq!(ArgFragment::parse("{-2..}"), ranged(Range::RightInf(-2)));
    assert_eq!(ArgFragment::parse("{3..4}"), ranged(Range::Both(3, 4)));
    assert_eq!(ArgFragment::parse("{-4..-3}"), ranged(Range::Both(-4, -3)));
    assert_eq!(ArgFragment::parse("{0..0}"), ranged(Range::Both(0, 0)));
}

#[test]
fn parse_range_separator() {
    assert_eq!(ArgFragment::parse("{3..4:_}"), ranged_by(Range::Both(3, 4), "_"));
    assert_eq!(ArgFragment::parse("{..:, }"), ranged_by(Range::Inf(), ", "));
    assert_eq!(ArgFragment::parse("{2..:}"), ranged_by(Range::RightInf(2), ""));
    assert_eq!(ArgFragment::parse("{..2:::}"), ranged_by(Range::LeftInf(2), "::"));
    assert_eq!(ArgFragment::parse("{1..2:\t}"), ranged_by(Range::Both(1, 2), "\t"));
    assert_eq!(ArgFragment::parse("{1..2:}{}"), ranged_by(Range::Both(1, 2), "}{"));
    assert_eq!(ArgFragment::parse("{1..2:é}"), ranged_by(Range::Both(1, 2), "é"));
    assert_eq!(ArgFragment::parse("{1..2:a\nb}"), literal("{1..2:a\nb}"));
}

#[test]
fn parse_range_end_that_is_no_number_takes_its_default() {
    assert_eq!(ArgFragment::parse("{-..3}"), ranged(Range::Both(1, 3)));
    assert_eq!(ArgFragment::parse("{3..-}"), ranged(Range::Both(3, -1)));
    assert_eq!(ArgFragment::parse("{-..-}"), ranged(Range::Both(1, -1)));
    assert_eq!(ArgFragment::parse("{99999999999..2}"), ranged(Range::Both(1, 2)));
    assert_eq!(ArgFragment::parse("{2..99999999999}"), ranged(Range::Both(2, -1)));
    assert_eq!(ArgFragment::parse("{..-99999999999}"), ranged(Range::LeftInf(-1)));
}

#[test]
fn parse_range_takes_no_white_space() {
    assert_eq!(ArgFragment::parse("{ 1..2}"), literal("{ 1..2}"));
    assert_eq!(ArgFragment::parse("{1..2 }"), literal("{1..2 }"));
    assert_eq!(ArgFragment::parse("{1 ..2}"), literal("{1 ..2}"));
    assert_eq!(ArgFragment::parse("{1...2}"), literal("{1...2}"));
    assert_eq!(ArgFragment::parse("{1.2}"), literal("{1.2}"));
    assert_eq!(ArgFragment::parse("{1..2x}"), literal("{1..2x}"));
    assert_eq!(ArgFragment::parse("{--1..2}"), literal("{--1..2}"));
}

#[test]
fn parse_falls_back_to_literal() {
    assert_eq!(ArgFragment::parse(""), literal(""));
    assert_eq!(ArgFragment::parse("{"), literal("{"));
    assert_eq!(ArgFragment::parse("}"), literal("}"));
    assert_eq!(ArgFragment::parse("abc"), literal("abc"));
    assert_eq!(ArgFragment::parse("{1}x"), literal("{1}x"));
    assert_eq!(ArgFragment::parse("x{1}"), literal("x{1}"));
    assert_eq!(ArgFragment::parse("{a b}"), literal("{a b}"));
    assert_eq!(ArgFragment::parse("{a-b}"), literal("{a-b}"));
    assert_eq!(ArgFragment::parse("{é}"), literal("{é}"));
    assert_eq!(ArgFragment::parse("{\u{663}}"), literal("{\u{663}}"));
    assert_eq!(ArgFragment::parse("{1}\n"), literal("{1}\n"));
}

#[test]
fn compile_splits_text_and_fields() {
    let template = ArgTemplate::from("x {abc} z");
    assert_eq!(template.fragments, vec![literal("x "), named("abc"), literal(" z")]);
}

#[test]
fn compile_keeps_empty_text_between_fields() {
    let template = ArgTemplate::from("{1}{2..:-}");
    assert_eq!(
        template.fragments,
        vec![
            literal(""),
            ranged(Range::Single(1)),
            literal(""),
            ranged_by(Range::RightInf(2), "-"),
            literal(""),
        ]
    );
}

#[test]
fn compile_without_fields_is_one_literal() {
    assert_eq!(ArgTemplate::from("").fragments, vec![literal("")]);
    assert_eq!(ArgTemplate::from("plain text").fragments, vec![literal("plain text")]);
    assert_eq!(ArgTemplate::from("a{b").fragments, vec![literal("a{b")]);
    assert_eq!(ArgTemplate::from("a}b{").fragments, vec![literal("a}b{")]);
    assert_eq!(ArgTemplate::from("}{").fragments, vec![literal("}{")]);
}

#[test]
fn compile_takes_the_innermost_braces() {
    assert_eq!(
        ArgTemplate::from("{{a}}").fragments,
        vec![literal("{"), named("a"), literal("}")]
    );
    assert_eq!(
        ArgTemplate::from("{a {1} c}").fragments,
        vec![literal("{a "), ranged(Range::Single(1)), literal(" c}")]
    );
    assert_eq!(
        ArgTemplate::from("}{}{").fragments,
        vec![literal("}"), named(""), literal("{")]
    );
}

#[test]
fn compile_keeps_braces_that_hold_no_field() {
    assert_eq!(
        ArgTemplate::from("awk '{print $1}' {1}").fragments,
        vec![
            literal("awk '"),
            literal("{print $1}"),
            literal("' "),
            ranged(Range::Single(1)),
            literal(""),
        ]
    );
}

#[test]
fn compile_counts_characters_not_bytes() {
    assert_eq!(
        ArgTemplate::from("é{1}ü{name}€").fragments,
        vec![literal("é"), ranged(Range::Single(1)), literal("ü"), named("name"), literal("€")]
    );
}

#[test]
fn apply_context_puts_values_between_the_literals() {
    let pattern = Pattern::new(r"(\w+)@(?P<host>\w+)").unwrap();
    let context = RegexContext::builder(&pattern, "joe@example").build();
    assert_eq!(ArgTemplate::from("<{1}> at <{host}>").apply_context(&context), "<joe> at <example>");
    assert_eq!(ArgTemplate::from("{}").apply_context(&context), "joe@example");
    assert_eq!(ArgTemplate::from("{0}").apply_context(&context), "joe@example");
    assert_eq!(ArgTemplate::from("{..:+}").apply_context(&context), "joe+example");
    assert_eq!(ArgTemplate::from("{2..1}|{3}|{nobody}|").apply_context(&context), "|||");
}

#[test]
fn apply_context_gives_plain_text_back() {
    let pattern = Pattern::new(r"(\w+)").unwrap();
    let context = RegexContext::builder(&pattern, "a b c").build();
    for text in ["", "plain", "a{b", "{x y}", "  spaced  out  ", "é€"] {
        assert_eq!(ArgTemplate::from(text).apply_context(&context), text);
    }
}

#[test]
fn apply_context_does_not_escape_values() {
    let pattern = Pattern::new(r"^(.*)$").unwrap();
    let context = RegexContext::builder(&pattern, "{1} $HOME 'x'")
        .put("extra", Cow::Borrowed("{}"))
        .build();
    assert_eq!(ArgTemplate::from("[{1}]").apply_context(&context), "[{1} $HOME 'x']");
    assert_eq!(ArgTemplate::from("[{extra}]").apply_context(&context), "[{}]");
}
