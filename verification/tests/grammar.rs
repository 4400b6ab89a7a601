//! The field grammar, held against the regular expressions that define it,
//! over every short text of a small alphabet.

use rargs::range::Range;
use rargs::template::{ArgFragment, ArgTemplate};
use regex::Regex;

struct Grammar {
    field: Regex,
    single: Regex,
    named: Regex,
    range: Regex,
}

fn grammar() -> Grammar {
    Grammar {
        field: Regex::new(r"\{[[:space:]]*[^{}]*[[:space:]]*\}").unwrap(),
        single: Regex::new(r"^\{[[:space:]]*(?P<num>-?[0-9]+)[[:space:]]*\}$").unwrap(),
        named: Regex::new(r"^\{[[:space:]]*(?P<name>[[:word:]]*)[[:space:]]*\}$").unwrap(),
        range: Regex::new(r"^\{(?P<left>-?[0-9]*)?\.\.(?P<right>-?[0-9]*)?(?::(?P<sep>.*))?\}$")
            .unwrap(),
    }
}

/// One end of a range: open where nothing is written.
fn end(text: Option<&str>, default: i32) -> Option<i32> {
    match text {
        None | Some("") => None,
        Some(text) => Some(text.parse().unwrap_or(default)),
    }
}

fn expected_fragment(grammar: &Grammar, field: &str) -> ArgFragment {
    if let Some(caps) = grammar.single.captures(field) {
        let number = &caps["num"];
        let index = number.parse::<i32>().unwrap_or(if number.starts_with('-') {
            i32::MIN
        } else {
            i32::MAX
        });
        return ArgFragment::RangeGroup(Range::Single(index), None);
    }
    if let Some(caps) = grammar.named.captures(field) {
        return ArgFragment::NamedGroup(caps["name"].to_string());
    }
    if let Some(caps) = grammar.range.captures(field) {
        let left = end(caps.name("left").map(|m| m.as_str()), 1);
        let right = end(caps.name("right").map(|m| m.as_str()), -1);
        let sep = caps.name("sep").map(|m| m.as_str().to_string());
        let range = match (left, right) {
            (None, None) => Range::Inf(),
            (None, Some(right)) => Range::LeftInf(right),
            (Some(left), None) => Range::RightInf(left),
            (Some(left), Some(right)) => Range::Both(left, right),
        };
        return ArgFragment::RangeGroup(range, sep);
    }
    ArgFragment::Literal(field.to_string())
}

fn expected_template(grammar: &Grammar, arg: &str) -> Vec<ArgFragment> {
    let mut fragments = Vec::new();
    let mut last = 0;
    for found in grammar.field.find_iter(arg) {
        fragments.push(ArgFragment::Literal(arg[last..found.start()].to_string()));
        fragments.push(expected_fragment(grammar, found.as_str()));
        last = found.end();
    }
    fragments.push(ArgFragment::Literal(arg[last..].to_string()));
    fragments
}

/// Every text of at most `len` characters of `alphabet`.
fn texts(alphabet: &[char], len: usize) -> Vec<String> {
    let mut all = vec![String::new()];
    let mut last = vec![String::new()];
    for _ in 0..len {
        let mut next = Vec::new();
        for text in &last {
            for c in alphabet {
                let mut longer = text.clone();
                longer.push(*c);
                next.push(longer);
            }
        }
        all.extend(next.iter().cloned());
        last = next;
    }
    all
}

#[test]
fn fields_agree_with_the_regular_expressions() {
    let grammar = grammar();
    let alphabet = [' ', '\n', '1', '0', '-', '.', ':', 'a', '_', '}', '\u{e9}'];
    for body in texts(&alphabet, 4) {
        let field = format!("{{{}}}", body);
        assert_eq!(ArgFragment::parse(&field), expected_fragment(&grammar, &field), "{:?}", field);
    }
}

#[test]
fn ranges_agree_with_the_regular_expressions() {
    let grammar = grammar();
    let alphabet = ['9', '-', '.', ':', '\t'];
    for body in texts(&alphabet, 6) {
        let field = format!("{{{}}}", body);
        assert_eq!(ArgFragment::parse(&field), expected_fragment(&grammar, &field), "{:?}", field);
    }
}

#[test]
fn long_numbers_agree_with_the_regular_expressions() {
    let grammar = grammar();
    let digits = ["2147483647", "2147483648", "2147483649", "21474836470", "0000000000000", "4294967296", "9223372036854775808"];
    for digits in digits {
        for sign in ["", "-"] {
            let number = format!("{}{}", sign, digits);
            for field in [
                format!("{{{}}}", number),
                format!("{{ {} }}", number),
                format!("{{{}..}}", number),
                format!("{{..{}}}", number),
                format!("{{{}..{}:x}}", number, number),
            ] {
                assert_eq!(
                    ArgFragment::parse(&field),
                    expected_fragment(&grammar, &field),
                    "{:?}",
                    field
                );
            }
        }
    }
}

#[test]
fn texts_without_outer_braces_are_literal() {
    let grammar = grammar();
    let alphabet = ['{', '}', '1', ' ', 'a', '.'];
    for text in texts(&alphabet, 5) {
        assert_eq!(ArgFragment::parse(&text), expected_fragment(&grammar, &text), "{:?}", text);
    }
}

#[test]
fn templates_agree_with_the_regular_expressions() {
    let grammar = grammar();
    let alphabet = ['{', '}', '1', ' ', 'x', '.', '\u{20ac}'];
    for arg in texts(&alphabet, 6) {
        assert_eq!(ArgTemplate::from(arg.as_str()).fragments, expected_template(&grammar, &arg), "{:?}", arg);
    }
}
