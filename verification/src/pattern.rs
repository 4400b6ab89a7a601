//! Patterns: regular expressions, compiled by the `regex` crate.
//!
//! A [`Pattern`] is made from its text with default settings and never
//! changes, so what it matches depends on that text and on the text it is
//! held against, and on nothing else. The functions of this module that call
//! the `regex` crate are not proved: each states, as its contract, what the
//! crate's documentation and source say of the call it makes.

use regex::Regex;
use vstd::prelude::*;

verus! {

/// `regex::Regex`, a compiled expression. Nothing inside it is visible here.
#[verifier::external_type_specification]
#[verifier::external_body]
pub struct ExRegex(regex::Regex);

/// `regex::Error`, the reason why a pattern did not compile.
#[verifier::external_type_specification]
#[verifier::external_body]
pub struct ExRegexError(regex::Error);

/// A compiled pattern together with the text it was compiled from.
#[derive(Debug)]
pub struct Pattern {
    regex: Regex,
    source: String,
}

impl View for Pattern {
    type V = Seq<char>;

    /// The text of the pattern.
    closed spec fn view(&self) -> Seq<char> {
        self.source@
    }
}

/// A pattern that could not be compiled.
#[derive(Debug, PartialEq, Eq)]
pub struct PatternError {
    /// The pattern.
    pub pattern: String,
    /// What the engine found wrong with it.
    pub message: String,
}

/// Whether the engine takes a pattern: whether its syntax is valid and its
/// compiled form stays within the size that the engine allows by default.
pub uninterp spec fn pattern_compiles(pattern: Seq<char>) -> bool;

/// The capture groups of a pattern in the order of their opening parentheses,
/// each with its name if it has one. Entry 0 stands for the whole match.
pub uninterp spec fn group_names(pattern: Seq<char>) -> Seq<Option<Seq<char>>>;

/// All non-overlapping matches of a pattern in a text, leftmost first. Each
/// match lists the text of every capture group, `None` for a group that took
/// no part in the match. Entry 0 of a match is the whole matched text.
pub uninterp spec fn pattern_captures(pattern: Seq<char>, text: Seq<char>) -> Seq<
    Seq<Option<Seq<char>>>,
>;

/// Whether no two groups have the same name.
pub open spec fn distinct_names(names: Seq<Option<Seq<char>>>) -> bool {
    forall|i: int, j: int|
        0 <= i < j < names.len() && names[i] is Some ==> #[trigger] names[i] != #[trigger] names[j]
}

/// `Regex::new`: compiles `source` with the default settings. It succeeds
/// exactly where the engine takes the pattern, and the pattern that comes of
/// it has `source` as its text.
#[verifier::external_body]
fn compile(source: &str) -> (compiled: Result<Pattern, regex::Error>)
    ensures
        compiled is Ok <==> pattern_compiles(source@),
        compiled matches Ok(pattern) ==> pattern@ == source@,
{
    Regex::new(source).map(|regex| Pattern { regex, source: source.to_string() })
}

/// `Regex::capture_names`: one entry per capture group, in order. No two
/// groups of a compiled pattern have the same name: the engine refuses a
/// pattern that uses a name twice.
#[verifier::external_body]
pub(crate) fn capture_names<'r>(pattern: &'r Pattern) -> (names: Vec<Option<&'r str>>)
    ensures
        names.deep_view() == group_names(pattern@),
        distinct_names(names.deep_view()),
{
    pattern.regex.capture_names().collect()
}

/// `Regex::captures_iter`, with every match spelled out through
/// `Captures::iter` and `Match::as_str`.
#[verifier::external_body]
pub(crate) fn captures_iter<'h>(pattern: &Pattern, text: &'h str) -> (found: Vec<
    Vec<Option<&'h str>>,
>)
    ensures
        found.deep_view() == pattern_captures(pattern@, text@),
{
    pattern.regex.captures_iter(text).map(
        |caps| caps.iter().map(|group| group.map(|m| m.as_str())).collect(),
    ).collect()
}

/// The text that `regex::Error` shows for itself. Nothing is stated of it.
#[verifier::external_body]
fn error_text(error: &regex::Error) -> (text: String) {
    error.to_string()
}

impl Pattern {
    /// Compiles `source`. Where the engine refuses it, and only there, an
    /// error comes back, which holds the pattern and the reason.
    pub fn new(source: &str) -> (made: Result<Pattern, PatternError>)
        ensures
            made is Ok <==> pattern_compiles(source@),
            match made {
                Ok(pattern) => pattern@ == source@,
                Err(error) => error.pattern@ == source@,
            },
    {
        Self::from_compiled(source, compile(source))
    }

    /// What the engine gave for `source`, with its error in the form of this
    /// crate: a pattern stays as it is, an error is joined by `source`.
    pub fn from_compiled(source: &str, compiled: Result<Pattern, regex::Error>) -> (made: Result<
        Pattern,
        PatternError,
    >)
        ensures
            match compiled {
                Ok(pattern) => made == Ok::<Pattern, PatternError>(pattern),
                Err(_) => made is Err && made->Err_0.pattern@ == source@,
            },
    {
        match compiled {
            Ok(pattern) => Ok(pattern),
            Err(error) => Err(
                PatternError { pattern: source.to_owned(), message: error_text(&error) },
            ),
        }
    }

    /// The text of the pattern.
    pub fn as_str(&self) -> (source: &str)
        ensures
            source@ == self@,
    {
        self.source.as_str()
    }
}

} // verus!
