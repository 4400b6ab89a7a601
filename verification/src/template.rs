//! Argument templates: text with field references in braces.
//!
//! A field reference is `{N}` for one numbered capture, `{name}` for a named
//! one, or `{L..R}` for a range of numbered captures, with `:sep` after it
//! to join them by something else than the default. `{}` and `{0}` stand for
//! the whole line. Braces that hold none of these are kept as they are.

use crate::context::{Context, ContextView};
use crate::range::{translate, Range};
use crate::text::{
    as_text, is_digit, is_word, parse_i32, parse_number, parse_number_saturating,
    parse_saturating, to_chars, trim_bounds, trimmed,
};
use vstd::prelude::*;

verus! {

/// One piece of a template.
#[derive(Debug, PartialEq, Eq)]
pub enum ArgFragment {
    /// Text that is passed on as it is.
    Literal(String),
    /// A reference to a binding by its name.
    NamedGroup(String),
    /// A reference to numbered captures, with the separator that joins them
    /// if the reference names one.
    RangeGroup(Range, Option<String>),
}

/// A fragment as plain values.
pub enum FragmentView {
    /// Text that is passed on as it is.
    Literal(Seq<char>),
    /// A reference to a binding by its name.
    NamedGroup(Seq<char>),
    /// A reference to numbered captures, with its separator if it has one.
    RangeGroup(Range, Option<Seq<char>>),
}

impl View for ArgFragment {
    type V = FragmentView;

    open spec fn view(&self) -> FragmentView {
        match self {
            ArgFragment::Literal(text) => FragmentView::Literal(text@),
            ArgFragment::NamedGroup(name) => FragmentView::NamedGroup(name@),
            ArgFragment::RangeGroup(range, sep) => FragmentView::RangeGroup(*range, sep.deep_view()),
        }
    }
}

/// Whether `field` is wrapped in braces.
pub open spec fn is_field(field: Seq<char>) -> bool {
    field.len() >= 2 && field[0] == '{' && field.last() == '}'
}

/// What stands between the braces of a field.
pub open spec fn field_body(field: Seq<char>) -> Seq<char> {
    field.subrange(1, field.len() - 1)
}

/// Whether every character is a word character.
pub open spec fn all_word(text: Seq<char>) -> bool {
    forall|k: int| 0 <= k < text.len() ==> is_word(#[trigger] text[k])
}

/// The first position at or after `from` that holds no digit.
pub open spec fn skip_digits(s: Seq<char>, from: int) -> int
    decreases s.len() - from,
{
    if 0 <= from < s.len() && is_digit(s[from]) {
        skip_digits(s, from + 1)
    } else {
        from
    }
}

/// The position after an optional minus sign and the digits that follow it.
pub open spec fn skip_number(s: Seq<char>, from: int) -> int {
    if 0 <= from < s.len() && s[from] == '-' {
        skip_digits(s, from + 1)
    } else {
        skip_digits(s, from)
    }
}

/// Whether no line feed stands at or after `from`.
pub open spec fn single_line(s: Seq<char>, from: int) -> bool {
    forall|k: int| from <= k < s.len() ==> #[trigger] s[k] != '\n'
}

/// The texts of a range reference: its left end, its right end and its
/// separator. The body of a range is `left..right` or `left..right:sep`,
/// where each end is an optional minus sign and digits, possibly none, and
/// the separator holds no line feed.
pub open spec fn split_range(body: Seq<char>) -> Option<(Seq<char>, Seq<char>, Option<Seq<char>>)> {
    let dots = skip_number(body, 0);
    if dots + 2 <= body.len() && body[dots] == '.' && body[dots + 1] == '.' {
        let end = skip_number(body, dots + 2);
        let left = body.subrange(0, dots);
        let right = body.subrange(dots + 2, end);
        if end == body.len() {
            Some((left, right, None))
        } else if body[end] == ':' && single_line(body, end + 1) {
            Some((left, right, Some(body.subrange(end + 1, body.len() as int))))
        } else {
            None
        }
    } else {
        None
    }
}

/// One end of a range: open where the text is empty, else the number that
/// the text spells, or `default` where it spells none of 32 bits.
pub open spec fn endpoint(text: Seq<char>, default: i32) -> Option<i32> {
    if text.len() == 0 {
        None
    } else {
        match parse_i32(text) {
            Some(value) => Some(value),
            None => Some(default),
        }
    }
}

/// The selector with the given ends.
pub open spec fn range_of(left: Option<i32>, right: Option<i32>) -> Range {
    match (left, right) {
        (None, None) => Range::Inf(),
        (None, Some(right)) => Range::LeftInf(right),
        (Some(left), None) => Range::RightInf(left),
        (Some(left), Some(right)) => Range::Both(left, right),
    }
}

/// The fragment of a range reference, given the texts of its ends and its
/// separator. An end that is written but is no number of 32 bits counts as
/// the first capture on the left and as the last one on the right.
pub open spec fn range_fragment(parts: (Seq<char>, Seq<char>, Option<Seq<char>>)) -> FragmentView {
    FragmentView::RangeGroup(range_of(endpoint(parts.0, 1i32), endpoint(parts.1, -1i32)), parts.2)
}

/// The fragment that a field stands for. A number between the braces is a
/// single index, the nearest of 32 bits where the number lies beyond them;
/// else a word, possibly empty, is a name; else a range is a range; anything
/// else is literal text, braces included. White space around a number or a
/// name does not count.
pub open spec fn parse_field(field: Seq<char>) -> FragmentView {
    if !is_field(field) {
        FragmentView::Literal(field)
    } else {
        let body = field_body(field);
        let name = trimmed(body);
        if let Some(index) = parse_saturating(name) {
            FragmentView::RangeGroup(Range::Single(index), None)
        } else if all_word(name) {
            FragmentView::NamedGroup(name)
        } else if let Some(parts) = split_range(body) {
            range_fragment(parts)
        } else {
            FragmentView::Literal(field)
        }
    }
}

/// Whether every character of `chars[lo..hi]` is a word character.
fn check_word(chars: &Vec<char>, lo: usize, hi: usize) -> (b: bool)
    requires
        lo <= hi <= chars.len(),
    ensures
        b == all_word(chars@.subrange(lo as int, hi as int)),
{
    let ghost text = chars@.subrange(lo as int, hi as int);
    let mut i: usize = lo;
    while i < hi
        invariant
            lo <= i <= hi <= chars.len(),
            text == chars@.subrange(lo as int, hi as int),
            forall|k: int| 0 <= k < i - lo ==> is_word(#[trigger] text[k]),
        decreases hi - i,
    {
        if !is_word(chars[i]) {
            assert(!is_word(text[i - lo]));
            return false;
        }
        i = i + 1;
    }
    true
}

/// Whether no line feed stands in `chars[lo..hi]` at or after `from`.
fn check_single_line(chars: &Vec<char>, lo: usize, from: usize, hi: usize) -> (b: bool)
    requires
        lo <= from <= hi <= chars.len(),
    ensures
        b == single_line(chars@.subrange(lo as int, hi as int), from - lo),
{
    let ghost text = chars@.subrange(lo as int, hi as int);
    let mut i: usize = from;
    while i < hi
        invariant
            lo <= from <= i <= hi <= chars.len(),
            text == chars@.subrange(lo as int, hi as int),
            forall|k: int| from - lo <= k < i - lo ==> #[trigger] text[k] != '\n',
        decreases hi - i,
    {
        if chars[i] == '\n' {
            assert(text[i - lo] == '\n');
            return false;
        }
        i = i + 1;
    }
    true
}

/// The position in `chars[lo..hi]` after the number that starts at `from`.
fn scan_number(chars: &Vec<char>, lo: usize, from: usize, hi: usize) -> (end: usize)
    requires
        lo <= from <= hi <= chars.len(),
    ensures
        from <= end <= hi,
        end - lo == skip_number(chars@.subrange(lo as int, hi as int), from - lo),
{
    let ghost text = chars@.subrange(lo as int, hi as int);
    let start: usize = if from < hi && chars[from] == '-' {
        from + 1
    } else {
        from
    };
    let mut i: usize = start;
    while i < hi && is_digit(chars[i])
        invariant
            lo <= start <= i <= hi <= chars.len(),
            text == chars@.subrange(lo as int, hi as int),
            skip_digits(text, i - lo) == skip_digits(text, start - lo),
        decreases hi - i,
    {
        i = i + 1;
    }
    i
}

/// One end of a range, read from `chars[lo..hi]`.
fn read_endpoint(chars: &Vec<char>, lo: usize, hi: usize, default: i32) -> (end: Option<i32>)
    requires
        lo <= hi <= chars.len(),
    ensures
        end == endpoint(chars@.subrange(lo as int, hi as int), default),
{
    if lo == hi {
        None
    } else {
        match parse_number(chars, lo, hi) {
            Some(value) => Some(value),
            None => Some(default),
        }
    }
}

/// The selector with the given ends.
fn make_range(left: Option<i32>, right: Option<i32>) -> (range: Range)
    ensures
        range == range_of(left, right),
{
    match (left, right) {
        (None, None) => Range::Inf(),
        (None, Some(right)) => Range::LeftInf(right),
        (Some(left), None) => Range::RightInf(left),
        (Some(left), Some(right)) => Range::Both(left, right),
    }
}

/// Reads a field as a range reference, if it is one. `chars` are the
/// characters of the field, braces included.
fn parse_range(field_string: &str, chars: &Vec<char>) -> (fragment: Option<ArgFragment>)
    requires
        chars@ == field_string@,
        is_field(chars@),
    ensures
        fragment.is_some() == split_range(field_body(chars@)).is_some(),
        fragment matches Some(fragment) ==> fragment@ == range_fragment(
            split_range(field_body(chars@))->0,
        ),
{
    let len: usize = chars.len();
    let ghost body = field_body(chars@);
    let dots = scan_number(chars, 1, 1, len - 1);
    if len - 1 - dots >= 2 && chars[dots] == '.' && chars[dots + 1] == '.' {
        let close = scan_number(chars, 1, dots + 2, len - 1);
        proof {
            assert(body.subrange(0, dots - 1) == chars@.subrange(1, dots as int));
            assert(body.subrange(dots + 1, close - 1) == chars@.subrange(dots + 2, close as int));
        }
        let left = read_endpoint(chars, 1, dots, 1);
        let right = read_endpoint(chars, dots + 2, close, -1);
        if close == len - 1 {
            return Some(ArgFragment::RangeGroup(make_range(left, right), None));
        }
        if chars[close] == ':' && check_single_line(chars, 1, close + 1, len - 1) {
            assert(body.subrange(close as int, body.len() as int) == chars@.subrange(
                close + 1,
                len - 1,
            ));
            let sep = field_string.substring_char(close + 1, len - 1).to_owned();
            return Some(ArgFragment::RangeGroup(make_range(left, right), Some(sep)));
        }
    }
    None
}

impl ArgFragment {
    /// Reads one field, braces included.
    pub fn parse(field_string: &str) -> (fragment: Self)
        ensures
            fragment@ == parse_field(field_string@),
    {
        let chars = to_chars(field_string);
        let len: usize = chars.len();
        if len < 2 || chars[0] != '{' || chars[len - 1] != '}' {
            return ArgFragment::Literal(field_string.to_owned());
        }
        let (start, end) = trim_bounds(&chars, 1, len - 1);
        if let Some(index) = parse_number_saturating(&chars, start, end) {
            return ArgFragment::RangeGroup(Range::Single(index), None);
        }
        if check_word(&chars, start, end) {
            return ArgFragment::NamedGroup(field_string.substring_char(start, end).to_owned());
        }
        match parse_range(field_string, &chars) {
            Some(fragment) => fragment,
            None => ArgFragment::Literal(field_string.to_owned()),
        }
    }
}

/// The "compiled" form of one argument: literal text and field references,
/// in the order in which they stand in the argument.
#[derive(Debug, PartialEq, Eq)]
pub struct ArgTemplate {
    /// The pieces of the argument, in order.
    pub fragments: Vec<ArgFragment>,
}

impl View for ArgTemplate {
    type V = Seq<FragmentView>;

    open spec fn view(&self) -> Seq<FragmentView> {
        self.fragments@.map_values(|fragment: ArgFragment| fragment@)
    }
}

/// An opening or a closing brace.
pub open spec fn is_brace(c: char) -> bool {
    c == '{' || c == '}'
}

/// The first position at or after `from` that holds a brace.
pub open spec fn next_brace(s: Seq<char>, from: int) -> int
    decreases s.len() - from,
{
    if 0 <= from < s.len() && !is_brace(s[from]) {
        next_brace(s, from + 1)
    } else {
        from
    }
}

/// The first field at or after `from`, as the positions of its opening
/// brace and after its closing brace. A field is an opening brace, then
/// characters other than braces, then a closing brace.
pub open spec fn next_field(s: Seq<char>, from: int) -> Option<(int, int)>
    decreases s.len() - from,
{
    if from < 0 || from >= s.len() {
        None
    } else if s[from] == '{' && next_brace(s, from + 1) < s.len() && s[next_brace(s, from + 1)]
        == '}' {
        Some((from, next_brace(s, from + 1) + 1))
    } else {
        next_field(s, from + 1)
    }
}

/// The fragments of the argument `s` from position `from` on: the text up to
/// the next field, the field, and so on, and at the end the text after the
/// last field. The text between two fields is there even where it is empty.
pub open spec fn compile(s: Seq<char>, from: int) -> Seq<FragmentView>
    decreases s.len() - from,
{
    match next_field(s, from) {
        Some((start, end)) if from <= start < end <= s.len() => seq![
            FragmentView::Literal(s.subrange(from, start)),
            parse_field(s.subrange(start, end)),
        ] + compile(s, end),
        _ => seq![FragmentView::Literal(s.subrange(from, s.len() as int))],
    }
}

/// Whether `s[start..end]` is a field: an opening brace, then characters
/// other than braces, then a closing brace.
pub open spec fn is_plain_field(s: Seq<char>, start: int, end: int) -> bool {
    &&& 0 <= start
    &&& start + 2 <= end <= s.len()
    &&& s[start] == '{'
    &&& s[end - 1] == '}'
    &&& forall|k: int| start < k < end - 1 ==> !is_brace(#[trigger] s[k])
}

/// The next brace lies at or after the place where the search began, and no
/// brace stands before it.
pub proof fn lemma_next_brace_bounds(s: Seq<char>, from: int)
    requires
        0 <= from <= s.len(),
    ensures
        from <= next_brace(s, from) <= s.len(),
        forall|k: int| from <= k < next_brace(s, from) ==> !is_brace(#[trigger] s[k]),
        next_brace(s, from) < s.len() ==> is_brace(s[next_brace(s, from)]),
    decreases s.len() - from,
{
    if from < s.len() && !is_brace(s[from]) {
        lemma_next_brace_bounds(s, from + 1);
    }
}

/// At most one field starts at a given place.
pub proof fn lemma_field_end_is_next_brace(s: Seq<char>, start: int, end: int)
    requires
        is_plain_field(s, start, end),
    ensures
        end - 1 == next_brace(s, start + 1),
{
    lemma_next_brace_bounds(s, start + 1);
    let close = next_brace(s, start + 1);
    if close < end - 1 {
        assert(is_brace(s[close]));
    } else if close > end - 1 {
        assert(is_brace(s[end - 1]));
    }
}

/// The field that is found is the leftmost one at or after the place where
/// the search began, and none is found only where there is none.
pub proof fn law_next_field_is_leftmost(s: Seq<char>, from: int)
    requires
        0 <= from,
    ensures
        match next_field(s, from) {
            Some((start, end)) => from <= start && is_plain_field(s, start, end) && forall|
                before: int,
                other: int,
            |
                from <= before < start ==> !is_plain_field(s, before, other),
            None => forall|start: int, end: int| from <= start ==> !is_plain_field(s, start, end),
        },
    decreases s.len() - from,
{
    if from < s.len() {
        lemma_next_brace_bounds(s, from + 1);
        law_next_field_is_leftmost(s, from + 1);
        let close = next_brace(s, from + 1);
        if s[from] == '{' && close < s.len() && s[close] == '}' {
        } else {
            assert forall|other: int| !is_plain_field(s, from, other) by {
                if is_plain_field(s, from, other) {
                    lemma_field_end_is_next_brace(s, from, other);
                }
            }
        }
    }
}

/// A field that is found lies at or after the place where the search began.
pub proof fn lemma_next_field_bounds(s: Seq<char>, from: int)
    ensures
        next_field(s, from) matches Some((start, end)) ==> from <= start < end <= s.len(),
    decreases s.len() - from,
{
    if 0 <= from < s.len() {
        lemma_next_brace_bounds(s, from + 1);
        lemma_next_field_bounds(s, from + 1);
    }
}

/// The first field of `chars` at or after `from`.
fn find_field(chars: &Vec<char>, from: usize) -> (found: Option<(usize, usize)>)
    requires
        from <= chars.len(),
    ensures
        match found {
            Some((start, end)) => next_field(chars@, from as int) == Some(
                (start as int, end as int),
            ) && from <= start < end <= chars.len(),
            None => next_field(chars@, from as int) is None,
        },
{
    let len: usize = chars.len();
    let mut i: usize = from;
    while i < len
        invariant
            from <= i <= len == chars.len(),
            next_field(chars@, i as int) == next_field(chars@, from as int),
        decreases len - i,
    {
        if chars[i] == '{' {
            let mut close: usize = i + 1;
            while close < len && chars[close] != '{' && chars[close] != '}'
                invariant
                    i < close <= len == chars.len(),
                    next_brace(chars@, close as int) == next_brace(chars@, i + 1),
                decreases len - close,
            {
                close = close + 1;
            }
            if close < len && chars[close] == '}' {
                return Some((i, close + 1));
            }
        }
        i = i + 1;
    }
    None
}

impl<'a> From<&'a str> for ArgTemplate {
    /// Compiles one argument.
    fn from(arg: &'a str) -> (template: Self)
        ensures
            template@ == compile(arg@, 0),
    {
        let chars = to_chars(arg);
        let len: usize = chars.len();
        let mut fragments: Vec<ArgFragment> = Vec::new();
        let mut last: usize = 0;
        assert(fragments@.map_values(|fragment: ArgFragment| fragment@) =~= Seq::empty());
        loop
            invariant
                last <= len == chars.len(),
                chars@ == arg@,
                fragments@.map_values(|fragment: ArgFragment| fragment@) + compile(
                    arg@,
                    last as int,
                ) == compile(arg@, 0),
            decreases len - last,
        {
            let ghost done = fragments@.map_values(|fragment: ArgFragment| fragment@);
            match find_field(&chars, last) {
                Some((start, end)) => {
                    fragments.push(ArgFragment::Literal(arg.substring_char(last, start).to_owned()));
                    fragments.push(ArgFragment::parse(arg.substring_char(start, end)));
                    assert(fragments@.map_values(|fragment: ArgFragment| fragment@) =~= done + seq![
                        FragmentView::Literal(arg@.subrange(last as int, start as int)),
                        parse_field(arg@.subrange(start as int, end as int)),
                    ]);
                    last = end;
                },
                None => {
                    fragments.push(ArgFragment::Literal(arg.substring_char(last, len).to_owned()));
                    assert(fragments@.map_values(|fragment: ArgFragment| fragment@) =~= done + seq![
                        FragmentView::Literal(arg@.subrange(last as int, len as int)),
                    ]);
                    return ArgTemplate { fragments };
                },
            }
        }
    }
}

/// Nothing is said of the value that `from` returns but what its own contract
/// says of its fragments: two templates with the same fragments need not be
/// the same value.
impl<'a> vstd::std_specs::convert::FromSpecImpl<&'a str> for ArgTemplate {
    open spec fn obeys_from_spec() -> bool {
        false
    }

    open spec fn from_spec(arg: &'a str) -> Self {
        arbitrary()
    }
}

/// The text that a reference resolved to; the empty text where it resolved
/// to nothing.
pub open spec fn or_empty(value: Option<Seq<char>>) -> Seq<char> {
    match value {
        Some(text) => text,
        None => Seq::empty(),
    }
}

/// The text that one fragment contributes.
pub open spec fn fragment_text(fragment: FragmentView, context: ContextView) -> Seq<char> {
    match fragment {
        FragmentView::Literal(text) => text,
        FragmentView::NamedGroup(name) => or_empty(context.named(name)),
        FragmentView::RangeGroup(range, sep) => or_empty(context.ranged(range, sep)),
    }
}

/// The texts of the fragments one after the other. Nothing is escaped and
/// nothing stands between them.
pub open spec fn instantiate(fragments: Seq<FragmentView>, context: ContextView) -> Seq<char>
    decreases fragments.len(),
{
    if fragments.len() == 0 {
        Seq::empty()
    } else {
        instantiate(fragments.drop_last(), context) + fragment_text(fragments.last(), context)
    }
}

/// The text of two runs of fragments, one after the other, is the text of
/// the first followed by the text of the second.
pub proof fn lemma_instantiate_concat(
    first: Seq<FragmentView>,
    second: Seq<FragmentView>,
    context: ContextView,
)
    ensures
        instantiate(first + second, context) == instantiate(first, context) + instantiate(
            second,
            context,
        ),
    decreases second.len(),
{
    if second.len() == 0 {
        assert(first + second == first);
    } else {
        assert((first + second).drop_last() == first + second.drop_last());
        assert((first + second).last() == second.last());
        lemma_instantiate_concat(first, second.drop_last(), context);
    }
}

/// One fragment alone gives its own text.
pub proof fn lemma_instantiate_one(fragment: FragmentView, context: ContextView)
    ensures
        instantiate(seq![fragment], context) == fragment_text(fragment, context),
{
    reveal_with_fuel(instantiate, 2);
    assert(seq![fragment].drop_last() == Seq::<FragmentView>::empty());
    assert(Seq::<char>::empty() + fragment_text(fragment, context) == fragment_text(
        fragment,
        context,
    ));
}

/// An argument without a field is one literal, and every line gives it back
/// as it is.
pub proof fn law_plain_text_round_trip(s: Seq<char>, context: ContextView)
    requires
        next_field(s, 0) is None,
    ensures
        compile(s, 0) == seq![FragmentView::Literal(s)],
        instantiate(compile(s, 0), context) == s,
{
    assert(s.subrange(0, s.len() as int) == s);
    lemma_instantiate_one(FragmentView::Literal(s), context);
}

/// The text before a field is passed on as it stands: an argument gives the
/// text up to its first field, then what the field resolves to, then what
/// the rest of the argument gives.
pub proof fn law_literals_verbatim(s: Seq<char>, from: int, context: ContextView)
    requires
        next_field(s, from) is Some,
    ensures
        ({
            let (start, end) = next_field(s, from).unwrap();
            instantiate(compile(s, from), context) == s.subrange(from, start) + fragment_text(
                parse_field(s.subrange(start, end)),
                context,
            ) + instantiate(compile(s, end), context)
        }),
{
    lemma_next_field_bounds(s, from);
    let (start, end) = next_field(s, from).unwrap();
    let literal = FragmentView::Literal(s.subrange(from, start));
    let field = parse_field(s.subrange(start, end));
    let head = seq![literal, field];
    assert(head.drop_last() == seq![literal]);
    lemma_instantiate_one(literal, context);
    lemma_instantiate_concat(head, compile(s, end), context);
}

/// The fields `{}` and `{0}` are the empty name and the index 0.
pub proof fn lemma_whole_line_fields()
    ensures
        parse_field("{}"@) == FragmentView::NamedGroup(Seq::empty()),
        parse_field("{0}"@) == FragmentView::RangeGroup(Range::Single(0), None),
{
    reveal_strlit("{}");
    reveal_strlit("{0}");
    reveal_with_fuel(crate::text::skip_spaces, 2);
    reveal_with_fuel(crate::text::skip_spaces_back, 2);
    reveal_with_fuel(crate::text::digits_value, 2);
    let empty = field_body("{}"@);
    assert(empty == Seq::<char>::empty());
    assert(trimmed(empty) == Seq::<char>::empty());
    let zero = field_body("{0}"@);
    assert(zero == seq!['0']);
    assert(trimmed(zero) == seq!['0']);
    assert(seq!['0'].drop_last() == Seq::<char>::empty());
    assert(crate::text::digits_value(seq!['0']) == 0);
    assert(crate::text::unsigned_part(seq!['0']) == seq!['0']);
    assert(parse_saturating(seq!['0']) == Some(0i32));
}

/// A reference that resolves to nothing contributes the empty text: a single
/// index beyond the last capture, and a name that is not bound.
pub proof fn law_unresolved_reference_is_empty(
    context: ContextView,
    idx: i32,
    sep: Option<Seq<char>>,
    name: Seq<char>,
)
    ensures
        translate(context.groups.len() as int, idx as int) > context.groups.len()
            ==> fragment_text(FragmentView::RangeGroup(Range::Single(idx), sep), context)
            == Seq::<char>::empty(),
        !context.bindings.contains_key(name) ==> fragment_text(
            FragmentView::NamedGroup(name),
            context,
        ) == Seq::<char>::empty(),
{
}

impl<'a> ArgTemplate {
    /// The argument that the template gives for one line.
    pub fn apply_context<T: Context<'a>>(&self, context: &'a T) -> (text: String)
        ensures
            text@ == instantiate(self@, context.content()),
    {
        let mut text = String::new();
        let mut i: usize = 0;
        while i < self.fragments.len()
            invariant
                i <= self.fragments.len(),
                text@ == instantiate(self@.take(i as int), context.content()),
            decreases self.fragments.len() - i,
        {
            proof {
                assert(self@.take(i + 1).drop_last() == self@.take(i as int));
                assert(self@.take(i + 1).last() == self.fragments[i as int]@);
            }
            match &self.fragments[i] {
                ArgFragment::Literal(literal) => {
                    text.append(literal.as_str());
                },
                ArgFragment::NamedGroup(name) => {
                    match context.get_by_name(name.as_str()) {
                        Some(value) => text.append(as_text(&value)),
                        None => {},
                    }
                },
                ArgFragment::RangeGroup(range, opt_sep) => {
                    let sep = match opt_sep {
                        Some(sep) => Some(sep.as_str()),
                        None => None,
                    };
                    match context.get_by_range(range, sep) {
                        Some(value) => text.append(as_text(&value)),
                        None => {},
                    }
                },
            }
            i = i + 1;
        }
        assert(self@.take(i as int) == self@);
        text
    }
}

} // verus!
