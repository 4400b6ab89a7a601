//! Text as sequences of characters: classes of characters, decimal numbers,
//! and joining with a separator.

use std::borrow::Cow;
use vstd::prelude::*;

verus! {

/// ASCII white space: space, tab, line feed, vertical tab, form feed and
/// carriage return.
pub open spec fn spec_is_space(c: char) -> bool {
    c == ' ' || c == '\t' || c == '\n' || c == '\x0B' || c == '\x0C' || c == '\r'
}

#[verifier::when_used_as_spec(spec_is_space)]
pub fn is_space(c: char) -> (b: bool)
    ensures
        b == spec_is_space(c),
{
    c == ' ' || c == '\t' || c == '\n' || c == '\x0B' || c == '\x0C' || c == '\r'
}

/// An ASCII decimal digit.
pub open spec fn spec_is_digit(c: char) -> bool {
    '0' as u32 <= c as u32 <= '9' as u32
}

#[verifier::when_used_as_spec(spec_is_digit)]
pub fn is_digit(c: char) -> (b: bool)
    ensures
        b == spec_is_digit(c),
{
    let code: u32 = c as u32;
    '0' as u32 <= code && code <= '9' as u32
}

/// An ASCII letter, an ASCII digit or the underscore.
pub open spec fn spec_is_word(c: char) -> bool {
    ||| spec_is_digit(c)
    ||| 'a' as u32 <= c as u32 <= 'z' as u32
    ||| 'A' as u32 <= c as u32 <= 'Z' as u32
    ||| c == '_'
}

#[verifier::when_used_as_spec(spec_is_word)]
pub fn is_word(c: char) -> (b: bool)
    ensures
        b == spec_is_word(c),
{
    let code: u32 = c as u32;
    is_digit(c) || ('a' as u32 <= code && code <= 'z' as u32) || ('A' as u32 <= code && code
        <= 'Z' as u32) || c == '_'
}

/// The characters of `s`, in order.
pub fn to_chars(s: &str) -> (chars: Vec<char>)
    ensures
        chars@ == s@,
{
    let mut chars: Vec<char> = Vec::new();
    for c in it: s.chars()
        invariant
            it.seq() == s@,
            chars@ == s@.take(it.index() as int),
    {
        chars.push(c);
    }
    chars
}

/// The first position at or after `from` that holds no white space.
pub open spec fn skip_spaces(s: Seq<char>, from: int) -> int
    decreases s.len() - from,
{
    if 0 <= from < s.len() && is_space(s[from]) {
        skip_spaces(s, from + 1)
    } else {
        from
    }
}

/// The end of the text before `to` once trailing white space is cut off, but
/// never before `floor`.
pub open spec fn skip_spaces_back(s: Seq<char>, floor: int, to: int) -> int
    decreases to - floor,
{
    if floor < to <= s.len() && is_space(s[to - 1]) {
        skip_spaces_back(s, floor, to - 1)
    } else {
        to
    }
}

/// `s` without its leading and trailing white space.
pub open spec fn trimmed(s: Seq<char>) -> Seq<char> {
    let start = skip_spaces(s, 0);
    let end = skip_spaces_back(s, start, s.len() as int);
    s.subrange(start, end)
}

/// Only white space is skipped, and the skipping goes on as long as there
/// is white space.
pub proof fn lemma_skip_spaces(s: Seq<char>, from: int)
    requires
        0 <= from <= s.len(),
    ensures
        from <= skip_spaces(s, from) <= s.len(),
        forall|k: int| from <= k < skip_spaces(s, from) ==> is_space(#[trigger] s[k]),
        skip_spaces(s, from) < s.len() ==> !is_space(s[skip_spaces(s, from)]),
    decreases s.len() - from,
{
    if from < s.len() && is_space(s[from]) {
        lemma_skip_spaces(s, from + 1);
    }
}

/// The same from the end of the text.
pub proof fn lemma_skip_spaces_back(s: Seq<char>, floor: int, to: int)
    requires
        0 <= floor <= to <= s.len(),
    ensures
        floor <= skip_spaces_back(s, floor, to) <= to,
        forall|k: int| skip_spaces_back(s, floor, to) <= k < to ==> is_space(#[trigger] s[k]),
        floor < skip_spaces_back(s, floor, to) ==> !is_space(
            s[skip_spaces_back(s, floor, to) - 1],
        ),
    decreases to - floor,
{
    if floor < to && is_space(s[to - 1]) {
        lemma_skip_spaces_back(s, floor, to - 1);
    }
}

/// Trimming takes white space off both ends, all of it and nothing else:
/// `s` is white space, then `trimmed(s)`, then white space, and `trimmed(s)`
/// neither starts nor ends with white space.
pub proof fn law_trimmed(s: Seq<char>)
    ensures
        ({
            let start = skip_spaces(s, 0);
            let end = skip_spaces_back(s, start, s.len() as int);
            &&& 0 <= start <= end <= s.len()
            &&& trimmed(s) == s.subrange(start, end)
            &&& forall|k: int| 0 <= k < start ==> is_space(#[trigger] s[k])
            &&& forall|k: int| end <= k < s.len() ==> is_space(#[trigger] s[k])
            &&& trimmed(s).len() > 0 ==> !is_space(trimmed(s).first()) && !is_space(
                trimmed(s).last(),
            )
        }),
{
    lemma_skip_spaces(s, 0);
    lemma_skip_spaces_back(s, skip_spaces(s, 0), s.len() as int);
}

/// The bounds of `trimmed` within `chars[lo..hi]`.
pub fn trim_bounds(chars: &Vec<char>, lo: usize, hi: usize) -> (bounds: (usize, usize))
    requires
        lo <= hi <= chars.len(),
    ensures
        lo <= bounds.0 <= bounds.1 <= hi,
        bounds.0 - lo == skip_spaces(chars@.subrange(lo as int, hi as int), 0),
        bounds.1 - lo == skip_spaces_back(
            chars@.subrange(lo as int, hi as int),
            bounds.0 - lo,
            hi - lo,
        ),
        chars@.subrange(bounds.0 as int, bounds.1 as int) == trimmed(
            chars@.subrange(lo as int, hi as int),
        ),
{
    let ghost s = chars@.subrange(lo as int, hi as int);
    let mut start: usize = lo;
    while start < hi && is_space(chars[start])
        invariant
            lo <= start <= hi <= chars.len(),
            s == chars@.subrange(lo as int, hi as int),
            skip_spaces(s, start - lo) == skip_spaces(s, 0),
        decreases hi - start,
    {
        start = start + 1;
    }
    let mut end: usize = hi;
    while start < end && is_space(chars[end - 1])
        invariant
            lo <= start <= end <= hi <= chars.len(),
            s == chars@.subrange(lo as int, hi as int),
            skip_spaces_back(s, start - lo, end - lo) == skip_spaces_back(
                s,
                start - lo,
                s.len() as int,
            ),
        decreases end - start,
    {
        end = end - 1;
    }
    assert(chars@.subrange(start as int, end as int) == s.subrange(start - lo, end - lo));
    (start, end)
}

/// The value of a decimal digit.
pub open spec fn digit_value(c: char) -> int {
    c as u32 - '0' as u32
}

/// The number that a run of decimal digits spells, most significant first.
pub open spec fn digits_value(digits: Seq<char>) -> int
    decreases digits.len(),
{
    if digits.len() == 0 {
        0
    } else {
        digits_value(digits.drop_last()) * 10 + digit_value(digits.last())
    }
}

/// Whether every character is a decimal digit.
pub open spec fn all_digits(digits: Seq<char>) -> bool {
    forall|k: int| 0 <= k < digits.len() ==> is_digit(#[trigger] digits[k])
}

/// Whether `text` starts with a minus sign.
pub open spec fn has_sign(text: Seq<char>) -> bool {
    text.len() > 0 && text[0] == '-'
}

/// `text` without its minus sign, if it has one.
pub open spec fn unsigned_part(text: Seq<char>) -> Seq<char> {
    if has_sign(text) {
        text.drop_first()
    } else {
        text
    }
}

/// A decimal number: an optional minus sign and then at least one digit.
pub open spec fn is_number(text: Seq<char>) -> bool {
    unsigned_part(text).len() > 0 && all_digits(unsigned_part(text))
}

/// The value of a decimal number.
pub open spec fn number_value(text: Seq<char>) -> int {
    if has_sign(text) {
        -digits_value(unsigned_part(text))
    } else {
        digits_value(unsigned_part(text))
    }
}

/// The 32-bit integer that `text` spells, if it is a decimal number in range.
pub open spec fn parse_i32(text: Seq<char>) -> Option<i32> {
    if is_number(text) && i32::MIN <= number_value(text) <= i32::MAX {
        Some(number_value(text) as i32)
    } else {
        None
    }
}

/// The integer of 32 bits that is nearest to `value`.
pub open spec fn nearest_i32(value: int) -> i32 {
    if value < i32::MIN {
        i32::MIN
    } else if value > i32::MAX {
        i32::MAX
    } else {
        value as i32
    }
}

/// The integer of 32 bits that `text` spells, or the nearest one where the
/// number lies beyond 32 bits; nothing where `text` is no decimal number.
pub open spec fn parse_saturating(text: Seq<char>) -> Option<i32> {
    if is_number(text) {
        Some(nearest_i32(number_value(text)))
    } else {
        None
    }
}

/// A bound that lies beyond the integers of 32 bits on both sides.
pub const LIMIT: i64 = 0x8000_0001;

/// The value of a decimal number as far as it matters: numbers beyond
/// `LIMIT` on either side count as `LIMIT` on that side.
pub open spec fn limited_value(text: Seq<char>) -> int {
    let value = number_value(text);
    if value < -LIMIT {
        -LIMIT
    } else if value > LIMIT {
        LIMIT as int
    } else {
        value
    }
}

/// Reads `chars[lo..hi]` as a decimal number, up to `LIMIT` on either side.
fn read_number(chars: &Vec<char>, lo: usize, hi: usize) -> (value: Option<i64>)
    requires
        lo <= hi <= chars.len(),
    ensures
        value.is_some() == is_number(chars@.subrange(lo as int, hi as int)),
        value matches Some(value) ==> value == limited_value(chars@.subrange(lo as int, hi as int)),
{
    let ghost text = chars@.subrange(lo as int, hi as int);
    if lo == hi {
        return None;
    }
    let negative = chars[lo] == '-';
    let start: usize = if negative {
        lo + 1
    } else {
        lo
    };
    let ghost digits = chars@.subrange(start as int, hi as int);
    assert(digits == unsigned_part(text));
    if start == hi {
        return None;
    }
    // Once the value has passed the limit it can only grow, so it is held there.
    let mut total: i64 = 0;
    let mut i: usize = start;
    while i < hi
        invariant
            start <= i <= hi <= chars.len(),
            digits == chars@.subrange(start as int, hi as int),
            digits == unsigned_part(text),
            lo <= start,
            text == chars@.subrange(lo as int, hi as int),
            all_digits(digits.take(i - start)),
            0 <= digits_value(digits.take(i - start)),
            total == if digits_value(digits.take(i - start)) < LIMIT {
                digits_value(digits.take(i - start))
            } else {
                LIMIT as int
            },
        decreases hi - i,
    {
        let c = chars[i];
        if !is_digit(c) {
            assert(!is_digit(digits[i - start]));
            return None;
        }
        assert(digits.take(i + 1 - start).drop_last() == digits.take(i - start));
        assert(digits.take(i + 1 - start).last() == c);
        let next: i64 = total * 10 + (c as u32 - '0' as u32) as i64;
        total = if next < LIMIT {
            next
        } else {
            LIMIT
        };
        i = i + 1;
    }
    assert(digits.take(hi - start) == digits);
    if negative {
        Some(-total)
    } else {
        Some(total)
    }
}

/// Reads `chars[lo..hi]` as a decimal number of 32 bits.
pub fn parse_number(chars: &Vec<char>, lo: usize, hi: usize) -> (value: Option<i32>)
    requires
        lo <= hi <= chars.len(),
    ensures
        value == parse_i32(chars@.subrange(lo as int, hi as int)),
{
    match read_number(chars, lo, hi) {
        Some(value) => if -0x8000_0000 <= value && value <= 0x7fff_ffff {
            Some(value as i32)
        } else {
            None
        },
        None => None,
    }
}

/// Reads `chars[lo..hi]` as a decimal number and gives the nearest integer
/// of 32 bits.
pub fn parse_number_saturating(chars: &Vec<char>, lo: usize, hi: usize) -> (value: Option<i32>)
    requires
        lo <= hi <= chars.len(),
    ensures
        value == parse_saturating(chars@.subrange(lo as int, hi as int)),
{
    match read_number(chars, lo, hi) {
        Some(value) => if value < -0x8000_0000 {
            Some(i32::MIN)
        } else if value > 0x7fff_ffff {
            Some(i32::MAX)
        } else {
            Some(value as i32)
        },
        None => None,
    }
}

/// The character of one decimal digit.
pub open spec fn digit_char(d: int) -> char {
    seq!['0', '1', '2', '3', '4', '5', '6', '7', '8', '9'][d]
}

/// The decimal digits of a natural number, without leading zeros.
pub open spec fn nat_text(n: nat) -> Seq<char>
    decreases n,
{
    if n < 10 {
        seq![digit_char(n as int)]
    } else {
        nat_text(n / 10).push(digit_char((n % 10) as int))
    }
}

/// The decimal form of an integer, with a minus sign if it is negative.
pub open spec fn int_text(n: int) -> Seq<char> {
    if n < 0 {
        seq!['-'] + nat_text((-n) as nat)
    } else {
        nat_text(n as nat)
    }
}

/// The digits of a natural number spell that number.
pub proof fn lemma_nat_text(n: nat)
    ensures
        nat_text(n).len() >= 1,
        all_digits(nat_text(n)),
        digits_value(nat_text(n)) == n,
    decreases n,
{
    reveal_with_fuel(digits_value, 2);
    if n < 10 {
        assert(seq![digit_char(n as int)].drop_last() == Seq::<char>::empty());
    } else {
        lemma_nat_text(n / 10);
        let text = nat_text(n);
        assert(text.drop_last() == nat_text(n / 10));
        assert(text.last() == digit_char((n % 10) as int));
        assert forall|k: int| 0 <= k < text.len() implies is_digit(#[trigger] text[k]) by {
            if k < text.len() - 1 {
                assert(text[k] == nat_text(n / 10)[k]);
            }
        }
    }
}

/// Writing a number and reading it again gives the number.
pub proof fn law_number_round_trip(n: i32)
    ensures
        parse_i32(int_text(n as int)) == Some(n),
{
    if n < 0 {
        lemma_nat_text((-n) as nat);
        assert(unsigned_part(int_text(n as int)) == nat_text((-n) as nat));
    } else {
        lemma_nat_text(n as nat);
        assert(is_digit(nat_text(n as nat)[0]));
    }
}

fn digit_str(d: u32) -> (s: &'static str)
    requires
        d < 10,
    ensures
        s@ == seq![digit_char(d as int)],
{
    proof {
        reveal_strlit("0");
        reveal_strlit("1");
        reveal_strlit("2");
        reveal_strlit("3");
        reveal_strlit("4");
        reveal_strlit("5");
        reveal_strlit("6");
        reveal_strlit("7");
        reveal_strlit("8");
        reveal_strlit("9");
    }
    let s = if d == 0 {
        "0"
    } else if d == 1 {
        "1"
    } else if d == 2 {
        "2"
    } else if d == 3 {
        "3"
    } else if d == 4 {
        "4"
    } else if d == 5 {
        "5"
    } else if d == 6 {
        "6"
    } else if d == 7 {
        "7"
    } else if d == 8 {
        "8"
    } else {
        "9"
    };
    assert(s@ =~= seq![digit_char(d as int)]);
    s
}

fn nat_to_string(n: u32) -> (s: String)
    ensures
        s@ == nat_text(n as nat),
    decreases n,
{
    if n < 10 {
        String::from_str(digit_str(n))
    } else {
        let mut s = nat_to_string(n / 10);
        s.append(digit_str(n % 10));
        assert(s@ =~= nat_text((n / 10) as nat).push(digit_char((n % 10) as int)));
        s
    }
}

/// Writes an integer in decimal.
pub fn int_to_string(n: i32) -> (s: String)
    ensures
        s@ == int_text(n as int),
{
    if n < 0 {
        let magnitude: u32 = (-(n as i64)) as u32;
        let mut s = String::from_str("-");
        proof {
            reveal_strlit("-");
        }
        let digits = nat_to_string(magnitude);
        s.append(digits.as_str());
        assert(s@ =~= seq!['-'] + nat_text((-n) as nat));
        s
    } else {
        nat_to_string(n as u32)
    }
}

/// The parts in order, with `sep` between each two neighbours.
pub open spec fn join(parts: Seq<Seq<char>>, sep: Seq<char>) -> Seq<char>
    decreases parts.len(),
{
    if parts.len() == 0 {
        Seq::empty()
    } else if parts.len() == 1 {
        parts[0]
    } else {
        join(parts.drop_last(), sep) + sep + parts.last()
    }
}

/// The text behind a handle, borrowed or owned.
pub fn as_text<'b>(text: &'b Cow<'_, str>) -> (slice: &'b str)
    ensures
        slice@ == text@,
{
    match text {
        Cow::Borrowed(borrowed) => *borrowed,
        Cow::Owned(owned) => owned.as_str(),
    }
}

/// A second handle on the same text; borrowed text stays borrowed.
pub fn duplicate<'a>(text: &Cow<'a, str>) -> (copy: Cow<'a, str>)
    ensures
        copy@ == text@,
{
    match text {
        Cow::Borrowed(borrowed) => Cow::Borrowed(*borrowed),
        Cow::Owned(owned) => Cow::Owned(owned.clone()),
    }
}

/// Joins `parts[lo..hi]` with `sep`.
pub fn join_range(parts: &Vec<Cow<'_, str>>, lo: usize, hi: usize, sep: &str) -> (joined: String)
    requires
        lo <= hi <= parts.len(),
    ensures
        joined@ == join(parts.deep_view().subrange(lo as int, hi as int), sep@),
{
    let ghost all = parts.deep_view().subrange(lo as int, hi as int);
    let mut joined = String::new();
    let mut i: usize = lo;
    while i < hi
        invariant
            lo <= i <= hi <= parts.len(),
            all == parts.deep_view().subrange(lo as int, hi as int),
            joined@ == join(all.take(i - lo), sep@),
        decreases hi - i,
    {
        if i > lo {
            joined.append(sep);
        }
        joined.append(as_text(&parts[i]));
        proof {
            let done = all.take(i + 1 - lo);
            assert(done.drop_last() == all.take(i - lo));
            assert(done.last() == parts[i as int]@);
        }
        i = i + 1;
    }
    assert(all.take(hi - lo) == all);
    joined
}

} // verus!
