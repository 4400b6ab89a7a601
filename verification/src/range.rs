//! Selectors over the numbered captures of a line, and what they select.
//!
//! Captures are numbered from 1. A negative index counts from the end, and
//! index 0 stands for the whole line.

use crate::text::{join, nearest_i32};
use vstd::prelude::*;

verus! {

/// What a numeric field reference selects.
#[derive(Debug, Clone, Copy, PartialEq, Eq, Structural)]
pub enum Range {
    /// One capture, or the whole line for index 0.
    Single(i32),
    /// The captures from the first index to the second, both included.
    Both(i32, i32),
    /// The captures from the first one to the index.
    LeftInf(i32),
    /// The captures from the index to the last one.
    RightInf(i32),
    /// All captures.
    Inf(),
}

/// The position that `idx` stands for among `count` captures: a negative
/// index counts back from the end, and nothing lies before position 0.
pub open spec fn translate(count: int, idx: int) -> int {
    let position = if idx < 0 {
        idx + count + 1
    } else {
        idx
    };
    if position < 0 {
        0
    } else {
        position
    }
}

/// The captures at positions `first` to `last`, both included and counted
/// from 1. Positions outside the captures select nothing.
pub open spec fn window(groups: Seq<Seq<char>>, first: int, last: int) -> Seq<Seq<char>> {
    let from = if first < 1 {
        1
    } else {
        first
    };
    let to = if last > groups.len() {
        groups.len() as int
    } else {
        last
    };
    if from <= to {
        groups.subrange(from - 1, to)
    } else {
        Seq::empty()
    }
}

/// What the index `idx` selects: `whole` where it stands for position 0,
/// nothing where it lies beyond the last capture, else the capture at its
/// position.
pub open spec fn select_single(groups: Seq<Seq<char>>, whole: Option<Seq<char>>, idx: int) -> Option<
    Seq<char>,
> {
    let position = translate(groups.len() as int, idx);
    if position == 0 {
        whole
    } else if position > groups.len() {
        None
    } else {
        Some(groups[position - 1])
    }
}

/// An index beyond 32 bits selects what the nearest index of 32 bits
/// selects, as long as there are fewer captures than such an index can
/// count: nothing on the one side, the whole line on the other.
pub proof fn law_saturated_index(groups: Seq<Seq<char>>, whole: Option<Seq<char>>, idx: int)
    requires
        groups.len() < i32::MAX,
    ensures
        select_single(groups, whole, idx) == select_single(groups, whole, nearest_i32(idx) as int),
        idx > i32::MAX ==> select_single(groups, whole, idx) is None,
        idx < i32::MIN ==> select_single(groups, whole, idx) == whole,
{
}

/// The text that `range` selects from `groups`. `whole` is what index 0
/// stands for, and `sep` joins the captures of a range. Only a single index
/// can select nothing at all: one beyond the last capture.
pub open spec fn select(
    groups: Seq<Seq<char>>,
    whole: Option<Seq<char>>,
    sep: Seq<char>,
    range: Range,
) -> Option<Seq<char>> {
    let count = groups.len() as int;
    match range {
        Range::Single(idx) => select_single(groups, whole, idx as int),
        Range::Both(left, right) => Some(
            join(window(groups, translate(count, left as int), translate(count, right as int)), sep),
        ),
        Range::LeftInf(right) => Some(join(window(groups, 1, translate(count, right as int)), sep)),
        Range::RightInf(left) => Some(join(window(groups, translate(count, left as int), count), sep)),
        Range::Inf() => Some(join(groups, sep)),
    }
}

} // verus!
