//! What one input line offers to a template: the whole line, its numbered
//! captures, its named captures and the bindings that the caller adds.

use crate::pattern::{
    capture_names, captures_iter, distinct_names, group_names, pattern_captures, Pattern,
};
use crate::range::{select, translate, window, Range};
use crate::text::{as_text, duplicate, join, join_range};
use std::borrow::Cow;
use vstd::hash_map::StringHashMap;
use vstd::prelude::*;

verus! {

/// A source of values for the field references of a template.
pub trait Context<'a> {
    /// What the context holds.
    spec fn content(&self) -> ContextView;

    /// The value bound to `group_name`, if there is one.
    fn get_by_name(&'a self, group_name: &str) -> (value: Option<Cow<'a, str>>)
        ensures
            value.deep_view() == self.content().named(group_name@),
    ;

    /// The value that `range` selects, its captures joined by `sep` or else
    /// by the default separator.
    fn get_by_range(&'a self, range: &Range, sep: Option<&str>) -> (value: Option<Cow<'a, str>>)
        ensures
            value.deep_view() == self.content().ranged(*range, sep.deep_view()),
    ;
}

/// The content of a context, as plain values.
pub struct ContextView {
    /// The value of each bound name. The empty name and `0` stand for the
    /// whole line.
    pub bindings: Map<Seq<char>, Seq<char>>,
    /// The numbered captures of the line, over all matches, in order.
    pub groups: Seq<Seq<char>>,
    /// What joins the captures of a range that names no separator.
    pub default_sep: Seq<char>,
}

impl ContextView {
    /// The value bound to `name`, if there is one.
    pub open spec fn named(self, name: Seq<char>) -> Option<Seq<char>> {
        if self.bindings.contains_key(name) {
            Some(self.bindings[name])
        } else {
            None
        }
    }

    /// The value that `range` selects. Index 0 stands for what the empty
    /// name is bound to, and `sep` takes the place of the default separator.
    pub open spec fn ranged(self, range: Range, sep: Option<Seq<char>>) -> Option<Seq<char>> {
        let sep = match sep {
            Some(sep) => sep,
            None => self.default_sep,
        };
        select(self.groups, self.named(Seq::empty()), sep, range)
    }
}

/// An index and its counterpart from the other end select the same: with
/// `n` captures, `-1` selects what `n` selects, and `-n` what `1` selects.
pub proof fn law_negative_index_mirrors_positive(context: ContextView, sep: Option<Seq<char>>)
    requires
        context.groups.len() <= i32::MAX,
    ensures
        context.ranged(Range::Single(-1i32), sep) == context.ranged(
            Range::Single(context.groups.len() as i32),
            sep,
        ),
        context.groups.len() >= 1 ==> context.ranged(
            Range::Single((-context.groups.len()) as i32),
            sep,
        ) == context.ranged(Range::Single(1), sep),
{
}

/// A range whose two ends are the same capture selects what the single
/// index selects.
pub proof fn law_degenerate_range_is_single(context: ContextView, k: i32, sep: Option<Seq<char>>)
    requires
        1 <= translate(context.groups.len() as int, k as int) <= context.groups.len(),
    ensures
        context.ranged(Range::Both(k, k), sep) == context.ranged(Range::Single(k), sep),
{
    let position = translate(context.groups.len() as int, k as int);
    assert(window(context.groups, position, position) == seq![context.groups[position - 1]]);
}

/// A range that is open on the left and ends beyond the last capture, and
/// one that is open on the right and starts before the first, select all
/// captures.
pub proof fn law_open_range_saturates(context: ContextView, idx: i32, sep: Option<Seq<char>>)
    ensures
        translate(context.groups.len() as int, idx as int) > context.groups.len()
            ==> context.ranged(Range::LeftInf(idx), sep) == context.ranged(Range::Inf(), sep),
        translate(context.groups.len() as int, idx as int) == 0 ==> context.ranged(
            Range::RightInf(idx),
            sep,
        ) == context.ranged(Range::Inf(), sep),
{
    let count = context.groups.len() as int;
    assert(window(context.groups, 1, count + 1) == context.groups);
    assert(window(context.groups, 0, count) == context.groups);
    if translate(count, idx as int) > count {
        assert(window(context.groups, 1, translate(count, idx as int)) == context.groups);
    }
}

/// A single index beyond the last capture selects nothing.
pub proof fn law_index_out_of_range_selects_nothing(
    context: ContextView,
    idx: i32,
    sep: Option<Seq<char>>,
)
    requires
        translate(context.groups.len() as int, idx as int) > context.groups.len(),
    ensures
        context.ranged(Range::Single(idx), sep) is None,
{
}

/// A range with two ends comes down to a simpler selector: to one that is
/// open on the left where its left end lies before the first capture, else to
/// one that is open on the right where its right end lies beyond the last.
pub proof fn law_range_reduces(context: ContextView, left: i32, right: i32, sep: Option<Seq<char>>)
    ensures
        translate(context.groups.len() as int, left as int) == 0 ==> context.ranged(
            Range::Both(left, right),
            sep,
        ) == context.ranged(Range::LeftInf(right), sep),
        translate(context.groups.len() as int, right as int) > context.groups.len()
            ==> context.ranged(Range::Both(left, right), sep) == context.ranged(
            Range::RightInf(left),
            sep,
        ),
{
    let count = context.groups.len() as int;
    let first = translate(count, left as int);
    let last = translate(count, right as int);
    assert(window(context.groups, 0, last) == window(context.groups, 1, last));
    if last > count {
        assert(window(context.groups, first, last) == window(context.groups, first, count));
    }
}

/// A range always selects a text, and it selects the empty text where its
/// first capture lies behind its last or where there are no captures.
pub proof fn law_empty_span_is_empty_text(
    context: ContextView,
    left: i32,
    right: i32,
    sep: Option<Seq<char>>,
)
    requires
        context.groups.len() == 0 || translate(context.groups.len() as int, left as int)
            > translate(context.groups.len() as int, right as int),
    ensures
        context.ranged(Range::Both(left, right), sep) == Some(Seq::<char>::empty()),
{
    let count = context.groups.len() as int;
    assert(window(context.groups, translate(count, left as int), translate(count, right as int))
        == Seq::<Seq<char>>::empty());
}

/// In the context of a line, the empty name, the name `0` and the index 0
/// stand for the whole line, whatever the pattern captured.
pub proof fn law_whole_line(
    content: Seq<char>,
    names: Seq<Option<Seq<char>>>,
    captures: Seq<Seq<Option<Seq<char>>>>,
    sep: Option<Seq<char>>,
)
    ensures
        context_of(content, names, captures).named(Seq::empty()) == Some(content),
        context_of(content, names, captures).named(seq!['0']) == Some(content),
        context_of(content, names, captures).ranged(Range::Single(0), sep) == Some(content),
{
    assert(seq!['0'] != Seq::<char>::empty()) by {
        assert(seq!['0'].len() == 1);
    }
}

/// The texts of the captures that took part in a match, in order.
pub open spec fn present(found: Seq<Option<Seq<char>>>) -> Seq<Seq<char>>
    decreases found.len(),
{
    if found.len() == 0 {
        Seq::empty()
    } else {
        match found.last() {
            Some(text) => present(found.drop_last()).push(text),
            None => present(found.drop_last()),
        }
    }
}

/// The numbered captures of one match: all that took part but entry 0, the
/// match as a whole.
pub open spec fn numbered(found: Seq<Option<Seq<char>>>) -> Seq<Seq<char>> {
    if found.len() == 0 {
        Seq::empty()
    } else {
        present(found.drop_first())
    }
}

/// The numbered captures of all matches of a line, in order.
pub open spec fn all_numbered(captures: Seq<Seq<Option<Seq<char>>>>) -> Seq<Seq<char>>
    decreases captures.len(),
{
    if captures.len() == 0 {
        Seq::empty()
    } else {
        all_numbered(captures.drop_last()) + numbered(captures.last())
    }
}

/// `bindings` after the first `count` groups of one match: each named group
/// that took part is bound to its text.
pub open spec fn bind_groups(
    bindings: Map<Seq<char>, Seq<char>>,
    names: Seq<Option<Seq<char>>>,
    found: Seq<Option<Seq<char>>>,
    count: int,
) -> Map<Seq<char>, Seq<char>>
    decreases count,
{
    if count <= 0 {
        bindings
    } else {
        let before = bind_groups(bindings, names, found, count - 1);
        if count <= names.len() && count <= found.len() {
            match (names[count - 1], found[count - 1]) {
                (Some(name), Some(text)) => before.insert(name, text),
                _ => before,
            }
        } else {
            before
        }
    }
}

/// The named captures of all matches of a line. Where a name took part in
/// several matches, the last one counts.
pub open spec fn bind_matches(
    names: Seq<Option<Seq<char>>>,
    captures: Seq<Seq<Option<Seq<char>>>>,
) -> Map<Seq<char>, Seq<char>>
    decreases captures.len(),
{
    if captures.len() == 0 {
        Map::empty()
    } else {
        bind_groups(
            bind_matches(names, captures.drop_last()),
            names,
            captures.last(),
            names.len() as int,
        )
    }
}

/// Whether group `k` took part in the match `found`.
pub open spec fn took_part(found: Seq<Option<Seq<char>>>, k: int) -> bool {
    0 <= k < found.len() && found[k] is Some
}

/// What one match does to the binding of the name of group `k`: the text of
/// the group where it took part, and nothing otherwise.
pub proof fn lemma_bind_groups(
    bindings: Map<Seq<char>, Seq<char>>,
    names: Seq<Option<Seq<char>>>,
    found: Seq<Option<Seq<char>>>,
    count: int,
    k: int,
)
    requires
        distinct_names(names),
        0 <= k < names.len(),
        names[k] is Some,
        count <= names.len(),
    ensures
        ({
            let name = names[k]->0;
            let bound = bind_groups(bindings, names, found, count);
            if k < count && took_part(found, k) {
                bound.contains_key(name) && bound[name] == found[k]->0
            } else {
                bound.contains_key(name) == bindings.contains_key(name) && (bindings.contains_key(
                    name,
                ) ==> bound[name] == bindings[name])
            }
        }),
    decreases count,
{
    if count > 0 {
        lemma_bind_groups(bindings, names, found, count - 1, k);
        if count - 1 != k {
            assert(names[count - 1] != names[k]) by {
                if count - 1 < k {
                    if names[count - 1] is Some {
                        assert(names[count - 1] != names[k]);
                    }
                } else {
                    assert(names[k] != names[count - 1]);
                }
            }
        }
    }
}

/// Where a name takes part in several matches of a line, the last of them
/// counts: the name is bound to the text of its group in match `m` if the
/// group took part in that match and in none after it.
pub proof fn law_last_match_wins(
    names: Seq<Option<Seq<char>>>,
    captures: Seq<Seq<Option<Seq<char>>>>,
    k: int,
    m: int,
)
    requires
        distinct_names(names),
        0 <= k < names.len(),
        names[k] is Some,
        0 <= m < captures.len(),
        took_part(captures[m], k),
        forall|later: int| m < later < captures.len() ==> !took_part(#[trigger] captures[later], k),
    ensures
        bind_matches(names, captures).contains_key(names[k]->0),
        bind_matches(names, captures)[names[k]->0] == captures[m][k]->0,
    decreases captures.len(),
{
    let earlier = captures.drop_last();
    lemma_bind_groups(
        bind_matches(names, earlier),
        names,
        captures.last(),
        names.len() as int,
        k,
    );
    if m < captures.len() - 1 {
        assert(!took_part(captures[captures.len() - 1], k));
        assert forall|later: int| m < later < earlier.len() implies !took_part(
            #[trigger] earlier[later],
            k,
        ) by {
            assert(earlier[later] == captures[later]);
        }
        assert(earlier[m] == captures[m]);
        law_last_match_wins(names, earlier, k, m);
    }
}

/// A name that took part in no match of a line is not bound by the pattern.
pub proof fn law_unmatched_name_is_unbound(
    names: Seq<Option<Seq<char>>>,
    captures: Seq<Seq<Option<Seq<char>>>>,
    k: int,
)
    requires
        distinct_names(names),
        0 <= k < names.len(),
        names[k] is Some,
        forall|m: int| 0 <= m < captures.len() ==> !took_part(#[trigger] captures[m], k),
    ensures
        !bind_matches(names, captures).contains_key(names[k]->0),
    decreases captures.len(),
{
    if captures.len() > 0 {
        let earlier = captures.drop_last();
        assert(!took_part(captures[captures.len() - 1], k));
        assert forall|m: int| 0 <= m < earlier.len() implies !took_part(#[trigger] earlier[m], k) by {
            assert(earlier[m] == captures[m]);
        }
        law_unmatched_name_is_unbound(names, earlier, k);
        lemma_bind_groups(
            bind_matches(names, earlier),
            names,
            captures.last(),
            names.len() as int,
            k,
        );
    }
}

/// The context of a line. `names` are the groups of the pattern, `captures`
/// its matches in the line. The empty name and `0` are bound to the line
/// whatever the pattern captured, and a single space joins ranges.
pub open spec fn context_of(
    content: Seq<char>,
    names: Seq<Option<Seq<char>>>,
    captures: Seq<Seq<Option<Seq<char>>>>,
) -> ContextView {
    ContextView {
        bindings: bind_matches(names, captures).insert(Seq::empty(), content).insert(
            seq!['0'],
            content,
        ),
        groups: all_numbered(captures),
        default_sep: seq![' '],
    }
}

/// The context that a pattern makes of one line.
pub struct RegexContext<'a> {
    map: StringHashMap<Cow<'a, str>>,
    groups: Vec<Cow<'a, str>>,
    default_sep: Cow<'a, str>,
}

impl<'a> View for RegexContext<'a> {
    type V = ContextView;

    closed spec fn view(&self) -> ContextView {
        ContextView {
            bindings: self.map@.map_values(|value: Cow<'a, str>| value@),
            groups: self.groups.deep_view(),
            default_sep: self.default_sep@,
        }
    }
}

impl<'a> RegexContext<'a> {
    /// The context that `pattern` makes of the line `content`. The groups
    /// of a pattern have distinct names, so each name is bound by one group.
    pub fn builder(pattern: &Pattern, content: &'a str) -> (context: Self)
        ensures
            context@ == context_of(
                content@,
                group_names(pattern@),
                pattern_captures(pattern@, content@),
            ),
            distinct_names(group_names(pattern@)),
    {
        let names = capture_names(pattern);
        let captures = captures_iter(pattern, content);
        Self::from_captures(content, &names, &captures)
    }

    /// The context of the line `content`, given the groups of a pattern and
    /// its matches in the line.
    pub fn from_captures(
        content: &'a str,
        names: &Vec<Option<&str>>,
        captures: &Vec<Vec<Option<&'a str>>>,
    ) -> (context: Self)
        ensures
            context@ == context_of(content@, names.deep_view(), captures.deep_view()),
    {
        let ghost all = captures.deep_view();
        let mut map: StringHashMap<Cow<'a, str>> = StringHashMap::new();
        let mut groups: Vec<Cow<'a, str>> = Vec::new();
        assert(map@.map_values(|value: Cow<'a, str>| value@) =~= Map::empty());
        assert(groups.deep_view() =~= Seq::empty());
        let mut i: usize = 0;
        while i < captures.len()
            invariant
                i <= captures.len(),
                all == captures.deep_view(),
                groups.deep_view() == all_numbered(all.take(i as int)),
                map@.map_values(|value: Cow<'a, str>| value@) == bind_matches(
                    names.deep_view(),
                    all.take(i as int),
                ),
            decreases captures.len() - i,
        {
            let found = &captures[i];
            let ghost texts = found.deep_view();
            let ghost earlier = all_numbered(all.take(i as int));
            let ghost bound = bind_matches(names.deep_view(), all.take(i as int));
            proof {
                assert(all.take(i + 1).drop_last() == all.take(i as int));
                assert(all.take(i + 1).last() == texts);
            }
            let mut j: usize = 1;
            assert(texts.len() > 0 ==> texts.drop_first().take(0) =~= Seq::empty());
            while j < found.len()
                invariant
                    1 <= j,
                    texts == found.deep_view(),
                    j <= found.len() || found.len() == 0,
                    found.len() > 0 ==> groups.deep_view() == earlier + present(
                        texts.drop_first().take(j - 1),
                    ),
                    found.len() == 0 ==> groups.deep_view() == earlier,
                decreases found.len() - j,
            {
                let ghost before = groups.deep_view();
                proof {
                    let part = texts.drop_first().take(j as int);
                    assert(part.drop_last() == texts.drop_first().take(j - 1));
                    assert(part.last() == texts[j as int]);
                }
                match found[j] {
                    Some(text) => {
                        groups.push(Cow::Borrowed(text));
                        assert(groups.deep_view() =~= before.push(text@));
                    },
                    None => {},
                }
                j = j + 1;
            }
            proof {
                if found.len() > 0 {
                    assert(texts.drop_first().take(j - 1) == texts.drop_first());
                }
                assert(groups.deep_view() == earlier + numbered(texts));
            }
            let mut k: usize = 0;
            while k < names.len()
                invariant
                    k <= names.len(),
                    texts == found.deep_view(),
                    map@.map_values(|value: Cow<'a, str>| value@) == bind_groups(
                        bound,
                        names.deep_view(),
                        texts,
                        k as int,
                    ),
                decreases names.len() - k,
            {
                if k < found.len() {
                    match (names[k], found[k]) {
                        (Some(name), Some(text)) => {
                            let ghost before = map@.map_values(|value: Cow<'a, str>| value@);
                            map.insert(name.to_owned(), Cow::Borrowed(text));
                            assert(map@.map_values(|value: Cow<'a, str>| value@) =~= before.insert(
                                name@,
                                text@,
                            ));
                        },
                        _ => {},
                    }
                }
                k = k + 1;
            }
            i = i + 1;
        }
        assert(all.take(i as int) == all);
        let ghost named = map@.map_values(|value: Cow<'a, str>| value@);
        map.insert("".to_owned(), Cow::Borrowed(content));
        map.insert("0".to_owned(), Cow::Borrowed(content));
        proof {
            reveal_strlit("");
            reveal_strlit("0");
            reveal_strlit(" ");
            assert(""@ =~= Seq::<char>::empty());
            assert("0"@ =~= seq!['0']);
            assert(" "@ =~= seq![' ']);
            assert(map@.map_values(|value: Cow<'a, str>| value@) =~= named.insert(
                Seq::empty(),
                content@,
            ).insert(seq!['0'], content@));
        }
        RegexContext { map, groups, default_sep: Cow::Borrowed(" ") }
    }

    /// Replaces the separator that joins the captures of a range.
    pub fn default_sep(self, default_sep: Cow<'a, str>) -> (context: Self)
        ensures
            context@ == (ContextView { default_sep: default_sep@, ..self@ }),
    {
        let mut context = self;
        context.default_sep = default_sep;
        context
    }

    /// Binds `key` to `value`, in place of what it was bound to before.
    pub fn put(self, key: &str, value: Cow<'a, str>) -> (context: Self)
        ensures
            context@ == (ContextView { bindings: self@.bindings.insert(key@, value@), ..self@ }),
    {
        let mut context = self;
        context.map.insert(key.to_owned(), value);
        assert(context@.bindings =~= self@.bindings.insert(key@, value@));
        context
    }

    /// Ends the chain of `default_sep` and `put`.
    pub fn build(self) -> (context: Self)
        ensures
            context == self,
    {
        self
    }

    /// The position that `idx` stands for among the numbered captures.
    pub fn translate_neg_index(&self, idx: i32) -> (position: usize)
        ensures
            position == translate(self@.groups.len() as int, idx as int),
    {
        let len: usize = self.groups.len();
        if idx < 0 {
            let back: usize = (-(idx as i64)) as usize;
            if back > len {
                0
            } else {
                len - back + 1
            }
        } else {
            idx as usize
        }
    }
}

impl<'a> RegexContext<'a> {
    /// The separator of one field reference: its own, or else the default.
    fn separator<'b>(&'b self, sep: Option<&'b str>) -> (chosen: &'b str)
        ensures
            chosen@ == match sep.deep_view() {
                Some(sep) => sep,
                None => self@.default_sep,
            },
    {
        match sep {
            Some(sep) => sep,
            None => as_text(&self.default_sep),
        }
    }

    /// The captures at positions `first` to `last`, joined. An empty span
    /// gives the empty text.
    fn join_window(&self, first: usize, last: usize, sep: &str) -> (joined: Cow<'a, str>)
        requires
            1 <= first,
            last <= self@.groups.len(),
        ensures
            joined@ == join(window(self@.groups, first as int, last as int), sep@),
    {
        if first <= last {
            Cow::Owned(join_range(&self.groups, first - 1, last, sep))
        } else {
            Cow::Owned(String::new())
        }
    }

    /// All captures, joined.
    fn join_all(&self, sep: &str) -> (joined: Cow<'a, str>)
        ensures
            joined@ == join(self@.groups, sep@),
    {
        let len: usize = self.groups.len();
        assert(self@.groups.subrange(0, len as int) == self@.groups);
        Cow::Owned(join_range(&self.groups, 0, len, sep))
    }

    /// The captures from the first one to position `right`: all of them where
    /// `right` lies beyond the last.
    fn join_from_start(&self, right: usize, sep: &str) -> (joined: Cow<'a, str>)
        ensures
            joined@ == join(window(self@.groups, 1, right as int), sep@),
    {
        if right > self.groups.len() {
            assert(window(self@.groups, 1, right as int) == self@.groups);
            self.join_all(sep)
        } else {
            self.join_window(1, right, sep)
        }
    }

    /// The captures from position `left` to the last one: all of them where
    /// `left` is 0.
    fn join_to_end(&self, left: usize, sep: &str) -> (joined: Cow<'a, str>)
        ensures
            joined@ == join(window(self@.groups, left as int, self@.groups.len() as int), sep@),
    {
        if left == 0 {
            assert(window(self@.groups, 0, self@.groups.len() as int) == self@.groups);
            self.join_all(sep)
        } else {
            self.join_window(left, self.groups.len(), sep)
        }
    }

    /// The capture at `position`, the whole line for position 0, nothing
    /// for a position beyond the last capture.
    fn single(&'a self, position: usize) -> (value: Option<Cow<'a, str>>)
        ensures
            value.deep_view() == if position == 0 {
                self@.named(Seq::empty())
            } else if position > self@.groups.len() {
                None
            } else {
                Some(self@.groups[position - 1])
            },
    {
        if position == 0 {
            proof {
                reveal_strlit("");
                assert(""@ == Seq::<char>::empty());
            }
            self.get_by_name("")
        } else if position > self.groups.len() {
            None
        } else {
            Some(duplicate(&self.groups[position - 1]))
        }
    }
}

impl<'a> Context<'a> for RegexContext<'a> {
    open spec fn content(&self) -> ContextView {
        self@
    }

    fn get_by_name(&'a self, group_name: &str) -> (value: Option<Cow<'a, str>>) {
        match self.map.get(group_name) {
            Some(value) => Some(duplicate(value)),
            None => None,
        }
    }

    fn get_by_range(&'a self, range: &Range, sep: Option<&str>) -> (value: Option<Cow<'a, str>>) {
        let sep = self.separator(sep);
        match *range {
            Range::Single(num) => self.single(self.translate_neg_index(num)),
            Range::Both(left, right) => {
                let left = self.translate_neg_index(left);
                let right = self.translate_neg_index(right);
                if left == 0 {
                    Some(self.join_from_start(right, sep))
                } else if right > self.groups.len() {
                    Some(self.join_to_end(left, sep))
                } else if left == right {
                    assert(window(self@.groups, left as int, right as int) == seq![
                        self@.groups[left - 1],
                    ]);
                    self.single(left)
                } else {
                    Some(self.join_window(left, right, sep))
                }
            },
            Range::LeftInf(right) => Some(self.join_from_start(self.translate_neg_index(right), sep)),
            Range::RightInf(left) => Some(self.join_to_end(self.translate_neg_index(left), sep)),
            Range::Inf() => Some(self.join_all(sep)),
        }
    }
}

} // verus!
