//! The sequence of segments that splitting a text produces, and its laws.
use vstd::prelude::*;

use crate::matcher::{is_first_match, occurs_at, Delimiter};

verus! {

/// The segments of `text` separated by `pattern`: the text before the leftmost
/// occurrence, then the segments of what follows that occurrence; the whole
/// text when the pattern does not occur. An empty pattern splits nothing.
pub open spec fn segments(text: Seq<char>, pattern: Seq<char>) -> Seq<Seq<char>>
    decreases text.len(),
{
    if pattern.len() > 0 && exists|i: int| is_first_match(text, pattern, i) {
        let i = choose|i: int| is_first_match(text, pattern, i);
        seq![text.take(i)] + segments(text.skip(i + pattern.len()), pattern)
    } else {
        seq![text]
    }
}

/// `parts` concatenated with `sep` between each two neighbours.
pub open spec fn join(parts: Seq<Seq<char>>, sep: Seq<char>) -> Seq<char>
    decreases parts.len(),
{
    if parts.len() == 0 {
        Seq::empty()
    } else if parts.len() == 1 {
        parts[0]
    } else {
        parts[0] + sep + join(parts.drop_first(), sep)
    }
}

/// A text has at most one leftmost occurrence of a pattern.
pub proof fn lemma_first_match_unique(text: Seq<char>, pattern: Seq<char>, i: int, j: int)
    requires
        is_first_match(text, pattern, i),
        is_first_match(text, pattern, j),
    ensures
        i == j,
{
    if i < j {
        assert(!occurs_at(text, pattern, i));
    } else if j < i {
        assert(!occurs_at(text, pattern, j));
    }
}

/// Where a pattern occurs at `k`, a leftmost occurrence exists, at or before `k`.
pub proof fn lemma_first_match_exists(text: Seq<char>, pattern: Seq<char>, k: int)
    requires
        occurs_at(text, pattern, k),
    ensures
        exists|i: int| i <= k && is_first_match(text, pattern, i),
    decreases k,
{
    if exists|j: int| 0 <= j < k && occurs_at(text, pattern, j) {
        let j = choose|j: int| 0 <= j < k && occurs_at(text, pattern, j);
        lemma_first_match_exists(text, pattern, j);
    } else {
        assert(is_first_match(text, pattern, k));
    }
}

/// Splitting at the leftmost occurrence `i`.
pub proof fn lemma_segments_at_match(text: Seq<char>, pattern: Seq<char>, i: int)
    requires
        pattern.len() > 0,
        is_first_match(text, pattern, i),
    ensures
        segments(text, pattern) == seq![text.take(i)] + segments(
            text.skip(i + pattern.len()),
            pattern,
        ),
{
    let c = choose|c: int| is_first_match(text, pattern, c);
    lemma_first_match_unique(text, pattern, i, c);
}

/// Splitting always yields at least one segment.
pub proof fn lemma_segments_nonempty(text: Seq<char>, pattern: Seq<char>)
    ensures
        segments(text, pattern).len() >= 1,
{
    reveal_with_fuel(segments, 1);
}

/// Joining the segments with the delimiter gives back the text.
pub proof fn lemma_join_segments(text: Seq<char>, pattern: Seq<char>)
    requires
        pattern.len() > 0,
    ensures
        join(segments(text, pattern), pattern) == text,
    decreases text.len(),
{
    if exists|i: int| is_first_match(text, pattern, i) {
        let i = choose|i: int| is_first_match(text, pattern, i);
        let rest = text.skip(i + pattern.len());
        let tail = segments(rest, pattern);
        lemma_join_segments(rest, pattern);
        lemma_segments_nonempty(rest, pattern);
        let all = seq![text.take(i)] + tail;
        assert(all.drop_first() == tail);
        assert(all[0] == text.take(i));
        assert(text == text.take(i) + text.subrange(i, i + pattern.len()) + rest);
    }
}

/// A delimiter that does not occur yields the whole text as the one segment.
pub proof fn lemma_absent_delimiter(text: Seq<char>, pattern: Seq<char>)
    requires
        forall|i: int| !occurs_at(text, pattern, i),
    ensures
        segments(text, pattern) == seq![text],
{
}

/// The empty text yields exactly one segment, the empty one, whatever the
/// delimiter.
pub proof fn lemma_empty_text(pattern: Seq<char>)
    ensures
        segments(Seq::<char>::empty(), pattern) == seq![Seq::<char>::empty()],
{
    if pattern.len() > 0 {
        assert forall|i: int| !occurs_at(Seq::<char>::empty(), pattern, i) by {}
    }
}

/// A text in which the delimiter occurs exactly once splits into two
/// segments, and the text is the first, the delimiter, then the second.
pub proof fn lemma_single_occurrence(text: Seq<char>, pattern: Seq<char>, k: int)
    requires
        pattern.len() > 0,
        occurs_at(text, pattern, k),
        forall|j: int| j != k ==> !occurs_at(text, pattern, j),
    ensures
        segments(text, pattern).len() == 2,
        segments(text, pattern)[0] == text.take(k),
        segments(text, pattern)[1] == text.skip(k + pattern.len()),
        text == segments(text, pattern)[0] + pattern + segments(text, pattern)[1],
{
    assert(is_first_match(text, pattern, k));
    lemma_segments_at_match(text, pattern, k);
    let rest = text.skip(k + pattern.len());
    assert forall|j: int| !occurs_at(rest, pattern, j) by {
        if occurs_at(rest, pattern, j) {
            assert(text.subrange(k + pattern.len() + j, k + pattern.len() + j + pattern.len())
                == rest.subrange(j, j + pattern.len()));
            assert(occurs_at(text, pattern, k + pattern.len() + j));
        }
    }
    lemma_absent_delimiter(rest, pattern);
    assert(text == text.take(k) + text.subrange(k, k + pattern.len()) + rest);
}

/// A text that ends with the delimiter yields an empty last segment, provided
/// no occurrence of the delimiter overlaps that final one from the left.
pub proof fn lemma_trailing_delimiter(text: Seq<char>, pattern: Seq<char>)
    requires
        pattern.len() > 0,
        occurs_at(text, pattern, text.len() - pattern.len()),
        forall|p: int|
            text.len() - 2 * pattern.len() < p < text.len() - pattern.len() ==> !occurs_at(
                text,
                pattern,
                p,
            ),
    ensures
        segments(text, pattern).last() == Seq::<char>::empty(),
    decreases text.len(),
{
    let m = pattern.len();
    lemma_first_match_exists(text, pattern, text.len() - m);
    let i = choose|i: int| i <= text.len() - m && is_first_match(text, pattern, i);
    lemma_segments_at_match(text, pattern, i);
    let rest = text.skip(i + m);
    let tail = segments(rest, pattern);
    lemma_segments_nonempty(rest, pattern);
    assert((seq![text.take(i)] + tail).last() == tail.last());
    if i == text.len() - m {
        assert(rest == Seq::<char>::empty());
        lemma_empty_text(pattern);
    } else {
        assert(i <= text.len() - 2 * m);
        let s = i + m;
        assert(rest.subrange(rest.len() - m, rest.len() as int) == text.subrange(
            text.len() - m,
            text.len() as int,
        ));
        assert forall|p: int|
            rest.len() - 2 * m < p < rest.len() - m implies !occurs_at(rest, pattern, p) by {
            if occurs_at(rest, pattern, p) {
                assert(rest.subrange(p, p + m) == text.subrange(s + p, s + p + m));
                assert(occurs_at(text, pattern, s + p));
            }
        }
        lemma_trailing_delimiter(rest, pattern);
    }
}

/// A character delimiter and a one-character text delimiter holding that
/// character split every text alike.
pub proof fn lemma_char_matches_text(text: Seq<char>, c: char, s: &str)
    requires
        s@ == seq![c],
    ensures
        segments(text, Delimiter::Char(c).pattern()) == segments(
            text,
            Delimiter::Text(s).pattern(),
        ),
{
}

} // verus!
