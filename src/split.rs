//! The split sequence: a cursor over what is left of the text, advanced one
//! segment at a time.
use vstd::prelude::*;

use crate::matcher::{is_first_match, occurs_at, Delimiter};
use crate::segments::{
    lemma_absent_delimiter, lemma_segments_at_match, lemma_segments_nonempty, segments,
};

verus! {

broadcast use vstd::string::group_string_axioms;

/// Produces the segments of `haystack` separated by a delimiter, each a slice
/// of the original text.
#[derive(Debug)]
pub struct StrSplit<'haystack, 'delimiter> {
    remainder: Option<&'haystack str>,
    delimiter: Delimiter<'delimiter>,
}

impl<'haystack, 'delimiter> StrSplit<'haystack, 'delimiter> {
    /// The delimiter is not empty.
    pub closed spec fn wf(&self) -> bool {
        self.delimiter.pattern().len() > 0
    }

    /// The characters of one occurrence of the delimiter.
    pub closed spec fn pattern(&self) -> Seq<char> {
        self.delimiter.pattern()
    }

    /// The segments still to come, in order; empty once exhausted.
    pub closed spec fn pending(&self) -> Seq<Seq<char>> {
        match self.remainder {
            Some(rest) => segments(rest@, self.delimiter.pattern()),
            None => Seq::empty(),
        }
    }

    /// Splits `haystack` on the literal string `delimiter`.
    pub fn new(haystack: &'haystack str, delimiter: &'delimiter str) -> (r: Self)
        requires
            delimiter@.len() > 0,
        ensures
            r.wf(),
            r.pattern() == delimiter@,
            r.pending() == segments(haystack@, delimiter@),
    {
        StrSplit { remainder: Some(haystack), delimiter: Delimiter::Text(delimiter) }
    }

    /// Splits `haystack` on the character `delimiter`.
    pub fn new_char(haystack: &'haystack str, delimiter: char) -> (r: Self)
        ensures
            r.wf(),
            r.pattern() == seq![delimiter],
            r.pending() == segments(haystack@, seq![delimiter]),
    {
        StrSplit { remainder: Some(haystack), delimiter: Delimiter::Char(delimiter) }
    }

    /// The next segment, or `None` once every segment has been produced.
    pub fn next(&mut self) -> (r: Option<&'haystack str>)
        requires
            old(self).wf(),
        ensures
            final(self).wf(),
            final(self).pattern() == old(self).pattern(),
            old(self).pending().len() == 0 ==> r is None && final(self).pending().len() == 0,
            old(self).pending().len() > 0 ==> {
                &&& r is Some
                &&& r->0@ == old(self).pending()[0]
                &&& final(self).pending() == old(self).pending().drop_first()
            },
    {
        match self.remainder {
            None => None,
            Some(rest) => {
                let pattern = Ghost(self.delimiter.pattern());
                match self.delimiter.find_next(rest) {
                    Some((start, end)) => {
                        proof {
                            lemma_segments_at_match(rest@, pattern@, start as int);
                        }
                        let len = rest.unicode_len();
                        let segment = rest.substring_char(0, start);
                        let tail = rest.substring_char(end, len);
                        self.remainder = Some(tail);
                        assert(segment@ == rest@.take(start as int));
                        assert(tail@ == rest@.skip(end as int));
                        Some(segment)
                    },
                    None => {
                        proof {
                            lemma_absent_delimiter(rest@, pattern@);
                        }
                        self.remainder = None;
                        Some(rest)
                    },
                }
            },
        }
    }

    /// All the segments still to come, in order; the sequence is used up.
    pub fn into_vec(self) -> (r: Vec<&'haystack str>)
        requires
            self.wf(),
        ensures
            r@.len() == self.pending().len(),
            forall|i: int| 0 <= i < r@.len() ==> r@[i]@ == self.pending()[i],
    {
        let mut split = self;
        let mut out: Vec<&'haystack str> = Vec::new();
        let ghost all = self.pending();
        loop
            invariant
                split.wf(),
                out@.len() + split.pending().len() == all.len(),
                split.pending() == all.skip(out@.len() as int),
                forall|i: int| 0 <= i < out@.len() ==> out@[i]@ == all[i],
            ensures
                out@.len() == all.len(),
                forall|i: int| 0 <= i < out@.len() ==> out@[i]@ == all[i],
            decreases split.pending().len(),
        {
            let ghost before = split.pending();
            match split.next() {
                Some(segment) => {
                    assert(before[0] == all[out@.len() as int]);
                    out.push(segment);
                    assert(all.skip(out@.len() as int) == before.drop_first());
                },
                None => {
                    assert(before.len() == 0);
                    break;
                },
            }
        }
        out
    }
}

/// The text of `haystack` before the first occurrence of `delimiter`, or the
/// whole text where it does not occur.
pub fn until_char<'haystack>(haystack: &'haystack str, delimiter: char) -> (r: &'haystack str)
    ensures
        r@.len() <= haystack@.len(),
        r@ == haystack@.take(r@.len() as int),
        !r@.contains(delimiter),
        r@.len() < haystack@.len() ==> haystack@[r@.len() as int] == delimiter,
{
    let mut split = StrSplit::new_char(haystack, delimiter);
    proof {
        lemma_segments_nonempty(haystack@, seq![delimiter]);
        lemma_first_segment_char(haystack@, delimiter);
    }
    match split.next() {
        Some(segment) => segment,
        None => haystack,
    }
}

/// The first segment of a text split on a character: the text before the
/// character's first position, or the whole text.
proof fn lemma_first_segment_char(text: Seq<char>, c: char)
    ensures
        ({
            let first = segments(text, seq![c])[0];
            &&& first.len() <= text.len()
            &&& first == text.take(first.len() as int)
            &&& !first.contains(c)
            &&& first.len() < text.len() ==> text[first.len() as int] == c
        }),
{
    let pattern = seq![c];
    assert forall|j: int| 0 <= j < text.len() implies (occurs_at(text, pattern, j) <==> text[j]
        == c) by {
        assert(text.subrange(j, j + 1)[0] == text[j]);
        if text[j] == c {
            assert(text.subrange(j, j + 1) == pattern);
        }
    }
    if exists|i: int| is_first_match(text, pattern, i) {
        let i = choose|i: int| is_first_match(text, pattern, i);
        lemma_segments_at_match(text, pattern, i);
        let first = segments(text, pattern)[0];
        assert(first == text.take(i));
        assert forall|k: int| 0 <= k < first.len() implies first[k] != c by {
            assert(!occurs_at(text, pattern, k));
        }
    } else {
        assert forall|j: int| !occurs_at(text, pattern, j) by {
            if occurs_at(text, pattern, j) {
                crate::segments::lemma_first_match_exists(text, pattern, j);
            }
        }
        lemma_absent_delimiter(text, pattern);
        assert(text.take(text.len() as int) == text);
        assert forall|k: int| 0 <= k < text.len() implies text[k] != c by {
            assert(!occurs_at(text, pattern, k));
        }
    }
}

} // verus!
