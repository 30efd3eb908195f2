//! Locating the next occurrence of a delimiter in a text.
use vstd::prelude::*;

verus! {

broadcast use vstd::string::group_string_axioms;

/// `pattern` occurs in `text` starting at character position `i`.
pub open spec fn occurs_at(text: Seq<char>, pattern: Seq<char>, i: int) -> bool {
    &&& 0 <= i
    &&& i + pattern.len() <= text.len()
    &&& text.subrange(i, i + pattern.len()) == pattern
}

/// `i` is the leftmost occurrence of `pattern` in `text`.
pub open spec fn is_first_match(text: Seq<char>, pattern: Seq<char>, i: int) -> bool {
    &&& occurs_at(text, pattern, i)
    &&& forall|j: int| 0 <= j < i ==> !occurs_at(text, pattern, j)
}

/// The characters of `s`, in order.
pub fn chars_of(s: &str) -> (v: Vec<char>)
    ensures
        v@ == s@,
{
    let mut v: Vec<char> = Vec::new();
    for c in it: s.chars()
        invariant
            it.seq() == s@,
            v@ == s@.take(it.index() as int),
    {
        v.push(c);
    }
    v
}

/// Whether `pattern` occurs in `text` at position `i`.
fn matches_at(text: &Vec<char>, pattern: &Vec<char>, i: usize) -> (r: bool)
    requires
        i + pattern@.len() <= text@.len(),
    ensures
        r == occurs_at(text@, pattern@, i as int),
{
    let m = pattern.len();
    let mut k: usize = 0;
    while k < m
        invariant
            k <= m,
            m == pattern@.len(),
            i + m <= text.len(),
            text@.subrange(i as int, i + k) == pattern@.take(k as int),
        decreases m - k,
    {
        if text[i + k] != pattern[k] {
            assert(text@.subrange(i as int, i + m)[k as int] != pattern@[k as int]);
            return false;
        }
        assert(text@.subrange(i as int, i + k + 1) == text@.subrange(i as int, i + k).push(
            text@[i + k],
        ));
        assert(pattern@.take(k + 1) == pattern@.take(k as int).push(pattern@[k as int]));
        k = k + 1;
    }
    assert(pattern@.take(m as int) == pattern@);
    true
}

/// Leftmost position at which `pattern` occurs in `text`.
pub fn find_in(text: &Vec<char>, pattern: &Vec<char>) -> (r: Option<usize>)
    ensures
        match r {
            Some(i) => is_first_match(text@, pattern@, i as int),
            None => forall|i: int| !occurs_at(text@, pattern@, i),
        },
{
    let n = text.len();
    let m = pattern.len();
    if m > n {
        return None;
    }
    let mut i: usize = 0;
    loop
        invariant
            m <= n,
            n == text@.len(),
            m == pattern@.len(),
            i <= n - m,
            forall|j: int| 0 <= j < i ==> !occurs_at(text@, pattern@, j),
        decreases n - m - i,
    {
        if matches_at(text, pattern, i) {
            return Some(i);
        }
        if i == n - m {
            return None;
        }
        i = i + 1;
    }
}

/// Leftmost position of the character `c` in `text`.
fn find_char(text: &Vec<char>, c: char) -> (r: Option<usize>)
    ensures
        match r {
            Some(i) => is_first_match(text@, seq![c], i as int),
            None => forall|i: int| !occurs_at(text@, seq![c], i),
        },
{
    let mut i: usize = 0;
    while i < text.len()
        invariant
            i <= text@.len(),
            forall|j: int| 0 <= j < i ==> text@[j] != c,
        decreases text@.len() - i,
    {
        if text[i] == c {
            assert(text@.subrange(i as int, i + 1) == seq![c]);
            assert forall|j: int| 0 <= j < i implies !occurs_at(text@, seq![c], j) by {
                assert(text@.subrange(j, j + 1)[0] == text@[j]);
            }
            return Some(i);
        }
        i = i + 1;
    }
    assert forall|j: int| !occurs_at(text@, seq![c], j) by {
        if 0 <= j && j + 1 <= text@.len() {
            assert(text@.subrange(j, j + 1)[0] == text@[j]);
        }
    }
    None
}

/// What separates one segment from the next.
#[derive(Debug, Clone, Copy)]
pub enum Delimiter<'d> {
    /// A literal string, matched exactly.
    Text(&'d str),
    /// A single character.
    Char(char),
}

impl<'d> Delimiter<'d> {
    /// The characters that make up one occurrence of the delimiter.
    pub open spec fn pattern(&self) -> Seq<char> {
        match self {
            Delimiter::Text(s) => s@,
            Delimiter::Char(c) => seq![*c],
        }
    }

    /// Span `(start, end)` of the leftmost occurrence of the delimiter in
    /// `haystack`, as character positions with `end` exclusive.
    pub fn find_next(&self, haystack: &str) -> (r: Option<(usize, usize)>)
        ensures
            match r {
                Some((start, end)) => {
                    &&& is_first_match(haystack@, self.pattern(), start as int)
                    &&& end == start + self.pattern().len()
                },
                None => forall|i: int| !occurs_at(haystack@, self.pattern(), i),
            },
    {
        let text = chars_of(haystack);
        let n = text.len();
        match self {
            Delimiter::Text(s) => {
                let pattern = chars_of(s);
                match find_in(&text, &pattern) {
                    Some(start) => {
                        assert(start + pattern@.len() <= n);
                        Some((start, start + pattern.len()))
                    },
                    None => None,
                }
            },
            Delimiter::Char(c) => {
                match find_char(&text, *c) {
                    Some(start) => {
                        assert(start + 1 <= n);
                        Some((start, start + 1))
                    },
                    None => None,
                }
            },
        }
    }
}

} // verus!
