//! Splitting text at newlines, and finding patterns in a line.
use vstd::prelude::*;
use crate::text::{matches_at, occurs_at};

verus! {

/// The index of the first newline at or after `i`, or the length of `s` if
/// there is none.
pub open spec fn line_end(s: Seq<char>, i: int) -> int
    decreases s.len() - i,
{
    if i < 0 || i >= s.len() {
        s.len() as int
    } else if s[i] == '\n' {
        i
    } else {
        line_end(s, i + 1)
    }
}

/// `line_end` lies between `i` and the end, at a newline or the end, with no
/// newline before it.
pub(crate) proof fn lemma_line_end(s: Seq<char>, i: int)
    requires
        0 <= i <= s.len(),
    ensures
        i <= line_end(s, i) <= s.len(),
        line_end(s, i) < s.len() ==> s[line_end(s, i)] == '\n',
        forall|j: int| i <= j < line_end(s, i) ==> s[j] != '\n',
    decreases s.len() - i,
{
    if i < s.len() && s[i] != '\n' {
        lemma_line_end(s, i + 1);
    }
}

/// A line without the carriage return that may end it.
pub open spec fn strip_cr(l: Seq<char>) -> Seq<char> {
    if l.len() > 0 && l.last() == '\r' {
        l.drop_last()
    } else {
        l
    }
}

/// The lines of `s` from position `i` on: each without its newline (and
/// without a carriage return just before it); no empty line follows a final
/// newline.
pub open spec fn lines_from(s: Seq<char>, i: int) -> Seq<Seq<char>>
    decreases s.len() - i,
{
    if i < 0 || i >= s.len() {
        seq![]
    } else {
        let e = line_end(s, i);
        if e < i || e > s.len() {
            seq![]
        } else if e == s.len() {
            seq![strip_cr(s.subrange(i, e))]
        } else {
            seq![strip_cr(s.subrange(i, e))] + lines_from(s, e + 1)
        }
    }
}

/// The lines of `s`.
pub open spec fn split_lines(s: Seq<char>) -> Seq<Seq<char>> {
    lines_from(s, 0)
}

/// Executable form of `line_end`.
pub(crate) fn find_line_end(v: &Vec<char>, i: usize) -> (r: usize)
    requires
        i <= v@.len(),
    ensures
        r == line_end(v@, i as int),
        i <= r <= v@.len(),
{
    proof {
        lemma_line_end(v@, i as int);
    }
    let mut j = i;
    while j < v.len() && v[j] != '\n'
        invariant
            i <= j <= v@.len(),
            line_end(v@, i as int) == line_end(v@, j as int),
        decreases v@.len() - j,
    {
        j = j + 1;
    }
    j
}

/// The bounds of the line that starts at `i`: where its text ends (carriage
/// return dropped) and where the next line starts.
pub(crate) fn next_line(v: &Vec<char>, i: usize) -> (r: (usize, usize))
    requires
        i < v@.len(),
    ensures
        i <= r.0 <= v@.len(),
        i < r.1 <= v@.len(),
        v@.subrange(i as int, r.0 as int) == strip_cr(
            v@.subrange(i as int, line_end(v@, i as int)),
        ),
        lines_from(v@, i as int) == seq![v@.subrange(i as int, r.0 as int)] + lines_from(
            v@,
            r.1 as int,
        ),
{
    let e = find_line_end(v, i);
    let stop = if e > i && v[e - 1] == '\r' {
        e - 1
    } else {
        e
    };
    let next = if e < v.len() {
        e + 1
    } else {
        e
    };
    assert(v@.subrange(i as int, stop as int) =~= strip_cr(v@.subrange(i as int, e as int)));
    if e == v.len() {
        assert(lines_from(v@, next as int) =~= seq![]);
        assert(lines_from(v@, i as int) =~= seq![v@.subrange(i as int, stop as int)] + lines_from(
            v@,
            next as int,
        ));
    }
    (stop, next)
}

/// The last position `k` in `[lo, hi)` where `p` occurs in `s`, or -1.
pub open spec fn last_occurrence(s: Seq<char>, p: Seq<char>, lo: int, hi: int) -> int
    decreases hi - lo,
{
    if hi <= lo {
        -1
    } else if occurs_at(s, p, hi - 1) {
        hi - 1
    } else {
        last_occurrence(s, p, lo, hi - 1)
    }
}

/// `last_occurrence` is -1 or a position in range where the pattern occurs.
pub(crate) proof fn lemma_last_occurrence(s: Seq<char>, p: Seq<char>, lo: int, hi: int)
    ensures
        last_occurrence(s, p, lo, hi) == -1 || (lo <= last_occurrence(s, p, lo, hi) < hi
            && occurs_at(s, p, last_occurrence(s, p, lo, hi))),
    decreases hi - lo,
{
    if hi > lo && !occurs_at(s, p, hi - 1) {
        lemma_last_occurrence(s, p, lo, hi - 1);
    }
}

/// Executable form of `last_occurrence` over the whole of `s` from `lo` on.
pub(crate) fn find_last(s: &Vec<char>, p: &Vec<char>, lo: usize) -> (r: Option<usize>)
    ensures
        match r {
            Some(k) => last_occurrence(s@, p@, lo as int, s@.len() as int) == k as int,
            None => last_occurrence(s@, p@, lo as int, s@.len() as int) == -1,
        },
{
    let mut hi = s.len();
    while hi > lo
        invariant
            hi <= s@.len(),
            last_occurrence(s@, p@, lo as int, s@.len() as int) == last_occurrence(
                s@,
                p@,
                lo as int,
                hi as int,
            ),
        decreases hi,
    {
        if matches_at(s, p, hi - 1) {
            return Some(hi - 1);
        }
        hi = hi - 1;
    }
    None
}

/// The first position `k >= i` where `p` occurs in `s`, or -1.
pub open spec fn first_occurrence(s: Seq<char>, p: Seq<char>, i: int) -> int
    decreases s.len() - i,
{
    if i < 0 || i >= s.len() {
        -1
    } else if occurs_at(s, p, i) {
        i
    } else {
        first_occurrence(s, p, i + 1)
    }
}

/// `first_occurrence` is -1 (no occurrence from `i` on) or the first
/// position from `i` on where the pattern occurs.
pub(crate) proof fn lemma_first_occurrence(s: Seq<char>, p: Seq<char>, i: int)
    requires
        0 <= i,
    ensures
        first_occurrence(s, p, i) == -1 || (i <= first_occurrence(s, p, i) < s.len()
            && occurs_at(s, p, first_occurrence(s, p, i))),
        first_occurrence(s, p, i) == -1 ==> forall|k: int| i <= k < s.len() ==> !occurs_at(s, p, k),
        first_occurrence(s, p, i) != -1 ==> forall|k: int|
            i <= k < first_occurrence(s, p, i) ==> !occurs_at(s, p, k),
    decreases s.len() - i,
{
    if i < s.len() && !occurs_at(s, p, i) {
        lemma_first_occurrence(s, p, i + 1);
    }
}

/// Executable form of `first_occurrence`.
pub(crate) fn find_first(s: &Vec<char>, p: &Vec<char>, from: usize) -> (r: Option<usize>)
    ensures
        match r {
            Some(k) => first_occurrence(s@, p@, from as int) == k as int,
            None => first_occurrence(s@, p@, from as int) == -1,
        },
{
    let mut i = from;
    while i < s.len()
        invariant
            from <= i,
            first_occurrence(s@, p@, from as int) == first_occurrence(s@, p@, i as int),
        decreases s@.len() - i,
    {
        if matches_at(s, p, i) {
            return Some(i);
        }
        i = i + 1;
    }
    None
}

} // verus!
