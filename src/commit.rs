//! A commit's metadata as read from the version-control tool's output, and
//! whether its diff is worth analysing.
use vstd::prelude::*;
use crate::chunk::strings_view;
use crate::diff::{format_diff_as_markdown, formatted, has_changed_line, has_code_changes};
use crate::lines::{lines_from, next_line, split_lines, first_occurrence, find_first, lemma_first_occurrence};
use crate::text::{
    chars_of, matches_at, occurs_at, push_str, skip_space_backward, skip_space_forward,
    string_of_range, trim,
};

verus! {

/// Why a commit without added or removed lines is left out.
pub const NO_CHANGES: &'static str = "no code changes detected";

/// What to do with a commit, given its raw diff.
pub enum CommitPlan {
    /// Leave it out, for this reason.
    Skip(String),
    /// Analyse it; this is its formatted diff.
    Analyse(String),
}

/// A commit whose diff has no added or removed line is skipped; any other is
/// analysed on its formatted diff.
pub fn plan_commit(raw_diff: &str) -> (r: CommitPlan)
    ensures
        has_changed_line(raw_diff@) ==> r is Analyse && r->Analyse_0@ == formatted(raw_diff@),
        !has_changed_line(raw_diff@) ==> r is Skip && r->Skip_0@ == NO_CHANGES@,
{
    if has_code_changes(raw_diff) {
        CommitPlan::Analyse(format_diff_as_markdown(raw_diff))
    } else {
        let mut s = String::new();
        push_str(&mut s, NO_CHANGES);
        assert(s@ =~= NO_CHANGES@);
        CommitPlan::Skip(s)
    }
}

/// What a commit's analysis and report are made from.
pub struct CommitInfo {
    pub hash: String,
    pub short_hash: String,
    pub message: String,
    pub author: String,
    pub date: String,
    pub files_changed: Vec<String>,
    pub insertions: u32,
    pub deletions: u32,
}

/// Line `k` of `s`, or nothing if it has fewer lines.
pub open spec fn line_or_empty(s: Seq<char>, k: int) -> Seq<char> {
    if 0 <= k < split_lines(s).len() {
        split_lines(s)[k]
    } else {
        seq![]
    }
}

/// How many characters the short form of a hash keeps.
pub const SHORT_HASH_LEN: usize = 12;

/// The short form of a hash: its first characters.
pub open spec fn short_hash(h: Seq<char>) -> Seq<char> {
    if h.len() <= SHORT_HASH_LEN {
        h
    } else {
        h.take(SHORT_HASH_LEN as int)
    }
}

/// Line `k` of `v`, or an empty string if it has fewer lines.
pub(crate) fn nth_line(v: &Vec<char>, k: usize) -> (r: String)
    ensures
        r@ == line_or_empty(v@, k as int),
{
    let mut i: usize = 0;
    let mut j: usize = 0;
    let ghost mut done: Seq<Seq<char>> = seq![];
    assert(split_lines(v@) =~= done + lines_from(v@, 0));
    while i < v.len() && j < k
        invariant
            i <= v@.len(),
            j <= k,
            done.len() == j,
            split_lines(v@) == done + lines_from(v@, i as int),
        decreases v@.len() - i,
    {
        let (stop, next) = next_line(v, i);
        proof {
            let l = v@.subrange(i as int, stop as int);
            assert(split_lines(v@) =~= done.push(l) + lines_from(v@, next as int));
            done = done.push(l);
        }
        i = next;
        j = j + 1;
    }
    if i < v.len() {
        let (stop, next) = next_line(v, i);
        assert(split_lines(v@)[k as int] == v@.subrange(i as int, stop as int));
        string_of_range(v, i, stop)
    } else {
        assert(lines_from(v@, i as int) =~= seq![]);
        assert(split_lines(v@) =~= done);
        let r = String::new();
        assert(r@ =~= line_or_empty(v@, k as int));
        r
    }
}

pub open spec fn is_digit(c: char) -> bool {
    '0' <= c && c <= '9'
}

pub open spec fn digit_value(c: char) -> nat {
    (c as u32 - '0' as u32) as nat
}

/// The number written by the digits `d`.
pub open spec fn digits_value(d: Seq<char>) -> nat
    decreases d.len(),
{
    if d.len() == 0 {
        0
    } else {
        digits_value(d.drop_last()) * 10 + digit_value(d.last())
    }
}

/// Where the run of digits that ends just before `q` starts.
pub open spec fn run_start(l: Seq<char>, q: int) -> int
    decreases q,
{
    if 0 < q <= l.len() && is_digit(l[q - 1]) {
        run_start(l, q - 1)
    } else {
        q
    }
}

/// The first position from `i` on where `w` occurs right after a digit, or -1.
pub open spec fn counted_at(l: Seq<char>, w: Seq<char>, i: int) -> int
    decreases l.len() - i,
{
    if i < 0 || i >= l.len() {
        -1
    } else if i >= 1 && occurs_at(l, w, i) && is_digit(l[i - 1]) {
        i
    } else {
        counted_at(l, w, i + 1)
    }
}

/// The number written just before the first `w` that follows a digit, if any
/// (zero if it does not fit in 32 bits).
pub open spec fn count_before(l: Seq<char>, w: Seq<char>) -> Option<u32> {
    let q = counted_at(l, w, 0);
    if q < 0 {
        None
    } else {
        let v = digits_value(l.subrange(run_start(l, q), q));
        Some(if v <= u32::MAX { v as u32 } else { 0 })
    }
}

pub const STAT_BAR: &'static str = "|";
pub const INSERTION: &'static str = "insertion";
pub const DELETION: &'static str = "deletion";
pub const COUNTED_INSERTION: &'static str = " insertion";
pub const COUNTED_DELETION: &'static str = " deletion";

/// Files changed, insertions and deletions, as read so far.
pub type StatsView = (Seq<Seq<char>>, u32, u32);

/// One line of the summary: a line with a bar names a file (before the bar,
/// trimmed); a line that speaks of insertions or deletions gives their counts.
pub open spec fn stats_step(st: StatsView, l: Seq<char>) -> StatsView {
    let bar = first_occurrence(l, STAT_BAR@, 0);
    if bar >= 0 {
        let f = trim(l.subrange(0, bar));
        if f.len() > 0 { (st.0.push(f), st.1, st.2) } else { st }
    } else if first_occurrence(l, INSERTION@, 0) >= 0 || first_occurrence(l, DELETION@, 0) >= 0 {
        let ins = match count_before(l, COUNTED_INSERTION@) { Some(n) => n, None => st.1 };
        let del = match count_before(l, COUNTED_DELETION@) { Some(n) => n, None => st.2 };
        (st.0, ins, del)
    } else {
        st
    }
}

pub open spec fn stats_run(st: StatsView, ls: Seq<Seq<char>>) -> StatsView
    decreases ls.len(),
{
    if ls.len() == 0 {
        st
    } else {
        stats_run(stats_step(st, ls[0]), ls.drop_first())
    }
}

/// What the tool's summary of changed files says.
pub open spec fn stats_summary(s: Seq<char>) -> StatsView {
    stats_run((seq![], 0, 0), split_lines(s))
}

fn digit_of(c: char) -> (r: u64)
    requires
        is_digit(c),
    ensures
        r == digit_value(c),
        r < 10,
{
    (c as u32 - '0' as u32) as u64
}

fn counted_here(l: &Vec<char>, w: &Vec<char>, i: usize) -> (r: bool)
    requires
        i < l@.len(),
    ensures
        r == (i >= 1 && occurs_at(l@, w@, i as int) && is_digit(l@[i - 1])),
{
    i >= 1 && matches_at(l, w, i) && '0' <= l[i - 1] && l[i - 1] <= '9'
}

fn count_before_exec(l: &Vec<char>, w: &Vec<char>) -> (r: Option<u32>)
    ensures
        r == count_before(l@, w@),
{
    let mut i: usize = 0;
    while i < l.len() && !counted_here(l, w, i)
        invariant
            i <= l@.len(),
            counted_at(l@, w@, 0) == counted_at(l@, w@, i as int),
        decreases l@.len() - i,
    {
        i = i + 1;
    }
    if i >= l.len() {
        return None;
    }
    let q = i;
    assert(counted_at(l@, w@, 0) == q as int);
    let mut st = q;
    while st > 0 && '0' <= l[st - 1] && l[st - 1] <= '9'
        invariant
            st <= q < l@.len(),
            run_start(l@, q as int) == run_start(l@, st as int),
            forall|j: int| st <= j < q ==> is_digit(#[trigger] l@[j]),
        decreases st,
    {
        st = st - 1;
    }
    let mut acc: u64 = 0;
    let mut over = false;
    let mut j = st;
    while j < q
        invariant
            st <= j <= q < l@.len(),
            forall|m: int| st <= m < q ==> is_digit(#[trigger] l@[m]),
            over ==> digits_value(l@.subrange(st as int, j as int)) > u32::MAX,
            !over ==> acc == digits_value(l@.subrange(st as int, j as int)) && acc <= u32::MAX,
        decreases q - j,
    {
        let ghost prev = l@.subrange(st as int, j as int);
        assert(l@.subrange(st as int, j + 1).drop_last() =~= prev);
        let d = digit_of(l[j]);
        if !over {
            acc = acc * 10 + d;
            if acc > u32::MAX as u64 {
                over = true;
            }
        } else {
            let ghost pv = digits_value(prev);
            assert(pv * 10 + digit_value(l@[j as int]) >= pv) by (nonlinear_arith)
                requires pv >= 0, digit_value(l@[j as int]) >= 0;
        }
        j = j + 1;
    }
    assert(run_start(l@, st as int) == st as int);
    if over {
        Some(0)
    } else {
        Some(acc as u32)
    }
}

/// Reads the tool's summary of changed files: the files named before a bar,
/// and the counts of inserted and deleted lines.
pub fn parse_git_stats(stats: &str) -> (r: (Vec<String>, u32, u32))
    ensures
        (strings_view(r.0@), r.1, r.2) == stats_summary(stats@),
{
    let v = chars_of(stats);
    let bar = chars_of(STAT_BAR);
    let ins_word = chars_of(INSERTION);
    let del_word = chars_of(DELETION);
    let ins_counted = chars_of(COUNTED_INSERTION);
    let del_counted = chars_of(COUNTED_DELETION);
    let mut files: Vec<String> = Vec::new();
    let mut insertions: u32 = 0;
    let mut deletions: u32 = 0;
    let mut i: usize = 0;
    assert(strings_view(files@) =~= seq![]);
    while i < v.len()
        invariant
            i <= v@.len(),
            v@ == stats@,
            bar@ == STAT_BAR@,
            ins_word@ == INSERTION@,
            del_word@ == DELETION@,
            ins_counted@ == COUNTED_INSERTION@,
            del_counted@ == COUNTED_DELETION@,
            stats_run((strings_view(files@), insertions, deletions), lines_from(v@, i as int))
                == stats_summary(stats@),
        decreases v@.len() - i,
    {
        let (stop, next) = next_line(&v, i);
        let line = crate::text::slice_chars(&v, i, stop);
        let ghost st: StatsView = (strings_view(files@), insertions, deletions);
        let ghost rest = lines_from(v@, next as int);
        assert((seq![line@] + rest)[0] == line@);
        assert((seq![line@] + rest).drop_first() =~= rest);
        match find_first(&line, &bar, 0) {
            Some(k) => {
                proof {
                    lemma_first_occurrence(line@, bar@, 0);
                }
                let a = skip_space_forward(&line, 0, k);
                let b = skip_space_backward(&line, a, k);
                if a < b {
                    let ghost before = strings_view(files@);
                    files.push(string_of_range(&line, a, b));
                    assert(strings_view(files@) =~= before.push(trim(line@.subrange(0, k as int))));
                }
            },
            None => {
                if find_first(&line, &ins_word, 0).is_some() || find_first(&line, &del_word, 0).is_some() {
                    match count_before_exec(&line, &ins_counted) {
                        Some(n) => {
                            insertions = n;
                        },
                        None => {},
                    }
                    match count_before_exec(&line, &del_counted) {
                        Some(n) => {
                            deletions = n;
                        },
                        None => {},
                    }
                }
            },
        }
        assert((strings_view(files@), insertions, deletions) == stats_step(st, line@));
        i = next;
    }
    assert(lines_from(v@, i as int) =~= seq![]);
    (files, insertions, deletions)
}

/// The metadata of commit `hash` from the tool's outputs: `header` holds the
/// subject, the author and the date on its first three lines, `stats` the
/// summary of changed files.
pub fn commit_info_from_output(hash: &str, header: &str, stats: &str) -> (r: CommitInfo)
    ensures
        r.hash@ == hash@,
        r.short_hash@ == short_hash(hash@),
        r.message@ == line_or_empty(header@, 0),
        r.author@ == line_or_empty(header@, 1),
        r.date@ == line_or_empty(header@, 2),
        (strings_view(r.files_changed@), r.insertions, r.deletions) == stats_summary(stats@),
{
    let h = chars_of(hash);
    let v = chars_of(header);
    let short_len = if h.len() <= SHORT_HASH_LEN {
        h.len()
    } else {
        SHORT_HASH_LEN
    };
    assert(h@.subrange(0, h@.len() as int) =~= h@);
    let (files_changed, insertions, deletions) = parse_git_stats(stats);
    CommitInfo {
        hash: string_of_range(&h, 0, h.len()),
        short_hash: string_of_range(&h, 0, short_len),
        message: nth_line(&v, 0),
        author: nth_line(&v, 1),
        date: nth_line(&v, 2),
        files_changed,
        insertions,
        deletions,
    }
}

} // verus!
