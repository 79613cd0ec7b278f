//! The report written for each analysed commit, and the name of its file.
use vstd::prelude::*;
use crate::commit::{line_or_empty, nth_line, CommitInfo};
use crate::lines::{lemma_line_end, split_lines};
use crate::text::{chars_of, decimal, padded_decimal, push_char, push_decimal, push_padded, push_str};

verus! {

/// A local date and time, field by field.
#[derive(Clone, Copy, PartialEq, Eq, Structural, Debug)]
pub struct Timestamp {
    pub year: i32,
    pub month: u32,
    pub day: u32,
    pub hour: u32,
    pub minute: u32,
    pub second: u32,
}

impl Timestamp {
    /// Whether the fields are in their ranges.
    pub open spec fn wf(&self) -> bool {
        &&& 1 <= self.month <= 12
        &&& 1 <= self.day <= 31
        &&& self.hour <= 23
        &&& self.minute <= 59
        &&& self.second <= 59
    }
}

/// Relies on chrono's `Local::now`, read through `Datelike` and `Timelike`:
/// the local date and time now, with the ranges those traits document.
#[verifier::external_body]
fn local_now() -> (r: Timestamp)
    ensures
        r.wf(),
{
    let now = chrono::Local::now();
    Timestamp {
        year: chrono::Datelike::year(&now),
        month: chrono::Datelike::month(&now),
        day: chrono::Datelike::day(&now),
        hour: chrono::Timelike::hour(&now),
        minute: chrono::Timelike::minute(&now),
        second: chrono::Timelike::second(&now),
    }
}

/// A year on at least four digits, with a sign when it is outside 0 to 9999
/// (as chrono's `%Y` writes it).
pub open spec fn year_text(y: i32) -> Seq<char> {
    if y < 0 {
        seq!['-'] + padded_decimal((-(y as int)) as nat, 4)
    } else if y > 9999 {
        seq!['+'] + padded_decimal(y as nat, 4)
    } else {
        padded_decimal(y as nat, 4)
    }
}

pub open spec fn two(n: u32) -> Seq<char> {
    padded_decimal(n as nat, 2)
}

/// `YYYY-MM-DD HH:MM:SS`.
pub open spec fn date_stamp(t: Timestamp) -> Seq<char> {
    year_text(t.year) + seq!['-'] + two(t.month) + seq!['-'] + two(t.day) + seq![' '] + two(t.hour)
        + seq![':'] + two(t.minute) + seq![':'] + two(t.second)
}

/// `YYYYMMDD_HHMMSS`.
pub open spec fn file_stamp(t: Timestamp) -> Seq<char> {
    year_text(t.year) + two(t.month) + two(t.day) + seq!['_'] + two(t.hour) + two(t.minute) + two(
        t.second,
    )
}

fn push_year(s: &mut String, y: i32)
    ensures
        final(s)@ == old(s)@ + year_text(y),
{
    if y < 0 {
        push_char(s, '-');
        let a: u64 = (-(y as i64)) as u64;
        push_padded(s, a, 4);
        assert(final(s)@ =~= old(s)@ + year_text(y));
    } else if y > 9999 {
        push_char(s, '+');
        push_padded(s, y as u64, 4);
        assert(final(s)@ =~= old(s)@ + year_text(y));
    } else {
        push_padded(s, y as u64, 4);
    }
}

fn push_date_stamp(s: &mut String, t: &Timestamp)
    ensures
        final(s)@ == old(s)@ + date_stamp(*t),
{
    push_year(s, t.year);
    push_char(s, '-');
    push_padded(s, t.month as u64, 2);
    push_char(s, '-');
    push_padded(s, t.day as u64, 2);
    push_char(s, ' ');
    push_padded(s, t.hour as u64, 2);
    push_char(s, ':');
    push_padded(s, t.minute as u64, 2);
    push_char(s, ':');
    push_padded(s, t.second as u64, 2);
    assert(final(s)@ =~= old(s)@ + date_stamp(*t));
}

fn push_file_stamp(s: &mut String, t: &Timestamp)
    ensures
        final(s)@ == old(s)@ + file_stamp(*t),
{
    push_year(s, t.year);
    push_padded(s, t.month as u64, 2);
    push_padded(s, t.day as u64, 2);
    push_char(s, '_');
    push_padded(s, t.hour as u64, 2);
    push_padded(s, t.minute as u64, 2);
    push_padded(s, t.second as u64, 2);
    assert(final(s)@ =~= old(s)@ + file_stamp(*t));
}

pub const UNTITLED: &'static str = "Untitled";
pub const REPORT_TITLE: &'static str = "# Commit analysis: ";
pub const REPORT_HASH: &'static str = "\n\n## Commit information\n\n**Full hash:** `";
pub const REPORT_SHORT: &'static str = "`  \n**Short hash:** `";
pub const REPORT_AUTHOR: &'static str = "`  \n**Author:** ";
pub const REPORT_DATE: &'static str = "  \n**Commit date:** ";
pub const REPORT_FILES: &'static str = "  \n**Files changed:** ";
pub const REPORT_ADDED: &'static str = "  \n**Lines added:** ";
pub const REPORT_REMOVED: &'static str = "  \n**Lines removed:** ";
pub const REPORT_ANALYSIS: &'static str = "  \n\n---\n\n## Technical analysis\n\n";
pub const REPORT_DETAILS: &'static str = "\n\n---\n\n## Change details\n\n";
pub const REPORT_STAMP: &'static str = "\n\n---\n\n*Report generated on: ";
pub const REPORT_END: &'static str = "*";

/// The first line of a commit message, or a stand-in when it has none.
pub open spec fn title(message: Seq<char>) -> Seq<char> {
    if split_lines(message).len() > 0 {
        split_lines(message)[0]
    } else {
        UNTITLED@
    }
}

/// The report on a commit, generated at time `t`.
pub open spec fn report_text(info: CommitInfo, analysis: Seq<char>, diff: Seq<char>, t: Timestamp) -> Seq<char> {
    REPORT_TITLE@ + title(info.message@) + REPORT_HASH@ + info.hash@ + REPORT_SHORT@ + info.short_hash@
        + REPORT_AUTHOR@ + info.author@ + REPORT_DATE@ + info.date@ + REPORT_FILES@ + decimal(
        info.files_changed@.len(),
    ) + REPORT_ADDED@ + decimal(info.insertions as nat) + REPORT_REMOVED@ + decimal(
        info.deletions as nat,
    ) + REPORT_ANALYSIS@ + analysis + REPORT_DETAILS@ + diff + REPORT_STAMP@ + date_stamp(t)
        + REPORT_END@
}

proof fn lemma_has_first_line(s: Seq<char>)
    requires
        s.len() > 0,
    ensures
        split_lines(s).len() > 0,
        split_lines(s)[0] == line_or_empty(s, 0),
{
    lemma_line_end(s, 0);
}

fn push_title(s: &mut String, message: &str)
    ensures
        final(s)@ == old(s)@ + title(message@),
{
    let v = chars_of(message);
    if v.len() > 0 {
        proof {
            lemma_has_first_line(v@);
        }
        let first = nth_line(&v, 0);
        push_str(s, first.as_str());
    } else {
        assert(split_lines(v@) =~= seq![]);
        push_str(s, UNTITLED);
    }
}

/// The report on a commit, generated at time `t`.
pub fn render_report(info: &CommitInfo, analysis: &str, diff: &str, t: &Timestamp) -> (r: String)
    ensures
        r@ == report_text(*info, analysis@, diff@, *t),
{
    let mut s = String::new();
    push_str(&mut s, REPORT_TITLE);
    push_title(&mut s, info.message.as_str());
    push_str(&mut s, REPORT_HASH);
    push_str(&mut s, info.hash.as_str());
    push_str(&mut s, REPORT_SHORT);
    push_str(&mut s, info.short_hash.as_str());
    push_str(&mut s, REPORT_AUTHOR);
    push_str(&mut s, info.author.as_str());
    push_str(&mut s, REPORT_DATE);
    push_str(&mut s, info.date.as_str());
    push_str(&mut s, REPORT_FILES);
    push_decimal(&mut s, info.files_changed.len() as u64);
    push_str(&mut s, REPORT_ADDED);
    push_decimal(&mut s, info.insertions as u64);
    push_str(&mut s, REPORT_REMOVED);
    push_decimal(&mut s, info.deletions as u64);
    push_str(&mut s, REPORT_ANALYSIS);
    push_str(&mut s, analysis);
    push_str(&mut s, REPORT_DETAILS);
    push_str(&mut s, diff);
    push_str(&mut s, REPORT_STAMP);
    push_date_stamp(&mut s, t);
    push_str(&mut s, REPORT_END);
    assert(s@ =~= report_text(*info, analysis@, diff@, *t));
    s
}

/// The report on a commit, stamped with the local time now.
pub fn generate_final_document(info: &CommitInfo, analysis: &str, diff: &str) -> (r: String)
    ensures
        exists|t: Timestamp| t.wf() && r@ == report_text(*info, analysis@, diff@, t),
{
    let t = local_now();
    render_report(info, analysis, diff, &t)
}

/// How many characters of the subject a file name keeps.
pub const NAME_CHARS: usize = 40;
pub const DEFAULT_SUBJECT: &'static str = "commit";
pub const NAME_START: &'static str = "commit_";
pub const NAME_UNTITLED: &'static str = "_untitled.md";
pub const NAME_EXTENSION: &'static str = ".md";

/// A character kept in a file name: ASCII letters, digits, `-` and `_` stay,
/// anything else becomes `_`.
pub open spec fn name_char(c: char) -> char {
    if ('a' <= c && c <= 'z') || ('A' <= c && c <= 'Z') || ('0' <= c && c <= '9') || c == '-' || c == '_' {
        c
    } else {
        '_'
    }
}

fn name_char_exec(c: char) -> (r: char)
    ensures
        r == name_char(c),
{
    if ('a' <= c && c <= 'z') || ('A' <= c && c <= 'Z') || ('0' <= c && c <= '9') || c == '-' || c == '_' {
        c
    } else {
        '_'
    }
}

/// The subject a file name is made from: the first line of the message, or a
/// default when the message has no line.
pub open spec fn subject(message: Seq<char>) -> Seq<char> {
    if split_lines(message).len() > 0 {
        split_lines(message)[0]
    } else {
        DEFAULT_SUBJECT@
    }
}

/// `s` without the underscores at its start.
pub open spec fn trim_start_underscores(s: Seq<char>) -> Seq<char>
    decreases s.len(),
{
    if s.len() > 0 && s[0] == '_' {
        trim_start_underscores(s.drop_first())
    } else {
        s
    }
}

/// `s` without the underscores at its end.
pub open spec fn trim_end_underscores(s: Seq<char>) -> Seq<char>
    decreases s.len(),
{
    if s.len() > 0 && s.last() == '_' {
        trim_end_underscores(s.drop_last())
    } else {
        s
    }
}

/// The part of a file name taken from a message: at most the first forty
/// characters of its subject, made safe, without underscores at either end.
pub open spec fn safe_subject(message: Seq<char>) -> Seq<char> {
    let sub = subject(message);
    let kept = if sub.len() <= NAME_CHARS { sub } else { sub.take(NAME_CHARS as int) };
    trim_end_underscores(trim_start_underscores(kept.map_values(|c: char| name_char(c))))
}

/// The name of the report file for a commit with `message`, at time `t`.
pub open spec fn report_file_name(message: Seq<char>, t: Timestamp) -> Seq<char> {
    let safe = safe_subject(message);
    if safe.len() == 0 {
        NAME_START@ + file_stamp(t) + NAME_UNTITLED@
    } else {
        NAME_START@ + file_stamp(t) + seq!['_'] + safe + NAME_EXTENSION@
    }
}

fn safe_subject_exec(message: &str) -> (r: Vec<char>)
    ensures
        r@ == safe_subject(message@),
{
    let v = chars_of(message);
    let sub = if v.len() > 0 {
        proof {
            lemma_has_first_line(v@);
        }
        chars_of(nth_line(&v, 0).as_str())
    } else {
        assert(split_lines(v@) =~= seq![]);
        chars_of(DEFAULT_SUBJECT)
    };
    let n = if sub.len() <= NAME_CHARS {
        sub.len()
    } else {
        NAME_CHARS
    };
    let ghost kept = if sub@.len() <= NAME_CHARS { sub@ } else { sub@.take(NAME_CHARS as int) };
    let ghost mapped = kept.map_values(|c: char| name_char(c));
    let mut m: Vec<char> = Vec::new();
    let mut i: usize = 0;
    while i < n
        invariant
            i <= n,
            n == kept.len(),
            kept.len() <= sub@.len(),
            forall|j: int| 0 <= j < kept.len() ==> kept[j] == sub@[j],
            mapped == kept.map_values(|c: char| name_char(c)),
            m@ == mapped.take(i as int),
        decreases n - i,
    {
        m.push(name_char_exec(sub[i]));
        i = i + 1;
        assert(m@ =~= mapped.take(i as int));
    }
    assert(m@ =~= mapped);
    let mut a: usize = 0;
    while a < m.len() && m[a] == '_'
        invariant
            a <= m@.len(),
            trim_start_underscores(mapped) == trim_start_underscores(m@.subrange(a as int, m@.len() as int)),
            m@ == mapped,
        decreases m@.len() - a,
    {
        assert(m@.subrange(a as int, m@.len() as int).drop_first() =~= m@.subrange(a + 1, m@.len() as int));
        a = a + 1;
    }
    assert(m@.subrange(0, m@.len() as int) =~= mapped);
    let mut b: usize = m.len();
    while b > a && m[b - 1] == '_'
        invariant
            a <= b <= m@.len(),
            trim_end_underscores(m@.subrange(a as int, m@.len() as int)) == trim_end_underscores(
                m@.subrange(a as int, b as int),
            ),
        decreases b - a,
    {
        assert(m@.subrange(a as int, b as int).drop_last() =~= m@.subrange(a as int, b - 1));
        b = b - 1;
    }
    crate::text::slice_chars(&m, a, b)
}

/// The name of the report file for a commit with `message`, at time `t`.
pub fn report_file_name_at(message: &str, t: &Timestamp) -> (r: String)
    ensures
        r@ == report_file_name(message@, *t),
{
    let safe = safe_subject_exec(message);
    let mut s = String::new();
    push_str(&mut s, NAME_START);
    push_file_stamp(&mut s, t);
    if safe.len() == 0 {
        push_str(&mut s, NAME_UNTITLED);
    } else {
        push_char(&mut s, '_');
        crate::text::push_range(&mut s, &safe, 0, safe.len());
        push_str(&mut s, NAME_EXTENSION);
        assert(safe@.subrange(0, safe@.len() as int) =~= safe@);
    }
    assert(s@ =~= report_file_name(message@, *t));
    s
}

/// The name of the report file for a commit with `message`, stamped with the
/// local time now.
pub fn generate_filename(message: &str) -> (r: String)
    ensures
        exists|t: Timestamp| t.wf() && r@ == report_file_name(message@, t),
{
    let t = local_now();
    report_file_name_at(message, &t)
}

} // verus!
