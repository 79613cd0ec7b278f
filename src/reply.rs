//! What comes back from the text-generation service: judging an attempt,
//! and stripping reasoning markup from a reply.
use vstd::prelude::*;
use crate::lines::{find_first, first_occurrence, lemma_first_occurrence};
use crate::text::{
    chars_of, is_space, occurs_at, push_str, skip_space_backward,
    skip_space_forward, slice_chars, string_of_range, trim, trim_end, trim_start,
};

verus! {

/// Why one request to the generation service failed.
#[derive(Clone, Copy, PartialEq, Eq, Structural, Debug)]
pub enum ErrorKind {
    /// The connection or the sending failed.
    Transport,
    /// The service answered with a status other than success.
    BadStatus,
    /// The reply's body was not of the expected shape.
    Decode,
    /// The reply held no text besides reasoning markup and white space.
    EmptyResponse,
}

/// A failed request, with the detail the transport gave.
pub struct GenerationError {
    pub kind: ErrorKind,
    pub detail: String,
}

/// What a failed request is, as a value.
pub open spec fn error_view(e: GenerationError) -> (ErrorKind, Seq<char>) {
    (e.kind, e.detail@)
}

/// What to do after one attempt.
pub enum RetryDecision {
    /// The reply is usable.
    Accept(String),
    /// The attempt failed and another one is allowed.
    Retry(GenerationError),
    /// The attempt failed and it was the last one allowed.
    Fail(GenerationError),
}

/// The failure of an attempt, if it failed: an error of the transport, or a
/// reply that is blank once trimmed.
pub open spec fn attempt_failure(outcome: Result<String, GenerationError>) -> Option<(ErrorKind, Seq<char>)> {
    match outcome {
        Ok(t) => if trim(t@).len() == 0 { Some((ErrorKind::EmptyResponse, seq![])) } else { None },
        Err(e) => Some(error_view(e)),
    }
}

/// Judges attempt number `attempt` (counted from 1) of at most
/// `max_attempts`: a reply that is not blank is accepted, and handed on
/// without its reasoning markup; a failure is retried while attempts remain,
/// and is final after the last one.
pub fn decide_attempt(attempt: u32, max_attempts: u32, outcome: Result<String, GenerationError>) -> (r: RetryDecision)
    ensures
        attempt_failure(outcome) is None <==> r is Accept,
        r is Accept ==> r->Accept_0@ == cleaned(outcome->Ok_0@),
        r is Retry ==> attempt < max_attempts && attempt_failure(outcome) == Some(error_view(r->Retry_0)),
        r is Fail ==> attempt >= max_attempts && attempt_failure(outcome) == Some(error_view(r->Fail_0)),
        attempt_failure(outcome) is Some ==> (attempt < max_attempts <==> r is Retry),
{
    let failure = match outcome {
        Ok(t) => {
            let v = chars_of(t.as_str());
            let a = skip_space_forward(&v, 0, v.len());
            let b = skip_space_backward(&v, a, v.len());
            assert(v@.subrange(0, v@.len() as int) =~= v@);
            if a == b {
                GenerationError { kind: ErrorKind::EmptyResponse, detail: String::new() }
            } else {
                return RetryDecision::Accept(clean_response(t.as_str()));
            }
        },
        Err(e) => e,
    };
    if attempt < max_attempts {
        RetryDecision::Retry(failure)
    } else {
        RetryDecision::Fail(failure)
    }
}

/// The words that name each kind of failure.
pub open spec fn kind_label(k: ErrorKind) -> Seq<char> {
    match k {
        ErrorKind::Transport => "connection error"@,
        ErrorKind::BadStatus => "service error"@,
        ErrorKind::Decode => "undecodable reply"@,
        ErrorKind::EmptyResponse => "empty reply"@,
    }
}

/// A failure in words: its kind, then its detail if there is one.
pub open spec fn error_text(e: (ErrorKind, Seq<char>)) -> Seq<char> {
    if e.1.len() == 0 {
        kind_label(e.0)
    } else {
        kind_label(e.0) + ": "@ + e.1
    }
}

fn push_kind_label(s: &mut String, k: ErrorKind)
    ensures
        final(s)@ == old(s)@ + kind_label(k),
{
    match k {
        ErrorKind::Transport => push_str(s, "connection error"),
        ErrorKind::BadStatus => push_str(s, "service error"),
        ErrorKind::Decode => push_str(s, "undecodable reply"),
        ErrorKind::EmptyResponse => push_str(s, "empty reply"),
    }
}

/// Appends the words for a failure.
pub(crate) fn push_error_text(s: &mut String, e: &GenerationError)
    ensures
        final(s)@ == old(s)@ + error_text(error_view(*e)),
{
    push_kind_label(s, e.kind);
    if e.detail.as_str().unicode_len() > 0 {
        push_str(s, ": ");
        push_str(s, e.detail.as_str());
        assert(final(s)@ =~= old(s)@ + error_text(error_view(*e)));
    }
}

impl GenerationError {
    /// The failure in words.
    pub fn describe(&self) -> (r: String)
        ensures
            r@ == error_text(error_view(*self)),
    {
        let mut s = String::new();
        push_error_text(&mut s, self);
        assert(s@ =~= error_text(error_view(*self)));
        s
    }
}

/// Reasoning markup that a reply may carry.
pub const THINK_CLOSE: &'static str = "</think>";
pub const THINK_OPEN: &'static str = "<think>";
pub const THINKING_CLOSE: &'static str = "</thinking>";
pub const THINKING_OPEN: &'static str = "<thinking>";

/// One tag's effect: after the first closing tag, only what follows it is kept
/// (leading white space dropped); before the first opening tag, only what
/// precedes it (trailing white space dropped).
pub open spec fn strip_tag(s: Seq<char>, tag: Seq<char>, closing: bool) -> Seq<char> {
    let k = first_occurrence(s, tag, 0);
    if k < 0 {
        s
    } else if closing {
        trim_start(s.subrange(k + tag.len(), s.len() as int))
    } else {
        trim_end(s.subrange(0, k))
    }
}

/// A reply without its reasoning markup, for both tag pairs, trimmed.
pub open spec fn cleaned(s: Seq<char>) -> Seq<char> {
    let a = strip_tag(s, THINK_CLOSE@, true);
    let b = strip_tag(a, THINK_OPEN@, false);
    let c = strip_tag(b, THINKING_CLOSE@, true);
    let d = strip_tag(c, THINKING_OPEN@, false);
    trim(d)
}

fn strip_tag_exec(v: Vec<char>, tag: &str, closing: bool) -> (r: Vec<char>)
    ensures
        r@ == strip_tag(v@, tag@, closing),
{
    let t = chars_of(tag);
    let n = v.len();
    match find_first(&v, &t, 0) {
        None => v,
        Some(k) => {
            proof {
                lemma_first_occurrence(v@, t@, 0);
                assert(crate::text::occurs_at(v@, t@, k as int));
                assert(k + t@.len() <= v@.len());
            }
            if closing {
                let a = skip_space_forward(&v, k + t.len(), v.len());
                slice_chars(&v, a, v.len())
            } else {
                let b = skip_space_backward(&v, 0, k);
                slice_chars(&v, 0, b)
            }
        },
    }
}

/// Removes reasoning markup from a reply and trims it.
pub fn clean_response(reply: &str) -> (r: String)
    ensures
        r@ == cleaned(reply@),
{
    let v = chars_of(reply);
    let v = strip_tag_exec(v, THINK_CLOSE, true);
    let v = strip_tag_exec(v, THINK_OPEN, false);
    let v = strip_tag_exec(v, THINKING_CLOSE, true);
    let v = strip_tag_exec(v, THINKING_OPEN, false);
    let a = skip_space_forward(&v, 0, v.len());
    let b = skip_space_backward(&v, a, v.len());
    assert(v@.subrange(0, v@.len() as int) =~= v@);
    string_of_range(&v, a, b)
}

proof fn lemma_trim_start_is(s: Seq<char>, a: int)
    requires
        0 <= a <= s.len(),
        forall|i: int| 0 <= i < a ==> is_space(#[trigger] s[i]),
        a < s.len() ==> !is_space(s[a]),
    ensures
        trim_start(s) == s.subrange(a, s.len() as int),
    decreases a,
{
    if a > 0 {
        let t = s.drop_first();
        assert(is_space(s[0]));
        assert forall|i: int| 0 <= i < a - 1 implies is_space(#[trigger] t[i]) by {
            assert(t[i] == s[i + 1]);
        }
        lemma_trim_start_is(t, a - 1);
        assert(t.subrange(a - 1, t.len() as int) =~= s.subrange(a, s.len() as int));
    } else {
        assert(s.subrange(0, s.len() as int) =~= s);
    }
}

proof fn lemma_trim_end_is(s: Seq<char>, b: int)
    requires
        0 <= b <= s.len(),
        forall|i: int| b <= i < s.len() ==> is_space(#[trigger] s[i]),
        b > 0 ==> !is_space(s[b - 1]),
    ensures
        trim_end(s) == s.subrange(0, b),
    decreases s.len() - b,
{
    if b < s.len() {
        let t = s.drop_last();
        assert(is_space(s[s.len() - 1]));
        lemma_trim_end_is(t, b);
        assert(t.subrange(0, b) =~= s.subrange(0, b));
    } else {
        assert(s.subrange(0, b) =~= s);
    }
}

/// `trim_start(s)` is what follows the leading white space of `s`.
proof fn lemma_trim_start_shape(s: Seq<char>)
    ensures
        trim_start(s).len() <= s.len(),
        trim_start(s) == s.subrange(s.len() - trim_start(s).len(), s.len() as int),
        forall|i: int| 0 <= i < s.len() - trim_start(s).len() ==> is_space(#[trigger] s[i]),
        trim_start(s).len() > 0 ==> !is_space(trim_start(s)[0]),
    decreases s.len(),
{
    if s.len() > 0 && is_space(s[0]) {
        let t = s.drop_first();
        lemma_trim_start_shape(t);
        assert(t.subrange(t.len() - trim_start(t).len(), t.len() as int) =~= s.subrange(
            s.len() - trim_start(s).len(),
            s.len() as int,
        ));
        assert forall|i: int| 0 <= i < s.len() - trim_start(s).len() implies is_space(#[trigger] s[i]) by {
            if i > 0 {
                assert(s[i] == t[i - 1]);
            }
        }
    } else {
        assert(s.subrange(0, s.len() as int) =~= s);
    }
}

/// `trim_end(s)` is what precedes the trailing white space of `s`.
proof fn lemma_trim_end_shape(s: Seq<char>)
    ensures
        trim_end(s).len() <= s.len(),
        trim_end(s) == s.subrange(0, trim_end(s).len() as int),
        forall|i: int| trim_end(s).len() <= i < s.len() ==> is_space(#[trigger] s[i]),
        trim_end(s).len() > 0 ==> !is_space(s[trim_end(s).len() - 1]),
    decreases s.len(),
{
    if s.len() > 0 && is_space(s.last()) {
        let t = s.drop_last();
        lemma_trim_end_shape(t);
        assert(t.subrange(0, trim_end(t).len() as int) =~= s.subrange(0, trim_end(s).len() as int));
        assert forall|i: int| trim_end(s).len() <= i < s.len() implies is_space(#[trigger] s[i]) by {
            if i < s.len() - 1 {
                assert(s[i] == t[i]);
            }
        }
    } else {
        assert(s.subrange(0, s.len() as int) =~= s);
    }
}

/// A pattern absent from `s` is absent from every part of it.
proof fn lemma_absent_in_part(s: Seq<char>, p: Seq<char>, lo: int, hi: int)
    requires
        0 <= lo <= hi <= s.len(),
        first_occurrence(s, p, 0) == -1,
    ensures
        first_occurrence(s.subrange(lo, hi), p, 0) == -1,
{
    let t = s.subrange(lo, hi);
    lemma_first_occurrence(s, p, 0);
    lemma_first_occurrence(t, p, 0);
    let j = first_occurrence(t, p, 0);
    if j != -1 {
        assert(s.subrange(lo + j, lo + j + p.len()) =~= t.subrange(j, j + p.len()));
        assert(occurs_at(s, p, lo + j));
    }
}

/// After the first `</think>`, with no other tag in what follows it, the
/// cleaned reply is exactly that remainder, trimmed.
pub proof fn closing_tag_keeps_what_follows(r: Seq<char>, p: int)
    requires
        p == first_occurrence(r, THINK_CLOSE@, 0),
        p >= 0,
        first_occurrence(r.subrange(p + THINK_CLOSE@.len(), r.len() as int), THINK_OPEN@, 0) == -1,
        first_occurrence(r.subrange(p + THINK_CLOSE@.len(), r.len() as int), THINKING_CLOSE@, 0) == -1,
        first_occurrence(r.subrange(p + THINK_CLOSE@.len(), r.len() as int), THINKING_OPEN@, 0) == -1,
    ensures
        cleaned(r) == trim(r.subrange(p + THINK_CLOSE@.len(), r.len() as int)),
{
    lemma_first_occurrence(r, THINK_CLOSE@, 0);
    let s = r.subrange(p + THINK_CLOSE@.len(), r.len() as int);
    let a = trim_start(s);
    lemma_trim_start_shape(s);
    let k = s.len() - a.len();
    lemma_absent_in_part(s, THINK_OPEN@, k, s.len() as int);
    lemma_absent_in_part(s, THINKING_CLOSE@, k, s.len() as int);
    lemma_absent_in_part(s, THINKING_OPEN@, k, s.len() as int);
    lemma_trim_start_is(a, 0);
    assert(a.subrange(0, a.len() as int) =~= a);
}

/// With no `</think>`, before the first `<think>` and with no other tag
/// before it, the cleaned reply is exactly what precedes it, trimmed.
pub proof fn opening_tag_keeps_what_precedes(r: Seq<char>, p: int)
    requires
        first_occurrence(r, THINK_CLOSE@, 0) == -1,
        p == first_occurrence(r, THINK_OPEN@, 0),
        p >= 0,
        first_occurrence(r.subrange(0, p), THINKING_CLOSE@, 0) == -1,
        first_occurrence(r.subrange(0, p), THINKING_OPEN@, 0) == -1,
    ensures
        cleaned(r) == trim(r.subrange(0, p)),
{
    lemma_first_occurrence(r, THINK_OPEN@, 0);
    let s = r.subrange(0, p);
    let b = trim_end(s);
    lemma_trim_end_shape(s);
    let e = b.len() as int;
    lemma_absent_in_part(s, THINKING_CLOSE@, 0, e);
    lemma_absent_in_part(s, THINKING_OPEN@, 0, e);
    lemma_trim_start_shape(s);
    let a = s.len() - trim_start(s).len();
    if e == 0 {
        assert(b =~= seq![]);
        assert forall|i: int| 0 <= i < s.len() implies is_space(#[trigger] s[i]) by {}
        lemma_trim_start_is(s, s.len() as int);
        assert(trim_start(s) =~= seq![]);
        assert(trim_start(b) =~= seq![]);
    } else {
        assert(a <= e - 1) by {
            if a > e - 1 {
                assert(is_space(s[e - 1]));
            }
        }
        assert forall|i: int| 0 <= i < a implies is_space(#[trigger] b[i]) by {
            assert(b[i] == s[i]);
        }
        lemma_trim_start_is(b, a);
        let m = b.subrange(a, e);
        lemma_trim_end_is(m, e - a);
        let ts = trim_start(s);
        assert forall|i: int| e - a <= i < ts.len() implies is_space(#[trigger] ts[i]) by {
            assert(ts[i] == s[a + i]);
        }
        lemma_trim_end_is(ts, e - a);
        assert(m.subrange(0, e - a) =~= ts.subrange(0, e - a));
    }
}

} // verus!
