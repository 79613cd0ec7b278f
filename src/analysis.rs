//! The analysis of one commit's formatted diff: one request when the diff is
//! small, else one request per chunk and a last one that merges their
//! analyses. The session decides; whoever holds it makes the requests.
use vstd::prelude::*;
use crate::chunk::{
    chunks_of, chunks_view, long_text_splits, one_line, split_diff_into_chunks, strings_view, Chunk,
};
use crate::diff::{
    count_opens, formatted, formatted_pieces, has_changed_line, lemma_changed_diff_opens_block,
    render, Piece, FENCE_OPEN,
};
use crate::prompt::{
    build_analysis_prompt, build_chunk_analysis_prompt, build_failure_note, build_summary_prompt,
    chunk_prompt, failure_note, summary_prompt, whole_prompt,
};
use crate::reply::{error_view, ErrorKind, GenerationError};
use crate::text::chars_of;

verus! {

/// Why a commit could not be analysed.
pub enum AnalysisError {
    /// A request that the analysis cannot do without failed.
    Generation(GenerationError),
    /// Every chunk's request failed.
    AllChunksFailed,
}

/// Where a session stands.
#[derive(Clone, Copy, PartialEq, Eq, Structural, Debug)]
pub enum Stage {
    /// Waiting for the reply to the one request for the whole diff.
    Whole,
    /// Waiting for the reply for the chunk at this position (from 0).
    Chunk(usize),
    /// Waiting for the reply to the merging request.
    Consolidate,
    /// Finished.
    Done,
}

/// What the holder of a session does next.
pub enum Step {
    /// Send this prompt and hand the outcome back.
    Generate(String),
    /// The analysis is over, with this result.
    Finished(Result<String, AnalysisError>),
}

/// The outcome of one chunk's request, as a value.
pub type OutcomeView = Result<Seq<char>, (ErrorKind, Seq<char>)>;

/// The outcome of a request whose reply has already been cleaned; an empty
/// one counts as an empty reply.
pub open spec fn outcome_view(o: Result<String, GenerationError>) -> OutcomeView {
    match o {
        Ok(t) => if t@.len() == 0 {
            Err((ErrorKind::EmptyResponse, seq![]))
        } else {
            Ok(t@)
        },
        Err(e) => Err(error_view(e)),
    }
}

/// What chunk `index` (from 1) contributes to the merged list: its
/// (cleaned) reply, or a note naming it and the failure.
pub open spec fn chunk_analysis(index: nat, o: OutcomeView) -> Seq<char> {
    match o {
        Ok(t) => t,
        Err(e) => failure_note(index, e),
    }
}

pub open spec fn chunk_analyses(os: Seq<OutcomeView>) -> Seq<Seq<char>> {
    Seq::new(os.len(), |i: int| chunk_analysis((i + 1) as nat, os[i]))
}

/// How many chunk requests succeeded.
pub open spec fn count_ok(os: Seq<OutcomeView>) -> nat
    decreases os.len(),
{
    if os.len() == 0 {
        0
    } else {
        count_ok(os.drop_last()) + if os.last() is Ok { 1nat } else { 0nat }
    }
}

/// The merging prompt once every chunk's outcome is known; none when every
/// request failed.
pub open spec fn consolidation(message: Seq<char>, os: Seq<OutcomeView>) -> Option<Seq<char>> {
    if count_ok(os) == 0 {
        None
    } else {
        Some(summary_prompt(message, chunk_analyses(os)))
    }
}

proof fn lemma_count_ok_bound(os: Seq<OutcomeView>)
    ensures
        count_ok(os) <= os.len(),
    decreases os.len(),
{
    if os.len() > 0 {
        lemma_count_ok_bound(os.drop_last());
    }
}

/// The cleaned reply of a request, or why there is none: the request failed,
/// or its reply is empty.
fn usable(outcome: Result<String, GenerationError>) -> (r: Result<String, GenerationError>)
    ensures
        match outcome_view(outcome) {
            Ok(t) => r is Ok && r->Ok_0@ == t && t.len() > 0,
            Err(e) => r is Err && error_view(r->Err_0) == e,
        },
{
    match outcome {
        Ok(t) => {
            if t.as_str().unicode_len() == 0 {
                Err(GenerationError { kind: ErrorKind::EmptyResponse, detail: String::new() })
            } else {
                Ok(t)
            }
        },
        Err(e) => Err(e),
    }
}

/// One commit's analysis in progress.
pub struct Analysis {
    pub message: String,
    pub chunks: Vec<Chunk>,
    pub analyses: Vec<String>,
    pub succeeded: usize,
    pub stage: Stage,
    pub outcomes: Ghost<Seq<OutcomeView>>,
}

impl Analysis {
    /// While chunks are being analysed: the position is a chunk's, the
    /// analyses so far are those of the outcomes so far, and the count of
    /// successes is theirs.
    pub open spec fn wf(&self) -> bool {
        match self.stage {
            Stage::Chunk(i) => {
                &&& i < self.chunks@.len()
                &&& self.outcomes@.len() == i
                &&& strings_view(self.analyses@) == chunk_analyses(self.outcomes@)
                &&& self.succeeded == count_ok(self.outcomes@)
            },
            _ => true,
        }
    }

    /// Starts the analysis of `diff`, a formatted diff, for a commit with
    /// `message`. A diff of at most `threshold` characters is analysed in one
    /// request; a longer one is split into chunks of at most `chunk_size`.
    pub fn start(message: &str, diff: &str, threshold: usize, chunk_size: usize) -> (r: (Analysis, Step))
        ensures
            r.0.wf(),
            r.0.message@ == message@,
            diff@.len() <= threshold ==> {
                &&& r.0.stage == Stage::Whole
                &&& r.1 is Generate
                &&& r.1->Generate_0@ == whole_prompt(message@, diff@)
            },
            diff@.len() > threshold ==> {
                &&& chunks_view(r.0.chunks@) == chunks_of(diff@, chunk_size as nat)
                &&& r.0.chunks@.len() > 0 ==> {
                    &&& r.0.stage == Stage::Chunk(0)
                    &&& r.1 is Generate
                    &&& r.1->Generate_0@ == chunk_prompt(
                        message@,
                        r.0.chunks@[0].content@,
                        1,
                        r.0.chunks@.len() as nat,
                    )
                }
                &&& r.0.chunks@.len() == 0 ==> r.0.stage == Stage::Done && r.1 is Finished
                    && r.1->Finished_0 matches Err(AnalysisError::AllChunksFailed)
            },
    {
        let size = chars_of(diff).len();
        let mut m = String::new();
        crate::text::push_str(&mut m, message);
        assert(m@ =~= message@);
        if size <= threshold {
            let prompt = build_analysis_prompt(message, diff);
            let a = Analysis {
                message: m,
                chunks: Vec::new(),
                analyses: Vec::new(),
                succeeded: 0,
                stage: Stage::Whole,
                outcomes: Ghost(Seq::empty()),
            };
            (a, Step::Generate(prompt))
        } else {
            let chunks = split_diff_into_chunks(diff, chunk_size);
            let n = chunks.len();
            if n == 0 {
                let a = Analysis {
                    message: m,
                    chunks,
                    analyses: Vec::new(),
                    succeeded: 0,
                    stage: Stage::Done,
                    outcomes: Ghost(Seq::empty()),
                };
                (a, Step::Finished(Err(AnalysisError::AllChunksFailed)))
            } else {
                let prompt = build_chunk_analysis_prompt(message, chunks[0].content.as_str(), 1, n);
                let a = Analysis {
                    message: m,
                    chunks,
                    analyses: Vec::new(),
                    succeeded: 0,
                    stage: Stage::Chunk(0),
                    outcomes: Ghost(Seq::empty()),
                };
                assert(strings_view(a.analyses@) =~= chunk_analyses(seq![]));
                (a, Step::Generate(prompt))
            }
        }
    }

    /// Hands the session the outcome of the request it asked for last (a
    /// reply already cleaned of reasoning markup, as `decide_attempt` hands
    /// it on), and returns what to do next. The reply is used as it is; an
    /// empty one counts as an empty reply, so a finished analysis is never
    /// empty. A failed chunk request does not end the analysis: a note stands
    /// in for that chunk. Once every chunk's outcome is in, the analyses are
    /// merged by one more request, unless every chunk failed.
    pub fn advance(&mut self, outcome: Result<String, GenerationError>) -> (r: Step)
        requires
            old(self).wf(),
            old(self).stage != Stage::Done,
        ensures
            final(self).wf(),
            final(self).message == old(self).message,
            final(self).chunks == old(self).chunks,
            (old(self).stage == Stage::Whole || old(self).stage == Stage::Consolidate) ==> {
                &&& final(self).stage == Stage::Done
                &&& r is Finished
                &&& match outcome_view(outcome) {
                    Ok(t) => r->Finished_0 is Ok && r->Finished_0->Ok_0@ == t,
                    Err(e) => r->Finished_0 is Err && r->Finished_0->Err_0 is Generation
                        && error_view(r->Finished_0->Err_0->Generation_0) == e,
                }
            },
            r is Finished && r->Finished_0 is Ok ==> r->Finished_0->Ok_0@.len() > 0,
            old(self).stage is Chunk ==> {
                let i = old(self).stage->Chunk_0;
                let n = old(self).chunks@.len();
                let os = old(self).outcomes@.push(outcome_view(outcome));
                &&& final(self).outcomes@ == os
                &&& i + 1 < n ==> {
                    &&& final(self).stage == Stage::Chunk((i + 1) as usize)
                    &&& r is Generate
                    &&& r->Generate_0@ == chunk_prompt(
                        old(self).message@,
                        old(self).chunks@[i + 1].content@,
                        (i + 2) as nat,
                        n as nat,
                    )
                }
                &&& i + 1 == n ==> match consolidation(old(self).message@, os) {
                    Some(p) => final(self).stage == Stage::Consolidate && r is Generate
                        && r->Generate_0@ == p,
                    None => final(self).stage == Stage::Done && r is Finished
                        && r->Finished_0 matches Err(AnalysisError::AllChunksFailed),
                }
            },
    {
        match self.stage {
            Stage::Chunk(i) => {
                let n = self.chunks.len();
                let ghost old_os = self.outcomes@;
                let ghost os = old_os.push(outcome_view(outcome));
                proof {
                    lemma_count_ok_bound(old_os);
                    assert(os.drop_last() =~= old_os);
                }
                let ghost old_analyses = strings_view(self.analyses@);
                let ghost ov = outcome_view(outcome);
                let text = match usable(outcome) {
                    Ok(c) => {
                        self.succeeded = self.succeeded + 1;
                        c
                    },
                    Err(e) => build_failure_note(i + 1, &e),
                };
                assert(text@ == chunk_analysis((i + 1) as nat, ov));
                let ghost text_view = text@;
                self.analyses.push(text);
                self.outcomes = Ghost(os);
                assert(strings_view(self.analyses@) =~= old_analyses.push(text_view));
                assert(chunk_analyses(os) =~= chunk_analyses(old_os).push(text_view));
                if i + 1 < n {
                    self.stage = Stage::Chunk(i + 1);
                    Step::Generate(
                        build_chunk_analysis_prompt(
                            self.message.as_str(),
                            self.chunks[i + 1].content.as_str(),
                            i + 2,
                            n,
                        ),
                    )
                } else if self.succeeded == 0 {
                    self.stage = Stage::Done;
                    Step::Finished(Err(AnalysisError::AllChunksFailed))
                } else {
                    self.stage = Stage::Consolidate;
                    Step::Generate(build_summary_prompt(self.message.as_str(), &self.analyses))
                }
            },
            _ => {
                self.stage = Stage::Done;
                match usable(outcome) {
                    Ok(c) => Step::Finished(Ok(c)),
                    Err(e) => Step::Finished(Err(AnalysisError::Generation(e))),
                }
            },
        }
    }
}

proof fn lemma_count_ok_zero(os: Seq<OutcomeView>)
    requires
        forall|i: int| 0 <= i < os.len() ==> (#[trigger] os[i]) is Err,
    ensures
        count_ok(os) == 0,
    decreases os.len(),
{
    if os.len() > 0 {
        assert(os.last() is Err);
        assert forall|i: int| 0 <= i < os.drop_last().len() implies (#[trigger] os.drop_last()[i]) is Err by {
            assert(os.drop_last()[i] == os[i]);
        }
        lemma_count_ok_zero(os.drop_last());
    }
}

/// When every chunk's request fails there is nothing to merge: the analysis
/// ends with `AllChunksFailed` and no merging request is made.
pub proof fn all_chunks_failed_ends_analysis(message: Seq<char>, os: Seq<OutcomeView>)
    requires
        forall|i: int| 0 <= i < os.len() ==> (#[trigger] os[i]) is Err,
    ensures
        consolidation(message, os) is None,
{
    lemma_count_ok_zero(os);
}

/// When one of three chunks fails, the merging request is still made; its
/// prompt lists the two analyses that came back and, in the failed chunk's
/// place, a note naming that chunk.
pub proof fn one_failed_chunk_of_three(message: Seq<char>, os: Seq<OutcomeView>, k: int)
    requires
        os.len() == 3,
        0 <= k < 3,
        os[k] is Err,
        forall|j: int| 0 <= j < 3 && j != k ==> (#[trigger] os[j]) is Ok,
    ensures
        consolidation(message, os) == Some(summary_prompt(message, chunk_analyses(os))),
        chunk_analyses(os).len() == 3,
        chunk_analyses(os)[k] == failure_note((k + 1) as nat, os[k]->Err_0),
        forall|j: int| 0 <= j < 3 && j != k ==> (#[trigger] chunk_analyses(os)[j]) == os[j]->Ok_0,
{
    let j = if k == 0 { 1int } else { 0int };
    assert(os[j] is Ok);
    let a = os.drop_last();
    let b = a.drop_last();
    let c = b.drop_last();
    assert(c.len() == 0);
    assert(count_ok(os) >= count_ok(a));
    assert(count_ok(a) >= count_ok(b));
    if j == 0 {
        assert(b.last() == os[0]);
        assert(count_ok(b) == count_ok(c) + 1);
    } else {
        assert(a.last() == os[1]);
        assert(count_ok(a) == count_ok(b) + 1);
    }
}

proof fn lemma_open_breaks_line(ps: Seq<Piece>)
    requires
        count_opens(ps) > 0,
    ensures
        !one_line(render(ps)),
    decreases ps.len(),
{
    let ps0 = ps.drop_last();
    let r0 = render(ps0);
    if ps.last() is Open {
        reveal_strlit("\n```diff\n");
        assert(FENCE_OPEN@.len() == 9 && FENCE_OPEN@[0] == '\n');
        assert(render(ps) == r0 + FENCE_OPEN@);
        assert(render(ps)[r0.len() as int] == '\n');
    } else {
        lemma_open_breaks_line(ps0);
        let i = choose|i: int| 0 <= i < r0.len() - 1 && r0[i] == '\n';
        assert(render(ps)[i] == r0[i]);
    }
}

/// A diff with an added or removed line whose formatted form is longer than
/// the threshold goes the chunked way, and when the threshold is at least the
/// chunk bound it is split into at least two chunks.
pub proof fn long_changed_diff_splits(raw: Seq<char>, threshold: nat, chunk_size: nat)
    requires
        has_changed_line(raw),
        formatted(raw).len() > threshold,
        threshold >= chunk_size,
    ensures
        chunks_of(formatted(raw), chunk_size).len() >= 2,
{
    lemma_changed_diff_opens_block(raw);
    lemma_open_breaks_line(formatted_pieces(raw));
    long_text_splits(formatted(raw), chunk_size);
}

} // verus!
