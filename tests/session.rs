use commit_analyzer::analysis::{Analysis, AnalysisError, Stage, Step};
use commit_analyzer::prompt::{
    build_analysis_prompt, build_chunk_analysis_prompt, build_failure_note, build_summary_prompt,
};
use commit_analyzer::reply::{decide_attempt, ErrorKind, GenerationError, RetryDecision};

/// A raw reply as the generation step hands it on: accepted and cleaned.
fn reply(raw: &str) -> Result<String, GenerationError> {
    match decide_attempt(1, 1, Ok(raw.to_string())) {
        RetryDecision::Accept(t) => Ok(t),
        _ => panic!("expected the reply to be accepted"),
    }
}

fn fail(detail: &str) -> Result<String, GenerationError> {
    Err(GenerationError { kind: ErrorKind::Transport, detail: detail.to_string() })
}

fn prompt_of(s: Step) -> String {
    match s {
        Step::Generate(p) => p,
        Step::Finished(_) => panic!("expected a request"),
    }
}

const THREE: &str = "aaaa\nbbbb\ncccc\n";

#[test]
fn diff_at_threshold_is_analysed_whole() {
    let diff = "aaaa\nbbbb\n";
    let (a, step) = Analysis::start("msg", diff, 10, 6);
    assert_eq!(a.stage, Stage::Whole);
    assert_eq!(prompt_of(step), build_analysis_prompt("msg", diff));
}

#[test]
fn diff_over_threshold_is_chunked() {
    let diff = "aaaa\nbbbbb\n";
    let (a, step) = Analysis::start("msg", diff, 10, 6);
    assert_eq!(a.stage, Stage::Chunk(0));
    assert_eq!(a.chunks.len(), 2);
    assert_eq!(prompt_of(step), build_chunk_analysis_prompt("msg", "aaaa\n", 1, 2));
}

#[test]
fn whole_diff_reply_is_cleaned() {
    let (mut a, _) = Analysis::start("msg", "+x\n", 100, 50);
    match a.advance(reply("<think>hm</think> Result")) {
        Step::Finished(Ok(t)) => assert_eq!(t, "Result"),
        _ => panic!("expected a result"),
    }
    assert_eq!(a.stage, Stage::Done);
}

#[test]
fn whole_diff_failure_is_fatal() {
    let (mut a, _) = Analysis::start("msg", "+x\n", 100, 50);
    match a.advance(fail("down")) {
        Step::Finished(Err(AnalysisError::Generation(e))) => assert_eq!(e.detail, "down"),
        _ => panic!("expected a failure"),
    }
}

#[test]
fn every_chunk_failing_ends_without_merging() {
    let (mut a, _) = Analysis::start("msg", THREE, 5, 5);
    assert_eq!(a.chunks.len(), 3);
    let s1 = a.advance(fail("a"));
    assert_eq!(prompt_of(s1), build_chunk_analysis_prompt("msg", "bbbb\n", 2, 3));
    let s2 = a.advance(fail("b"));
    assert_eq!(prompt_of(s2), build_chunk_analysis_prompt("msg", "cccc\n", 3, 3));
    match a.advance(fail("c")) {
        Step::Finished(Err(AnalysisError::AllChunksFailed)) => {}
        _ => panic!("expected all-chunks-failed"),
    }
    assert_eq!(a.stage, Stage::Done);
}

#[test]
fn one_failed_chunk_of_three_still_merges() {
    let (mut a, _) = Analysis::start("msg", THREE, 5, 5);
    a.advance(Ok("first".to_string()));
    a.advance(fail("refused"));
    let merge = prompt_of(a.advance(reply("<think>x</think>third")));
    let expected_list = vec![
        "first".to_string(),
        "**Error in chunk 2:** connection error: refused".to_string(),
        "third".to_string(),
    ];
    assert_eq!(merge, build_summary_prompt("msg", &expected_list));
    assert!(merge.contains("**Chunk 1:**\nfirst\n\n**Chunk 2:**\n**Error in chunk 2:** connection error: refused\n\n**Chunk 3:**\nthird"));
    assert_eq!(a.stage, Stage::Consolidate);
    match a.advance(reply(" merged ")) {
        Step::Finished(Ok(t)) => assert_eq!(t, "merged"),
        _ => panic!("expected a result"),
    }
}

#[test]
fn merge_failure_is_fatal() {
    let (mut a, _) = Analysis::start("msg", "aaaa\nbbbb\n", 5, 5);
    a.advance(Ok("one".to_string()));
    a.advance(Ok("two".to_string()));
    match a.advance(fail("gone")) {
        Step::Finished(Err(AnalysisError::Generation(e))) => assert_eq!(e.kind, ErrorKind::Transport),
        _ => panic!("expected a failure"),
    }
}

#[test]
fn prompts_embed_their_parts() {
    let p = build_analysis_prompt("Fix it", "+a\n");
    assert!(p.contains("--- COMMIT MESSAGE ---\nFix it\n\n--- CODE DIFF ---\n+a\n\n\n--- ANALYSIS ---"));
    let c = build_chunk_analysis_prompt("Fix it", "+b\n", 12, 345);
    assert!(c.contains("CHUNK: 12/345 of the commit"));
    assert!(c.ends_with("--- DIFF CHUNK ---\n+b\n\n\n--- CHUNK ANALYSIS ---"));
    let e = GenerationError { kind: ErrorKind::BadStatus, detail: "503".to_string() };
    assert_eq!(build_failure_note(7, &e), "**Error in chunk 7:** service error: 503");
    let s = build_summary_prompt("m", &vec![]);
    assert!(s.ends_with("--- CHUNK ANALYSES ---\n\n\n--- CONSOLIDATED SUMMARY ---"));
}

#[test]
fn markup_only_reply_is_an_empty_reply() {
    let (mut a, _) = Analysis::start("msg", "+x\n", 100, 50);
    match a.advance(reply("<think>")) {
        Step::Finished(Err(AnalysisError::Generation(e))) => assert_eq!(e.kind, ErrorKind::EmptyResponse),
        _ => panic!("expected an empty-reply failure"),
    }
}

#[test]
fn markup_only_chunk_reply_gets_a_note() {
    let (mut a, _) = Analysis::start("msg", "aaaa\nbbbb\n", 5, 5);
    a.advance(reply("<think>x</think>"));
    let merge = prompt_of(a.advance(Ok("two".to_string())));
    let expected = vec!["**Error in chunk 1:** empty reply".to_string(), "two".to_string()];
    assert_eq!(merge, build_summary_prompt("msg", &expected));
    let (mut b, _) = Analysis::start("msg", "aaaa\nbbbb\n", 5, 5);
    b.advance(reply("<think>"));
    match b.advance(Ok(String::new())) {
        Step::Finished(Err(AnalysisError::AllChunksFailed)) => {}
        _ => panic!("expected all-chunks-failed"),
    }
}
