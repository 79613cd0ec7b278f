use commit_analyzer::commit::{plan_commit, CommitPlan};
use commit_analyzer::diff::{classify_line, format_diff_as_markdown, has_code_changes, LineKind};

const SAMPLE: &str = "diff --git a/src/a.rs b/src/a.rs\nindex 1..2 100644\n--- a/src/a.rs\n+++ b/src/a.rs\n@@ -1,2 +1,2 @@ fn main\n-old\n+new\n context\n";

#[test]
fn formats_one_file_with_two_blocks() {
    let out = format_diff_as_markdown(SAMPLE);
    assert_eq!(
        out,
        "### File: `src/a.rs`\n\n```diff\n--- a/src/a.rs\n+++ b/src/a.rs\n```\n\n\n```diff\n-old\n+new\n context\n```\n\n"
    );
}

#[test]
fn same_file_again_gets_no_new_heading() {
    let raw = "diff --git a/x b/x\n+1\ndiff --git a/x b/x\n+2\n";
    let out = format_diff_as_markdown(raw);
    assert_eq!(out, "### File: `x`\n\n```diff\n+1\n```\n\n\n```diff\n+2\n```\n\n");
}

#[test]
fn file_seen_again_after_another_gets_heading() {
    let raw = "diff --git a/x b/x\n+1\ndiff --git a/y b/y\n+2\ndiff --git a/x b/x\n+3\n";
    let out = format_diff_as_markdown(raw);
    assert_eq!(out.matches("### File: `x`").count(), 2);
    assert_eq!(out.matches("### File: `y`").count(), 1);
}

#[test]
fn fences_balance_on_sample_and_odd_inputs() {
    for raw in [SAMPLE, "", "+a", "@@ -1 +1 @@\n+a\n@@ -2 +2 @@\n", "junk\r\n+x\r\n-y"] {
        let out = format_diff_as_markdown(raw);
        let marks: Vec<bool> = out
            .lines()
            .filter(|l| *l == "```diff" || *l == "```")
            .map(|l| l == "```diff")
            .collect();
        assert_eq!(marks.len() % 2, 0);
        for (i, m) in marks.iter().enumerate() {
            assert_eq!(*m, i % 2 == 0);
        }
    }
}

#[test]
fn empty_diff_formats_to_nothing() {
    assert_eq!(format_diff_as_markdown(""), "");
}

#[test]
fn header_path_is_before_last_separator() {
    match classify_line("diff --git a/dir b/name b/dir b/name") {
        LineKind::FileHeader(p) => assert_eq!(p, "dir b/name b/dir"),
        _ => panic!("not a file header"),
    }
}

#[test]
fn classifies_lines() {
    assert!(matches!(classify_line("@@ -1,3 +1,4 @@ impl Foo"), LineKind::HunkHeader));
    assert!(matches!(classify_line("+added"), LineKind::Content));
    assert!(matches!(classify_line(" ctx"), LineKind::Content));
    assert!(matches!(classify_line("index abc..def"), LineKind::Other));
    assert!(matches!(classify_line("@@ broken"), LineKind::Other));
    assert!(matches!(classify_line("diff --git a/x"), LineKind::Other));
}

#[test]
fn change_detection() {
    assert!(has_code_changes(SAMPLE));
    assert!(has_code_changes("-x"));
    assert!(!has_code_changes(" context only\nindex 1..2\n"));
    assert!(!has_code_changes("a+b\nc-d\n"));
}

#[test]
fn diff_without_changes_is_skipped() {
    match plan_commit("diff --git a/x b/x\nindex 1..2\n unchanged\n") {
        CommitPlan::Skip(reason) => assert_eq!(reason, "no code changes detected"),
        CommitPlan::Analyse(_) => panic!("should be skipped"),
    }
}

#[test]
fn diff_with_changes_is_formatted() {
    match plan_commit(SAMPLE) {
        CommitPlan::Analyse(d) => assert_eq!(d, format_diff_as_markdown(SAMPLE)),
        CommitPlan::Skip(_) => panic!("should be analysed"),
    }
}
