use commit_analyzer::commit::{commit_info_from_output, parse_git_stats};
use commit_analyzer::config::Config;

const STATS: &str = " src/a.rs | 4 ++--\n b.rs     | 1 +\n 2 files changed, 3 insertions(+), 2 deletions(-)\n";

#[test]
fn reads_files_and_counts() {
    let (files, ins, del) = parse_git_stats(STATS);
    assert_eq!(files, vec!["src/a.rs".to_string(), "b.rs".to_string()]);
    assert_eq!(ins, 3);
    assert_eq!(del, 2);
}

#[test]
fn singular_counts_and_missing_ones() {
    let (files, ins, del) = parse_git_stats(" x | 1 +\n 1 file changed, 1 insertion(+)\n");
    assert_eq!(files, vec!["x".to_string()]);
    assert_eq!(ins, 1);
    assert_eq!(del, 0);
    let (_, ins, del) = parse_git_stats(" 1 file changed, 7 deletions(-)");
    assert_eq!(ins, 0);
    assert_eq!(del, 7);
}

#[test]
fn count_too_large_reads_as_zero() {
    let (_, ins, _) = parse_git_stats(" 1 file changed, 99999999999 insertions(+)\n");
    assert_eq!(ins, 0);
}

#[test]
fn empty_stats() {
    let (files, ins, del) = parse_git_stats("");
    assert!(files.is_empty());
    assert_eq!((ins, del), (0, 0));
}

#[test]
fn commit_info_from_tool_output() {
    let info = commit_info_from_output(
        "0123456789abcdef0123",
        "Fix bug\nAlice\n2024-01-02 03:04\nbody text",
        STATS,
    );
    assert_eq!(info.hash, "0123456789abcdef0123");
    assert_eq!(info.short_hash, "0123456789ab");
    assert_eq!(info.message, "Fix bug");
    assert_eq!(info.author, "Alice");
    assert_eq!(info.date, "2024-01-02 03:04");
    assert_eq!(info.files_changed.len(), 2);
    assert_eq!((info.insertions, info.deletions), (3, 2));
}

#[test]
fn commit_info_with_missing_lines() {
    let info = commit_info_from_output("abc", "Only subject", "");
    assert_eq!(info.short_hash, "abc");
    assert_eq!(info.message, "Only subject");
    assert_eq!(info.author, "");
    assert_eq!(info.date, "");
}

#[test]
fn default_settings() {
    let c = Config::with_defaults("/repo");
    assert_eq!(c.repo_path, "/repo");
    assert_eq!(c.model, "deepseek-r1:8b");
    assert_eq!(c.endpoint_url, "http://localhost:11434/api/generate");
    assert_eq!((c.size_threshold, c.chunk_size, c.max_attempts), (8000, 6000, 3));
    assert_eq!((c.retry_delay_ms, c.timeout_secs), (1000, 600));
}
