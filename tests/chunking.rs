use commit_analyzer::chunk::split_diff_into_chunks;

#[test]
fn splits_at_the_bound() {
    let cs = split_diff_into_chunks("aaaa\nbbbb\ncccc\n", 10);
    assert_eq!(cs.len(), 2);
    assert_eq!(cs[0].content, "aaaa\nbbbb\n");
    assert_eq!(cs[0].size, 10);
    assert_eq!(cs[1].content, "cccc\n");
    assert_eq!(cs[1].size, 5);
}

#[test]
fn long_line_stands_alone() {
    let cs = split_diff_into_chunks("xxxxxxxxxxxx\nab\n", 5);
    assert_eq!(cs.len(), 2);
    assert_eq!(cs[0].content, "xxxxxxxxxxxx\n");
    assert_eq!(cs[0].size, 13);
    assert_eq!(cs[1].content, "ab\n");
}

#[test]
fn chunks_reassemble_and_keep_bound() {
    let text = "### File: `a.rs`\n\n```diff\n+one\n-two\n three\n```\n\n### File: `b.rs`\n\n```diff\n+four\n```\n\n";
    for bound in [1usize, 5, 12, 20, 1000] {
        let cs = split_diff_into_chunks(text, bound);
        let joined: String = cs.iter().map(|c| c.content.as_str()).collect();
        assert_eq!(joined, text);
        for c in &cs {
            assert_eq!(c.size, c.content.chars().count());
            let one_line = c.content.trim_end_matches('\n').lines().count() <= 1;
            assert!(c.size <= bound || one_line);
        }
    }
}

#[test]
fn keeps_text_without_final_newline() {
    let cs = split_diff_into_chunks("abc", 10);
    assert_eq!(cs.len(), 1);
    assert_eq!(cs[0].content, "abc");
    assert_eq!(cs[0].size, 3);
}

#[test]
fn empty_text_has_no_chunk() {
    assert!(split_diff_into_chunks("", 10).is_empty());
}

#[test]
fn records_files_per_chunk() {
    let text = "### File: `a.rs`\n+x\n### File: `a.rs`\n### File: `b.rs`\n+y\n";
    let cs = split_diff_into_chunks(text, 1000);
    assert_eq!(cs.len(), 1);
    assert_eq!(cs[0].files, vec!["a.rs".to_string(), "b.rs".to_string()]);
    let cs = split_diff_into_chunks("### File: `a.rs`\n+xxxxxxxx\n+yyyyyyyy\n", 20);
    assert_eq!(cs.len(), 2);
    assert_eq!(cs[0].files, vec!["a.rs".to_string()]);
    assert!(cs[1].files.is_empty());
}

#[test]
fn counts_characters_not_bytes() {
    let cs = split_diff_into_chunks("ééé\nààà\n", 4);
    assert_eq!(cs.len(), 2);
    assert_eq!(cs[0].size, 4);
}
