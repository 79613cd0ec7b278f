use commit_analyzer::commit::commit_info_from_output;
use commit_analyzer::report::{
    generate_filename, generate_final_document, render_report, report_file_name_at, Timestamp,
};

fn at() -> Timestamp {
    Timestamp { year: 2024, month: 1, day: 2, hour: 3, minute: 4, second: 5 }
}

#[test]
fn renders_the_report() {
    let info = commit_info_from_output(
        "0123456789abcdef",
        "Fix bug\nAlice\n2024-01-02 03:04",
        " a | 1 +\n 1 file changed, 1 insertion(+)\n",
    );
    let r = render_report(&info, "Looks fine.", "DIFF", &at());
    assert_eq!(
        r,
        "# Commit analysis: Fix bug\n\n## Commit information\n\n**Full hash:** `0123456789abcdef`  \n**Short hash:** `0123456789ab`  \n**Author:** Alice  \n**Commit date:** 2024-01-02 03:04  \n**Files changed:** 1  \n**Lines added:** 1  \n**Lines removed:** 0  \n\n---\n\n## Technical analysis\n\nLooks fine.\n\n---\n\n## Change details\n\nDIFF\n\n---\n\n*Report generated on: 2024-01-02 03:04:05*"
    );
}

#[test]
fn untitled_report_and_live_stamp() {
    let info = commit_info_from_output("h", "", "");
    let r = render_report(&info, "a", "d", &at());
    assert!(r.starts_with("# Commit analysis: Untitled\n"));
    let live = generate_final_document(&info, "a", "d");
    assert!(live.starts_with("# Commit analysis: Untitled\n"));
    assert!(live.ends_with('*'));
    assert_eq!(live.len(), r.len());
}

#[test]
fn file_names() {
    assert_eq!(report_file_name_at("Fix: the bug!", &at()), "commit_20240102_030405_Fix__the_bug.md");
    assert_eq!(report_file_name_at("", &at()), "commit_20240102_030405_commit.md");
    assert_eq!(report_file_name_at("!!!", &at()), "commit_20240102_030405_untitled.md");
    assert_eq!(
        report_file_name_at("a very long subject line that goes on and on and on", &at()),
        "commit_20240102_030405_a_very_long_subject_line_that_goes_on_an.md"
    );
    let early = Timestamp { year: -5, month: 12, day: 31, hour: 23, minute: 59, second: 58 };
    assert_eq!(report_file_name_at("x\ny", &early), "commit_-00051231_235958_x.md");
    let late = Timestamp { year: 12345, month: 6, day: 7, hour: 8, minute: 9, second: 10 };
    assert_eq!(report_file_name_at("x", &late), "commit_+123450607_080910_x.md");
}

#[test]
fn live_file_name_has_stamp() {
    let n = generate_filename("Add feature");
    assert!(n.starts_with("commit_"));
    assert!(n.ends_with("_Add_feature.md"));
    assert_eq!(n.len(), "commit_20240102_030405_Add_feature.md".len());
}
