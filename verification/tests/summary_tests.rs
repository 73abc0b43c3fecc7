use kerblam::filesystem_state::ChangeType;
use kerblam::filesystem_state::FileInfo;
use kerblam::filesystem_state::FilesystemState;
use kerblam::summary::build_tree_string;
use kerblam::summary::generate_tree_summary;
use kerblam::summary::sorted_unique;

fn info(path: &str, size: u64, modified: u64, accessed: u64) -> FileInfo {
    FileInfo { path: path.to_string(), size, modified, accessed, is_dir: false }
}

#[test]
fn no_diffs_no_changes() {
    assert_eq!(
        generate_tree_summary(&Vec::new(), "/proj"),
        "No changes detected.".to_string()
    );
}

#[test]
fn summary_draws_the_changed_tree() {
    let before = FilesystemState::new(
        "/proj/data".to_string(),
        1,
        vec![info("/proj/data/out/a.txt", 1, 1, 1)],
    );
    let after = FilesystemState::new(
        "/proj/data".to_string(),
        2,
        vec![
            info("/proj/data/out/a.txt", 2, 2, 2),
            info("/proj/data/out/b.txt", 1, 2, 2),
        ],
    );
    let diffs = vec![before.diff(&after)];
    let text = generate_tree_summary(&diffs, "/proj");
    assert!(text.starts_with("File System Changes:\n"));
    // The two changed files appear under their directories, each with its
    // marker; the directories above them are listed too.
    assert!(text.contains("data\n"));
    assert!(text.contains("out\n"));
    assert!(text.contains("\u{1f4dd} a.txt"));
    assert!(text.contains("\u{2728} b.txt"));
    // Parents precede children.
    let data_at = text.find("data\n").unwrap();
    let a_at = text.find("a.txt").unwrap();
    assert!(data_at < a_at);
}

#[test]
fn sorted_unique_orders_and_dedups() {
    let input = vec![
        "b".to_string(),
        "a/x".to_string(),
        "a".to_string(),
        "b".to_string(),
    ];
    let r = sorted_unique(&input);
    assert_eq!(r, vec!["a".to_string(), "a/x".to_string(), "b".to_string()]);
}

#[test]
fn tree_lines_are_indented_by_level() {
    let records = vec![("data/out/a.txt".to_string(), ChangeType::Deleted, 5u64)];
    let sorted = vec![
        "data".to_string(),
        "data/out".to_string(),
        "data/out/a.txt".to_string(),
    ];
    let body = build_tree_string(&sorted, &records);
    assert_eq!(
        body,
        format!("data\n    out\n        {} a.txt\n", "\u{1f5d1}\u{fe0f}")
    );
}
