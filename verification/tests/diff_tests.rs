use kerblam::filesystem_state::ChangeType;
use kerblam::filesystem_state::FileInfo;
use kerblam::filesystem_state::FilesystemState;
use kerblam::filesystem_state::compare_filesystem_states;

fn info(path: &str, size: u64, modified: u64, accessed: u64) -> FileInfo {
    FileInfo { path: path.to_string(), size, modified, accessed, is_dir: false }
}

fn state(time: u64, entries: Vec<FileInfo>) -> FilesystemState {
    FilesystemState::new("/proj/data".to_string(), time, entries)
}

#[test]
fn diff_of_a_snapshot_with_itself_is_empty() {
    let s = state(
        10,
        vec![info("/proj/data/a", 3, 5, 6), info("/proj/data/b", 7, 8, 9)],
    );
    let d = s.diff(&s);
    assert_eq!(d.changes.len(), 0);
    assert_eq!(d.from_time, 10);
    assert_eq!(d.to_time, 10);
}

#[test]
fn diff_classifies_created_and_deleted() {
    let before = state(1, vec![info("/proj/data/a", 3, 5, 6)]);
    let after = state(2, vec![info("/proj/data/b", 7, 8, 9)]);
    let d = compare_filesystem_states(&before, &after);
    assert_eq!(d.changes.len(), 2);
    let deleted = d.changes.iter().find(|c| c.path == "/proj/data/a").unwrap();
    assert_eq!(deleted.change_type, ChangeType::Deleted);
    assert!(deleted.old_info.is_some());
    assert!(deleted.new_info.is_none());
    let created = d.changes.iter().find(|c| c.path == "/proj/data/b").unwrap();
    assert_eq!(created.change_type, ChangeType::Created);
    assert!(created.old_info.is_none());
    assert!(created.new_info.is_some());
}

#[test]
fn diff_modified_takes_precedence_over_accessed() {
    let before = state(1, vec![info("/proj/data/a", 3, 5, 6)]);
    // Size, mtime and atime all changed: one Modified change, not two.
    let after = state(2, vec![info("/proj/data/a", 4, 7, 9)]);
    let d = before.diff(&after);
    assert_eq!(d.changes.len(), 1);
    assert_eq!(d.changes[0].change_type, ChangeType::Modified);
}

#[test]
fn diff_reports_pure_access() {
    let before = state(1, vec![info("/proj/data/a", 3, 5, 6)]);
    let after = state(2, vec![info("/proj/data/a", 3, 5, 42)]);
    let d = before.diff(&after);
    assert_eq!(d.changes.len(), 1);
    assert_eq!(d.changes[0].change_type, ChangeType::Accessed);
    assert_eq!(d.changes[0].path, "/proj/data/a".to_string());
}

#[test]
fn diff_mtime_change_alone_is_modified() {
    let before = state(1, vec![info("/proj/data/a", 3, 5, 6)]);
    let after = state(2, vec![info("/proj/data/a", 3, 50, 6)]);
    let d = before.diff(&after);
    assert_eq!(d.changes.len(), 1);
    assert_eq!(d.changes[0].change_type, ChangeType::Modified);
}

#[test]
fn snapshot_drops_later_duplicate_paths() {
    let s = state(
        1,
        vec![info("/proj/data/a", 3, 5, 6), info("/proj/data/a", 99, 99, 99)],
    );
    assert_eq!(s.len(), 1);
    let kept = s.lookup(&"/proj/data/a".to_string()).unwrap();
    assert_eq!(kept.size, 3);
}

#[test]
fn lookup_misses_unknown_paths() {
    let s = state(1, vec![info("/proj/data/a", 3, 5, 6)]);
    assert!(s.lookup(&"/proj/data/zzz".to_string()).is_none());
}
