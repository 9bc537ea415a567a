use claude_sync_watch::backup::{
    backup_base_dir, backup_path, dirs_are_identical, marker_path, marker_points_to,
};
use claude_sync_watch::detect::ListedFile;
use claude_sync_watch::state::FileState;

fn listed(path: &str, hash: &str) -> ListedFile {
    ListedFile {
        rel_path: path.to_string(),
        state: Some(FileState { sha256: hash.to_string(), mtime: 1, size: 1 }),
    }
}

fn unreadable(path: &str) -> ListedFile {
    ListedFile { rel_path: path.to_string(), state: None }
}

#[test]
fn backup_goes_below_home_or_tmp() {
    assert_eq!(backup_base_dir(Some("/home/u")), "/home/u");
    assert_eq!(backup_base_dir(None), "/tmp");
    assert_eq!(backup_path(Some("/home/u"), "20240102_030405"), "/home/u/.claude_backup.20240102_030405");
    assert_eq!(backup_path(None, "x"), "/tmp/.claude_backup.x");
    assert_eq!(marker_path(Some("/home/u")), "/home/u/.claude_sync_last_backup");
    assert_eq!(marker_path(None), "/tmp/.claude_sync_last_backup");
}

#[test]
fn identical_trees_are_recognised_in_any_order() {
    let a = vec![listed("x", "1"), listed("d/y", "2")];
    let b = vec![listed("d/y", "2"), listed("x", "1")];
    assert!(dirs_are_identical(Some(&a), Some(&b)));
    assert!(dirs_are_identical(Some(&a), Some(&a)));
    let empty = Vec::new();
    assert!(dirs_are_identical(Some(&empty), Some(&empty)));
}

#[test]
fn different_trees_are_told_apart() {
    let a = vec![listed("x", "1"), listed("d/y", "2")];
    let changed = vec![listed("x", "1"), listed("d/y", "3")];
    let renamed = vec![listed("x", "1"), listed("d/z", "2")];
    let fewer = vec![listed("x", "1")];
    assert!(!dirs_are_identical(Some(&a), Some(&changed)));
    assert!(!dirs_are_identical(Some(&a), Some(&renamed)));
    assert!(!dirs_are_identical(Some(&a), Some(&fewer)));
    assert!(!dirs_are_identical(Some(&fewer), Some(&a)));
}

#[test]
fn missing_or_unreadable_is_never_identical() {
    let a = vec![listed("x", "1")];
    assert!(!dirs_are_identical(None, Some(&a)));
    assert!(!dirs_are_identical(Some(&a), None));
    assert!(!dirs_are_identical(None, None));
    let broken = vec![unreadable("x")];
    assert!(!dirs_are_identical(Some(&broken), Some(&broken)));
    assert!(!dirs_are_identical(Some(&a), Some(&broken)));
    assert!(!dirs_are_identical(Some(&broken), Some(&a)));
}

#[test]
fn marker_points_to_its_backup_whatever_space_surrounds_it() {
    assert!(marker_points_to("/h/.claude_backup.1", "/h/.claude_backup.1"));
    assert!(marker_points_to("  /h/.claude_backup.1\n", "/h/.claude_backup.1"));
    assert!(marker_points_to("\u{a0}/h/b\u{2003}\r\n", "/h/b"));
    assert!(!marker_points_to("/h/.claude_backup.2", "/h/.claude_backup.1"));
    assert!(!marker_points_to("/h/.claude_backup.1x", "/h/.claude_backup.1"));
    assert!(!marker_points_to("/h/ b", "/h/b"));
    assert!(marker_points_to("   ", ""));
    assert!(!marker_points_to("", "/h/b"));
}
