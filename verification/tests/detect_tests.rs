use claude_sync_watch::detect::{
    decide_tracked_file, decide_walked_file, detect_changes, find_listed, is_recorded,
    is_visited_in_dir, make_change, scan_directory_changes, visit_entry, Change, ChangeType,
    ListedFile, Side, Visit,
};
use claude_sync_watch::state::{FileState, SyncState};

fn file(hash: &str, mtime: i64) -> FileState {
    FileState { sha256: hash.to_string(), mtime, size: 1 }
}

fn listed(path: &str, hash: &str, mtime: i64) -> ListedFile {
    ListedFile { rel_path: path.to_string(), state: Some(file(hash, mtime)) }
}

fn unreadable(path: &str) -> ListedFile {
    ListedFile { rel_path: path.to_string(), state: None }
}

fn names(list: &[&str]) -> Vec<String> {
    list.iter().map(|s| s.to_string()).collect()
}

fn detect(
    files: &[&str],
    dirs: &[&str],
    local: &Vec<ListedFile>,
    remote: &Vec<ListedFile>,
) -> Vec<Change> {
    detect_changes(
        "/l",
        "/r",
        &names(files),
        &names(dirs),
        &SyncState::default(),
        local,
        remote,
    )
}

fn summary(changes: &Vec<Change>) -> Vec<(String, ChangeType, String, String)> {
    changes
        .iter()
        .map(|c| (c.rel_path.clone(), c.change_type, c.src.clone(), c.dst.clone()))
        .collect()
}

fn row(path: &str, kind: ChangeType, src: &str, dst: &str) -> (String, ChangeType, String, String) {
    (path.to_string(), kind, src.to_string(), dst.to_string())
}

#[test]
fn newer_remote_settings_yield_one_modified_record() {
    let local = vec![listed("settings.json", "H1", 100)];
    let remote = vec![listed("settings.json", "H2", 200)];
    let changes = detect(&["settings.json"], &[], &local, &remote);
    assert_eq!(
        summary(&changes),
        vec![row(
            "settings.json",
            ChangeType::Modified,
            "/r/settings.json",
            "/l/settings.json"
        )]
    );
}

#[test]
fn file_only_in_local_skills_is_created_on_remote() {
    let local = vec![listed("skills/foo.md", "H", 100)];
    let remote = Vec::new();
    let changes = detect(&["settings.json"], &["skills", "plugins"], &local, &remote);
    assert_eq!(
        summary(&changes),
        vec![row("skills/foo.md", ChangeType::Created, "/l/skills/foo.md", "/r/skills/foo.md")]
    );
}

#[test]
fn tracked_file_on_one_side_only_is_created_on_the_other() {
    let here = vec![listed("mcp.json", "H", 1)];
    let nothing = Vec::new();
    assert_eq!(
        summary(&detect(&["mcp.json"], &[], &here, &nothing)),
        vec![row("mcp.json", ChangeType::Created, "/l/mcp.json", "/r/mcp.json")]
    );
    assert_eq!(
        summary(&detect(&["mcp.json"], &[], &nothing, &here)),
        vec![row("mcp.json", ChangeType::Created, "/r/mcp.json", "/l/mcp.json")]
    );
    assert!(detect(&["mcp.json"], &[], &nothing, &nothing).is_empty());
}

#[test]
fn equal_hashes_yield_no_record() {
    let local = vec![listed("a", "H", 100), listed("skills/x", "K", 5)];
    let remote = vec![listed("a", "H", 900), listed("skills/x", "K", 1)];
    assert!(detect(&["a"], &["skills"], &local, &remote).is_empty());
}

#[test]
fn equal_times_with_different_hashes_yield_no_record() {
    let local = vec![listed("a", "H1", 100), listed("skills/x", "K1", 7)];
    let remote = vec![listed("a", "H2", 100), listed("skills/x", "K2", 7)];
    assert!(detect(&["a"], &["skills"], &local, &remote).is_empty());
}

#[test]
fn newer_local_file_is_pushed() {
    let local = vec![listed("a", "H1", 300)];
    let remote = vec![listed("a", "H2", 200)];
    assert_eq!(
        summary(&detect(&["a"], &[], &local, &remote)),
        vec![row("a", ChangeType::Modified, "/l/a", "/r/a")]
    );
}

#[test]
fn deletions_are_never_detected() {
    let local = vec![listed("a", "H", 1), listed("skills/x", "K", 1), listed("skills/y", "L", 9)];
    let remote = vec![listed("skills/y", "M", 3), listed("plugins/p", "P", 1)];
    let changes = detect(&["a", "b"], &["skills", "plugins"], &local, &remote);
    assert_eq!(changes.len(), 4);
    assert!(changes.iter().all(|c| c.change_type != ChangeType::Deleted));
}

#[test]
fn records_come_in_order_files_first_then_directories() {
    let local = vec![
        listed("plugins/p1", "A", 1),
        listed("skills/s1", "B", 1),
        listed("b.json", "C", 1),
        listed("skills/s2", "D", 1),
    ];
    let remote = vec![
        listed("skills/r1", "E", 1),
        listed("a.json", "F", 1),
        listed("plugins/p2", "G", 1),
    ];
    let changes = detect(&["a.json", "b.json"], &["skills", "plugins"], &local, &remote);
    let paths: Vec<&str> = changes.iter().map(|c| c.rel_path.as_str()).collect();
    assert_eq!(
        paths,
        vec![
            "a.json",
            "b.json",
            "skills/s1",
            "skills/s2",
            "skills/r1",
            "plugins/p1",
            "plugins/p2"
        ]
    );
    assert_eq!(changes[0].src, "/r/a.json");
    assert_eq!(changes[1].src, "/l/b.json");
    assert_eq!(changes[4].src, "/r/skills/r1");
    assert_eq!(changes[4].dst, "/l/skills/r1");
}

#[test]
fn hidden_entries_are_skipped_by_the_walk() {
    let local = vec![
        listed("skills/.hidden", "A", 1),
        listed("skills/.git/config", "B", 1),
        listed("skills/sub/.x", "C", 1),
        listed("skills/sub/ok.md", "D", 1),
        listed("skills/a.b", "E", 1),
    ];
    let remote = Vec::new();
    let changes = detect(&[], &["skills"], &local, &remote);
    let paths: Vec<&str> = changes.iter().map(|c| c.rel_path.as_str()).collect();
    assert_eq!(paths, vec!["skills/sub/ok.md", "skills/a.b"]);
}

#[test]
fn only_files_below_a_tracked_directory_are_walked() {
    let local = vec![
        listed("skillset/x", "A", 1),
        listed("other/x", "B", 1),
        listed("skills", "C", 1),
        listed("skills/", "D", 1),
        listed("untracked.txt", "E", 1),
    ];
    assert!(detect(&["settings.json"], &["skills"], &local, &Vec::new()).is_empty());
}

#[test]
fn walked_file_is_modified_only_when_strictly_newer() {
    let local = vec![listed("skills/a", "L", 5), listed("skills/b", "L", 9)];
    let remote = vec![listed("skills/a", "R", 9), listed("skills/b", "R", 5)];
    let changes = detect(&[], &["skills"], &local, &remote);
    assert_eq!(
        summary(&changes),
        vec![
            row("skills/b", ChangeType::Modified, "/l/skills/b", "/r/skills/b"),
            row("skills/a", ChangeType::Modified, "/r/skills/a", "/l/skills/a"),
        ]
    );
}

#[test]
fn a_path_recorded_once_is_not_recorded_again() {
    // The same name is tracked as a file and lies in a tracked directory.
    let local = vec![listed("skills/a", "L", 9)];
    let remote = Vec::new();
    let changes = detect(&["skills/a"], &["skills"], &local, &remote);
    assert_eq!(changes.len(), 1);
    assert_eq!(changes[0].change_type, ChangeType::Created);
}

#[test]
fn unreadable_files_count_as_absent() {
    let local = vec![unreadable("skills/a"), listed("skills/b", "L", 1)];
    let remote = vec![unreadable("skills/b")];
    let changes = detect(&[], &["skills"], &local, &remote);
    assert_eq!(
        summary(&changes),
        vec![row("skills/b", ChangeType::Created, "/l/skills/b", "/r/skills/b")]
    );
}

#[test]
fn detection_is_empty_once_the_trees_agree() {
    let tree = vec![listed("settings.json", "H2", 200), listed("skills/foo.md", "K", 5)];
    let copy = vec![listed("skills/foo.md", "K", 77), listed("settings.json", "H2", 300)];
    assert!(detect(&["settings.json", "mcp.json"], &["skills", "plugins"], &tree, &copy).is_empty());
}

#[test]
fn find_listed_takes_the_first_entry() {
    let listing = vec![listed("a", "first", 1), listed("a", "second", 2), unreadable("b")];
    assert_eq!(find_listed(&listing, &"a".to_string()).unwrap().sha256, "first");
    assert!(find_listed(&listing, &"b".to_string()).is_none());
    assert!(find_listed(&listing, &"c".to_string()).is_none());
}

#[test]
fn is_recorded_goes_by_relative_path() {
    let changes =
        vec![make_change(&"a".to_string(), ChangeType::Created, Side::Local, "/l", "/r")];
    assert!(is_recorded(&changes, &"a".to_string()));
    assert!(!is_recorded(&changes, &"/l/a".to_string()));
}

#[test]
fn visited_in_dir_examples() {
    assert!(is_visited_in_dir("skills/foo.md", "skills"));
    assert!(is_visited_in_dir("skills/a/b/c", "skills"));
    assert!(is_visited_in_dir(".dots/a", ".dots"));
    assert!(!is_visited_in_dir("skills/.foo", "skills"));
    assert!(!is_visited_in_dir("skills/", "skills"));
    assert!(!is_visited_in_dir("skills", "skills"));
    assert!(!is_visited_in_dir("skillsx/a", "skills"));
}

#[test]
fn make_change_points_from_source_to_the_other_side() {
    let push = make_change(&"d/f".to_string(), ChangeType::Modified, Side::Local, "/l", "/r/");
    assert_eq!(push.rel_path, "d/f");
    assert_eq!(push.change_type, ChangeType::Modified);
    assert_eq!(push.src, "/l/d/f");
    assert_eq!(push.dst, "/r/d/f");
    let pull = make_change(&"d/f".to_string(), ChangeType::Created, Side::Remote, "/l", "/r/");
    assert_eq!(pull.src, "/r/d/f");
    assert_eq!(pull.dst, "/l/d/f");
}

#[test]
fn decisions_for_single_files() {
    let old = file("A", 1);
    let new = file("B", 2);
    assert_eq!(
        decide_tracked_file(Some(&old), Some(&new)),
        Some((ChangeType::Modified, Side::Remote))
    );
    assert_eq!(
        decide_tracked_file(Some(&new), Some(&old)),
        Some((ChangeType::Modified, Side::Local))
    );
    assert_eq!(decide_tracked_file(Some(&old), None), Some((ChangeType::Created, Side::Local)));
    assert_eq!(decide_tracked_file(None, Some(&old)), Some((ChangeType::Created, Side::Remote)));
    assert_eq!(decide_tracked_file(None, None), None);
    assert_eq!(decide_tracked_file(Some(&old), Some(&file("A", 9))), None);
    assert_eq!(decide_walked_file(Some(&new), Some(&old)), Some(ChangeType::Modified));
    assert_eq!(decide_walked_file(Some(&old), Some(&new)), None);
    assert_eq!(decide_walked_file(Some(&old), None), Some(ChangeType::Created));
    assert_eq!(decide_walked_file(None, Some(&old)), None);
    assert_eq!(decide_walked_file(None, None), None);
}

#[test]
fn scan_directory_changes_appends_to_what_is_there() {
    let entries = vec![listed("skills/a", "A", 1), listed("skills/b", "B", 1)];
    let other = Vec::new();
    let mut changes =
        vec![make_change(&"skills/a".to_string(), ChangeType::Created, Side::Remote, "/l", "/r")];
    scan_directory_changes(
        &entries,
        &other,
        "skills",
        &SyncState::default(),
        &mut changes,
        Side::Local,
        "/l",
        "/r",
    );
    assert_eq!(changes.len(), 2);
    assert_eq!(changes[0].src, "/r/skills/a");
    assert_eq!(changes[1].rel_path, "skills/b");
    assert_eq!(changes[1].src, "/l/skills/b");
}

#[test]
fn walk_of_detection_skips_hidden_entries_and_takes_regular_files() {
    assert_eq!(visit_entry(".git", true, false, true), Visit::Skip);
    assert_eq!(visit_entry(".hidden", false, true, true), Visit::Skip);
    assert_eq!(visit_entry("sub", true, false, true), Visit::Descend);
    assert_eq!(visit_entry("a.md", false, true, true), Visit::Take);
    assert_eq!(visit_entry("socket", false, false, true), Visit::Skip);
}

#[test]
fn walk_of_a_whole_tree_takes_whatever_is_no_directory() {
    assert_eq!(visit_entry(".git", true, false, false), Visit::Descend);
    assert_eq!(visit_entry(".hidden", false, true, false), Visit::Take);
    assert_eq!(visit_entry("dangling", false, false, false), Visit::Take);
    assert_eq!(visit_entry("sub", true, false, false), Visit::Descend);
}
