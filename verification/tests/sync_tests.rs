use claude_sync_watch::config::{Config, ConflictStrategy, LogLevel};
use claude_sync_watch::copy::{CopyError, SafeCopy};
use claude_sync_watch::detect::{ChangeType, ListedFile};
use claude_sync_watch::state::{FileState, SyncState, Timestamp};
use claude_sync_watch::sync::{should_apply, Phase, SyncDirection, SyncEngine, SyncPass};

fn config() -> Config {
    Config {
        dropbox_base: "/box".to_string(),
        dropbox_claude_dir: "/r".to_string(),
        claude_dir: "/l".to_string(),
        debounce_nanos: 1_000_000_000,
        max_batch_nanos: 10_000_000_000,
        conflict_strategy: ConflictStrategy::Newest,
        log_level: LogLevel::Info,
        sync_files: vec!["settings.json".to_string(), "NOTES.md".to_string()],
        sync_dirs: vec!["skills".to_string()],
    }
}

fn file(hash: &str, mtime: i64) -> FileState {
    FileState { sha256: hash.to_string(), mtime, size: 4 }
}

fn listed(path: &str, hash: &str, mtime: i64) -> ListedFile {
    ListedFile { rel_path: path.to_string(), state: Some(file(hash, mtime)) }
}

fn at(secs: i64) -> Timestamp {
    Timestamp { secs, nanos: 0 }
}

/// A pass brought up to the point where the changes are applied.
fn applying(
    direction: SyncDirection,
    loaded: Result<SyncState, String>,
    local: &Vec<ListedFile>,
    remote: &Vec<ListedFile>,
) -> SyncPass {
    let engine = SyncEngine::new(config());
    let mut pass = engine.begin_pass(direction, Some("/home/u"), "20240102_030405");
    pass.backup_finished(Ok(()));
    pass.roots_created(Ok(()));
    pass.detected(loaded, "host-a".to_string(), local, remote);
    pass
}

/// Carries out one copy as a disk would that copies faithfully.
fn faithful_copy(src: &str, dst: &str, hash: &str) -> Result<Option<FileState>, CopyError> {
    let mut copy = SafeCopy::new(src.to_string(), dst.to_string());
    copy.probed(Some(Ok(4)));
    copy.json_read(Ok("{}".to_string()));
    copy.transferred(Ok(()));
    copy.hashed(Ok(hash.to_string()), Ok(hash.to_string()));
    copy.finish().map(|_| Some(file(hash, 999)))
}

/// Carries out one copy on a disk that corrupts what it writes.
fn corrupting_copy(src: &str, dst: &str, hash: &str) -> (Result<Option<FileState>, CopyError>, bool) {
    let mut copy = SafeCopy::new(src.to_string(), dst.to_string());
    copy.probed(Some(Ok(4)));
    copy.json_read(Ok("{}".to_string()));
    copy.transferred(Ok(()));
    copy.hashed(Ok(hash.to_string()), Ok("corrupt".to_string()));
    let mut deleted = false;
    if copy.stage() == claude_sync_watch::copy::CopyStage::Discard {
        deleted = true;
        copy.discarded();
    }
    (copy.finish().map(|_| None), deleted)
}

#[test]
fn engine_keeps_its_state_in_the_local_directory() {
    let engine = SyncEngine::new(config());
    assert_eq!(engine.state_path(), "/l/.sync_state.json");
    assert_eq!(engine.config().claude_dir, "/l");
    assert_eq!(engine.config().sync_dirs, vec!["skills".to_string()]);
}

#[test]
fn pass_begins_with_the_backup() {
    let engine = SyncEngine::new(config());
    let pass = engine.begin_pass(SyncDirection::Push, Some("/home/u"), "20240102_030405");
    assert_eq!(pass.phase(), Phase::BackingUp);
    assert_eq!(pass.direction(), SyncDirection::Push);
    assert_eq!(pass.backup_path(), "/home/u/.claude_backup.20240102_030405");
    assert_eq!(pass.marker_path(), "/home/u/.claude_sync_last_backup");
    assert_eq!(pass.copied(), 0);
    assert_eq!(pass.skipped(), 0);
    assert!(pass.warnings().is_empty());
    assert!(pass.changes().is_empty());
    assert!(pass.failure().is_none());
    let job = pass.backup_job(true).unwrap();
    assert_eq!(job.source, "/l");
    assert_eq!(job.target, "/home/u/.claude_backup.20240102_030405");
    assert_eq!(job.marker, "/home/u/.claude_sync_last_backup");
    assert!(pass.backup_job(false).is_none());
}

#[test]
fn pass_without_home_backs_up_below_tmp() {
    let engine = SyncEngine::new(config());
    let pass = engine.begin_pass(SyncDirection::Pull, None, "s");
    assert_eq!(pass.backup_path(), "/tmp/.claude_backup.s");
    assert_eq!(pass.marker_path(), "/tmp/.claude_sync_last_backup");
}

#[test]
fn sync_begins_a_pass_named_after_the_current_time() {
    let engine = SyncEngine::new(config());
    let pass = engine.sync(SyncDirection::Bidirectional);
    assert_eq!(pass.phase(), Phase::BackingUp);
    assert_eq!(pass.direction(), SyncDirection::Bidirectional);
    let path = pass.backup_path().clone();
    let stamp = path.rsplit(".claude_backup.").next().unwrap();
    assert_eq!(stamp.len(), 15);
    assert_eq!(stamp.as_bytes()[8], b'_');
    assert!(path.contains("/.claude_backup."));
}

#[test]
fn failed_backup_ends_the_pass_before_any_change() {
    let engine = SyncEngine::new(config());
    let mut pass = engine.begin_pass(SyncDirection::Bidirectional, Some("/h"), "s");
    pass.backup_finished(Err("no space".to_string()));
    assert_eq!(pass.phase(), Phase::Idle);
    assert_eq!(pass.failure().as_deref(), Some("no space"));
    let local = vec![listed("settings.json", "H1", 1)];
    pass.detected(SyncState::load(None), "m".to_string(), &local, &Vec::new());
    assert!(pass.changes().is_empty());
    assert!(pass.next_copy().is_none());
    assert_eq!(pass.finish(false).unwrap_err(), "no space");
}

#[test]
fn nothing_is_detected_before_the_backup_is_made() {
    let engine = SyncEngine::new(config());
    let mut pass = engine.begin_pass(SyncDirection::Bidirectional, Some("/h"), "s");
    let local = vec![listed("settings.json", "H1", 1)];
    pass.detected(SyncState::load(None), "m".to_string(), &local, &Vec::new());
    assert_eq!(pass.phase(), Phase::BackingUp);
    assert!(pass.changes().is_empty());
    assert!(pass.next_copy().is_none());
}

#[test]
fn failed_directory_creation_ends_the_pass() {
    let engine = SyncEngine::new(config());
    let mut pass = engine.begin_pass(SyncDirection::Bidirectional, Some("/h"), "s");
    pass.backup_finished(Ok(()));
    assert_eq!(pass.phase(), Phase::Detecting);
    pass.roots_created(Err("read-only".to_string()));
    assert_eq!(pass.phase(), Phase::Idle);
    assert_eq!(pass.finish(false).unwrap_err(), "read-only");
}

#[test]
fn failed_persisting_ends_the_pass() {
    let mut pass = applying(SyncDirection::Bidirectional, SyncState::load(None), &Vec::new(), &Vec::new());
    assert!(pass.next_copy().is_none());
    assert_eq!(pass.phase(), Phase::Persisting);
    pass.persisted(Err("cannot write".to_string()));
    assert_eq!(pass.phase(), Phase::Idle);
    assert_eq!(pass.finish(true).unwrap_err(), "cannot write");
}

#[test]
fn unfinished_pass_reports_no_result() {
    let pass = applying(SyncDirection::Bidirectional, SyncState::load(None), &Vec::new(), &Vec::new());
    assert_eq!(pass.finish(false).unwrap_err(), "Sync pass was not carried through");
}

#[test]
fn detection_takes_the_loaded_state_and_names_the_owner() {
    let mut loaded = SyncState::default();
    loaded.update_file_at("old", file("X", 1), at(50));
    let pass = applying(SyncDirection::Bidirectional, Ok(loaded), &Vec::new(), &Vec::new());
    assert_eq!(pass.phase(), Phase::Applying);
    assert_eq!(pass.state().machine_id(), "host-a");
    assert_eq!(pass.state().get("old").unwrap().sha256, "X");
    assert_eq!(pass.state().last_sync(), at(50));
    let fresh = applying(SyncDirection::Bidirectional, SyncState::load(None), &Vec::new(), &Vec::new());
    assert_eq!(fresh.state().machine_id(), "host-a");
    assert_eq!(fresh.state().len(), 0);
    assert_eq!(fresh.state().last_sync(), at(0));
}

#[test]
fn bidirectional_pass_copies_newer_remote_settings_to_local() {
    let local = vec![listed("settings.json", "H1", 100)];
    let remote = vec![listed("settings.json", "H2", 200)];
    let mut pass = applying(SyncDirection::Bidirectional, SyncState::load(None), &local, &remote);
    assert_eq!(pass.changes().len(), 1);
    let job = pass.next_copy().unwrap();
    assert_eq!(job.change_type, ChangeType::Modified);
    assert_eq!(job.src, "/r/settings.json");
    assert_eq!(job.dst, "/l/settings.json");
    pass.copy_finished_at(faithful_copy(&job.src, &job.dst, "H2"), at(1000));
    assert!(pass.next_copy().is_none());
    assert_eq!(pass.phase(), Phase::Persisting);
    assert_eq!(pass.state().get("settings.json").unwrap().sha256, "H2");
    assert_eq!(pass.state().last_sync(), at(1000));
    pass.persisted(Ok(()));
    assert_eq!(pass.phase(), Phase::CleaningUp);
    let backup = vec![listed("settings.json", "H1", 100)];
    let now_local = vec![listed("settings.json", "H2", 999)];
    assert!(!pass.backup_compared(Some(&backup), Some(&now_local)));
    let result = pass.finish(false).unwrap();
    assert_eq!(result.copied, 1);
    assert_eq!(result.skipped, 0);
    assert!(result.warnings.is_empty());
    assert_eq!(result.backup_path.as_deref(), Some("/home/u/.claude_backup.20240102_030405"));
}

#[test]
fn push_pass_creates_the_missing_skill_on_remote() {
    let local = vec![listed("skills/foo.md", "HF", 100)];
    let remote = Vec::new();
    let mut pass = applying(SyncDirection::Push, SyncState::load(None), &local, &remote);
    let job = pass.next_copy().unwrap();
    assert_eq!(job.rel_path, "skills/foo.md");
    assert_eq!(job.change_type, ChangeType::Created);
    assert_eq!(job.src, "/l/skills/foo.md");
    assert_eq!(job.dst, "/r/skills/foo.md");
    let outcome = faithful_copy(&job.src, &job.dst, "HF");
    assert_eq!(outcome.as_ref().unwrap().as_ref().unwrap().sha256, "HF");
    pass.copy_finished(outcome);
    assert!(pass.next_copy().is_none());
    assert_eq!(pass.copied(), 1);
    assert_eq!(pass.state().get("skills/foo.md").unwrap().sha256, "HF");
}

#[test]
fn pull_pass_skips_a_change_from_the_local_side() {
    let local = vec![listed("skills/foo.md", "HF", 100)];
    let mut pass = applying(SyncDirection::Pull, SyncState::load(None), &local, &Vec::new());
    assert_eq!(pass.changes().len(), 1);
    assert!(pass.next_copy().is_none());
    assert_eq!(pass.copied(), 0);
    assert_eq!(pass.skipped(), 1);
    assert_eq!(pass.phase(), Phase::Persisting);
    assert_eq!(pass.state().len(), 0);
}

#[test]
fn push_pass_skips_a_change_from_the_remote_side() {
    let local = vec![listed("settings.json", "H1", 100), listed("skills/a", "A", 5)];
    let remote = vec![listed("settings.json", "H2", 200), listed("NOTES.md", "C", 1)];
    let mut pass = applying(SyncDirection::Push, SyncState::load(None), &local, &remote);
    assert_eq!(pass.changes().len(), 3);
    let job = pass.next_copy().unwrap();
    assert_eq!(job.rel_path, "skills/a");
    assert_eq!(pass.skipped(), 2);
    let again = pass.next_copy().unwrap();
    assert_eq!(again.rel_path, "skills/a");
    assert_eq!(pass.skipped(), 2);
    pass.copy_finished_at(faithful_copy(&job.src, &job.dst, "A"), at(7));
    assert!(pass.next_copy().is_none());
    pass.persisted(Ok(()));
    pass.backup_compared(None, None);
    let result = pass.finish(false).unwrap();
    assert_eq!(result.copied, 1);
    assert_eq!(result.skipped, 2);
}

#[test]
fn should_apply_goes_by_the_source_root() {
    assert!(should_apply(SyncDirection::Push, "/l/a", "/l", "/r"));
    assert!(!should_apply(SyncDirection::Pull, "/l/a", "/l", "/r"));
    assert!(should_apply(SyncDirection::Bidirectional, "/l/a", "/l", "/r"));
    assert!(should_apply(SyncDirection::Pull, "/r/a", "/l", "/r"));
    assert!(!should_apply(SyncDirection::Push, "/r/a", "/l", "/r"));
    assert!(should_apply(SyncDirection::Bidirectional, "/elsewhere", "/l", "/r"));
    // A mirror that lies inside the local root is under both roots.
    assert!(should_apply(SyncDirection::Push, "/l/mirror/a", "/l", "/l/mirror"));
    assert!(should_apply(SyncDirection::Pull, "/l/mirror/a", "/l", "/l/mirror"));
}

#[test]
fn corrupted_copy_is_deleted_warned_about_and_leaves_the_state_alone() {
    let mut loaded = SyncState::default();
    loaded.update_file_at("settings.json", file("H0", 50), at(60));
    let local = vec![listed("settings.json", "H1", 100), listed("NOTES.md", "C", 5)];
    let remote = vec![listed("settings.json", "H2", 200)];
    let mut pass = applying(SyncDirection::Bidirectional, Ok(loaded), &local, &remote);
    let job = pass.next_copy().unwrap();
    assert_eq!(job.rel_path, "settings.json");
    let (outcome, deleted) = corrupting_copy(&job.src, &job.dst, "H2");
    assert!(deleted);
    assert!(matches!(outcome, Err(CopyError::ChecksumMismatch { .. })));
    pass.copy_finished_at(outcome, at(1000));
    assert_eq!(pass.copied(), 0);
    assert_eq!(pass.skipped(), 1);
    assert_eq!(
        pass.warnings(),
        &vec!["Failed to copy settings.json: Checksum mismatch after copy: H2 vs corrupt".to_string()]
    );
    let recorded = pass.state().get("settings.json").unwrap();
    assert_eq!(recorded.sha256, "H0");
    assert_eq!(recorded.mtime, 50);
    assert_eq!(pass.state().last_sync(), at(60));
    // The pass goes on with the remaining changes.
    let next = pass.next_copy().unwrap();
    assert_eq!(next.rel_path, "NOTES.md");
    pass.copy_finished_at(faithful_copy(&next.src, &next.dst, "C"), at(1001));
    assert!(pass.next_copy().is_none());
    pass.persisted(Ok(()));
    pass.backup_compared(None, None);
    let result = pass.finish(false).unwrap();
    assert_eq!(result.copied, 1);
    assert_eq!(result.skipped, 1);
    assert_eq!(result.warnings.len(), 1);
}

#[test]
fn copy_of_an_empty_source_is_a_warning_not_a_failure() {
    let local = vec![listed("NOTES.md", "C", 5)];
    let mut pass = applying(SyncDirection::Bidirectional, SyncState::load(None), &local, &Vec::new());
    let job = pass.next_copy().unwrap();
    let mut copy = SafeCopy::new(job.src.clone(), job.dst.clone());
    copy.probed(Some(Ok(0)));
    pass.copy_finished(copy.finish().map(|_| None));
    assert_eq!(
        pass.warnings(),
        &vec![
            "Failed to copy NOTES.md: Source file is empty (Dropbox sync in progress?): \"/l/NOTES.md\""
                .to_string()
        ]
    );
    assert_eq!(pass.skipped(), 1);
    assert!(pass.next_copy().is_none());
    assert_eq!(pass.phase(), Phase::Persisting);
}

#[test]
fn copy_whose_destination_cannot_be_read_is_counted_but_not_recorded() {
    let local = vec![listed("NOTES.md", "C", 5)];
    let mut pass = applying(SyncDirection::Bidirectional, SyncState::load(None), &local, &Vec::new());
    pass.next_copy().unwrap();
    pass.copy_finished_at(Ok(None), at(1));
    assert_eq!(pass.copied(), 1);
    assert_eq!(pass.state().len(), 0);
    assert_eq!(pass.state().last_sync(), at(0));
}

#[test]
fn copy_results_out_of_turn_are_ignored() {
    let local = vec![listed("skills/foo.md", "HF", 100)];
    let mut pull = applying(SyncDirection::Pull, SyncState::load(None), &local, &Vec::new());
    pull.copy_finished_at(Ok(Some(file("HF", 1))), at(1));
    assert_eq!(pull.copied(), 0);
    assert_eq!(pull.state().len(), 0);
    let mut done = applying(SyncDirection::Bidirectional, SyncState::load(None), &Vec::new(), &Vec::new());
    done.copy_finished_at(Ok(Some(file("HF", 1))), at(1));
    assert_eq!(done.copied(), 0);
}

#[test]
fn second_pass_copies_nothing_and_discards_its_backup() {
    // First pass: both changes are applied.
    let local = vec![listed("settings.json", "H1", 100), listed("skills/foo.md", "HF", 10)];
    let remote = vec![listed("settings.json", "H2", 200)];
    let mut first = applying(SyncDirection::Bidirectional, SyncState::load(None), &local, &remote);
    let mut copied = Vec::new();
    while let Some(job) = first.next_copy() {
        let hash = if job.rel_path == "settings.json" { "H2" } else { "HF" };
        first.copy_finished_at(faithful_copy(&job.src, &job.dst, hash), at(1000));
        copied.push(job.rel_path);
    }
    assert_eq!(copied, vec!["settings.json".to_string(), "skills/foo.md".to_string()]);
    first.persisted(Ok(()));
    let state = first.state().clone();
    // The trees as the first pass left them.
    let local = vec![listed("settings.json", "H2", 1000), listed("skills/foo.md", "HF", 10)];
    let remote = vec![listed("settings.json", "H2", 200), listed("skills/foo.md", "HF", 1000)];
    let mut second = applying(SyncDirection::Bidirectional, Ok(state), &local, &remote);
    assert!(second.changes().is_empty());
    assert!(second.next_copy().is_none());
    second.persisted(Ok(()));
    let backup = vec![listed("skills/foo.md", "HF", 10), listed("settings.json", "H2", 1000)];
    assert!(second.backup_compared(Some(&backup), Some(&local)));
    let result = second.finish(true).unwrap();
    assert_eq!(result.copied, 0);
    assert_eq!(result.skipped, 0);
    assert!(result.backup_path.is_none());
    assert!(result.warnings.is_empty());
}

#[test]
fn redundant_backup_that_could_not_be_removed_is_reported() {
    let tree = vec![listed("settings.json", "H", 1)];
    let mut pass = applying(SyncDirection::Bidirectional, SyncState::load(None), &tree, &tree);
    assert!(pass.next_copy().is_none());
    pass.persisted(Ok(()));
    assert!(pass.backup_compared(Some(&tree), Some(&tree)));
    let result = pass.finish(false).unwrap();
    assert_eq!(result.backup_path.as_deref(), Some("/home/u/.claude_backup.20240102_030405"));
}

#[test]
fn backup_is_compared_only_while_cleaning_up() {
    let tree = vec![listed("settings.json", "H", 1)];
    let mut pass = applying(SyncDirection::Bidirectional, SyncState::load(None), &tree, &tree);
    assert!(!pass.backup_compared(Some(&tree), Some(&tree)));
    assert!(pass.next_copy().is_none());
    pass.persisted(Ok(()));
    assert!(!pass.backup_compared(None, Some(&tree)));
    let result = pass.finish(true).unwrap();
    assert_eq!(result.backup_path.as_deref(), Some("/home/u/.claude_backup.20240102_030405"));
}

#[test]
fn corrupt_state_document_fails_the_pass_and_is_not_replaced() {
    let engine = SyncEngine::new(config());
    let mut pass = engine.begin_pass(SyncDirection::Bidirectional, Some("/home/u"), "s");
    pass.backup_finished(Ok(()));
    pass.roots_created(Ok(()));
    let local = vec![listed("settings.json", "H1", 100)];
    let loaded = SyncState::load(Some(Err("Failed to parse state file".to_string())));
    assert!(loaded.is_err());
    pass.detected(loaded, "host-a".to_string(), &local, &Vec::new());
    assert_eq!(pass.phase(), Phase::Idle);
    assert_eq!(pass.failure().as_deref(), Some("Failed to parse state file"));
    assert!(pass.changes().is_empty());
    assert!(pass.next_copy().is_none());
    pass.persisted(Ok(()));
    assert_eq!(pass.phase(), Phase::Idle);
    assert_eq!(pass.finish(true).unwrap_err(), "Failed to parse state file");
}

#[test]
fn absent_state_document_starts_from_the_empty_state() {
    let pass = applying(SyncDirection::Bidirectional, SyncState::load(None), &Vec::new(), &Vec::new());
    assert_eq!(pass.phase(), Phase::Applying);
    assert!(pass.failure().is_none());
    assert_eq!(pass.state().len(), 0);
}

#[test]
fn failed_copy_in_the_middle_of_a_pass_leaves_the_others_copied() {
    let mut loaded = SyncState::default();
    loaded.update_file_at("skills/b", file("B0", 5), at(60));
    let local = vec![
        listed("skills/a", "A", 10),
        listed("skills/b", "B", 10),
        listed("skills/c", "C", 10),
    ];
    let mut pass = applying(SyncDirection::Bidirectional, Ok(loaded), &local, &Vec::new());
    let mut deleted = Vec::new();
    while let Some(job) = pass.next_copy() {
        if job.rel_path == "skills/b" {
            let (outcome, removed) = corrupting_copy(&job.src, &job.dst, "B");
            if removed {
                deleted.push(job.dst.clone());
            }
            pass.copy_finished_at(outcome, at(1000));
        } else {
            let hash = if job.rel_path == "skills/a" { "A" } else { "C" };
            pass.copy_finished_at(faithful_copy(&job.src, &job.dst, hash), at(1000));
        }
    }
    assert_eq!(deleted, vec!["/r/skills/b".to_string()]);
    assert_eq!(pass.phase(), Phase::Persisting);
    assert_eq!(pass.copied(), 2);
    assert_eq!(pass.skipped(), 1);
    assert_eq!(
        pass.warnings(),
        &vec!["Failed to copy skills/b: Checksum mismatch after copy: B vs corrupt".to_string()]
    );
    assert_eq!(pass.state().get("skills/a").unwrap().sha256, "A");
    assert_eq!(pass.state().get("skills/c").unwrap().sha256, "C");
    let kept = pass.state().get("skills/b").unwrap();
    assert_eq!(kept.sha256, "B0");
    assert_eq!(kept.mtime, 5);
}

#[test]
fn pull_pass_skips_local_changes_wherever_they_stand() {
    let local = vec![listed("skills/l1", "L1", 10), listed("skills/l2", "L2", 10)];
    let remote = vec![listed("settings.json", "S", 10), listed("skills/r1", "R1", 10)];
    let mut pass = applying(SyncDirection::Pull, SyncState::load(None), &local, &remote);
    let mut handed_out = Vec::new();
    while let Some(job) = pass.next_copy() {
        handed_out.push(job.rel_path.clone());
        let hash = if job.rel_path == "settings.json" { "S" } else { "R1" };
        pass.copy_finished_at(faithful_copy(&job.src, &job.dst, hash), at(7));
    }
    assert_eq!(handed_out, vec!["settings.json".to_string(), "skills/r1".to_string()]);
    assert_eq!(pass.changes().len(), 4);
    assert_eq!(pass.copied(), 2);
    assert_eq!(pass.skipped(), 2);
    assert!(pass.warnings().is_empty());
    assert!(pass.state().get("skills/l1").is_none());
    assert!(pass.state().get("skills/l2").is_none());
    assert_eq!(pass.state().get("skills/r1").unwrap().sha256, "R1");
}

#[test]
fn second_push_pass_copies_nothing_and_skips_what_was_left() {
    let local = vec![listed("settings.json", "H1", 100), listed("skills/a", "A", 10)];
    let remote = vec![listed("settings.json", "H2", 200), listed("skills/r", "R", 10)];
    let mut first = applying(SyncDirection::Push, SyncState::load(None), &local, &remote);
    let mut copied = Vec::new();
    while let Some(job) = first.next_copy() {
        first.copy_finished_at(faithful_copy(&job.src, &job.dst, "A"), at(1000));
        copied.push(job.rel_path);
    }
    assert_eq!(copied, vec!["skills/a".to_string()]);
    assert_eq!(first.skipped(), 2);
    first.persisted(Ok(()));
    let state = first.state().clone();
    // The trees as the first pass left them: only skills/a has reached the mirror.
    let remote_after = vec![
        listed("settings.json", "H2", 200),
        listed("skills/r", "R", 10),
        listed("skills/a", "A", 1000),
    ];
    let mut second = applying(SyncDirection::Push, Ok(state), &local, &remote_after);
    let left: Vec<String> = second.changes().iter().map(|c| c.rel_path.clone()).collect();
    assert_eq!(left, vec!["settings.json".to_string(), "skills/r".to_string()]);
    assert!(second.next_copy().is_none());
    assert_eq!(second.copied(), 0);
    assert_eq!(second.skipped(), 2);
    assert!(second.warnings().is_empty());
    assert_eq!(second.state().len(), 1);
    second.persisted(Ok(()));
    assert!(second.backup_compared(Some(&local), Some(&local)));
    let result = second.finish(true).unwrap();
    assert_eq!(result.copied, 0);
    assert_eq!(result.skipped, 2);
    assert!(result.backup_path.is_none());
}
