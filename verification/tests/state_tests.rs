use claude_sync_watch::state::{
    mtime_seconds, FileEntry, FileState, StateDocument, SyncState, Timestamp,
};

fn file(hash: &str, mtime: i64, size: u64) -> FileState {
    FileState { sha256: hash.to_string(), mtime, size }
}

fn at(secs: i64) -> Timestamp {
    Timestamp { secs, nanos: 0 }
}

#[test]
fn default_state_is_empty_with_zero_timestamp() {
    let state = SyncState::default();
    assert_eq!(state.version(), 1);
    assert_eq!(state.machine_id(), "");
    assert_eq!(state.last_sync(), Timestamp { secs: 0, nanos: 0 });
    assert_eq!(state.len(), 0);
    assert!(state.get("settings.json").is_none());
}

#[test]
fn update_file_at_inserts_and_replaces() {
    let mut state = SyncState::default();
    state.update_file_at("a", file("h1", 1, 10), at(5));
    state.update_file_at("b", file("h2", 2, 20), at(6));
    assert_eq!(state.len(), 2);
    assert_eq!(state.last_sync(), at(6));
    state.update_file_at("a", file("h3", 3, 30), at(7));
    assert_eq!(state.len(), 2);
    let a = state.get("a").unwrap();
    assert_eq!(a.sha256, "h3");
    assert_eq!(a.mtime, 3);
    assert_eq!(a.size, 30);
    assert_eq!(state.get("b").unwrap().sha256, "h2");
    assert_eq!(state.last_sync(), at(7));
    assert_eq!(state.version(), 1);
}

#[test]
fn remove_file_at_forgets_the_path_only() {
    let mut state = SyncState::default();
    state.update_file_at("a", file("h1", 1, 10), at(5));
    state.update_file_at("b", file("h2", 2, 20), at(6));
    state.update_file_at("c", file("h3", 3, 30), at(7));
    state.remove_file_at("b", at(8));
    assert_eq!(state.len(), 2);
    assert!(state.get("b").is_none());
    assert_eq!(state.get("a").unwrap().sha256, "h1");
    assert_eq!(state.get("c").unwrap().sha256, "h3");
    assert_eq!(state.last_sync(), at(8));
    state.remove_file_at("missing", at(9));
    assert_eq!(state.len(), 2);
    assert_eq!(state.last_sync(), at(9));
}

#[test]
fn update_and_remove_with_the_system_clock() {
    let mut state = SyncState::default();
    state.update_file("a", file("h1", 1, 10));
    assert_eq!(state.get("a").unwrap().sha256, "h1");
    assert!(state.last_sync().secs > 1_600_000_000);
    state.remove_file("a");
    assert!(state.get("a").is_none());
    assert!(state.last_sync().nanos < 2_000_000_000);
}

#[test]
fn file_changed_compares_hashes() {
    let mut state = SyncState::default();
    state.update_file_at("a", file("h1", 1, 10), at(5));
    assert!(!state.file_changed("a", &file("h1", 99, 99)));
    assert!(state.file_changed("a", &file("h2", 1, 10)));
    assert!(state.file_changed("new", &file("h1", 1, 10)));
}

#[test]
fn set_machine_id_changes_the_owner_only() {
    let mut state = SyncState::default();
    state.update_file_at("a", file("h1", 1, 10), at(5));
    state.set_machine_id("host-a".to_string());
    assert_eq!(state.machine_id(), "host-a");
    assert_eq!(state.len(), 1);
    assert_eq!(state.last_sync(), at(5));
}

#[test]
fn entries_and_from_parts_round_trip() {
    let mut state = SyncState::default();
    state.set_machine_id("host-a".to_string());
    state.update_file_at("skills/a.md", file("h1", 1, 10), at(5));
    state.update_file_at("settings.json", file("h2", 2, 20), Timestamp { secs: 6, nanos: 7 });
    let entries = state.entries();
    assert_eq!(entries.len(), 2);
    let again = SyncState::from_parts(
        state.version(),
        state.machine_id().clone(),
        state.last_sync(),
        entries,
    );
    assert_eq!(again.version(), 1);
    assert_eq!(again.machine_id(), "host-a");
    assert_eq!(again.last_sync(), Timestamp { secs: 6, nanos: 7 });
    assert_eq!(again.len(), 2);
    assert_eq!(again.get("skills/a.md").unwrap().sha256, "h1");
    assert_eq!(again.get("settings.json").unwrap().size, 20);
    let copy = state.clone();
    assert_eq!(copy.len(), 2);
    assert_eq!(copy.get("settings.json").unwrap().mtime, 2);
}

#[test]
fn from_parts_lets_the_later_entry_count() {
    let entries = vec![
        FileEntry { path: "a".to_string(), state: file("old", 1, 1) },
        FileEntry { path: "b".to_string(), state: file("hb", 2, 2) },
        FileEntry { path: "a".to_string(), state: file("new", 3, 3) },
    ];
    let state = SyncState::from_parts(2, "m".to_string(), at(9), entries);
    assert_eq!(state.version(), 2);
    assert_eq!(state.len(), 2);
    assert_eq!(state.get("a").unwrap().sha256, "new");
    assert_eq!(state.last_sync(), at(9));
}

#[test]
fn mtime_seconds_covers_unknown_and_large_times() {
    assert_eq!(mtime_seconds(None), 0);
    assert_eq!(mtime_seconds(Some(0)), 0);
    assert_eq!(mtime_seconds(Some(100)), 100);
    assert_eq!(mtime_seconds(Some(i64::MAX as u64)), i64::MAX);
    assert_eq!(mtime_seconds(Some(i64::MAX as u64 + 1)), i64::MIN);
    assert_eq!(mtime_seconds(Some(u64::MAX)), -1);
}

#[test]
fn get_file_state_puts_the_parts_together() {
    let state = SyncState::get_file_state("abc".to_string(), Some(42), 7);
    assert_eq!(state.sha256, "abc");
    assert_eq!(state.mtime, 42);
    assert_eq!(state.size, 7);
    let unknown = SyncState::get_file_state("abc".to_string(), None, 7);
    assert_eq!(unknown.mtime, 0);
}

#[test]
fn current_file_state_needs_a_regular_file() {
    assert!(SyncState::current_file_state(false, Some(file("h", 1, 1))).is_none());
    assert!(SyncState::current_file_state(true, None).is_none());
    let seen = SyncState::current_file_state(true, Some(file("h", 1, 1))).unwrap();
    assert_eq!(seen.sha256, "h");
}

#[test]
fn load_without_document_gives_the_default_state() {
    let state = SyncState::load(None).unwrap();
    assert_eq!(state.version(), 1);
    assert_eq!(state.machine_id(), "");
    assert_eq!(state.last_sync(), at(0));
    assert_eq!(state.len(), 0);
}

#[test]
fn load_of_a_corrupt_document_fails() {
    let loaded = SyncState::load(Some(Err("expected value at line 1".to_string())));
    assert_eq!(loaded.unwrap_err(), "expected value at line 1");
}

#[test]
fn save_then_load_gives_the_same_state() {
    let mut state = SyncState::default();
    state.set_machine_id("host-a".to_string());
    state.update_file_at("skills/a.md", file("h1", 1, 10), at(5));
    state.update_file_at("settings.json", file("h2", 2, 20), Timestamp { secs: 6, nanos: 7 });
    state.update_file_at("skills/a.md", file("h3", 3, 30), Timestamp { secs: 8, nanos: 9 });
    let document = state.save();
    assert_eq!(document.version, 1);
    assert_eq!(document.machine_id, "host-a");
    assert_eq!(document.last_sync, Timestamp { secs: 8, nanos: 9 });
    assert_eq!(document.files.len(), 2);
    let again = SyncState::load(Some(Ok(document))).unwrap();
    assert_eq!(again.version(), state.version());
    assert_eq!(again.machine_id(), state.machine_id());
    assert_eq!(again.last_sync(), state.last_sync());
    assert_eq!(again.len(), 2);
    for path in ["skills/a.md", "settings.json"] {
        let before = state.get(path).unwrap();
        let after = again.get(path).unwrap();
        assert_eq!(before.sha256, after.sha256);
        assert_eq!(before.mtime, after.mtime);
        assert_eq!(before.size, after.size);
    }
    let resaved = again.save();
    let third = SyncState::load(Some(Ok(resaved))).unwrap();
    assert_eq!(third.len(), 2);
    assert_eq!(third.get("skills/a.md").unwrap().sha256, "h3");
}

#[test]
fn load_reads_a_document_as_it_stands() {
    let document = StateDocument {
        version: 3,
        machine_id: "m".to_string(),
        last_sync: at(77),
        files: vec![FileEntry { path: "a".to_string(), state: file("h", 1, 2) }],
    };
    let state = SyncState::load(Some(Ok(document))).unwrap();
    assert_eq!(state.version(), 3);
    assert_eq!(state.machine_id(), "m");
    assert_eq!(state.last_sync(), at(77));
    assert_eq!(state.get("a").unwrap().size, 2);
}

#[test]
fn sha256_file_hashes_the_chunks_in_order() {
    let chunks = vec![b"ab".to_vec(), b"c".to_vec()];
    assert_eq!(
        SyncState::sha256_file(&chunks),
        "ba7816bf8f01cfea414140de5dae2223b00361a396177a9cb410ff61f20015ad"
    );
    let other = vec![b"c".to_vec(), b"ab".to_vec()];
    assert_ne!(SyncState::sha256_file(&other), SyncState::sha256_file(&chunks));
}

fn paths_of(document: &StateDocument) -> Vec<String> {
    document.files.iter().map(|entry| entry.path.clone()).collect()
}

#[test]
fn save_lists_the_files_in_ascending_order_of_their_paths() {
    let mut state = SyncState::default();
    for path in ["skills/b.md", "settings.json", "skills/a.md", "mcp.json", "skills", "Z", "\u{e9}"] {
        state.update_file_at(path, file(path, 1, 1), at(1));
    }
    assert_eq!(
        paths_of(&state.save()),
        vec!["Z", "mcp.json", "settings.json", "skills", "skills/a.md", "skills/b.md", "\u{e9}"]
    );
    let entries = state.entries();
    assert_eq!(entries[0].path, "Z");
    assert_eq!(entries[0].state.sha256, "Z");
    assert_eq!(entries[6].state.sha256, "\u{e9}");
}

#[test]
fn equal_states_built_in_different_orders_save_alike() {
    let mut first = SyncState::default();
    first.update_file_at("b", file("hb", 2, 20), at(9));
    first.update_file_at("a", file("old", 0, 0), at(9));
    first.update_file_at("c", file("hc", 3, 30), at(9));
    first.update_file_at("a", file("ha", 1, 10), at(9));
    let mut second = SyncState::default();
    second.update_file_at("c", file("hc", 3, 30), at(5));
    second.update_file_at("x", file("hx", 4, 40), at(5));
    second.update_file_at("a", file("ha", 1, 10), at(5));
    second.remove_file_at("x", at(5));
    second.update_file_at("b", file("hb", 2, 20), at(9));
    let one = first.save();
    let two = second.save();
    assert_eq!(one.version, two.version);
    assert_eq!(one.machine_id, two.machine_id);
    assert_eq!(one.last_sync, two.last_sync);
    assert_eq!(paths_of(&one), vec!["a", "b", "c"]);
    assert_eq!(paths_of(&one), paths_of(&two));
    for (x, y) in one.files.iter().zip(two.files.iter()) {
        assert_eq!(x.state.sha256, y.state.sha256);
        assert_eq!(x.state.mtime, y.state.mtime);
        assert_eq!(x.state.size, y.state.size);
    }
}
