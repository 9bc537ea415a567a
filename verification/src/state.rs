//! What was last seen of each synced file, and the record of it that is kept
//! between sync passes.

use crate::text::{
    chars_of, is_before, lemma_text_before_asymmetric, lemma_text_before_total,
    lemma_text_before_transitive, text_before,
};
use vstd::prelude::*;

verus! {

/// A point in time: seconds since the Unix epoch, and nanoseconds within
/// the second.
#[derive(Debug, Clone, Copy, PartialEq, Eq, Structural)]
pub struct Timestamp {
    pub secs: i64,
    pub nanos: u32,
}

/// The observable state of one file.
#[derive(Debug)]
pub struct FileState {
    /// SHA-256 of the content, in lowercase hex.
    pub sha256: String,
    /// Modification time, in seconds since the Unix epoch.
    pub mtime: i64,
    /// Size in bytes.
    pub size: u64,
}

/// What a `FileState` says, as plain mathematics.
pub ghost struct FileStateView {
    pub sha256: Seq<char>,
    pub mtime: i64,
    pub size: u64,
}

impl View for FileState {
    type V = FileStateView;

    open spec fn view(&self) -> FileStateView {
        FileStateView { sha256: self.sha256@, mtime: self.mtime, size: self.size }
    }
}

impl DeepView for FileState {
    type V = FileStateView;

    open spec fn deep_view(&self) -> FileStateView {
        self@
    }
}

impl Clone for FileState {
    fn clone(&self) -> (copy: Self)
        ensures
            copy@ == self@,
    {
        FileState { sha256: self.sha256.clone(), mtime: self.mtime, size: self.size }
    }
}

/// One line of the persisted record: a relative path and the state last
/// seen of the file there.
#[derive(Debug)]
pub struct FileEntry {
    pub path: String,
    pub state: FileState,
}

/// What a `FileEntry` says, as plain mathematics.
pub ghost struct FileEntryView {
    pub path: Seq<char>,
    pub state: FileStateView,
}

impl View for FileEntry {
    type V = FileEntryView;

    open spec fn view(&self) -> FileEntryView {
        FileEntryView { path: self.path@, state: self.state@ }
    }
}

impl DeepView for FileEntry {
    type V = FileEntryView;

    open spec fn deep_view(&self) -> FileEntryView {
        self@
    }
}

impl Clone for FileEntry {
    fn clone(&self) -> (copy: Self)
        ensures
            copy@ == self@,
    {
        FileEntry { path: self.path.clone(), state: self.state.clone() }
    }
}

/// The seconds that the modification time `m` stands for, as the signed
/// number that is stored: 0 where the time is unknown or lies before the
/// epoch (`None`), else the seconds since the epoch read as a 64-bit
/// two's-complement number.
pub open spec fn mtime_of(since_epoch: Option<u64>) -> int {
    match since_epoch {
        None => 0,
        Some(s) => if s <= i64::MAX {
            s as int
        } else {
            s - 0x1_0000_0000_0000_0000
        },
    }
}

/// Converts a modification time, given in whole seconds since the epoch, to
/// the stored form.
pub fn mtime_seconds(since_epoch: Option<u64>) -> (mtime: i64)
    ensures
        mtime == mtime_of(since_epoch),
{
    match since_epoch {
        None => 0,
        Some(s) => {
            if s <= 0x7fff_ffff_ffff_ffff {
                s as i64
            } else {
                let above: u64 = s - 0x8000_0000_0000_0000;
                (above as i64) + i64::MIN
            }
        },
    }
}

/// The map that a list of entries stands for; of two entries with the same
/// path the later one counts.
pub open spec fn entries_to_map(entries: Seq<FileEntryView>) -> Map<Seq<char>, FileStateView>
    decreases entries.len(),
{
    if entries.len() == 0 {
        Map::empty()
    } else {
        entries_to_map(entries.drop_last()).insert(entries.last().path, entries.last().state)
    }
}

/// No path occurs twice.
pub open spec fn unique_paths(entries: Seq<FileEntryView>) -> bool {
    forall|i: int, j: int|
        0 <= i < j < entries.len() ==> (#[trigger] entries[i]).path != (#[trigger] entries[j]).path
}

/// The last position at which `path` occurs in `entries`, or -1.
pub open spec fn last_index_of(entries: Seq<FileEntryView>, path: Seq<char>) -> int
    decreases entries.len(),
{
    if entries.len() == 0 {
        -1
    } else if entries.last().path == path {
        entries.len() - 1
    } else {
        last_index_of(entries.drop_last(), path)
    }
}

/// `last_index_of` finds the entry that counts for `path`: the map holds a
/// path exactly if it occurs among the entries, and then with the state of
/// its last occurrence.
pub proof fn lemma_last_index_of(entries: Seq<FileEntryView>, path: Seq<char>)
    ensures
        -1 <= last_index_of(entries, path) < entries.len(),
        last_index_of(entries, path) >= 0 ==> entries[last_index_of(entries, path)].path == path,
        forall|j: int|
            last_index_of(entries, path) < j < entries.len() ==> (#[trigger] entries[j]).path
                != path,
        entries_to_map(entries).dom().contains(path) <==> last_index_of(entries, path) >= 0,
        last_index_of(entries, path) >= 0 ==> entries_to_map(entries)[path]
            == entries[last_index_of(entries, path)].state,
    decreases entries.len(),
{
    if entries.len() > 0 {
        let front = entries.drop_last();
        lemma_last_index_of(front, path);
        if entries.last().path != path {
            assert(last_index_of(entries, path) >= 0 ==> front[last_index_of(entries, path)]
                == entries[last_index_of(entries, path)]);
            assert forall|j: int| last_index_of(entries, path) < j < entries.len() implies (
            #[trigger] entries[j]).path != path by {
                if j < front.len() {
                    assert(front[j] == entries[j]);
                }
            }
        }
    }
}

/// With unique paths, every entry is the one that the map holds for its
/// path.
pub proof fn lemma_unique_entry_is_mapped(entries: Seq<FileEntryView>, i: int)
    requires
        unique_paths(entries),
        0 <= i < entries.len(),
    ensures
        last_index_of(entries, entries[i].path) == i,
        entries_to_map(entries).dom().contains(entries[i].path),
        entries_to_map(entries)[entries[i].path] == entries[i].state,
{
    lemma_last_index_of(entries, entries[i].path);
    let k = last_index_of(entries, entries[i].path);
    if k < i {
        assert(entries[i].path != entries[i].path);
    }
    if k > i {
        assert(entries[i].path != entries[k].path);
    }
}

/// Replacing the state of the entry at `i` is an insert into the map.
pub proof fn lemma_map_after_replace(entries: Seq<FileEntryView>, i: int, state: FileStateView)
    requires
        unique_paths(entries),
        0 <= i < entries.len(),
    ensures
        unique_paths(entries.update(i, FileEntryView { path: entries[i].path, state })),
        entries_to_map(entries.update(i, FileEntryView { path: entries[i].path, state }))
            == entries_to_map(entries).insert(entries[i].path, state),
{
    let path = entries[i].path;
    let after = entries.update(i, FileEntryView { path, state });
    assert forall|a: int, b: int| 0 <= a < b < after.len() implies (#[trigger] after[a]).path != (
    #[trigger] after[b]).path by {
        assert(after[a].path == entries[a].path);
        assert(after[b].path == entries[b].path);
    }
    let left = entries_to_map(after);
    let right = entries_to_map(entries).insert(path, state);
    assert forall|k: Seq<char>| #[trigger] left.dom().contains(k) == right.dom().contains(k) by {
        lemma_replace_at_key(entries, i, state, k);
    }
    assert forall|k: Seq<char>| left.dom().contains(k) implies #[trigger] left[k] == right[k] by {
        lemma_replace_at_key(entries, i, state, k);
    }
    assert(left =~= right);
}

/// Replacing the state of the entry at `i` is an insert into the map, as
/// seen at the key `k`.
proof fn lemma_replace_at_key(
    entries: Seq<FileEntryView>,
    i: int,
    state: FileStateView,
    k: Seq<char>,
)
    requires
        unique_paths(entries),
        0 <= i < entries.len(),
        unique_paths(entries.update(i, FileEntryView { path: entries[i].path, state })),
    ensures
        ({
            let left = entries_to_map(
                entries.update(i, FileEntryView { path: entries[i].path, state }),
            );
            let right = entries_to_map(entries).insert(entries[i].path, state);
            &&& left.dom().contains(k) == right.dom().contains(k)
            &&& left.dom().contains(k) ==> left[k] == right[k]
        }),
{
    let path = entries[i].path;
    let after = entries.update(i, FileEntryView { path, state });
    lemma_last_index_of(after, k);
    lemma_last_index_of(entries, k);
    let la = last_index_of(after, k);
    let le = last_index_of(entries, k);
    if la >= 0 {
        assert(after[la].path == entries[la].path);
        lemma_unique_entry_is_mapped(entries, la);
        lemma_unique_entry_is_mapped(after, la);
    }
    if le >= 0 {
        assert(after[le].path == entries[le].path);
        lemma_unique_entry_is_mapped(after, le);
        lemma_unique_entry_is_mapped(entries, le);
    }
    if k == path {
        lemma_unique_entry_is_mapped(after, i);
        lemma_unique_entry_is_mapped(entries, i);
    }
}

/// Appending an entry with a new path is an insert into the map.
pub proof fn lemma_map_after_push(entries: Seq<FileEntryView>, entry: FileEntryView)
    requires
        unique_paths(entries),
        forall|j: int| 0 <= j < entries.len() ==> (#[trigger] entries[j]).path != entry.path,
    ensures
        unique_paths(entries.push(entry)),
        entries_to_map(entries.push(entry)) == entries_to_map(entries).insert(
            entry.path,
            entry.state,
        ),
{
    assert(entries.push(entry).drop_last() =~= entries);
}

/// Taking out the entry at `i` removes its path from the map.
pub proof fn lemma_map_after_remove(entries: Seq<FileEntryView>, i: int)
    requires
        unique_paths(entries),
        0 <= i < entries.len(),
    ensures
        unique_paths(entries.remove(i)),
        entries_to_map(entries.remove(i)) == entries_to_map(entries).remove(entries[i].path),
{
    let path = entries[i].path;
    let after = entries.remove(i);
    assert forall|a: int, b: int| 0 <= a < b < after.len() implies (#[trigger] after[a]).path != (
    #[trigger] after[b]).path by {
        let a0 = if a < i {
            a
        } else {
            a + 1
        };
        let b0 = if b < i {
            b
        } else {
            b + 1
        };
        assert(after[a] == entries[a0]);
        assert(after[b] == entries[b0]);
    }
    let left = entries_to_map(after);
    let right = entries_to_map(entries).remove(path);
    assert forall|k: Seq<char>| #[trigger] left.dom().contains(k) == right.dom().contains(k) by {
        lemma_remove_at_key(entries, i, k);
    }
    assert forall|k: Seq<char>| left.dom().contains(k) implies #[trigger] left[k] == right[k] by {
        lemma_remove_at_key(entries, i, k);
    }
    assert(left =~= right);
}

/// Taking out the entry at `i` removes its path from the map, as seen at
/// the key `k`.
proof fn lemma_remove_at_key(entries: Seq<FileEntryView>, i: int, k: Seq<char>)
    requires
        unique_paths(entries),
        0 <= i < entries.len(),
        unique_paths(entries.remove(i)),
    ensures
        ({
            let left = entries_to_map(entries.remove(i));
            let right = entries_to_map(entries).remove(entries[i].path);
            &&& left.dom().contains(k) == right.dom().contains(k)
            &&& left.dom().contains(k) ==> left[k] == right[k]
        }),
{
    let path = entries[i].path;
    let after = entries.remove(i);
    lemma_last_index_of(after, k);
    lemma_last_index_of(entries, k);
    let la = last_index_of(after, k);
    let le = last_index_of(entries, k);
    if la >= 0 {
        let l0 = if la < i {
            la
        } else {
            la + 1
        };
        assert(after[la] == entries[l0]);
        lemma_unique_entry_is_mapped(entries, l0);
        lemma_unique_entry_is_mapped(after, la);
        lemma_unique_entry_is_mapped(entries, i);
        assert(l0 != i);
        if k == path {
            assert(last_index_of(entries, k) == l0);
            assert(last_index_of(entries, k) == i);
        }
    }
    if le >= 0 && k != path {
        lemma_unique_entry_is_mapped(entries, le);
        assert(le != i);
        let l1 = if le < i {
            le
        } else {
            le - 1
        };
        assert(after[l1] == entries[le]);
        lemma_unique_entry_is_mapped(after, l1);
    }
}

/// The entries stand in ascending order of their paths.
pub open spec fn sorted_by_path(entries: Seq<FileEntryView>) -> bool {
    forall|i: int, j: int|
        0 <= i < j < entries.len() ==> text_before(
            (#[trigger] entries[i]).path,
            (#[trigger] entries[j]).path,
        )
}

/// The entries of `files`, one for each path, in ascending order of the
/// paths.
pub open spec fn sorted_entries(files: Map<Seq<char>, FileStateView>) -> Seq<FileEntryView> {
    choose|entries: Seq<FileEntryView>|
        sorted_by_path(entries) && entries_to_map(entries) == files
}

/// Entries in ascending order hold no path twice.
pub proof fn lemma_sorted_paths_are_unique(entries: Seq<FileEntryView>)
    requires
        sorted_by_path(entries),
    ensures
        unique_paths(entries),
{
    assert forall|i: int, j: int| 0 <= i < j < entries.len() implies (#[trigger] entries[i]).path
        != (#[trigger] entries[j]).path by {
        lemma_text_before_asymmetric(entries[i].path, entries[j].path);
    }
}

/// Putting in an entry with a new path, at whatever position, is an insert
/// into the map.
pub proof fn lemma_map_after_insert_at(entries: Seq<FileEntryView>, k: int, entry: FileEntryView)
    requires
        unique_paths(entries),
        0 <= k <= entries.len(),
        forall|j: int| 0 <= j < entries.len() ==> (#[trigger] entries[j]).path != entry.path,
    ensures
        unique_paths(entries.insert(k, entry)),
        entries_to_map(entries.insert(k, entry)) == entries_to_map(entries).insert(
            entry.path,
            entry.state,
        ),
{
    let after = entries.insert(k, entry);
    assert(after.len() == entries.len() + 1);
    assert forall|a: int, b: int| 0 <= a < b < after.len() implies (#[trigger] after[a]).path != (
    #[trigger] after[b]).path by {
        if a < k {
            assert(after[a] == entries[a]);
        } else if a > k {
            assert(after[a] == entries[a - 1]);
        }
        if b < k {
            assert(after[b] == entries[b]);
        } else if b > k {
            assert(after[b] == entries[b - 1]);
        }
    }
    assert(after[k] == entry);
    assert(after.remove(k) =~= entries);
    lemma_map_after_remove(after, k);
    lemma_unique_entry_is_mapped(after, k);
    assert(entries_to_map(after) =~= entries_to_map(entries).insert(entry.path, entry.state));
}

/// An entry put in behind all that come before it and in front of all that
/// come after it leaves the order intact.
pub proof fn lemma_insert_keeps_order(entries: Seq<FileEntryView>, k: int, entry: FileEntryView)
    requires
        sorted_by_path(entries),
        0 <= k <= entries.len(),
        forall|j: int| 0 <= j < k ==> text_before((#[trigger] entries[j]).path, entry.path),
        k < entries.len() ==> text_before(entry.path, entries[k].path),
    ensures
        sorted_by_path(entries.insert(k, entry)),
{
    let after = entries.insert(k, entry);
    assert(after.len() == entries.len() + 1);
    assert forall|a: int, b: int| 0 <= a < b < after.len() implies text_before(
        (#[trigger] after[a]).path,
        (#[trigger] after[b]).path,
    ) by {
        if a < k {
            assert(after[a] == entries[a]);
        } else if a > k {
            assert(after[a] == entries[a - 1]);
        } else {
            assert(after[a] == entry);
        }
        if b < k {
            assert(after[b] == entries[b]);
        } else if b > k {
            assert(after[b] == entries[b - 1]);
            if a == k && b - 1 > k {
                lemma_text_before_transitive(entry.path, entries[k].path, entries[b - 1].path);
            }
        } else {
            assert(after[b] == entry);
        }
    }
}

/// Entries in ascending order are determined by the map that they stand
/// for: there is one such list for a map, and no other.
pub proof fn lemma_sorted_entries_are_determined(a: Seq<FileEntryView>, b: Seq<FileEntryView>)
    requires
        sorted_by_path(a),
        sorted_by_path(b),
        entries_to_map(a) == entries_to_map(b),
    ensures
        a == b,
    decreases a.len(),
{
    lemma_sorted_paths_are_unique(a);
    lemma_sorted_paths_are_unique(b);
    lemma_unique_entries_count(a);
    lemma_unique_entries_count(b);
    if a.len() == 0 {
        assert(a =~= b);
    } else {
        let last = a.len() - 1;
        let pa = a[last].path;
        let pb = b[last].path;
        lemma_unique_entry_is_mapped(a, last);
        lemma_unique_entry_is_mapped(b, last);
        lemma_last_index_of(b, pa);
        lemma_last_index_of(a, pb);
        let j = last_index_of(b, pa);
        let i = last_index_of(a, pb);
        if pa != pb {
            assert(j < last);
            assert(i < last);
            assert(text_before(b[j].path, b[last].path));
            assert(text_before(a[i].path, a[last].path));
            lemma_text_before_asymmetric(pa, pb);
        }
        assert(a[last] == b[last]);
        assert(a.remove(last) =~= a.drop_last());
        assert(b.remove(last) =~= b.drop_last());
        lemma_map_after_remove(a, last);
        lemma_map_after_remove(b, last);
        assert forall|x: int, y: int| 0 <= x < y < a.drop_last().len() implies text_before(
            (#[trigger] a.drop_last()[x]).path,
            (#[trigger] a.drop_last()[y]).path,
        ) by {
            assert(a.drop_last()[x] == a[x]);
            assert(a.drop_last()[y] == a[y]);
        }
        assert forall|x: int, y: int| 0 <= x < y < b.drop_last().len() implies text_before(
            (#[trigger] b.drop_last()[x]).path,
            (#[trigger] b.drop_last()[y]).path,
        ) by {
            assert(b.drop_last()[x] == b[x]);
            assert(b.drop_last()[y] == b[y]);
        }
        lemma_sorted_entries_are_determined(a.drop_last(), b.drop_last());
        assert(a =~= a.drop_last().push(a[last]));
        assert(b =~= b.drop_last().push(b[last]));
    }
}

/// Tells whether the path of the entry at `k` comes before `key`.
fn entry_is_before(list: &Vec<FileEntry>, k: usize, key: &[char]) -> (before: bool)
    requires
        k < list.len(),
    ensures
        before == text_before(list.deep_view()[k as int].path, key@),
{
    let here = chars_of(list[k].path.as_str());
    is_before(here.as_slice(), key)
}

/// Puts `entry`, whose path is new, into a list in ascending order, at its
/// place in that order.
fn insert_sorted(list: &mut Vec<FileEntry>, entry: FileEntry)
    requires
        sorted_by_path(old(list).deep_view()),
        !entries_to_map(old(list).deep_view()).dom().contains(entry@.path),
    ensures
        sorted_by_path(final(list).deep_view()),
        entries_to_map(final(list).deep_view()) == entries_to_map(old(list).deep_view()).insert(
            entry@.path,
            entry@.state,
        ),
{
    let ghost before = list.deep_view();
    let key = chars_of(entry.path.as_str());
    let mut k: usize = 0;
    while k < list.len() && entry_is_before(list, k, key.as_slice())
        invariant
            k <= list.len(),
            list.deep_view() == before,
            key@ == entry@.path,
            forall|j: int| 0 <= j < k ==> text_before((#[trigger] before[j]).path, entry@.path),
        decreases list.len() - k,
    {
        k += 1;
    }
    proof {
        lemma_sorted_paths_are_unique(before);
        assert forall|j: int| 0 <= j < before.len() implies (#[trigger] before[j]).path
            != entry@.path by {
            lemma_unique_entry_is_mapped(before, j);
        }
        if k < before.len() {
            lemma_text_before_total(before[k as int].path, entry@.path);
        }
        lemma_insert_keeps_order(before, k as int, entry@);
        lemma_map_after_insert_at(before, k as int, entry@);
    }
    list.insert(k, entry);
    assert(list.deep_view() =~= before.insert(k as int, entry@));
}

/// The record of a sync pass that is kept for the next one: who wrote it,
/// when, and the state of each file as it was last seen.
#[derive(Debug)]
pub struct SyncState {
    version: u32,
    machine_id: String,
    last_sync: Timestamp,
    files: Vec<FileEntry>,
}

/// What a `SyncState` says: `files` maps each relative path to the state
/// recorded for it.
pub ghost struct SyncStateView {
    pub version: u32,
    pub machine_id: Seq<char>,
    pub last_sync: Timestamp,
    pub files: Map<Seq<char>, FileStateView>,
}

impl View for SyncState {
    type V = SyncStateView;

    closed spec fn view(&self) -> SyncStateView {
        SyncStateView {
            version: self.version,
            machine_id: self.machine_id@,
            last_sync: self.last_sync,
            files: entries_to_map(self.files.deep_view()),
        }
    }
}

/// The current time in UTC, from `chrono::Utc::now`. Nothing is promised of
/// it: it is whatever the system clock says. A clock that stands before the
/// year 1970 is more than `chrono` puts up with: it panics.
#[verifier::external_body]
pub(crate) fn utc_now() -> (now: Timestamp) {
    let now = chrono::Utc::now();
    Timestamp { secs: now.timestamp(), nanos: now.timestamp_subsec_nanos() }
}

/// The stored form of a sync state: what the state document holds.
#[derive(Debug)]
pub struct StateDocument {
    pub version: u32,
    pub machine_id: String,
    pub last_sync: Timestamp,
    pub files: Vec<FileEntry>,
}

/// What a `StateDocument` says, as plain mathematics.
pub ghost struct StateDocumentView {
    pub version: u32,
    pub machine_id: Seq<char>,
    pub last_sync: Timestamp,
    pub files: Seq<FileEntryView>,
}

impl View for StateDocument {
    type V = StateDocumentView;

    open spec fn view(&self) -> StateDocumentView {
        StateDocumentView {
            version: self.version,
            machine_id: self.machine_id@,
            last_sync: self.last_sync,
            files: self.files.deep_view(),
        }
    }
}

/// The state that a document stands for.
pub open spec fn document_state(document: StateDocumentView) -> SyncStateView {
    SyncStateView {
        version: document.version,
        machine_id: document.machine_id,
        last_sync: document.last_sync,
        files: entries_to_map(document.files),
    }
}

/// The document that is stored for a state: its files in ascending order
/// of their paths.
pub open spec fn state_document(state: SyncStateView) -> StateDocumentView {
    StateDocumentView {
        version: state.version,
        machine_id: state.machine_id,
        last_sync: state.last_sync,
        files: sorted_entries(state.files),
    }
}

/// The state before any sync: format version 1, no owner, the epoch as the
/// time of the last sync, no files.
pub open spec fn empty_state() -> SyncStateView {
    SyncStateView {
        version: 1,
        machine_id: Seq::empty(),
        last_sync: Timestamp { secs: 0, nanos: 0 },
        files: Map::empty(),
    }
}

/// What loading gives: the empty state where there is no document, an
/// error where the document could not be read, else the state that the
/// document stands for.
pub open spec fn state_loaded(found: Option<Result<StateDocumentView, Seq<char>>>) -> Result<
    SyncStateView,
    Seq<char>,
> {
    match found {
        None => Ok(empty_state()),
        Some(Err(why)) => Err(why),
        Some(Ok(document)) => Ok(document_state(document)),
    }
}

/// What was found where the document is kept, with texts as character
/// sequences.
pub open spec fn found_document(found: Option<Result<StateDocument, String>>) -> Option<
    Result<StateDocumentView, Seq<char>>,
> {
    match found {
        None => None,
        Some(Err(why)) => Some(Err(why@)),
        Some(Ok(document)) => Some(Ok(document@)),
    }
}

/// The outcome of loading, with texts as character sequences.
pub open spec fn loaded_view(loaded: Result<SyncState, String>) -> Result<SyncStateView, Seq<char>> {
    match loaded {
        Ok(state) => Ok(state@),
        Err(why) => Err(why@),
    }
}

impl Default for SyncState {
    /// The state before any sync: format version 1, no owner, the epoch as
    /// the time of the last sync, no files.
    fn default() -> (state: Self)
        ensures
            state@ == empty_state(),
    {
        SyncState {
            version: 1,
            machine_id: String::new(),
            last_sync: Timestamp { secs: 0, nanos: 0 },
            files: Vec::new(),
        }
    }
}

impl SyncState {
    /// The state of a file from what was read of it: the hash of its
    /// content, its modification time and its length.
    pub fn get_file_state(sha256: String, modified: Option<u64>, len: u64) -> (state: FileState)
        ensures
            state@ == (FileStateView { sha256: sha256@, mtime: mtime_of(modified) as i64, size: len }),
    {
        FileState { sha256, mtime: mtime_seconds(modified), size: len }
    }

    /// The state of the file at a path as far as it can be known: none
    /// unless a regular file is there and could be read.
    pub fn current_file_state(is_regular_file: bool, read: Option<FileState>) -> (state: Option<
        FileState,
    >)
        ensures
            state == (if is_regular_file {
                read
            } else {
                None
            }),
    {
        if is_regular_file {
            read
        } else {
            None
        }
    }

    /// The content hash of a file whose content was read as a list of
    /// chunks.
    pub fn sha256_file(chunks: &Vec<Vec<u8>>) -> (hex: String)
        ensures
            hex@ == crate::digest::sha256_hex(crate::digest::chunk_bytes(chunks@)),
            crate::digest::is_hex_digest(hex@),
    {
        crate::digest::sha256_chunks(chunks)
    }

    /// The state that a stored document stands for. Where no document was
    /// found, that is the state before any sync. A document that was found
    /// but could not be read is an error: the history it held is not
    /// silently given up.
    pub fn load(found: Option<Result<StateDocument, String>>) -> (loaded: Result<SyncState, String>)
        ensures
            loaded_view(loaded) == state_loaded(found_document(found)),
    {
        match found {
            None => Ok(SyncState::default()),
            Some(Err(why)) => Err(why),
            Some(Ok(document)) => Ok(
                SyncState::from_parts(
                    document.version,
                    document.machine_id,
                    document.last_sync,
                    document.files,
                ),
            ),
        }
    }

    /// The document to store for this state: one entry for each file, in
    /// ascending order of the paths. The document depends on what the state
    /// says alone, not on the order in which the files came to be recorded.
    pub fn save(&self) -> (document: StateDocument)
        ensures
            document@ == state_document(self@),
            document_state(document@) == self@,
            sorted_by_path(document@.files),
            unique_paths(document@.files),
    {
        StateDocument {
            version: self.version,
            machine_id: self.machine_id.clone(),
            last_sync: self.last_sync,
            files: self.entries(),
        }
    }

    #[verifier::type_invariant]
    spec fn paths_are_unique(&self) -> bool {
        unique_paths(self.files.deep_view())
    }

    /// The version of the record's format.
    pub fn version(&self) -> (version: u32)
        ensures
            version == self@.version,
    {
        self.version
    }

    /// The machine that last wrote the record.
    pub fn machine_id(&self) -> (id: &String)
        ensures
            id@ == self@.machine_id,
    {
        &self.machine_id
    }

    /// The time of the last change to the record.
    pub fn last_sync(&self) -> (time: Timestamp)
        ensures
            time == self@.last_sync,
    {
        self.last_sync
    }

    /// The number of files on record.
    pub fn len(&self) -> (count: usize)
        ensures
            count == self@.files.dom().len(),
            self@.files.dom().finite(),
    {
        proof {
            use_type_invariant(self);
            lemma_unique_entries_count(self.files.deep_view());
        }
        self.files.len()
    }

    /// Names the machine that writes the record.
    pub fn set_machine_id(&mut self, id: String)
        ensures
            final(self)@ == (SyncStateView { machine_id: id@, ..old(self)@ }),
    {
        proof {
            use_type_invariant(&*self);
        }
        self.machine_id = id;
    }

    /// The position of `rel_path` among the entries.
    fn position(&self, rel_path: &str) -> (found: Option<usize>)
        ensures
            match found {
                Some(i) => i < self.files.len() && self.files[i as int].path@ == rel_path@,
                None => forall|j: int|
                    0 <= j < self.files.len() ==> (#[trigger] self.files[j]).path@ != rel_path@,
            },
    {
        let wanted = rel_path.to_owned();
        let mut i: usize = 0;
        while i < self.files.len()
            invariant
                i <= self.files.len(),
                wanted@ == rel_path@,
                forall|j: int| 0 <= j < i ==> (#[trigger] self.files[j]).path@ != rel_path@,
            decreases self.files.len() - i,
        {
            if self.files[i].path == wanted {
                return Some(i);
            }
            i += 1;
        }
        None
    }

    /// The state on record for `rel_path`, if there is one.
    pub fn get(&self, rel_path: &str) -> (state: Option<&FileState>)
        ensures
            match state {
                Some(s) => self@.files.dom().contains(rel_path@) && self@.files[rel_path@] == s@,
                None => !self@.files.dom().contains(rel_path@),
            },
    {
        proof {
            use_type_invariant(self);
            lemma_last_index_of(self.files.deep_view(), rel_path@);
        }
        match self.position(rel_path) {
            Some(i) => {
                proof {
                    lemma_unique_entry_is_mapped(self.files.deep_view(), i as int);
                }
                Some(&self.files[i].state)
            },
            None => {
                proof {
                    let k = last_index_of(self.files.deep_view(), rel_path@);
                    if k >= 0 {
                        assert(self.files[k].path@ == rel_path@);
                    }
                }
                None
            },
        }
    }

    /// Records `state` for `rel_path` and `now` as the time of the change.
    pub fn update_file_at(&mut self, rel_path: &str, state: FileState, now: Timestamp)
        ensures
            final(self)@ == (SyncStateView {
                last_sync: now,
                files: old(self)@.files.insert(rel_path@, state@),
                ..old(self)@
            }),
    {
        proof {
            use_type_invariant(&*self);
        }
        let ghost before = self.files.deep_view();
        match self.position(rel_path) {
            Some(i) => {
                let entry = FileEntry { path: rel_path.to_owned(), state };
                proof {
                    lemma_map_after_replace(before, i as int, state@);
                }
                let mut files: Vec<FileEntry> = Vec::new();
                std::mem::swap(&mut self.files, &mut files);
                files.set(i, entry);
                assert(files.deep_view() =~= before.update(i as int, entry@));
                std::mem::swap(&mut self.files, &mut files);
            },
            None => {
                let entry = FileEntry { path: rel_path.to_owned(), state };
                proof {
                    lemma_map_after_push(before, entry@);
                }
                let mut files: Vec<FileEntry> = Vec::new();
                std::mem::swap(&mut self.files, &mut files);
                files.push(entry);
                assert(files.deep_view() =~= before.push(entry@));
                std::mem::swap(&mut self.files, &mut files);
            },
        }
        self.last_sync = now;
    }

    /// Records `state` for `rel_path`; the time of the change is read from
    /// the system clock.
    pub fn update_file(&mut self, rel_path: &str, state: FileState)
        ensures
            final(self)@.files == old(self)@.files.insert(rel_path@, state@),
            final(self)@.version == old(self)@.version,
            final(self)@.machine_id == old(self)@.machine_id,
    {
        let now = utc_now();
        self.update_file_at(rel_path, state, now);
    }

    /// Forgets `rel_path` and records `now` as the time of the change.
    pub fn remove_file_at(&mut self, rel_path: &str, now: Timestamp)
        ensures
            final(self)@ == (SyncStateView {
                last_sync: now,
                files: old(self)@.files.remove(rel_path@),
                ..old(self)@
            }),
    {
        proof {
            use_type_invariant(&*self);
        }
        let ghost before = self.files.deep_view();
        match self.position(rel_path) {
            Some(i) => {
                proof {
                    lemma_map_after_remove(before, i as int);
                }
                let mut files: Vec<FileEntry> = Vec::new();
                std::mem::swap(&mut self.files, &mut files);
                files.remove(i);
                assert(files.deep_view() =~= before.remove(i as int));
                std::mem::swap(&mut self.files, &mut files);
            },
            None => {
                proof {
                    lemma_last_index_of(before, rel_path@);
                    let k = last_index_of(before, rel_path@);
                    if k >= 0 {
                        assert(self.files[k].path@ == rel_path@);
                    }
                    assert(entries_to_map(before).remove(rel_path@) =~= entries_to_map(before));
                }
            },
        }
        self.last_sync = now;
    }

    /// Forgets `rel_path`; the time of the change is read from the system
    /// clock.
    pub fn remove_file(&mut self, rel_path: &str)
        ensures
            final(self)@.files == old(self)@.files.remove(rel_path@),
            final(self)@.version == old(self)@.version,
            final(self)@.machine_id == old(self)@.machine_id,
    {
        let now = utc_now();
        self.remove_file_at(rel_path, now);
    }

    /// Tells whether `current` differs from what is on record for
    /// `rel_path`: a file not on record has changed, one on record has
    /// changed when its content hash is another.
    pub fn file_changed(&self, rel_path: &str, current: &FileState) -> (changed: bool)
        ensures
            changed == (!self@.files.dom().contains(rel_path@) || self@.files[rel_path@].sha256
                != current@.sha256),
    {
        match self.get(rel_path) {
            Some(recorded) => recorded.sha256 != current.sha256,
            None => true,
        }
    }

    /// Builds a record from its parts, as they were read from storage. Of
    /// two entries with the same path the later one counts.
    pub fn from_parts(
        version: u32,
        machine_id: String,
        last_sync: Timestamp,
        entries: Vec<FileEntry>,
    ) -> (state: SyncState)
        ensures
            state@ == (SyncStateView {
                version,
                machine_id: machine_id@,
                last_sync,
                files: entries_to_map(entries.deep_view()),
            }),
    {
        let mut state = SyncState { version, machine_id, last_sync, files: Vec::new() };
        let mut i: usize = 0;
        while i < entries.len()
            invariant
                i <= entries.len(),
                state@ == (SyncStateView {
                    version,
                    machine_id: machine_id@,
                    last_sync,
                    files: entries_to_map(entries.deep_view().take(i as int)),
                }),
            decreases entries.len() - i,
        {
            let entry = entries[i].clone();
            state.update_file_at(entry.path.as_str(), entry.state, last_sync);
            assert(entries.deep_view().take(i + 1).drop_last() =~= entries.deep_view().take(
                i as int,
            ));
            i += 1;
        }
        assert(entries.deep_view().take(i as int) =~= entries.deep_view());
        state
    }

    /// The entries of the record, one for each path, in ascending order of
    /// the paths, for writing to storage.
    pub fn entries(&self) -> (entries: Vec<FileEntry>)
        ensures
            entries.deep_view() == sorted_entries(self@.files),
            sorted_by_path(entries.deep_view()),
            unique_paths(entries.deep_view()),
            entries_to_map(entries.deep_view()) == self@.files,
    {
        proof {
            use_type_invariant(self);
        }
        let mut entries: Vec<FileEntry> = Vec::new();
        let mut i: usize = 0;
        assert(self.files.deep_view().take(0) =~= Seq::<FileEntryView>::empty());
        assert(entries.deep_view() =~= Seq::<FileEntryView>::empty());
        while i < self.files.len()
            invariant
                i <= self.files.len(),
                unique_paths(self.files.deep_view()),
                sorted_by_path(entries.deep_view()),
                entries_to_map(entries.deep_view()) == entries_to_map(
                    self.files.deep_view().take(i as int),
                ),
            decreases self.files.len() - i,
        {
            let copy = self.files[i].clone();
            proof {
                let all = self.files.deep_view();
                let prefix = all.take(i as int);
                lemma_last_index_of(prefix, copy@.path);
                let k = last_index_of(prefix, copy@.path);
                if k >= 0 {
                    assert(prefix[k] == all[k]);
                    assert(all[k].path != all[i as int].path);
                }
                assert(all.take(i + 1).drop_last() =~= prefix);
            }
            insert_sorted(&mut entries, copy);
            i += 1;
        }
        proof {
            assert(self.files.deep_view().take(i as int) =~= self.files.deep_view());
            lemma_sorted_paths_are_unique(entries.deep_view());
            lemma_sorted_entries_are_determined(
                entries.deep_view(),
                sorted_entries(self@.files),
            );
        }
        entries
    }
}

impl Clone for SyncState {
    /// A copy made the way a record is stored and loaded again: written
    /// out as its entries, and rebuilt from them.
    fn clone(&self) -> (copy: Self)
        ensures
            copy@ == self@,
    {
        SyncState::from_parts(
            self.version,
            self.machine_id.clone(),
            self.last_sync,
            self.entries(),
        )
    }
}

/// With unique paths the map has as many keys as there are entries.
pub proof fn lemma_unique_entries_count(entries: Seq<FileEntryView>)
    requires
        unique_paths(entries),
    ensures
        entries_to_map(entries).dom().finite(),
        entries_to_map(entries).dom().len() == entries.len(),
    decreases entries.len(),
{
    if entries.len() > 0 {
        let front = entries.drop_last();
        assert forall|a: int, b: int| 0 <= a < b < front.len() implies (#[trigger] front[a]).path
            != (#[trigger] front[b]).path by {
            assert(front[a] == entries[a]);
            assert(front[b] == entries[b]);
        }
        lemma_unique_entries_count(front);
        lemma_last_index_of(front, entries.last().path);
        let k = last_index_of(front, entries.last().path);
        if k >= 0 {
            assert(front[k] == entries[k]);
            assert(entries[k].path != entries[entries.len() - 1].path);
        }
    }
}

/// Round trip: a state that is saved and loaded again is the state that
/// it was. `document` is any document that `save` may give for `state`.
pub proof fn lemma_save_load_round_trip(state: SyncStateView, document: StateDocumentView)
    requires
        document_state(document) == state,
    ensures
        state_loaded(Some(Ok(document))) == Ok::<SyncStateView, Seq<char>>(state),
{
}

/// Loading is idempotent under saving: what is loaded, saved and loaded
/// again is what was loaded first. `resaved` is any document that `save` may
/// give for the state first loaded.
pub proof fn lemma_load_save_load(document: StateDocumentView, resaved: StateDocumentView)
    requires
        document_state(resaved) == document_state(document),
    ensures
        state_loaded(Some(Ok(resaved))) == state_loaded(Some(Ok(document))),
{
}

/// Saving is a function of what the state says: two states that say the
/// same are stored as the same document, in whatever order their files came
/// to be recorded.
pub proof fn lemma_equal_states_save_alike(first: SyncStateView, second: SyncStateView)
    requires
        first.version == second.version,
        first.machine_id == second.machine_id,
        first.last_sync == second.last_sync,
        first.files =~= second.files,
    ensures
        state_document(first) == state_document(second),
{
}

} // verus!
