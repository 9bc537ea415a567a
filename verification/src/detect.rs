//! Change detection: what differs between the local tree and its mirror.
//!
//! Detection works on listings of the two trees, taken by whoever walks the
//! disk: one entry for each file found, with its path relative to the root
//! and the state that could be read of it. From the listings alone it decides
//! which files have to be copied, and in which direction.

use crate::state::{FileState, FileStateView, SyncState};
use crate::text::{
    any_hidden_component, chars_of, has_hidden_component, join_path, joined, starts_with,
};
use vstd::prelude::*;

verus! {

/// The kind of a detected change.
#[derive(Debug, Clone, Copy, PartialEq, Eq, Structural)]
pub enum ChangeType {
    Created,
    Modified,
    Deleted,
}

/// One of the two trees.
#[derive(Debug, Clone, Copy, PartialEq, Eq, Structural)]
pub enum Side {
    Local,
    Remote,
}

/// One unit of work for a sync pass: the file at `src` is to be copied to
/// `dst`.
#[derive(Debug)]
pub struct Change {
    /// Path of the file relative to either root.
    pub rel_path: String,
    pub change_type: ChangeType,
    /// Where to copy from.
    pub src: String,
    /// Where to copy to.
    pub dst: String,
}

/// What a `Change` says, as plain mathematics.
pub ghost struct ChangeView {
    pub rel_path: Seq<char>,
    pub change_type: ChangeType,
    pub src: Seq<char>,
    pub dst: Seq<char>,
}

impl View for Change {
    type V = ChangeView;

    open spec fn view(&self) -> ChangeView {
        ChangeView {
            rel_path: self.rel_path@,
            change_type: self.change_type,
            src: self.src@,
            dst: self.dst@,
        }
    }
}

impl DeepView for Change {
    type V = ChangeView;

    open spec fn deep_view(&self) -> ChangeView {
        self@
    }
}

impl Clone for Change {
    fn clone(&self) -> (copy: Self)
        ensures
            copy@ == self@,
    {
        Change {
            rel_path: self.rel_path.clone(),
            change_type: self.change_type,
            src: self.src.clone(),
            dst: self.dst.clone(),
        }
    }
}

/// One file found under a root: its path relative to the root, with `/`
/// between components, and its state, or `None` where it could not be read.
#[derive(Debug)]
pub struct ListedFile {
    pub rel_path: String,
    pub state: Option<FileState>,
}

/// What a `ListedFile` says, as plain mathematics.
pub ghost struct ListedFileView {
    pub rel_path: Seq<char>,
    pub state: Option<FileStateView>,
}

impl View for ListedFile {
    type V = ListedFileView;

    open spec fn view(&self) -> ListedFileView {
        ListedFileView {
            rel_path: self.rel_path@,
            state: match self.state {
                Some(s) => Some(s@),
                None => None,
            },
        }
    }
}

impl DeepView for ListedFile {
    type V = ListedFileView;

    open spec fn deep_view(&self) -> ListedFileView {
        self@
    }
}

/// The state that a listing holds for `path`: that of the first entry with
/// this path, none where there is no such entry or it could not be read.
pub open spec fn listed_state(listing: Seq<ListedFileView>, path: Seq<char>) -> Option<
    FileStateView,
>
    decreases listing.len(),
{
    if listing.len() == 0 {
        None
    } else if listing.first().rel_path == path {
        listing.first().state
    } else {
        listed_state(listing.drop_first(), path)
    }
}

/// The root of a side.
pub open spec fn root_of(side: Side, local_root: Seq<char>, remote_root: Seq<char>) -> Seq<char> {
    match side {
        Side::Local => local_root,
        Side::Remote => remote_root,
    }
}

/// The other side.
pub open spec fn opposite(side: Side) -> Side {
    match side {
        Side::Local => Side::Remote,
        Side::Remote => Side::Local,
    }
}

/// The change that copies `rel_path` from `source` to the other side.
pub open spec fn change_from(
    rel_path: Seq<char>,
    change_type: ChangeType,
    source: Side,
    local_root: Seq<char>,
    remote_root: Seq<char>,
) -> ChangeView {
    ChangeView {
        rel_path,
        change_type,
        src: joined(root_of(source, local_root, remote_root), rel_path),
        dst: joined(root_of(opposite(source), local_root, remote_root), rel_path),
    }
}

/// What is to be done about a tracked file, given its state on each side.
///
/// Present on one side only: it was created there. Present on both with
/// different content: the side with the later modification time is the
/// source. Same content, or different content with equal times: nothing.
pub open spec fn tracked_file_decision(
    local: Option<FileStateView>,
    remote: Option<FileStateView>,
) -> Option<(ChangeType, Side)> {
    match (local, remote) {
        (Some(l), Some(r)) => if l.sha256 != r.sha256 && l.mtime > r.mtime {
            Some((ChangeType::Modified, Side::Local))
        } else if l.sha256 != r.sha256 && r.mtime > l.mtime {
            Some((ChangeType::Modified, Side::Remote))
        } else {
            None
        },
        (Some(_), None) => Some((ChangeType::Created, Side::Local)),
        (None, Some(_)) => Some((ChangeType::Created, Side::Remote)),
        (None, None) => None,
    }
}

/// What is to be done about a file found while walking one side, given its
/// state there and on the other side: a copy when the other side lacks it,
/// or has other content and this occurrence is strictly newer.
pub open spec fn walked_file_decision(
    here: Option<FileStateView>,
    there: Option<FileStateView>,
) -> Option<ChangeType> {
    match (here, there) {
        (Some(_), None) => Some(ChangeType::Created),
        (Some(h), Some(t)) => if h.sha256 != t.sha256 && h.mtime > t.mtime {
            Some(ChangeType::Modified)
        } else {
            None
        },
        _ => None,
    }
}

/// `path` names a file below the tracked directory `dir` that the walk
/// visits: no component below `dir` begins with a dot.
pub open spec fn visited_in_dir(path: Seq<char>, dir: Seq<char>) -> bool {
    &&& (dir + seq!['/']).is_prefix_of(path)
    &&& path.len() > dir.len() + 1
    &&& !has_hidden_component(path.skip(dir.len() as int + 1))
}

/// Some change is already recorded for `rel_path`.
pub open spec fn already_recorded(changes: Seq<ChangeView>, rel_path: Seq<char>) -> bool {
    exists|i: int| 0 <= i < changes.len() && (#[trigger] changes[i]).rel_path == rel_path
}

/// The changes for the tracked files, in the order of `names`.
pub open spec fn tracked_file_changes(
    names: Seq<Seq<char>>,
    local_root: Seq<char>,
    remote_root: Seq<char>,
    local: Seq<ListedFileView>,
    remote: Seq<ListedFileView>,
) -> Seq<ChangeView>
    decreases names.len(),
{
    if names.len() == 0 {
        Seq::empty()
    } else {
        let before = tracked_file_changes(
            names.drop_last(),
            local_root,
            remote_root,
            local,
            remote,
        );
        let name = names.last();
        match tracked_file_decision(listed_state(local, name), listed_state(remote, name)) {
            Some((change_type, source)) => before.push(
                change_from(name, change_type, source, local_root, remote_root),
            ),
            None => before,
        }
    }
}

/// `changes` extended by what a walk of `entries`, the files of side
/// `source`, finds in the tracked directory `dir`. A path for which a change
/// is recorded already is not recorded again.
pub open spec fn walk_changes(
    changes: Seq<ChangeView>,
    entries: Seq<ListedFileView>,
    dir: Seq<char>,
    source: Side,
    local_root: Seq<char>,
    remote_root: Seq<char>,
    other: Seq<ListedFileView>,
) -> Seq<ChangeView>
    decreases entries.len(),
{
    if entries.len() == 0 {
        changes
    } else {
        let before = walk_changes(
            changes,
            entries.drop_last(),
            dir,
            source,
            local_root,
            remote_root,
            other,
        );
        let entry = entries.last();
        if visited_in_dir(entry.rel_path, dir) && !already_recorded(before, entry.rel_path) {
            match walked_file_decision(entry.state, listed_state(other, entry.rel_path)) {
                Some(change_type) => before.push(
                    change_from(entry.rel_path, change_type, source, local_root, remote_root),
                ),
                None => before,
            }
        } else {
            before
        }
    }
}

/// `changes` extended by the walks of the tracked directories, in the order
/// of `dirs`: each is walked on the local side first, then on the remote
/// side.
pub open spec fn tracked_dir_changes(
    changes: Seq<ChangeView>,
    dirs: Seq<Seq<char>>,
    local_root: Seq<char>,
    remote_root: Seq<char>,
    local: Seq<ListedFileView>,
    remote: Seq<ListedFileView>,
) -> Seq<ChangeView>
    decreases dirs.len(),
{
    if dirs.len() == 0 {
        changes
    } else {
        let before = tracked_dir_changes(
            changes,
            dirs.drop_last(),
            local_root,
            remote_root,
            local,
            remote,
        );
        let from_local = walk_changes(
            before,
            local,
            dirs.last(),
            Side::Local,
            local_root,
            remote_root,
            remote,
        );
        walk_changes(from_local, remote, dirs.last(), Side::Remote, local_root, remote_root, local)
    }
}

/// All pending changes: those of the tracked files first, then those of the
/// tracked directories.
pub open spec fn detected_changes(
    local_root: Seq<char>,
    remote_root: Seq<char>,
    files: Seq<Seq<char>>,
    dirs: Seq<Seq<char>>,
    local: Seq<ListedFileView>,
    remote: Seq<ListedFileView>,
) -> Seq<ChangeView> {
    tracked_dir_changes(
        tracked_file_changes(files, local_root, remote_root, local, remote),
        dirs,
        local_root,
        remote_root,
        local,
        remote,
    )
}

/// What a walk does with an entry of a directory.
#[derive(Debug, Clone, Copy, PartialEq, Eq, Structural)]
pub enum Visit {
    /// Pass over it.
    Skip,
    /// It is a directory: walk it as well.
    Descend,
    /// It is a file: list it.
    Take,
}

/// What a walk does with an entry called `name`. The walk of change
/// detection (`skip_hidden`) passes over hidden entries and over what is
/// neither a directory nor a regular file. A walk that takes stock of a
/// whole tree lists whatever is no directory.
pub open spec fn visit_of(name: Seq<char>, is_dir: bool, is_file: bool, skip_hidden: bool) -> Visit {
    if skip_hidden && crate::text::is_hidden_name(name) {
        Visit::Skip
    } else if is_dir {
        Visit::Descend
    } else if is_file || !skip_hidden {
        Visit::Take
    } else {
        Visit::Skip
    }
}

/// Tells what a walk does with an entry called `name`.
pub fn visit_entry(name: &str, is_dir: bool, is_file: bool, skip_hidden: bool) -> (visit: Visit)
    ensures
        visit == visit_of(name@, is_dir, is_file, skip_hidden),
{
    if skip_hidden && crate::text::is_hidden(name) {
        Visit::Skip
    } else if is_dir {
        Visit::Descend
    } else if is_file || !skip_hidden {
        Visit::Take
    } else {
        Visit::Skip
    }
}

/// Looks `path` up in a listing.
pub fn find_listed<'a>(listing: &'a Vec<ListedFile>, path: &String) -> (state: Option<
    &'a FileState,
>)
    ensures
        state.deep_view() == listed_state(listing.deep_view(), path@),
{
    let mut i: usize = 0;
    assert(listing.deep_view().skip(0) =~= listing.deep_view());
    while i < listing.len()
        invariant
            i <= listing.len(),
            listed_state(listing.deep_view(), path@) == listed_state(
                listing.deep_view().skip(i as int),
                path@,
            ),
        decreases listing.len() - i,
    {
        let ghost rest = listing.deep_view().skip(i as int);
        assert(rest.first() == listing[i as int]@);
        if listing[i].rel_path == *path {
            return match &listing[i].state {
                Some(s) => Some(s),
                None => None,
            };
        }
        assert(rest.drop_first() =~= listing.deep_view().skip(i + 1));
        i += 1;
    }
    None
}

/// Tells whether a change for `rel_path` is recorded already.
pub fn is_recorded(changes: &Vec<Change>, rel_path: &String) -> (found: bool)
    ensures
        found == already_recorded(changes.deep_view(), rel_path@),
{
    let mut i: usize = 0;
    while i < changes.len()
        invariant
            i <= changes.len(),
            forall|j: int| 0 <= j < i ==> (#[trigger] changes.deep_view()[j]).rel_path != rel_path@,
        decreases changes.len() - i,
    {
        if changes[i].rel_path == *rel_path {
            assert(changes.deep_view()[i as int].rel_path == rel_path@);
            return true;
        }
        i += 1;
    }
    false
}

/// Tells whether the walk of the tracked directory `dir` visits `path`.
pub fn is_visited_in_dir(path: &str, dir: &str) -> (visited: bool)
    ensures
        visited == visited_in_dir(path@, dir@),
{
    let path_chars = chars_of(path);
    let mut prefix = chars_of(dir);
    prefix.push('/');
    assert(prefix@ =~= dir@ + seq!['/']);
    if !starts_with(path_chars.as_slice(), prefix.as_slice()) {
        return false;
    }
    if path_chars.len() <= prefix.len() {
        return false;
    }
    !any_hidden_component(path_chars.as_slice(), prefix.len())
}

/// Builds the change that copies `rel_path` from `source` to the other side.
pub fn make_change(
    rel_path: &String,
    change_type: ChangeType,
    source: Side,
    local_dir: &str,
    remote_dir: &str,
) -> (change: Change)
    ensures
        change@ == change_from(rel_path@, change_type, source, local_dir@, remote_dir@),
{
    let local_path = join_path(local_dir, rel_path.as_str());
    let remote_path = join_path(remote_dir, rel_path.as_str());
    match source {
        Side::Local => Change {
            rel_path: rel_path.clone(),
            change_type,
            src: local_path,
            dst: remote_path,
        },
        Side::Remote => Change {
            rel_path: rel_path.clone(),
            change_type,
            src: remote_path,
            dst: local_path,
        },
    }
}

/// Decides about one tracked file from its state on each side.
pub fn decide_tracked_file(local: Option<&FileState>, remote: Option<&FileState>) -> (decision:
    Option<(ChangeType, Side)>)
    ensures
        decision == tracked_file_decision(local.deep_view(), remote.deep_view()),
{
    match (local, remote) {
        (Some(l), Some(r)) => {
            if l.sha256 != r.sha256 {
                if l.mtime > r.mtime {
                    Some((ChangeType::Modified, Side::Local))
                } else if r.mtime > l.mtime {
                    Some((ChangeType::Modified, Side::Remote))
                } else {
                    None
                }
            } else {
                None
            }
        },
        (Some(_), None) => Some((ChangeType::Created, Side::Local)),
        (None, Some(_)) => Some((ChangeType::Created, Side::Remote)),
        (None, None) => None,
    }
}

/// Decides about one file found by a walk from its state on the walked side
/// and on the other.
pub fn decide_walked_file(here: Option<&FileState>, there: Option<&FileState>) -> (decision:
    Option<ChangeType>)
    ensures
        decision == walked_file_decision(here.deep_view(), there.deep_view()),
{
    match (here, there) {
        (Some(_), None) => Some(ChangeType::Created),
        (Some(h), Some(t)) => {
            if h.sha256 != t.sha256 && h.mtime > t.mtime {
                Some(ChangeType::Modified)
            } else {
                None
            }
        },
        _ => None,
    }
}

/// Walks the files of side `source` that lie in the tracked directory `dir`
/// and records a change for each that the other side lacks or has an older
/// version of.
pub fn scan_directory_changes(
    entries: &Vec<ListedFile>,
    other: &Vec<ListedFile>,
    dir: &str,
    state: &SyncState,
    changes: &mut Vec<Change>,
    source: Side,
    local_dir: &str,
    remote_dir: &str,
)
    ensures
        final(changes).deep_view() == walk_changes(
            old(changes).deep_view(),
            entries.deep_view(),
            dir@,
            source,
            local_dir@,
            remote_dir@,
            other.deep_view(),
        ),
{
    let mut i: usize = 0;
    assert(entries.deep_view().take(0) =~= Seq::<ListedFileView>::empty());
    while i < entries.len()
        invariant
            i <= entries.len(),
            changes.deep_view() == walk_changes(
                old(changes).deep_view(),
                entries.deep_view().take(i as int),
                dir@,
                source,
                local_dir@,
                remote_dir@,
                other.deep_view(),
            ),
        decreases entries.len() - i,
    {
        let entry = &entries[i];
        let ghost before = changes.deep_view();
        proof {
            let upto = entries.deep_view().take(i + 1);
            assert(upto.drop_last() =~= entries.deep_view().take(i as int));
            assert(upto.last() == entry@);
        }
        if is_visited_in_dir(entry.rel_path.as_str(), dir) && !is_recorded(
            changes,
            &entry.rel_path,
        ) {
            let here: Option<&FileState> = match &entry.state {
                Some(s) => Some(s),
                None => None,
            };
            let there = find_listed(other, &entry.rel_path);
            match decide_walked_file(here, there) {
                Some(change_type) => {
                    let change = make_change(
                        &entry.rel_path,
                        change_type,
                        source,
                        local_dir,
                        remote_dir,
                    );
                    changes.push(change);
                    assert(changes.deep_view() =~= before.push(change@));
                },
                None => {},
            }
        }
        i += 1;
    }
    assert(entries.deep_view().take(i as int) =~= entries.deep_view());
}

/// Detects the pending changes between the local tree and its mirror.
///
/// `local` and `remote` list the files under `local_dir` and `remote_dir`.
/// The tracked files are compared by name. Each tracked directory is walked
/// on the local side, then on the remote side. Deletions are not detected.
pub fn detect_changes(
    local_dir: &str,
    remote_dir: &str,
    sync_files: &Vec<String>,
    sync_dirs: &Vec<String>,
    state: &SyncState,
    local: &Vec<ListedFile>,
    remote: &Vec<ListedFile>,
) -> (changes: Vec<Change>)
    ensures
        changes.deep_view() == detected_changes(
            local_dir@,
            remote_dir@,
            sync_files.deep_view(),
            sync_dirs.deep_view(),
            local.deep_view(),
            remote.deep_view(),
        ),
{
    let mut changes: Vec<Change> = Vec::new();
    let mut i: usize = 0;
    assert(sync_files.deep_view().take(0) =~= Seq::<Seq<char>>::empty());
    assert(changes.deep_view() =~= Seq::<ChangeView>::empty());
    while i < sync_files.len()
        invariant
            i <= sync_files.len(),
            changes.deep_view() == tracked_file_changes(
                sync_files.deep_view().take(i as int),
                local_dir@,
                remote_dir@,
                local.deep_view(),
                remote.deep_view(),
            ),
        decreases sync_files.len() - i,
    {
        let name = &sync_files[i];
        let ghost before = changes.deep_view();
        proof {
            let upto = sync_files.deep_view().take(i + 1);
            assert(upto.drop_last() =~= sync_files.deep_view().take(i as int));
            assert(upto.last() == name@);
        }
        let local_state = find_listed(local, name);
        let remote_state = find_listed(remote, name);
        match decide_tracked_file(local_state, remote_state) {
            Some((change_type, source)) => {
                let change = make_change(name, change_type, source, local_dir, remote_dir);
                changes.push(change);
                assert(changes.deep_view() =~= before.push(change@));
            },
            None => {},
        }
        i += 1;
    }
    assert(sync_files.deep_view().take(i as int) =~= sync_files.deep_view());
    let ghost from_files = changes.deep_view();
    let mut d: usize = 0;
    assert(sync_dirs.deep_view().take(0) =~= Seq::<Seq<char>>::empty());
    while d < sync_dirs.len()
        invariant
            d <= sync_dirs.len(),
            changes.deep_view() == tracked_dir_changes(
                from_files,
                sync_dirs.deep_view().take(d as int),
                local_dir@,
                remote_dir@,
                local.deep_view(),
                remote.deep_view(),
            ),
        decreases sync_dirs.len() - d,
    {
        let dir = &sync_dirs[d];
        proof {
            let upto = sync_dirs.deep_view().take(d + 1);
            assert(upto.drop_last() =~= sync_dirs.deep_view().take(d as int));
            assert(upto.last() == dir@);
        }
        scan_directory_changes(
            local,
            remote,
            dir.as_str(),
            state,
            &mut changes,
            Side::Local,
            local_dir,
            remote_dir,
        );
        scan_directory_changes(
            remote,
            local,
            dir.as_str(),
            state,
            &mut changes,
            Side::Remote,
            local_dir,
            remote_dir,
        );
        d += 1;
    }
    assert(sync_dirs.deep_view().take(d as int) =~= sync_dirs.deep_view());
    changes
}

/// No path occurs twice in the listing.
pub open spec fn unique_listing(listing: Seq<ListedFileView>) -> bool {
    forall|i: int, j: int|
        0 <= i < j < listing.len() ==> (#[trigger] listing[i]).rel_path != (
        #[trigger] listing[j]).rel_path
}

/// The listing of a side.
pub open spec fn listing_of(
    side: Side,
    local: Seq<ListedFileView>,
    remote: Seq<ListedFileView>,
) -> Seq<ListedFileView> {
    match side {
        Side::Local => local,
        Side::Remote => remote,
    }
}

/// The change `c` copies from `source`, and the listings call for it: the
/// file is present on the source side, and the other side either lacks it
/// (`Created`) or holds other content that is strictly older (`Modified`).
pub open spec fn justified_from(
    c: ChangeView,
    source: Side,
    local_root: Seq<char>,
    remote_root: Seq<char>,
    local: Seq<ListedFileView>,
    remote: Seq<ListedFileView>,
) -> bool {
    let here = listed_state(listing_of(source, local, remote), c.rel_path);
    let there = listed_state(listing_of(opposite(source), local, remote), c.rel_path);
    &&& c == change_from(c.rel_path, c.change_type, source, local_root, remote_root)
    &&& here is Some
    &&& match c.change_type {
        ChangeType::Created => there is None,
        ChangeType::Modified => there is Some && there->0.sha256 != here->0.sha256 && here->0.mtime
            > there->0.mtime,
        ChangeType::Deleted => false,
    }
}

/// The listings call for the change `c`, in one direction or the other.
pub open spec fn justified(
    c: ChangeView,
    local_root: Seq<char>,
    remote_root: Seq<char>,
    local: Seq<ListedFileView>,
    remote: Seq<ListedFileView>,
) -> bool {
    justified_from(c, Side::Local, local_root, remote_root, local, remote) || justified_from(
        c,
        Side::Remote,
        local_root,
        remote_root,
        local,
        remote,
    )
}

/// Nothing is to be done about a path with these two states: the file is
/// absent on both sides, or present on both with the same content or with
/// the same modification time.
pub open spec fn settled(local: Option<FileStateView>, remote: Option<FileStateView>) -> bool {
    match (local, remote) {
        (None, None) => true,
        (Some(l), Some(r)) => l.sha256 == r.sha256 || l.mtime == r.mtime,
        _ => false,
    }
}

/// In a listing without repeated paths, looking up the path of an entry
/// gives the state of that entry.
pub proof fn lemma_unique_listing_lookup(listing: Seq<ListedFileView>, i: int)
    requires
        unique_listing(listing),
        0 <= i < listing.len(),
    ensures
        listed_state(listing, listing[i].rel_path) == listing[i].state,
    decreases listing.len(),
{
    if i > 0 {
        let rest = listing.drop_first();
        assert(listing[0].rel_path != listing[i].rel_path);
        assert forall|a: int, b: int| 0 <= a < b < rest.len() implies (#[trigger] rest[a]).rel_path
            != (#[trigger] rest[b]).rel_path by {
            assert(rest[a] == listing[a + 1]);
            assert(rest[b] == listing[b + 1]);
        }
        assert(rest[i - 1] == listing[i]);
        lemma_unique_listing_lookup(rest, i - 1);
    }
}

/// A walk adds only changes that the listings call for.
proof fn lemma_walk_is_justified(
    changes: Seq<ChangeView>,
    entries: Seq<ListedFileView>,
    dir: Seq<char>,
    source: Side,
    local_root: Seq<char>,
    remote_root: Seq<char>,
    local: Seq<ListedFileView>,
    remote: Seq<ListedFileView>,
)
    requires
        forall|i: int|
            0 <= i < changes.len() ==> justified(
                #[trigger] changes[i],
                local_root,
                remote_root,
                local,
                remote,
            ),
        forall|k: int|
            0 <= k < entries.len() ==> listed_state(
                listing_of(source, local, remote),
                (#[trigger] entries[k]).rel_path,
            ) == entries[k].state,
    ensures
        forall|i: int|
            0 <= i < walk_changes(
                changes,
                entries,
                dir,
                source,
                local_root,
                remote_root,
                listing_of(opposite(source), local, remote),
            ).len() ==> justified(
                #[trigger] walk_changes(
                    changes,
                    entries,
                    dir,
                    source,
                    local_root,
                    remote_root,
                    listing_of(opposite(source), local, remote),
                )[i],
                local_root,
                remote_root,
                local,
                remote,
            ),
    decreases entries.len(),
{
    if entries.len() > 0 {
        let front = entries.drop_last();
        assert forall|k: int| 0 <= k < front.len() implies listed_state(
            listing_of(source, local, remote),
            (#[trigger] front[k]).rel_path,
        ) == front[k].state by {
            assert(front[k] == entries[k]);
        }
        lemma_walk_is_justified(
            changes,
            front,
            dir,
            source,
            local_root,
            remote_root,
            local,
            remote,
        );
        let other = listing_of(opposite(source), local, remote);
        let before = walk_changes(changes, front, dir, source, local_root, remote_root, other);
        let entry = entries.last();
        assert(entry == entries[entries.len() - 1]);
        match walked_file_decision(entry.state, listed_state(other, entry.rel_path)) {
            Some(change_type) => {
                let c = change_from(entry.rel_path, change_type, source, local_root, remote_root);
                assert(justified_from(c, source, local_root, remote_root, local, remote));
            },
            None => {},
        }
    }
}

/// Every detected change is called for by the listings: its source is the
/// side where the file is newer or alone present, its destination the same
/// relative path on the other side, and it is never a deletion.
pub proof fn lemma_detected_changes_are_justified(
    local_root: Seq<char>,
    remote_root: Seq<char>,
    files: Seq<Seq<char>>,
    dirs: Seq<Seq<char>>,
    local: Seq<ListedFileView>,
    remote: Seq<ListedFileView>,
)
    requires
        unique_listing(local),
        unique_listing(remote),
    ensures
        forall|i: int|
            0 <= i < detected_changes(local_root, remote_root, files, dirs, local, remote).len()
                ==> justified(
                #[trigger] detected_changes(local_root, remote_root, files, dirs, local, remote)[i],
                local_root,
                remote_root,
                local,
                remote,
            ),
{
    lemma_tracked_files_are_justified(files, local_root, remote_root, local, remote);
    lemma_tracked_dirs_are_justified(
        tracked_file_changes(files, local_root, remote_root, local, remote),
        dirs,
        local_root,
        remote_root,
        local,
        remote,
    );
}

/// The listings call for every change recorded for a tracked file.
proof fn lemma_tracked_files_are_justified(
    names: Seq<Seq<char>>,
    local_root: Seq<char>,
    remote_root: Seq<char>,
    local: Seq<ListedFileView>,
    remote: Seq<ListedFileView>,
)
    ensures
        forall|i: int|
            0 <= i < tracked_file_changes(names, local_root, remote_root, local, remote).len()
                ==> justified(
                #[trigger] tracked_file_changes(names, local_root, remote_root, local, remote)[i],
                local_root,
                remote_root,
                local,
                remote,
            ),
    decreases names.len(),
{
    if names.len() > 0 {
        lemma_tracked_files_are_justified(
            names.drop_last(),
            local_root,
            remote_root,
            local,
            remote,
        );
        let name = names.last();
        let before = tracked_file_changes(
            names.drop_last(),
            local_root,
            remote_root,
            local,
            remote,
        );
        let after = tracked_file_changes(names, local_root, remote_root, local, remote);
        let decision = tracked_file_decision(listed_state(local, name), listed_state(remote, name));
        if decision is Some {
            let pair = decision->0;
            let change_type = pair.0;
            let source = pair.1;
            let c = change_from(name, change_type, source, local_root, remote_root);
            assert(after == before.push(c));
            assert(justified_from(c, source, local_root, remote_root, local, remote));
            assert forall|i: int| 0 <= i < after.len() implies justified(
                #[trigger] after[i],
                local_root,
                remote_root,
                local,
                remote,
            ) by {
                if i < before.len() {
                    assert(after[i] == before[i]);
                }
            }
        }
    }
}

/// The walks of the tracked directories add only changes that the listings
/// call for.
proof fn lemma_tracked_dirs_are_justified(
    changes: Seq<ChangeView>,
    dirs: Seq<Seq<char>>,
    local_root: Seq<char>,
    remote_root: Seq<char>,
    local: Seq<ListedFileView>,
    remote: Seq<ListedFileView>,
)
    requires
        unique_listing(local),
        unique_listing(remote),
        forall|i: int|
            0 <= i < changes.len() ==> justified(
                #[trigger] changes[i],
                local_root,
                remote_root,
                local,
                remote,
            ),
    ensures
        forall|i: int|
            0 <= i < tracked_dir_changes(
                changes,
                dirs,
                local_root,
                remote_root,
                local,
                remote,
            ).len() ==> justified(
                #[trigger] tracked_dir_changes(
                    changes,
                    dirs,
                    local_root,
                    remote_root,
                    local,
                    remote,
                )[i],
                local_root,
                remote_root,
                local,
                remote,
            ),
    decreases dirs.len(),
{
    if dirs.len() > 0 {
        lemma_tracked_dirs_are_justified(
            changes,
            dirs.drop_last(),
            local_root,
            remote_root,
            local,
            remote,
        );
        let before = tracked_dir_changes(
            changes,
            dirs.drop_last(),
            local_root,
            remote_root,
            local,
            remote,
        );
        assert forall|k: int| 0 <= k < local.len() implies listed_state(
            local,
            (#[trigger] local[k]).rel_path,
        ) == local[k].state by {
            lemma_unique_listing_lookup(local, k);
        }
        assert forall|k: int| 0 <= k < remote.len() implies listed_state(
            remote,
            (#[trigger] remote[k]).rel_path,
        ) == remote[k].state by {
            lemma_unique_listing_lookup(remote, k);
        }
        lemma_walk_is_justified(
            before,
            local,
            dirs.last(),
            Side::Local,
            local_root,
            remote_root,
            local,
            remote,
        );
        let from_local = walk_changes(
            before,
            local,
            dirs.last(),
            Side::Local,
            local_root,
            remote_root,
            remote,
        );
        lemma_walk_is_justified(
            from_local,
            remote,
            dirs.last(),
            Side::Remote,
            local_root,
            remote_root,
            local,
            remote,
        );
    }
}

/// A walk over files that are all settled adds nothing.
proof fn lemma_settled_walk_adds_nothing(
    changes: Seq<ChangeView>,
    entries: Seq<ListedFileView>,
    dir: Seq<char>,
    source: Side,
    local_root: Seq<char>,
    remote_root: Seq<char>,
    other: Seq<ListedFileView>,
)
    requires
        forall|k: int|
            0 <= k < entries.len() && visited_in_dir((#[trigger] entries[k]).rel_path, dir)
                ==> walked_file_decision(
                entries[k].state,
                listed_state(other, entries[k].rel_path),
            ) is None,
    ensures
        walk_changes(changes, entries, dir, source, local_root, remote_root, other) == changes,
    decreases entries.len(),
{
    if entries.len() > 0 {
        let front = entries.drop_last();
        assert forall|k: int|
            0 <= k < front.len() && visited_in_dir(
                (#[trigger] front[k]).rel_path,
                dir,
            ) implies walked_file_decision(front[k].state, listed_state(other, front[k].rel_path))
            is None by {
            assert(front[k] == entries[k]);
        }
        lemma_settled_walk_adds_nothing(
            changes,
            front,
            dir,
            source,
            local_root,
            remote_root,
            other,
        );
        assert(entries.last() == entries[entries.len() - 1]);
    }
}

/// `path` is one that detection looks at: a tracked file, or a file that
/// the walk of a tracked directory visits.
pub open spec fn tracked_path(path: Seq<char>, files: Seq<Seq<char>>, dirs: Seq<Seq<char>>) -> bool {
    files.contains(path) || exists|d: int|
        0 <= d < dirs.len() && visited_in_dir(path, #[trigger] dirs[d])
}

/// Detection finds nothing to do when every path that it looks at is
/// settled: absent on both sides, or present on both with the same content
/// or the same modification time.
pub proof fn lemma_settled_trees_have_no_changes(
    local_root: Seq<char>,
    remote_root: Seq<char>,
    files: Seq<Seq<char>>,
    dirs: Seq<Seq<char>>,
    local: Seq<ListedFileView>,
    remote: Seq<ListedFileView>,
)
    requires
        unique_listing(local),
        unique_listing(remote),
        forall|path: Seq<char>| #[trigger]
            tracked_path(path, files, dirs) ==> settled(
                listed_state(local, path),
                listed_state(remote, path),
            ),
    ensures
        detected_changes(local_root, remote_root, files, dirs, local, remote) == Seq::<
            ChangeView,
        >::empty(),
{
    assert forall|k: int| 0 <= k < files.len() implies settled(
        listed_state(local, #[trigger] files[k]),
        listed_state(remote, files[k]),
    ) by {
        assert(tracked_path(files[k], files, dirs));
    }
    assert forall|d: int, path: Seq<char>|
        0 <= d < dirs.len() && visited_in_dir(path, #[trigger] dirs[d]) implies #[trigger] settled(
        listed_state(local, path),
        listed_state(remote, path),
    ) by {
        assert(tracked_path(path, files, dirs));
    }
    lemma_settled_files_have_no_changes(files, local_root, remote_root, local, remote);
    lemma_settled_dirs_have_no_changes(dirs, local_root, remote_root, local, remote);
}

/// Tracked files that are all settled yield no change.
proof fn lemma_settled_files_have_no_changes(
    names: Seq<Seq<char>>,
    local_root: Seq<char>,
    remote_root: Seq<char>,
    local: Seq<ListedFileView>,
    remote: Seq<ListedFileView>,
)
    requires
        forall|k: int|
            0 <= k < names.len() ==> settled(
                listed_state(local, #[trigger] names[k]),
                listed_state(remote, names[k]),
            ),
    ensures
        tracked_file_changes(names, local_root, remote_root, local, remote) == Seq::<
            ChangeView,
        >::empty(),
    decreases names.len(),
{
    if names.len() > 0 {
        let front = names.drop_last();
        assert forall|k: int| 0 <= k < front.len() implies settled(
            listed_state(local, #[trigger] front[k]),
            listed_state(remote, front[k]),
        ) by {
            assert(front[k] == names[k]);
        }
        lemma_settled_files_have_no_changes(front, local_root, remote_root, local, remote);
        assert(names.last() == names[names.len() - 1]);
    }
}

/// Tracked directories whose files are all settled yield no change.
proof fn lemma_settled_dirs_have_no_changes(
    dirs: Seq<Seq<char>>,
    local_root: Seq<char>,
    remote_root: Seq<char>,
    local: Seq<ListedFileView>,
    remote: Seq<ListedFileView>,
)
    requires
        unique_listing(local),
        unique_listing(remote),
        forall|d: int, path: Seq<char>|
            0 <= d < dirs.len() && visited_in_dir(path, #[trigger] dirs[d]) ==> #[trigger] settled(
                listed_state(local, path),
                listed_state(remote, path),
            ),
    ensures
        tracked_dir_changes(
            Seq::<ChangeView>::empty(),
            dirs,
            local_root,
            remote_root,
            local,
            remote,
        ) == Seq::<ChangeView>::empty(),
    decreases dirs.len(),
{
    if dirs.len() > 0 {
        let front = dirs.drop_last();
        let dir = dirs.last();
        assert(dir == dirs[dirs.len() - 1]);
        assert forall|d: int, path: Seq<char>|
            0 <= d < front.len() && visited_in_dir(
                path,
                #[trigger] front[d],
            ) implies #[trigger] settled(listed_state(local, path), listed_state(remote, path)) by {
            assert(front[d] == dirs[d]);
        }
        lemma_settled_dirs_have_no_changes(front, local_root, remote_root, local, remote);
        assert forall|k: int|
            0 <= k < local.len() && visited_in_dir(
                (#[trigger] local[k]).rel_path,
                dir,
            ) implies walked_file_decision(local[k].state, listed_state(remote, local[k].rel_path))
            is None by {
            lemma_unique_listing_lookup(local, k);
            assert(settled(
                listed_state(local, local[k].rel_path),
                listed_state(remote, local[k].rel_path),
            ));
        }
        assert forall|k: int|
            0 <= k < remote.len() && visited_in_dir(
                (#[trigger] remote[k]).rel_path,
                dir,
            ) implies walked_file_decision(remote[k].state, listed_state(local, remote[k].rel_path))
            is None by {
            lemma_unique_listing_lookup(remote, k);
            assert(settled(
                listed_state(local, remote[k].rel_path),
                listed_state(remote, remote[k].rel_path),
            ));
        }
        let none = Seq::<ChangeView>::empty();
        lemma_settled_walk_adds_nothing(
            none,
            local,
            dir,
            Side::Local,
            local_root,
            remote_root,
            remote,
        );
        lemma_settled_walk_adds_nothing(
            none,
            remote,
            dir,
            Side::Remote,
            local_root,
            remote_root,
            local,
        );
    }
}

/// No two changes are for the same path.
pub open spec fn unique_records(changes: Seq<ChangeView>) -> bool {
    forall|i: int, j: int|
        0 <= i < j < changes.len() ==> (#[trigger] changes[i]).rel_path != (
        #[trigger] changes[j]).rel_path
}

/// A walk only adds to the changes that were there before.
pub proof fn lemma_walk_extends(
    changes: Seq<ChangeView>,
    entries: Seq<ListedFileView>,
    dir: Seq<char>,
    source: Side,
    local_root: Seq<char>,
    remote_root: Seq<char>,
    other: Seq<ListedFileView>,
)
    ensures
        changes.is_prefix_of(
            walk_changes(changes, entries, dir, source, local_root, remote_root, other),
        ),
        forall|path: Seq<char>|
            already_recorded(changes, path) ==> already_recorded(
                walk_changes(changes, entries, dir, source, local_root, remote_root, other),
                path,
            ),
    decreases entries.len(),
{
    let after = walk_changes(changes, entries, dir, source, local_root, remote_root, other);
    if entries.len() > 0 {
        lemma_walk_extends(
            changes,
            entries.drop_last(),
            dir,
            source,
            local_root,
            remote_root,
            other,
        );
        let before = walk_changes(
            changes,
            entries.drop_last(),
            dir,
            source,
            local_root,
            remote_root,
            other,
        );
        assert(before.is_prefix_of(after));
        assert(changes =~= after.subrange(0, changes.len() as int));
    } else {
        assert(changes =~= after.subrange(0, changes.len() as int));
    }
    assert forall|path: Seq<char>| already_recorded(changes, path) implies already_recorded(
        after,
        path,
    ) by {
        let i = choose|i: int| 0 <= i < changes.len() && (#[trigger] changes[i]).rel_path == path;
        assert(after[i] == changes[i]);
    }
}

/// A walk records every file that it visits and that is to be copied,
/// unless a change for its path was recorded before.
pub proof fn lemma_walk_covers(
    changes: Seq<ChangeView>,
    entries: Seq<ListedFileView>,
    i: int,
    dir: Seq<char>,
    source: Side,
    local_root: Seq<char>,
    remote_root: Seq<char>,
    other: Seq<ListedFileView>,
)
    requires
        0 <= i < entries.len(),
        visited_in_dir(entries[i].rel_path, dir),
        walked_file_decision(entries[i].state, listed_state(other, entries[i].rel_path)) is Some,
    ensures
        already_recorded(
            walk_changes(changes, entries, dir, source, local_root, remote_root, other),
            entries[i].rel_path,
        ),
    decreases entries.len(),
{
    let front = entries.drop_last();
    let before = walk_changes(changes, front, dir, source, local_root, remote_root, other);
    let after = walk_changes(changes, entries, dir, source, local_root, remote_root, other);
    let path = entries[i].rel_path;
    if i < entries.len() - 1 {
        assert(front[i] == entries[i]);
        lemma_walk_covers(changes, front, i, dir, source, local_root, remote_root, other);
        let k = choose|k: int| 0 <= k < before.len() && (#[trigger] before[k]).rel_path == path;
        let last = entries.last();
        if visited_in_dir(last.rel_path, dir) && !already_recorded(before, last.rel_path)
            && walked_file_decision(last.state, listed_state(other, last.rel_path)) is Some {
            assert(after[k] == before[k]);
        } else {
            assert(after == before);
        }
    } else {
        assert(entries.last() == entries[i]);
        if already_recorded(before, path) {
            assert(after == before);
        } else {
            assert(after.last().rel_path == path);
            assert(after[after.len() - 1].rel_path == path);
        }
    }
}

/// A walk adds no second change for a path.
pub proof fn lemma_walk_keeps_records_unique(
    changes: Seq<ChangeView>,
    entries: Seq<ListedFileView>,
    dir: Seq<char>,
    source: Side,
    local_root: Seq<char>,
    remote_root: Seq<char>,
    other: Seq<ListedFileView>,
)
    requires
        unique_records(changes),
    ensures
        unique_records(walk_changes(changes, entries, dir, source, local_root, remote_root, other)),
    decreases entries.len(),
{
    if entries.len() > 0 {
        lemma_walk_keeps_records_unique(
            changes,
            entries.drop_last(),
            dir,
            source,
            local_root,
            remote_root,
            other,
        );
        let before = walk_changes(
            changes,
            entries.drop_last(),
            dir,
            source,
            local_root,
            remote_root,
            other,
        );
        let after = walk_changes(changes, entries, dir, source, local_root, remote_root, other);
        let last = entries.last();
        if after != before {
            assert(!already_recorded(before, last.rel_path));
            assert forall|a: int, b: int| 0 <= a < b < after.len() implies (
            #[trigger] after[a]).rel_path != (#[trigger] after[b]).rel_path by {
                assert(after[a] == before[a]);
                if b < before.len() {
                    assert(after[b] == before[b]);
                }
            }
        }
    }
}

/// The walks of the tracked directories only add to the changes that were
/// there before, and add no second change for a path.
pub proof fn lemma_tracked_dirs_extend(
    changes: Seq<ChangeView>,
    dirs: Seq<Seq<char>>,
    local_root: Seq<char>,
    remote_root: Seq<char>,
    local: Seq<ListedFileView>,
    remote: Seq<ListedFileView>,
)
    ensures
        forall|path: Seq<char>|
            already_recorded(changes, path) ==> already_recorded(
                tracked_dir_changes(changes, dirs, local_root, remote_root, local, remote),
                path,
            ),
        unique_records(changes) ==> unique_records(
            tracked_dir_changes(changes, dirs, local_root, remote_root, local, remote),
        ),
    decreases dirs.len(),
{
    if dirs.len() > 0 {
        lemma_tracked_dirs_extend(
            changes,
            dirs.drop_last(),
            local_root,
            remote_root,
            local,
            remote,
        );
        let before = tracked_dir_changes(
            changes,
            dirs.drop_last(),
            local_root,
            remote_root,
            local,
            remote,
        );
        let from_local = walk_changes(
            before,
            local,
            dirs.last(),
            Side::Local,
            local_root,
            remote_root,
            remote,
        );
        lemma_walk_extends(before, local, dirs.last(), Side::Local, local_root, remote_root, remote);
        lemma_walk_extends(
            from_local,
            remote,
            dirs.last(),
            Side::Remote,
            local_root,
            remote_root,
            local,
        );
        if unique_records(changes) {
            lemma_walk_keeps_records_unique(
                before,
                local,
                dirs.last(),
                Side::Local,
                local_root,
                remote_root,
                remote,
            );
            lemma_walk_keeps_records_unique(
                from_local,
                remote,
                dirs.last(),
                Side::Remote,
                local_root,
                remote_root,
                local,
            );
        }
    }
}

/// Every record for a tracked file is for one of the names.
proof fn lemma_tracked_file_records_are_named(
    names: Seq<Seq<char>>,
    local_root: Seq<char>,
    remote_root: Seq<char>,
    local: Seq<ListedFileView>,
    remote: Seq<ListedFileView>,
)
    ensures
        forall|i: int|
            0 <= i < tracked_file_changes(names, local_root, remote_root, local, remote).len()
                ==> names.contains(
                (#[trigger] tracked_file_changes(
                    names,
                    local_root,
                    remote_root,
                    local,
                    remote,
                )[i]).rel_path,
            ),
        names.no_duplicates() ==> unique_records(
            tracked_file_changes(names, local_root, remote_root, local, remote),
        ),
    decreases names.len(),
{
    if names.len() > 0 {
        let front = names.drop_last();
        lemma_tracked_file_records_are_named(front, local_root, remote_root, local, remote);
        let before = tracked_file_changes(front, local_root, remote_root, local, remote);
        let after = tracked_file_changes(names, local_root, remote_root, local, remote);
        let name = names.last();
        assert forall|i: int| 0 <= i < after.len() implies names.contains(
            (#[trigger] after[i]).rel_path,
        ) by {
            if i < before.len() {
                assert(after[i] == before[i]);
                assert(front.contains(before[i].rel_path));
                let k = choose|k: int| 0 <= k < front.len() && front[k] == before[i].rel_path;
                assert(names[k] == front[k]);
            } else {
                assert(after[i].rel_path == name);
                assert(names[names.len() - 1] == name);
            }
        }
        if names.no_duplicates() {
            assert(front.no_duplicates()) by {
                assert forall|a: int, b: int|
                    0 <= a < front.len() && 0 <= b < front.len() && a != b implies front[a]
                    != front[b] by {
                    assert(front[a] == names[a]);
                    assert(front[b] == names[b]);
                }
            }
            if after != before {
                assert forall|a: int, b: int| 0 <= a < b < after.len() implies (
                #[trigger] after[a]).rel_path != (#[trigger] after[b]).rel_path by {
                    assert(after[a] == before[a]);
                    if b < before.len() {
                        assert(after[b] == before[b]);
                    } else {
                        assert(front.contains(before[a].rel_path));
                        let k = choose|k: int|
                            0 <= k < front.len() && front[k] == before[a].rel_path;
                        assert(names[k] == front[k]);
                        assert(names[names.len() - 1] == name);
                    }
                }
            }
        }
    }
}

/// First occurrence wins: where no tracked file is named twice, detection
/// yields at most one change for a path.
pub proof fn lemma_detected_paths_are_unique(
    local_root: Seq<char>,
    remote_root: Seq<char>,
    files: Seq<Seq<char>>,
    dirs: Seq<Seq<char>>,
    local: Seq<ListedFileView>,
    remote: Seq<ListedFileView>,
)
    requires
        files.no_duplicates(),
    ensures
        unique_records(detected_changes(local_root, remote_root, files, dirs, local, remote)),
{
    lemma_tracked_file_records_are_named(files, local_root, remote_root, local, remote);
    lemma_tracked_dirs_extend(
        tracked_file_changes(files, local_root, remote_root, local, remote),
        dirs,
        local_root,
        remote_root,
        local,
        remote,
    );
}

/// Detection misses no tracked file: one that is to be copied has a change
/// recorded for it.
pub proof fn lemma_tracked_files_are_covered(
    local_root: Seq<char>,
    remote_root: Seq<char>,
    files: Seq<Seq<char>>,
    dirs: Seq<Seq<char>>,
    local: Seq<ListedFileView>,
    remote: Seq<ListedFileView>,
    k: int,
)
    requires
        0 <= k < files.len(),
        tracked_file_decision(listed_state(local, files[k]), listed_state(remote, files[k]))
            is Some,
    ensures
        already_recorded(
            detected_changes(local_root, remote_root, files, dirs, local, remote),
            files[k],
        ),
{
    lemma_tracked_file_is_recorded(files, k, local_root, remote_root, local, remote);
    lemma_tracked_dirs_extend(
        tracked_file_changes(files, local_root, remote_root, local, remote),
        dirs,
        local_root,
        remote_root,
        local,
        remote,
    );
}

/// A tracked file that is to be copied has a change among those of the
/// tracked files.
proof fn lemma_tracked_file_is_recorded(
    names: Seq<Seq<char>>,
    k: int,
    local_root: Seq<char>,
    remote_root: Seq<char>,
    local: Seq<ListedFileView>,
    remote: Seq<ListedFileView>,
)
    requires
        0 <= k < names.len(),
        tracked_file_decision(listed_state(local, names[k]), listed_state(remote, names[k]))
            is Some,
    ensures
        already_recorded(
            tracked_file_changes(names, local_root, remote_root, local, remote),
            names[k],
        ),
    decreases names.len(),
{
    let front = names.drop_last();
    let before = tracked_file_changes(front, local_root, remote_root, local, remote);
    let after = tracked_file_changes(names, local_root, remote_root, local, remote);
    if k < names.len() - 1 {
        assert(front[k] == names[k]);
        lemma_tracked_file_is_recorded(front, k, local_root, remote_root, local, remote);
        let i = choose|i: int| 0 <= i < before.len() && (#[trigger] before[i]).rel_path == names[k];
        if after != before {
            assert(after[i] == before[i]);
        }
    } else {
        assert(names.last() == names[k]);
        assert(after[after.len() - 1].rel_path == names[k]);
    }
}

/// Detection misses no file of a tracked directory: for one that the walk
/// of either side visits and that is to be copied, a change is recorded.
pub proof fn lemma_walked_files_are_covered(
    local_root: Seq<char>,
    remote_root: Seq<char>,
    files: Seq<Seq<char>>,
    dirs: Seq<Seq<char>>,
    local: Seq<ListedFileView>,
    remote: Seq<ListedFileView>,
    d: int,
    source: Side,
    i: int,
)
    requires
        0 <= d < dirs.len(),
        0 <= i < listing_of(source, local, remote).len(),
        visited_in_dir(listing_of(source, local, remote)[i].rel_path, dirs[d]),
        walked_file_decision(
            listing_of(source, local, remote)[i].state,
            listed_state(
                listing_of(opposite(source), local, remote),
                listing_of(source, local, remote)[i].rel_path,
            ),
        ) is Some,
    ensures
        already_recorded(
            detected_changes(local_root, remote_root, files, dirs, local, remote),
            listing_of(source, local, remote)[i].rel_path,
        ),
{
    lemma_tracked_dir_covers(
        tracked_file_changes(files, local_root, remote_root, local, remote),
        dirs,
        d,
        source,
        i,
        local_root,
        remote_root,
        local,
        remote,
    );
}

/// The walks of the tracked directories record a change for every file that
/// they visit and that is to be copied.
proof fn lemma_tracked_dir_covers(
    changes: Seq<ChangeView>,
    dirs: Seq<Seq<char>>,
    d: int,
    source: Side,
    i: int,
    local_root: Seq<char>,
    remote_root: Seq<char>,
    local: Seq<ListedFileView>,
    remote: Seq<ListedFileView>,
)
    requires
        0 <= d < dirs.len(),
        0 <= i < listing_of(source, local, remote).len(),
        visited_in_dir(listing_of(source, local, remote)[i].rel_path, dirs[d]),
        walked_file_decision(
            listing_of(source, local, remote)[i].state,
            listed_state(
                listing_of(opposite(source), local, remote),
                listing_of(source, local, remote)[i].rel_path,
            ),
        ) is Some,
    ensures
        already_recorded(
            tracked_dir_changes(changes, dirs, local_root, remote_root, local, remote),
            listing_of(source, local, remote)[i].rel_path,
        ),
    decreases dirs.len(),
{
    let path = listing_of(source, local, remote)[i].rel_path;
    let front = dirs.drop_last();
    let before = tracked_dir_changes(changes, front, local_root, remote_root, local, remote);
    let from_local = walk_changes(
        before,
        local,
        dirs.last(),
        Side::Local,
        local_root,
        remote_root,
        remote,
    );
    lemma_walk_extends(before, local, dirs.last(), Side::Local, local_root, remote_root, remote);
    lemma_walk_extends(
        from_local,
        remote,
        dirs.last(),
        Side::Remote,
        local_root,
        remote_root,
        local,
    );
    if d < dirs.len() - 1 {
        assert(front[d] == dirs[d]);
        lemma_tracked_dir_covers(
            changes,
            front,
            d,
            source,
            i,
            local_root,
            remote_root,
            local,
            remote,
        );
    } else {
        assert(dirs.last() == dirs[d]);
        match source {
            Side::Local => {
                lemma_walk_covers(
                    before,
                    local,
                    i,
                    dirs.last(),
                    Side::Local,
                    local_root,
                    remote_root,
                    remote,
                );
            },
            Side::Remote => {
                lemma_walk_covers(
                    from_local,
                    remote,
                    i,
                    dirs.last(),
                    Side::Remote,
                    local_root,
                    remote_root,
                    local,
                );
            },
        }
    }
}

/// Both sides hold the file, with the same content.
pub open spec fn in_sync(local: Option<FileStateView>, remote: Option<FileStateView>) -> bool {
    local is Some && remote is Some && local->0.sha256 == remote->0.sha256
}

/// A position at which a listing holds the state that it gives for `path`.
proof fn listed_index(listing: Seq<ListedFileView>, path: Seq<char>) -> (i: int)
    requires
        listed_state(listing, path) is Some,
    ensures
        0 <= i < listing.len(),
        listing[i].rel_path == path,
        listing[i].state == listed_state(listing, path),
    decreases listing.len(),
{
    if listing.first().rel_path == path {
        0
    } else {
        let rest = listing.drop_first();
        let k = listed_index(rest, path);
        assert(rest[k] == listing[k + 1]);
        k + 1
    }
}

/// A path that detection looks at and records no change for is settled.
proof fn lemma_unrecorded_path_is_settled(
    local_root: Seq<char>,
    remote_root: Seq<char>,
    files: Seq<Seq<char>>,
    dirs: Seq<Seq<char>>,
    local: Seq<ListedFileView>,
    remote: Seq<ListedFileView>,
    path: Seq<char>,
)
    requires
        tracked_path(path, files, dirs),
        !already_recorded(
            detected_changes(local_root, remote_root, files, dirs, local, remote),
            path,
        ),
    ensures
        settled(listed_state(local, path), listed_state(remote, path)),
{
    let here = listed_state(local, path);
    let there = listed_state(remote, path);
    if files.contains(path) {
        let k = choose|k: int| 0 <= k < files.len() && files[k] == path;
        if tracked_file_decision(here, there) is Some {
            lemma_tracked_files_are_covered(
                local_root,
                remote_root,
                files,
                dirs,
                local,
                remote,
                k,
            );
        }
    } else {
        let d = choose|d: int| 0 <= d < dirs.len() && visited_in_dir(path, #[trigger] dirs[d]);
        if here is Some {
            let i = listed_index(local, path);
            if walked_file_decision(local[i].state, there) is Some {
                lemma_walked_files_are_covered(
                    local_root,
                    remote_root,
                    files,
                    dirs,
                    local,
                    remote,
                    d,
                    Side::Local,
                    i,
                );
            }
        }
        if there is Some {
            let j = listed_index(remote, path);
            if walked_file_decision(remote[j].state, here) is Some {
                lemma_walked_files_are_covered(
                    local_root,
                    remote_root,
                    files,
                    dirs,
                    local,
                    remote,
                    d,
                    Side::Remote,
                    j,
                );
            }
        }
    }
}

/// Idempotence of detection: once every detected change has been applied,
/// detecting again finds nothing.
///
/// `local_after` and `remote_after` list the trees as they are after the
/// changes were applied and nothing else has happened: a file for which a
/// change was recorded is in sync, and every other file that detection looks
/// at is as it was.
pub proof fn lemma_detection_after_sync_finds_nothing(
    local_root: Seq<char>,
    remote_root: Seq<char>,
    files: Seq<Seq<char>>,
    dirs: Seq<Seq<char>>,
    local: Seq<ListedFileView>,
    remote: Seq<ListedFileView>,
    local_after: Seq<ListedFileView>,
    remote_after: Seq<ListedFileView>,
)
    requires
        unique_listing(local_after),
        unique_listing(remote_after),
        forall|path: Seq<char>| #[trigger]
            tracked_path(path, files, dirs) ==> (if already_recorded(
                detected_changes(local_root, remote_root, files, dirs, local, remote),
                path,
            ) {
                in_sync(listed_state(local_after, path), listed_state(remote_after, path))
            } else {
                listed_state(local_after, path) == listed_state(local, path) && listed_state(
                    remote_after,
                    path,
                ) == listed_state(remote, path)
            }),
    ensures
        detected_changes(local_root, remote_root, files, dirs, local_after, remote_after) == Seq::<
            ChangeView,
        >::empty(),
{
    let before = detected_changes(local_root, remote_root, files, dirs, local, remote);
    assert forall|path: Seq<char>| #[trigger] tracked_path(path, files, dirs) implies settled(
        listed_state(local_after, path),
        listed_state(remote_after, path),
    ) by {
        if !already_recorded(before, path) {
            lemma_unrecorded_path_is_settled(
                local_root,
                remote_root,
                files,
                dirs,
                local,
                remote,
                path,
            );
        }
    }
    lemma_settled_trees_have_no_changes(
        local_root,
        remote_root,
        files,
        dirs,
        local_after,
        remote_after,
    );
}

/// A walk records changes only for paths that it visits.
proof fn lemma_walk_records_tracked_paths(
    changes: Seq<ChangeView>,
    entries: Seq<ListedFileView>,
    dir: Seq<char>,
    source: Side,
    local_root: Seq<char>,
    remote_root: Seq<char>,
    other: Seq<ListedFileView>,
    files: Seq<Seq<char>>,
    dirs: Seq<Seq<char>>,
)
    requires
        dirs.contains(dir),
        forall|i: int|
            0 <= i < changes.len() ==> tracked_path((#[trigger] changes[i]).rel_path, files, dirs),
    ensures
        forall|i: int|
            0 <= i < walk_changes(
                changes,
                entries,
                dir,
                source,
                local_root,
                remote_root,
                other,
            ).len() ==> tracked_path(
                (#[trigger] walk_changes(
                    changes,
                    entries,
                    dir,
                    source,
                    local_root,
                    remote_root,
                    other,
                )[i]).rel_path,
                files,
                dirs,
            ),
    decreases entries.len(),
{
    if entries.len() > 0 {
        lemma_walk_records_tracked_paths(
            changes,
            entries.drop_last(),
            dir,
            source,
            local_root,
            remote_root,
            other,
            files,
            dirs,
        );
        let before = walk_changes(
            changes,
            entries.drop_last(),
            dir,
            source,
            local_root,
            remote_root,
            other,
        );
        let after = walk_changes(changes, entries, dir, source, local_root, remote_root, other);
        if after != before {
            let d = choose|d: int| 0 <= d < dirs.len() && dirs[d] == dir;
            assert(visited_in_dir(entries.last().rel_path, dirs[d]));
            assert forall|i: int| 0 <= i < after.len() implies tracked_path(
                (#[trigger] after[i]).rel_path,
                files,
                dirs,
            ) by {
                if i < before.len() {
                    assert(after[i] == before[i]);
                }
            }
        }
    }
}

/// The walks of tracked directories record changes only for paths that
/// they visit.
proof fn lemma_dirs_record_tracked_paths(
    changes: Seq<ChangeView>,
    walked: Seq<Seq<char>>,
    local_root: Seq<char>,
    remote_root: Seq<char>,
    local: Seq<ListedFileView>,
    remote: Seq<ListedFileView>,
    files: Seq<Seq<char>>,
    dirs: Seq<Seq<char>>,
)
    requires
        forall|k: int| 0 <= k < walked.len() ==> dirs.contains(#[trigger] walked[k]),
        forall|i: int|
            0 <= i < changes.len() ==> tracked_path((#[trigger] changes[i]).rel_path, files, dirs),
    ensures
        forall|i: int|
            0 <= i < tracked_dir_changes(
                changes,
                walked,
                local_root,
                remote_root,
                local,
                remote,
            ).len() ==> tracked_path(
                (#[trigger] tracked_dir_changes(
                    changes,
                    walked,
                    local_root,
                    remote_root,
                    local,
                    remote,
                )[i]).rel_path,
                files,
                dirs,
            ),
    decreases walked.len(),
{
    if walked.len() > 0 {
        let front = walked.drop_last();
        assert forall|k: int| 0 <= k < front.len() implies dirs.contains(#[trigger] front[k]) by {
            assert(front[k] == walked[k]);
        }
        lemma_dirs_record_tracked_paths(
            changes,
            front,
            local_root,
            remote_root,
            local,
            remote,
            files,
            dirs,
        );
        let before = tracked_dir_changes(changes, front, local_root, remote_root, local, remote);
        let dir = walked.last();
        assert(dir == walked[walked.len() - 1]);
        lemma_walk_records_tracked_paths(
            before,
            local,
            dir,
            Side::Local,
            local_root,
            remote_root,
            remote,
            files,
            dirs,
        );
        let from_local = walk_changes(
            before,
            local,
            dir,
            Side::Local,
            local_root,
            remote_root,
            remote,
        );
        lemma_walk_records_tracked_paths(
            from_local,
            remote,
            dir,
            Side::Remote,
            local_root,
            remote_root,
            local,
            files,
            dirs,
        );
    }
}

/// Detection records changes only for paths that it looks at: tracked
/// files, and files that the walk of a tracked directory visits.
pub proof fn lemma_detected_paths_are_tracked(
    local_root: Seq<char>,
    remote_root: Seq<char>,
    files: Seq<Seq<char>>,
    dirs: Seq<Seq<char>>,
    local: Seq<ListedFileView>,
    remote: Seq<ListedFileView>,
)
    ensures
        forall|i: int|
            0 <= i < detected_changes(local_root, remote_root, files, dirs, local, remote).len()
                ==> tracked_path(
                (#[trigger] detected_changes(
                    local_root,
                    remote_root,
                    files,
                    dirs,
                    local,
                    remote,
                )[i]).rel_path,
                files,
                dirs,
            ),
{
    lemma_tracked_file_records_are_named(files, local_root, remote_root, local, remote);
    assert forall|k: int| 0 <= k < dirs.len() implies dirs.contains(#[trigger] dirs[k]) by {}
    lemma_dirs_record_tracked_paths(
        tracked_file_changes(files, local_root, remote_root, local, remote),
        dirs,
        local_root,
        remote_root,
        local,
        remote,
        files,
        dirs,
    );
}

/// Some change that was recorded for `path` has been applied.
pub open spec fn path_was_applied(
    changes: Seq<ChangeView>,
    path: Seq<char>,
    applied: spec_fn(ChangeView) -> bool,
) -> bool {
    exists|k: int| 0 <= k < changes.len() && (#[trigger] changes[k]).rel_path == path && applied(
        changes[k],
    )
}

/// Detection after a sync that applied only some of the changes finds
/// those again that were left, and nothing else.
///
/// `applied` tells which of the changes that were detected before have been
/// applied. `local_after` and `remote_after` list the trees as they are
/// then, nothing else having happened: a file for which a change was
/// applied is in sync, and every other file that detection looks at is as it
/// was.
pub proof fn lemma_detection_finds_what_was_left(
    local_root: Seq<char>,
    remote_root: Seq<char>,
    files: Seq<Seq<char>>,
    dirs: Seq<Seq<char>>,
    local: Seq<ListedFileView>,
    remote: Seq<ListedFileView>,
    local_after: Seq<ListedFileView>,
    remote_after: Seq<ListedFileView>,
    applied: spec_fn(ChangeView) -> bool,
)
    requires
        unique_listing(local),
        unique_listing(remote),
        unique_listing(local_after),
        unique_listing(remote_after),
        forall|path: Seq<char>| #[trigger]
            tracked_path(path, files, dirs) ==> (if path_was_applied(
                detected_changes(local_root, remote_root, files, dirs, local, remote),
                path,
                applied,
            ) {
                in_sync(listed_state(local_after, path), listed_state(remote_after, path))
            } else {
                listed_state(local_after, path) == listed_state(local, path) && listed_state(
                    remote_after,
                    path,
                ) == listed_state(remote, path)
            }),
    ensures
        forall|i: int|
            0 <= i < detected_changes(
                local_root,
                remote_root,
                files,
                dirs,
                local_after,
                remote_after,
            ).len() ==> !applied(
                #[trigger] detected_changes(
                    local_root,
                    remote_root,
                    files,
                    dirs,
                    local_after,
                    remote_after,
                )[i],
            ) && detected_changes(local_root, remote_root, files, dirs, local, remote).contains(
                detected_changes(local_root, remote_root, files, dirs, local_after, remote_after)[i],
            ),
{
    let first = detected_changes(local_root, remote_root, files, dirs, local, remote);
    let second = detected_changes(local_root, remote_root, files, dirs, local_after, remote_after);
    lemma_detected_paths_are_tracked(local_root, remote_root, files, dirs, local_after, remote_after);
    lemma_detected_changes_are_justified(
        local_root,
        remote_root,
        files,
        dirs,
        local_after,
        remote_after,
    );
    lemma_detected_changes_are_justified(local_root, remote_root, files, dirs, local, remote);
    assert forall|i: int| 0 <= i < second.len() implies !applied(#[trigger] second[i])
        && first.contains(second[i]) by {
        let again = second[i];
        let path = again.rel_path;
        assert(tracked_path(path, files, dirs));
        assert(justified(again, local_root, remote_root, local_after, remote_after));
        // A file that is in sync calls for no change, so no change for this
        // path was applied before.
        assert(!path_was_applied(first, path, applied)) by {
            if path_was_applied(first, path, applied) {
                assert(in_sync(listed_state(local_after, path), listed_state(remote_after, path)));
            }
        }
        // Nor does a settled file, so a change for it was recorded before.
        assert(already_recorded(first, path)) by {
            if !already_recorded(first, path) {
                lemma_unrecorded_path_is_settled(
                    local_root,
                    remote_root,
                    files,
                    dirs,
                    local,
                    remote,
                    path,
                );
            }
        }
        let k = choose|k: int| 0 <= k < first.len() && (#[trigger] first[k]).rel_path == path;
        let before = first[k];
        assert(justified(before, local_root, remote_root, local, remote));
        assert(!applied(before));
        assert(before == again);
    }
}

} // verus!
