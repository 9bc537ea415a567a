//! The backup that every pass takes before it changes anything: where it
//! goes, and when it may be thrown away again.

use crate::detect::{find_listed, listed_state, unique_listing, ListedFile, ListedFileView};
use crate::text::{chars_of, join_path, joined, matches_at, strip_bounds, trimmed, Strip};
use vstd::slice::slice_subrange;
use vstd::prelude::*;

verus! {

/// The format of the timestamp in the name of a backup: the date, an
/// underscore, the time of day.
pub open spec fn stamp_format() -> Seq<char> {
    "%Y%m%d_%H%M%S"@
}

/// `chrono::Local::now`, written out by `format`: the current local time
/// as text. Writing fails on a malformed format, so only the one format
/// that is used here is let in. Nothing is promised of the text. A clock
/// that stands before the year 1970 is more than `chrono` puts up with: it
/// panics.
#[verifier::external_body]
fn local_time_text(format: &str) -> (text: String)
    requires
        format@ == stamp_format(),
{
    chrono::Local::now().format(format).to_string()
}

/// The current local time as the timestamp for the name of a backup.
pub(crate) fn local_stamp() -> (stamp: String) {
    local_time_text("%Y%m%d_%H%M%S")
}

/// The directory under which backups are kept: the home directory, or
/// `/tmp` where there is none.
pub open spec fn backup_base(home: Option<Seq<char>>) -> Seq<char> {
    match home {
        Some(dir) => dir,
        None => "/tmp"@,
    }
}

/// The path of the backup taken at `stamp`.
pub open spec fn backup_path_for(home: Option<Seq<char>>, stamp: Seq<char>) -> Seq<char> {
    backup_base(home) + "/.claude_backup."@ + stamp
}

/// The path of the marker that names the last backup.
pub open spec fn marker_path_for(home: Option<Seq<char>>) -> Seq<char> {
    joined(backup_base(home), ".claude_sync_last_backup"@)
}

/// The directory under which backups are kept.
pub fn backup_base_dir(home: Option<&str>) -> (base: String)
    ensures
        base@ == backup_base(home.deep_view()),
{
    match home {
        Some(dir) => dir.to_owned(),
        None => "/tmp".to_owned(),
    }
}

/// Where the backup taken at `stamp` goes.
pub fn backup_path(home: Option<&str>, stamp: &str) -> (path: String)
    ensures
        path@ == backup_path_for(home.deep_view(), stamp@),
{
    let mut path = backup_base_dir(home);
    path.append("/.claude_backup.");
    path.append(stamp);
    path
}

/// Where the marker that names the last backup is kept.
pub fn marker_path(home: Option<&str>) -> (path: String)
    ensures
        path@ == marker_path_for(home.deep_view()),
{
    let base = backup_base_dir(home);
    join_path(base.as_str(), ".claude_sync_last_backup")
}

/// The two listings hold the same files: equally many, and each file of the
/// first is in the second with the same content hash. A file that could not
/// be read is like no other.
pub open spec fn same_content(first: Seq<ListedFileView>, second: Seq<ListedFileView>) -> bool {
    &&& first.len() == second.len()
    &&& forall|i: int|
        0 <= i < first.len() ==> {
            let mine = (#[trigger] first[i]).state;
            let theirs = listed_state(second, first[i].rel_path);
            mine is Some && theirs is Some && mine->0.sha256 == theirs->0.sha256
        }
}

/// Two directories are identical when both exist and their listings hold
/// the same files.
pub open spec fn identical_dirs(
    first: Option<Seq<ListedFileView>>,
    second: Option<Seq<ListedFileView>>,
) -> bool {
    first is Some && second is Some && same_content(first->0, second->0)
}

/// A listing as a sequence of entry views, or `None` where the directory
/// does not exist.
pub open spec fn listing_view(listing: Option<&Vec<ListedFile>>) -> Option<Seq<ListedFileView>> {
    match listing {
        Some(files) => Some(files.deep_view()),
        None => None,
    }
}

/// Tells whether two directories have identical content. Each is given by
/// the listing of all its files, or `None` where it does not exist.
pub fn dirs_are_identical(dir1: Option<&Vec<ListedFile>>, dir2: Option<&Vec<ListedFile>>) -> (same:
    bool)
    ensures
        same == identical_dirs(listing_view(dir1), listing_view(dir2)),
{
    let (files1, files2) = match (dir1, dir2) {
        (Some(a), Some(b)) => (a, b),
        _ => {
            return false;
        },
    };
    if files1.len() != files2.len() {
        return false;
    }
    let mut i: usize = 0;
    while i < files1.len()
        invariant
            i <= files1.len(),
            files1.len() == files2.len(),
            dir1 == Some(files1),
            dir2 == Some(files2),
            forall|j: int|
                0 <= j < i ==> {
                    let mine = (#[trigger] files1.deep_view()[j]).state;
                    let theirs = listed_state(files2.deep_view(), files1.deep_view()[j].rel_path);
                    mine is Some && theirs is Some && mine->0.sha256 == theirs->0.sha256
                },
        decreases files1.len() - i,
    {
        let theirs = find_listed(files2, &files1[i].rel_path);
        let ghost entry = files1.deep_view()[i as int];
        assert(entry == files1[i as int]@);
        let alike = match (&files1[i].state, theirs) {
            (Some(a), Some(b)) => a.sha256 == b.sha256,
            _ => false,
        };
        if !alike {
            assert(!same_content(files1.deep_view(), files2.deep_view())) by {
                let mine = files1.deep_view()[i as int].state;
                let found = listed_state(files2.deep_view(), files1.deep_view()[i as int].rel_path);
                assert(!(mine is Some && found is Some && mine->0.sha256 == found->0.sha256));
            }
            return false;
        }
        i += 1;
    }
    true
}

/// A tree whose files can all be read is identical to itself: a backup of
/// a tree that was not changed since may be thrown away.
pub proof fn lemma_unchanged_tree_is_identical(listing: Seq<ListedFileView>)
    requires
        unique_listing(listing),
        forall|i: int| 0 <= i < listing.len() ==> (#[trigger] listing[i]).state is Some,
    ensures
        identical_dirs(Some(listing), Some(listing)),
{
    assert forall|i: int| 0 <= i < listing.len() implies {
        let mine = (#[trigger] listing[i]).state;
        let theirs = listed_state(listing, listing[i].rel_path);
        mine is Some && theirs is Some && mine->0.sha256 == theirs->0.sha256
    } by {
        crate::detect::lemma_unique_listing_lookup(listing, i);
    }
}

/// The marker's content names `backup`: it is that path, with nothing but
/// white space around it.
pub open spec fn marker_names(stored: Seq<char>, backup: Seq<char>) -> bool {
    trimmed(stored) == backup
}

/// Tells whether the marker, which holds `stored`, points at `backup`.
pub fn marker_points_to(stored: &str, backup: &str) -> (points: bool)
    ensures
        points == marker_names(stored@, backup@),
{
    let text = chars_of(stored);
    let wanted = chars_of(backup);
    let (start, end) = strip_bounds(text.as_slice(), 0, text.len(), Strip::Space);
    assert(text@.subrange(0, text.len() as int) =~= text@);
    let inner = slice_subrange(text.as_slice(), start, end);
    if inner.len() != wanted.len() {
        return false;
    }
    let same = matches_at(inner, 0, wanted.as_slice());
    assert(inner@.subrange(0, wanted@.len() as int) =~= inner@);
    same
}

} // verus!
