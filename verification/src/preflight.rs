//! Pre-flight validation: what is wrong with the files that a pass would
//! copy, found out without copying anything.
//!
//! The caller looks at the files and reports what it saw of each as a
//! `SourceProbe`; the rules that turn probes into complaints are here.

use crate::json::{JsonProbe, JsonProbeView};
use crate::text::{
    chars_of, concat_text, has_json_extension, join_path, joined, path_has_json_extension, quote,
    quoted,
};
use vstd::prelude::*;

verus! {

/// What was seen of one file: its path relative to the root, its length
/// (`None` where it could not be had) and the verdict on its JSON.
#[derive(Debug)]
pub struct SourceProbe {
    pub rel_path: String,
    pub len: Option<u64>,
    pub json: JsonProbe,
}

/// What a `SourceProbe` says, as plain mathematics.
pub ghost struct SourceProbeView {
    pub rel_path: Seq<char>,
    pub len: Option<u64>,
    pub json: JsonProbeView,
}

impl View for SourceProbe {
    type V = SourceProbeView;

    open spec fn view(&self) -> SourceProbeView {
        SourceProbeView { rel_path: self.rel_path@, len: self.len, json: self.json@ }
    }
}

impl DeepView for SourceProbe {
    type V = SourceProbeView;

    open spec fn deep_view(&self) -> SourceProbeView {
        self@
    }
}

/// What was seen of one tree: whether its root exists, the tracked files
/// that exist, and the files found in the tracked directories.
#[derive(Debug)]
pub struct TreeProbe {
    pub exists: bool,
    pub files: Vec<SourceProbe>,
    pub dir_entries: Vec<SourceProbe>,
}

/// What a `TreeProbe` says, as plain mathematics.
pub ghost struct TreeProbeView {
    pub exists: bool,
    pub files: Seq<SourceProbeView>,
    pub dir_entries: Seq<SourceProbeView>,
}

impl View for TreeProbe {
    type V = TreeProbeView;

    open spec fn view(&self) -> TreeProbeView {
        TreeProbeView {
            exists: self.exists,
            files: self.files.deep_view(),
            dir_entries: self.dir_entries.deep_view(),
        }
    }
}

/// The complaint about the JSON of a file, if there is one: only a file
/// with the extension `json` is held to it.
pub open spec fn json_complaint(probe: SourceProbeView, root: Seq<char>) -> Seq<Seq<char>> {
    if has_json_extension(probe.rel_path) {
        match probe.json {
            JsonProbeView::Unreadable(_) => seq![
                probe.rel_path + ": Failed to read JSON file: "@ + quoted(
                    joined(root, probe.rel_path),
                ),
            ],
            JsonProbeView::Invalid(_) => seq![
                probe.rel_path + ": Invalid JSON in file: "@ + quoted(joined(root, probe.rel_path)),
            ],
            _ => Seq::empty(),
        }
    } else {
        Seq::empty()
    }
}

/// The complaints about a tracked file: that it is empty, or else what is
/// wrong with its JSON.
pub open spec fn tracked_file_complaints(probe: SourceProbeView, root: Seq<char>) -> Seq<
    Seq<char>,
> {
    if probe.len == Some(0u64) {
        seq![probe.rel_path + " is empty (Dropbox may still be syncing)"@]
    } else {
        json_complaint(probe, root)
    }
}

/// The complaints about a file in a tracked directory: that it is empty,
/// and what is wrong with its JSON.
pub open spec fn dir_entry_complaints(probe: SourceProbeView, root: Seq<char>) -> Seq<Seq<char>> {
    if probe.len == Some(0u64) {
        seq![probe.rel_path + " is empty"@] + json_complaint(probe, root)
    } else {
        json_complaint(probe, root)
    }
}

/// The complaints about a list of files, in order.
pub open spec fn all_complaints(
    probes: Seq<SourceProbeView>,
    root: Seq<char>,
    tracked_files: bool,
) -> Seq<Seq<char>>
    decreases probes.len(),
{
    if probes.len() == 0 {
        Seq::empty()
    } else {
        all_complaints(probes.drop_last(), root, tracked_files) + (if tracked_files {
            tracked_file_complaints(probes.last(), root)
        } else {
            dir_entry_complaints(probes.last(), root)
        })
    }
}

/// The complaints about a tree: none where its root does not exist, else
/// those about the tracked files followed by those about the files in the
/// tracked directories.
pub open spec fn tree_complaints(tree: TreeProbeView, root: Seq<char>) -> Seq<Seq<char>> {
    if tree.exists {
        all_complaints(tree.files, root, true) + all_complaints(tree.dir_entries, root, false)
    } else {
        Seq::empty()
    }
}

/// Appends `items` to `list`.
pub fn append_all(list: &mut Vec<String>, items: Vec<String>)
    ensures
        final(list).deep_view() == old(list).deep_view() + items.deep_view(),
{
    let mut i: usize = 0;
    assert(items.deep_view().take(0) =~= Seq::<Seq<char>>::empty());
    assert(list.deep_view() =~= old(list).deep_view() + items.deep_view().take(0));
    while i < items.len()
        invariant
            i <= items.len(),
            list.deep_view() == old(list).deep_view() + items.deep_view().take(i as int),
        decreases items.len() - i,
    {
        let ghost before = list.deep_view();
        let item = items[i].clone();
        list.push(item);
        assert(list.deep_view() =~= before.push(item@));
        assert(before.push(item@) =~= old(list).deep_view() + items.deep_view().take(i + 1));
        i += 1;
    }
    assert(items.deep_view().take(i as int) =~= items.deep_view());
}

/// Finds what is wrong with the JSON of one file.
pub fn check_json(probe: &SourceProbe, root: &str) -> (complaints: Vec<String>)
    ensures
        complaints.deep_view() == json_complaint(probe@, root@),
{
    let mut complaints: Vec<String> = Vec::new();
    assert(complaints.deep_view() =~= Seq::<Seq<char>>::empty());
    let rel_chars = chars_of(probe.rel_path.as_str());
    if !path_has_json_extension(rel_chars.as_slice()) {
        return complaints;
    }
    let intro: &str = match probe.json {
        JsonProbe::Unreadable(_) => ": Failed to read JSON file: ",
        JsonProbe::Invalid(_) => ": Invalid JSON in file: ",
        _ => {
            return complaints;
        },
    };
    let full = join_path(root, probe.rel_path.as_str());
    let mut text = concat_text(probe.rel_path.as_str(), intro);
    text.append(quote(full.as_str()).as_str());
    complaints.push(text);
    assert(complaints.deep_view() =~= seq![text@]);
    complaints
}

/// Finds what is wrong with one tracked file.
pub fn check_tracked_file(probe: &SourceProbe, root: &str) -> (complaints: Vec<String>)
    ensures
        complaints.deep_view() == tracked_file_complaints(probe@, root@),
{
    let empty = match probe.len {
        Some(len) => len == 0,
        None => false,
    };
    if empty {
        let mut complaints: Vec<String> = Vec::new();
        let text = concat_text(probe.rel_path.as_str(), " is empty (Dropbox may still be syncing)");
        complaints.push(text);
        assert(complaints.deep_view() =~= seq![text@]);
        complaints
    } else {
        check_json(probe, root)
    }
}

/// Finds what is wrong with one file of a tracked directory.
pub fn check_dir_entry(probe: &SourceProbe, root: &str) -> (complaints: Vec<String>)
    ensures
        complaints.deep_view() == dir_entry_complaints(probe@, root@),
{
    let empty = match probe.len {
        Some(len) => len == 0,
        None => false,
    };
    let mut complaints: Vec<String> = Vec::new();
    assert(complaints.deep_view() =~= Seq::<Seq<char>>::empty());
    if empty {
        let text = concat_text(probe.rel_path.as_str(), " is empty");
        complaints.push(text);
        assert(complaints.deep_view() =~= seq![text@]);
    }
    let ghost before = complaints.deep_view();
    append_all(&mut complaints, check_json(probe, root));
    assert(Seq::<Seq<char>>::empty() + json_complaint(probe@, root@) =~= json_complaint(
        probe@,
        root@,
    ));
    complaints
}

/// Finds what is wrong with each of `probes`, in order.
pub fn check_all(probes: &Vec<SourceProbe>, root: &str, tracked_files: bool) -> (complaints: Vec<
    String,
>)
    ensures
        complaints.deep_view() == all_complaints(probes.deep_view(), root@, tracked_files),
{
    let mut complaints: Vec<String> = Vec::new();
    assert(complaints.deep_view() =~= Seq::<Seq<char>>::empty());
    assert(probes.deep_view().take(0) =~= Seq::<SourceProbeView>::empty());
    let mut i: usize = 0;
    while i < probes.len()
        invariant
            i <= probes.len(),
            complaints.deep_view() == all_complaints(
                probes.deep_view().take(i as int),
                root@,
                tracked_files,
            ),
        decreases probes.len() - i,
    {
        proof {
            let upto = probes.deep_view().take(i + 1);
            assert(upto.drop_last() =~= probes.deep_view().take(i as int));
            assert(upto.last() == probes[i as int]@);
        }
        let found = if tracked_files {
            check_tracked_file(&probes[i], root)
        } else {
            check_dir_entry(&probes[i], root)
        };
        append_all(&mut complaints, found);
        i += 1;
    }
    assert(probes.deep_view().take(i as int) =~= probes.deep_view());
    complaints
}

/// Finds what is wrong with the files of the tree at `root`.
pub fn check_tree(tree: &TreeProbe, root: &str) -> (complaints: Vec<String>)
    ensures
        complaints.deep_view() == tree_complaints(tree@, root@),
{
    let mut complaints: Vec<String> = Vec::new();
    assert(complaints.deep_view() =~= Seq::<Seq<char>>::empty());
    if !tree.exists {
        return complaints;
    }
    append_all(&mut complaints, check_all(&tree.files, root, true));
    append_all(&mut complaints, check_all(&tree.dir_entries, root, false));
    assert(Seq::<Seq<char>>::empty() + all_complaints(tree@.files, root@, true) =~= all_complaints(
        tree@.files,
        root@,
        true,
    ));
    complaints
}

} // verus!
