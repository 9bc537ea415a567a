//! A pass as a whole: what the applying of all detected changes comes to.
//!
//! A pass deals with its changes one by one (`SyncPass::next_copy`,
//! `SyncPass::copy_finished`). Here the steps are put together, and the laws
//! of a whole pass are proved of them: what is counted as copied and as
//! skipped, which warnings are left, and which entries of the state are
//! touched, for a change at any position and with whatever goes on around it.

use crate::copy::CopyErrorView;
use crate::backup::identical_dirs;
use crate::detect::{
    detected_changes, in_sync, listed_state, path_was_applied, tracked_path, unique_listing,
    unique_records, ChangeView, ListedFileView,
};
use crate::state::{FileStateView, SyncStateView, Timestamp};
use crate::sync::{
    copy_warning, eligible, lemma_first_eligible, Phase, SyncDirection, SyncPassView,
    SyncResultView,
};
use crate::text::is_under;
use vstd::prelude::*;

verus! {

/// What becomes of a change in a pass.
pub ghost enum Fate {
    /// The direction rules it out: it is not handed out for copying.
    Skipped,
    /// It was handed out, and the copy went well.
    Copied,
    /// It was handed out, and the copy failed.
    Failed,
}

/// What becomes of `change` in a pass in direction `direction`, if its copy,
/// should it come to that, ends as `outcome`.
pub open spec fn fate_of(
    change: ChangeView,
    outcome: Result<Option<FileStateView>, CopyErrorView>,
    direction: SyncDirection,
    local_root: Seq<char>,
    remote_root: Seq<char>,
) -> Fate {
    if !eligible(direction, change.src, local_root, remote_root) {
        Fate::Skipped
    } else if outcome is Ok {
        Fate::Copied
    } else {
        Fate::Failed
    }
}

/// The copy went well and the state of the destination could be read: the
/// one outcome that touches the state.
pub open spec fn records_state(outcome: Result<Option<FileStateView>, CopyErrorView>) -> bool {
    outcome is Ok && outcome->Ok_0 is Some
}

/// The pass after it has dealt with the change at the cursor: passed over
/// it where the direction rules it out, else handed it out and taken
/// `outcome` as the end of its copy, at time `now`.
pub open spec fn after_change(
    pass: SyncPassView,
    outcome: Result<Option<FileStateView>, CopyErrorView>,
    now: Timestamp,
) -> SyncPassView {
    if pass.phase != Phase::Applying || pass.cursor() >= pass.changes.len() {
        pass
    } else if pass.awaits_copy() {
        pass.after_copy(outcome, now)
    } else {
        SyncPassView { skipped: pass.skipped + 1nat, ..pass }
    }
}

/// The pass after it has dealt with all the changes that were left, the
/// copy of the change at position `i` ending as `outcomes(i)` at time
/// `times(i)`.
pub open spec fn after_applying(
    pass: SyncPassView,
    outcomes: spec_fn(int) -> Result<Option<FileStateView>, CopyErrorView>,
    times: spec_fn(int) -> Timestamp,
) -> SyncPassView
    decreases pass.changes.len() - pass.cursor(),
{
    if pass.phase != Phase::Applying {
        pass
    } else if pass.cursor() >= pass.changes.len() {
        SyncPassView { phase: Phase::Persisting, ..pass }
    } else {
        after_applying(
            after_change(pass, outcomes(pass.cursor()), times(pass.cursor())),
            outcomes,
            times,
        )
    }
}

/// The number of changes from position `from` on that are copied.
pub open spec fn copied_from(
    changes: Seq<ChangeView>,
    from: int,
    outcomes: spec_fn(int) -> Result<Option<FileStateView>, CopyErrorView>,
    direction: SyncDirection,
    local_root: Seq<char>,
    remote_root: Seq<char>,
) -> nat
    decreases changes.len() - from,
{
    if from < 0 || from >= changes.len() {
        0
    } else {
        let rest = copied_from(changes, from + 1, outcomes, direction, local_root, remote_root);
        if fate_of(changes[from], outcomes(from), direction, local_root, remote_root)
            == Fate::Copied {
            rest + 1
        } else {
            rest
        }
    }
}

/// The warnings that the changes from position `from` on leave: one for
/// each copy that fails, in the order of the changes.
pub open spec fn warnings_from(
    changes: Seq<ChangeView>,
    from: int,
    outcomes: spec_fn(int) -> Result<Option<FileStateView>, CopyErrorView>,
    direction: SyncDirection,
    local_root: Seq<char>,
    remote_root: Seq<char>,
) -> Seq<Seq<char>>
    decreases changes.len() - from,
{
    if from < 0 || from >= changes.len() {
        Seq::empty()
    } else {
        let rest = warnings_from(changes, from + 1, outcomes, direction, local_root, remote_root);
        if fate_of(changes[from], outcomes(from), direction, local_root, remote_root)
            == Fate::Failed {
            seq![copy_warning(changes[from], outcomes(from)->Err_0)] + rest
        } else {
            rest
        }
    }
}

/// The whole is made of the steps: dealing with all changes that are left
/// is moving on to the next change that the direction allows
/// (`SyncPass::next_copy`), taking the end of its copy
/// (`SyncPass::copy_finished_at`), and dealing with the rest.
pub proof fn lemma_applying_goes_by_the_steps(
    pass: SyncPassView,
    outcomes: spec_fn(int) -> Result<Option<FileStateView>, CopyErrorView>,
    times: spec_fn(int) -> Timestamp,
)
    requires
        pass.phase == Phase::Applying,
        pass.cursor() <= pass.changes.len(),
    ensures
        ({
            let at = pass.after_advance();
            after_applying(pass, outcomes, times) == (if at.phase == Phase::Applying {
                after_applying(
                    at.after_copy(outcomes(at.cursor()), times(at.cursor())),
                    outcomes,
                    times,
                )
            } else {
                at
            })
        }),
    decreases pass.changes.len() - pass.cursor(),
{
    let at = pass.after_advance();
    lemma_first_eligible(
        pass.changes,
        pass.cursor(),
        pass.direction,
        pass.local_root,
        pass.remote_root,
    );
    if pass.cursor() >= pass.changes.len() {
        assert(at == (SyncPassView { phase: Phase::Persisting, ..pass }));
    } else if pass.awaits_copy() {
        assert(at == pass);
    } else {
        let next = after_change(pass, outcomes(pass.cursor()), times(pass.cursor()));
        lemma_first_eligible(
            pass.changes,
            pass.cursor() + 1,
            pass.direction,
            pass.local_root,
            pass.remote_root,
        );
        assert(next.after_advance() == at);
        lemma_applying_goes_by_the_steps(next, outcomes, times);
    }
}

/// What a pass comes to. Every change that was left is dealt with: the
/// pass goes on to persist the state, having counted each change once, as
/// copied where its copy went well and as skipped where the direction ruled
/// it out or its copy failed. Each failed copy has left its warning, and no
/// other warning was added.
pub proof fn lemma_applying_sums_up(
    pass: SyncPassView,
    outcomes: spec_fn(int) -> Result<Option<FileStateView>, CopyErrorView>,
    times: spec_fn(int) -> Timestamp,
)
    requires
        pass.phase == Phase::Applying,
        pass.cursor() <= pass.changes.len(),
    ensures
        ({
            let done = after_applying(pass, outcomes, times);
            &&& done.phase == Phase::Persisting
            &&& done.failure == pass.failure
            &&& done.changes == pass.changes
            &&& done.direction == pass.direction
            &&& done.local_root == pass.local_root
            &&& done.remote_root == pass.remote_root
            &&& done.backup_path == pass.backup_path
            &&& done.copied + done.skipped == pass.changes.len()
            &&& done.copied == pass.copied + copied_from(
                pass.changes,
                pass.cursor(),
                outcomes,
                pass.direction,
                pass.local_root,
                pass.remote_root,
            )
            &&& done.warnings == pass.warnings + warnings_from(
                pass.changes,
                pass.cursor(),
                outcomes,
                pass.direction,
                pass.local_root,
                pass.remote_root,
            )
            &&& done.state.version == pass.state.version
            &&& done.state.machine_id == pass.state.machine_id
        }),
    decreases pass.changes.len() - pass.cursor(),
{
    if pass.cursor() < pass.changes.len() {
        let next = after_change(pass, outcomes(pass.cursor()), times(pass.cursor()));
        lemma_applying_sums_up(next, outcomes, times);
        let rest = warnings_from(
            pass.changes,
            pass.cursor() + 1,
            outcomes,
            pass.direction,
            pass.local_root,
            pass.remote_root,
        );
        let done = after_applying(pass, outcomes, times);
        assert(done.warnings =~= pass.warnings + warnings_from(
            pass.changes,
            pass.cursor(),
            outcomes,
            pass.direction,
            pass.local_root,
            pass.remote_root,
        )) by {
            if next.warnings != pass.warnings {
                let warning = copy_warning(
                    pass.changes[pass.cursor()],
                    outcomes(pass.cursor())->Err_0,
                );
                assert(pass.warnings.push(warning) + rest =~= pass.warnings + (seq![warning]
                    + rest));
            }
        }
    } else {
        assert(pass.warnings + Seq::<Seq<char>>::empty() =~= pass.warnings);
    }
}

/// A copy that failed has left its warning, wherever in the pass it stood.
pub proof fn lemma_failed_change_is_warned_of(
    changes: Seq<ChangeView>,
    from: int,
    i: int,
    outcomes: spec_fn(int) -> Result<Option<FileStateView>, CopyErrorView>,
    direction: SyncDirection,
    local_root: Seq<char>,
    remote_root: Seq<char>,
)
    requires
        0 <= from <= i < changes.len(),
        fate_of(changes[i], outcomes(i), direction, local_root, remote_root) == Fate::Failed,
    ensures
        warnings_from(changes, from, outcomes, direction, local_root, remote_root).contains(
            copy_warning(changes[i], outcomes(i)->Err_0),
        ),
    decreases i - from,
{
    let all = warnings_from(changes, from, outcomes, direction, local_root, remote_root);
    let rest = warnings_from(changes, from + 1, outcomes, direction, local_root, remote_root);
    let wanted = copy_warning(changes[i], outcomes(i)->Err_0);
    if from == i {
        assert(all[0] == wanted);
    } else {
        lemma_failed_change_is_warned_of(
            changes,
            from + 1,
            i,
            outcomes,
            direction,
            local_root,
            remote_root,
        );
        let k = choose|k: int| 0 <= k < rest.len() && rest[k] == wanted;
        if all.len() == rest.len() {
            assert(all[k] == wanted);
        } else {
            assert(all[k + 1] == wanted);
        }
    }
}

/// There are as many warnings as copies that failed, and as many copied as
/// copies that went well: a change counts at most once, and one that is
/// skipped or has failed is not among the copied.
pub proof fn lemma_each_change_counts_once(
    changes: Seq<ChangeView>,
    from: int,
    outcomes: spec_fn(int) -> Result<Option<FileStateView>, CopyErrorView>,
    direction: SyncDirection,
    local_root: Seq<char>,
    remote_root: Seq<char>,
)
    requires
        0 <= from <= changes.len(),
    ensures
        copied_from(changes, from, outcomes, direction, local_root, remote_root) + warnings_from(
            changes,
            from,
            outcomes,
            direction,
            local_root,
            remote_root,
        ).len() <= changes.len() - from,
        (forall|i: int|
            from <= i < changes.len() ==> fate_of(
                #[trigger] changes[i],
                outcomes(i),
                direction,
                local_root,
                remote_root,
            ) == Fate::Skipped) ==> copied_from(
            changes,
            from,
            outcomes,
            direction,
            local_root,
            remote_root,
        ) == 0 && warnings_from(
            changes,
            from,
            outcomes,
            direction,
            local_root,
            remote_root,
        ).len() == 0,
    decreases changes.len() - from,
{
    if from < changes.len() {
        lemma_each_change_counts_once(
            changes,
            from + 1,
            outcomes,
            direction,
            local_root,
            remote_root,
        );
    }
}

/// The state is touched at the paths of successful copies only: the entry
/// of a path for which no copy went well, with the destination read, is
/// after the pass what it was before.
pub proof fn lemma_applying_keeps_other_entries(
    pass: SyncPassView,
    outcomes: spec_fn(int) -> Result<Option<FileStateView>, CopyErrorView>,
    times: spec_fn(int) -> Timestamp,
    path: Seq<char>,
)
    requires
        pass.phase == Phase::Applying,
        pass.cursor() <= pass.changes.len(),
        forall|i: int|
            pass.cursor() <= i < pass.changes.len() && (#[trigger] pass.changes[i]).rel_path
                == path ==> !(eligible(
                pass.direction,
                pass.changes[i].src,
                pass.local_root,
                pass.remote_root,
            ) && records_state(outcomes(i))),
    ensures
        after_applying(pass, outcomes, times).state.files.dom().contains(path)
            == pass.state.files.dom().contains(path),
        pass.state.files.dom().contains(path) ==> after_applying(
            pass,
            outcomes,
            times,
        ).state.files[path] == pass.state.files[path],
    decreases pass.changes.len() - pass.cursor(),
{
    if pass.cursor() < pass.changes.len() {
        let next = after_change(pass, outcomes(pass.cursor()), times(pass.cursor()));
        let change = pass.changes[pass.cursor()];
        assert(next.changes == pass.changes);
        lemma_applying_keeps_other_entries(next, outcomes, times, path);
    }
}

/// A change whose copy did not go through, be it ruled out by the direction
/// or failed, at whatever position: the entry of the state for its path is
/// after the pass what it was before, so that the next detection finds the
/// change again.
pub proof fn lemma_unapplied_change_keeps_its_entry(
    pass: SyncPassView,
    outcomes: spec_fn(int) -> Result<Option<FileStateView>, CopyErrorView>,
    times: spec_fn(int) -> Timestamp,
    i: int,
)
    requires
        pass.phase == Phase::Applying,
        unique_records(pass.changes),
        pass.cursor() <= i < pass.changes.len(),
        fate_of(
            pass.changes[i],
            outcomes(i),
            pass.direction,
            pass.local_root,
            pass.remote_root,
        ) != Fate::Copied,
    ensures
        after_applying(pass, outcomes, times).state.files.dom().contains(pass.changes[i].rel_path)
            == pass.state.files.dom().contains(pass.changes[i].rel_path),
        pass.state.files.dom().contains(pass.changes[i].rel_path) ==> after_applying(
            pass,
            outcomes,
            times,
        ).state.files[pass.changes[i].rel_path] == pass.state.files[pass.changes[i].rel_path],
{
    let path = pass.changes[i].rel_path;
    assert forall|j: int|
        pass.cursor() <= j < pass.changes.len() && (#[trigger] pass.changes[j]).rel_path
            == path implies !(eligible(
        pass.direction,
        pass.changes[j].src,
        pass.local_root,
        pass.remote_root,
    ) && records_state(outcomes(j))) by {
        if j != i {
            if j < i {
                assert(pass.changes[j].rel_path != pass.changes[i].rel_path);
            } else {
                assert(pass.changes[i].rel_path != pass.changes[j].rel_path);
            }
        }
    }
    lemma_applying_keeps_other_entries(pass, outcomes, times, path);
}

/// A change whose copy went well, at whatever position: after the pass the
/// state holds for its path what was read of the destination.
pub proof fn lemma_copied_change_is_recorded(
    pass: SyncPassView,
    outcomes: spec_fn(int) -> Result<Option<FileStateView>, CopyErrorView>,
    times: spec_fn(int) -> Timestamp,
    i: int,
)
    requires
        pass.phase == Phase::Applying,
        unique_records(pass.changes),
        pass.cursor() <= i < pass.changes.len(),
        eligible(pass.direction, pass.changes[i].src, pass.local_root, pass.remote_root),
        records_state(outcomes(i)),
    ensures
        after_applying(pass, outcomes, times).state.files.dom().contains(
            pass.changes[i].rel_path,
        ),
        after_applying(pass, outcomes, times).state.files[pass.changes[i].rel_path] == outcomes(
            i,
        )->Ok_0->0,
    decreases i - pass.cursor(),
{
    let next = after_change(pass, outcomes(pass.cursor()), times(pass.cursor()));
    let path = pass.changes[i].rel_path;
    assert(next.changes == pass.changes);
    if pass.cursor() == i {
        if next.cursor() < next.changes.len() {
            assert forall|j: int|
                next.cursor() <= j < next.changes.len() && (#[trigger] next.changes[j]).rel_path
                    == path implies !(eligible(
                next.direction,
                next.changes[j].src,
                next.local_root,
                next.remote_root,
            ) && records_state(outcomes(j))) by {
                assert(pass.changes[i].rel_path != pass.changes[j].rel_path);
            }
        }
        lemma_applying_keeps_other_entries(next, outcomes, times, path);
    } else {
        lemma_copied_change_is_recorded(next, outcomes, times, i);
    }
}

/// Direction filtering for a whole pass: a pull pass does not apply a
/// change whose source lies under the local root, and not under the remote
/// root as well, wherever the change stands. It is not handed out, leaves no
/// warning, and the state's entry for its path stays as it was.
pub proof fn lemma_pull_pass_skips_local_changes(
    pass: SyncPassView,
    outcomes: spec_fn(int) -> Result<Option<FileStateView>, CopyErrorView>,
    times: spec_fn(int) -> Timestamp,
    i: int,
)
    requires
        pass.phase == Phase::Applying,
        pass.direction == SyncDirection::Pull,
        unique_records(pass.changes),
        pass.cursor() <= i < pass.changes.len(),
        is_under(pass.changes[i].src, pass.local_root),
        !is_under(pass.changes[i].src, pass.remote_root),
    ensures
        fate_of(
            pass.changes[i],
            outcomes(i),
            pass.direction,
            pass.local_root,
            pass.remote_root,
        ) == Fate::Skipped,
        after_applying(pass, outcomes, times).state.files.dom().contains(pass.changes[i].rel_path)
            == pass.state.files.dom().contains(pass.changes[i].rel_path),
        pass.state.files.dom().contains(pass.changes[i].rel_path) ==> after_applying(
            pass,
            outcomes,
            times,
        ).state.files[pass.changes[i].rel_path] == pass.state.files[pass.changes[i].rel_path],
{
    lemma_unapplied_change_keeps_its_entry(pass, outcomes, times, i);
}

/// Direction filtering for a whole pass: a push pass applies a change whose
/// source lies under the local root, wherever the change stands. It is
/// counted as copied where its copy goes well, and then the state holds for
/// its path what was read of the destination.
pub proof fn lemma_push_pass_applies_local_changes(
    pass: SyncPassView,
    outcomes: spec_fn(int) -> Result<Option<FileStateView>, CopyErrorView>,
    times: spec_fn(int) -> Timestamp,
    i: int,
)
    requires
        pass.phase == Phase::Applying,
        pass.direction == SyncDirection::Push,
        unique_records(pass.changes),
        pass.cursor() <= i < pass.changes.len(),
        is_under(pass.changes[i].src, pass.local_root),
        outcomes(i) is Ok,
    ensures
        fate_of(
            pass.changes[i],
            outcomes(i),
            pass.direction,
            pass.local_root,
            pass.remote_root,
        ) == Fate::Copied,
        records_state(outcomes(i)) ==> after_applying(pass, outcomes, times).state.files.dom().contains(
            pass.changes[i].rel_path,
        ) && after_applying(pass, outcomes, times).state.files[pass.changes[i].rel_path]
            == outcomes(i)->Ok_0->0,
{
    if records_state(outcomes(i)) {
        lemma_copied_change_is_recorded(pass, outcomes, times, i);
    }
}

/// The verification gate for a whole pass: a change whose copy failed, as
/// one does whose destination does not hash like its source, wherever it
/// stands and whatever becomes of the changes around it. The pass goes on
/// to its end, the change is not among the copied, its warning is among the
/// warnings, and the state's entry for its path stays as it was.
pub proof fn lemma_failed_copy_in_a_pass(
    pass: SyncPassView,
    outcomes: spec_fn(int) -> Result<Option<FileStateView>, CopyErrorView>,
    times: spec_fn(int) -> Timestamp,
    i: int,
)
    requires
        pass.phase == Phase::Applying,
        unique_records(pass.changes),
        pass.cursor() <= i < pass.changes.len(),
        eligible(pass.direction, pass.changes[i].src, pass.local_root, pass.remote_root),
        outcomes(i) is Err,
    ensures
        ({
            let done = after_applying(pass, outcomes, times);
            let path = pass.changes[i].rel_path;
            &&& done.phase == Phase::Persisting
            &&& done.failure == pass.failure
            &&& fate_of(
                pass.changes[i],
                outcomes(i),
                pass.direction,
                pass.local_root,
                pass.remote_root,
            ) == Fate::Failed
            &&& done.warnings.contains(copy_warning(pass.changes[i], outcomes(i)->Err_0))
            &&& crate::text::occurs_in(copy_warning(pass.changes[i], outcomes(i)->Err_0), path)
            &&& done.state.files.dom().contains(path) == pass.state.files.dom().contains(path)
            &&& pass.state.files.dom().contains(path) ==> done.state.files[path]
                == pass.state.files[path]
        }),
{
    let done = after_applying(pass, outcomes, times);
    let added = warnings_from(
        pass.changes,
        pass.cursor(),
        outcomes,
        pass.direction,
        pass.local_root,
        pass.remote_root,
    );
    let warning = copy_warning(pass.changes[i], outcomes(i)->Err_0);
    lemma_applying_sums_up(pass, outcomes, times);
    lemma_failed_change_is_warned_of(
        pass.changes,
        pass.cursor(),
        i,
        outcomes,
        pass.direction,
        pass.local_root,
        pass.remote_root,
    );
    let k = choose|k: int| 0 <= k < added.len() && added[k] == warning;
    assert(done.warnings[pass.warnings.len() + k] == warning);
    crate::sync::lemma_warning_names_path(pass.changes[i], outcomes(i)->Err_0);
    lemma_unapplied_change_keeps_its_entry(pass, outcomes, times, i);
}

/// The changes that a pass in direction `direction` applies.
pub open spec fn allowed_by(
    direction: SyncDirection,
    local_root: Seq<char>,
    remote_root: Seq<char>,
) -> spec_fn(ChangeView) -> bool {
    |change: ChangeView| eligible(direction, change.src, local_root, remote_root)
}

/// Idempotence, in whatever direction: a pass that follows one in the same
/// direction, with nothing else having happened to the trees in between,
/// copies nothing. What it detects are the changes that the earlier pass
/// had to leave because its direction ruled them out, and it skips them
/// again. It leaves no warning and does not touch the state, and its backup,
/// being identical to the local tree, is not kept.
///
/// `first` is the earlier pass after its detection. `local` and `remote`
/// list the trees as that pass found them, `local_after` and `remote_after`
/// as it left them, every copy that it made having gone well: a file for
/// which it applied a change is in sync, every other file that detection
/// looks at is as it was.
pub proof fn lemma_second_pass_in_the_same_direction(
    first: SyncPassView,
    second: SyncPassView,
    loaded: SyncStateView,
    machine_id: Seq<char>,
    local: Seq<ListedFileView>,
    remote: Seq<ListedFileView>,
    local_after: Seq<ListedFileView>,
    remote_after: Seq<ListedFileView>,
    backup: Seq<ListedFileView>,
    outcomes: spec_fn(int) -> Result<Option<FileStateView>, CopyErrorView>,
    times: spec_fn(int) -> Timestamp,
)
    requires
        first.changes == detected_changes(
            first.local_root,
            first.remote_root,
            first.files,
            first.dirs,
            local,
            remote,
        ),
        second.phase == Phase::Detecting,
        second.failure is None,
        second.direction == first.direction,
        second.local_root == first.local_root,
        second.remote_root == first.remote_root,
        second.files == first.files,
        second.dirs == first.dirs,
        unique_listing(local),
        unique_listing(remote),
        unique_listing(local_after),
        unique_listing(remote_after),
        forall|path: Seq<char>| #[trigger]
            tracked_path(path, first.files, first.dirs) ==> (if path_was_applied(
                first.changes,
                path,
                allowed_by(first.direction, first.local_root, first.remote_root),
            ) {
                in_sync(listed_state(local_after, path), listed_state(remote_after, path))
            } else {
                listed_state(local_after, path) == listed_state(local, path) && listed_state(
                    remote_after,
                    path,
                ) == listed_state(remote, path)
            }),
        identical_dirs(Some(backup), Some(local_after)),
    ensures
        ({
            let begun = second.after_detection(Ok(loaded), machine_id, local_after, remote_after);
            let done = after_applying(begun, outcomes, times);
            let cleaned = done.after_persist(Ok(())).after_comparison(
                Some(backup),
                Some(local_after),
            );
            &&& forall|i: int|
                0 <= i < begun.changes.len() ==> first.changes.contains(#[trigger] begun.changes[i])
                    && !eligible(
                    first.direction,
                    begun.changes[i].src,
                    first.local_root,
                    first.remote_root,
                )
            &&& done.phase == Phase::Persisting
            &&& done.copied == 0
            &&& done.skipped == begun.changes.len()
            &&& done.warnings == second.warnings
            &&& done.state.files == loaded.files
            &&& cleaned.result(true) == Ok::<SyncResultView, Seq<char>>(
                SyncResultView {
                    copied: 0,
                    skipped: begun.changes.len(),
                    backup_path: None,
                    warnings: second.warnings,
                },
            )
        }),
{
    let allowed = allowed_by(first.direction, first.local_root, first.remote_root);
    let begun = second.after_detection(Ok(loaded), machine_id, local_after, remote_after);
    let done = after_applying(begun, outcomes, times);
    crate::detect::lemma_detection_finds_what_was_left(
        first.local_root,
        first.remote_root,
        first.files,
        first.dirs,
        local,
        remote,
        local_after,
        remote_after,
        allowed,
    );
    assert forall|i: int| 0 <= i < begun.changes.len() implies first.changes.contains(
        #[trigger] begun.changes[i],
    ) && !eligible(
        first.direction,
        begun.changes[i].src,
        first.local_root,
        first.remote_root,
    ) by {
        assert(!allowed(begun.changes[i]));
    }
    assert forall|i: int| 0 <= i < begun.changes.len() implies fate_of(
        #[trigger] begun.changes[i],
        outcomes(i),
        begun.direction,
        begun.local_root,
        begun.remote_root,
    ) == Fate::Skipped by {}
    lemma_each_change_counts_once(
        begun.changes,
        0,
        outcomes,
        begun.direction,
        begun.local_root,
        begun.remote_root,
    );
    lemma_applying_sums_up(begun, outcomes, times);
    let added = warnings_from(
        begun.changes,
        0,
        outcomes,
        begun.direction,
        begun.local_root,
        begun.remote_root,
    );
    assert(second.warnings + added =~= second.warnings);
    assert forall|path: Seq<char>| #[trigger]
        done.state.files.dom().contains(path) == loaded.files.dom().contains(path) by {
        lemma_applying_keeps_other_entries(begun, outcomes, times, path);
    }
    assert forall|path: Seq<char>| loaded.files.dom().contains(path) implies #[trigger]
        done.state.files[path] == loaded.files[path] by {
        lemma_applying_keeps_other_entries(begun, outcomes, times, path);
    }
    assert(done.state.files =~= loaded.files);
}

} // verus!
