//! The sync engine: a pass takes a backup, detects the pending changes,
//! applies those that the direction allows, writes the state down and throws
//! the backup away again if nothing has changed.
//!
//! The engine touches no file itself. A pass is a `SyncPass` value that the
//! caller drives through its phases: at each step the pass says what is to
//! be done on disk, the caller does it and reports how it went. All that is
//! decided during a pass is decided here.

use crate::backup::{
    backup_path, backup_path_for, dirs_are_identical, identical_dirs, listing_view,
    marker_path, marker_path_for, local_stamp,
};
use crate::config::{Config, ConfigView};
use crate::copy::{CopyError, CopyErrorView};
use crate::detect::{detect_changes, detected_changes, Change, ChangeView, ListedFile};
use crate::preflight::{append_all, check_tree, tree_complaints, TreeProbe};
use crate::state::{empty_state, FileState, FileStateView, SyncState, SyncStateView, Timestamp};
use crate::text::{chars_of, clone_strings, concat_text, is_under, path_is_under};
use vstd::prelude::*;

verus! {

/// The direction of a sync pass.
#[derive(Debug, Clone, Copy, PartialEq, Eq, Structural)]
pub enum SyncDirection {
    /// Local to remote only.
    Push,
    /// Remote to local only.
    Pull,
    /// Both ways, the newer file winning.
    Bidirectional,
}

/// What a pass has done.
#[derive(Debug)]
pub struct SyncResult {
    /// The number of files copied.
    pub copied: usize,
    /// The number of changes not applied: ruled out by the direction, or
    /// failed.
    pub skipped: usize,
    /// The backup of this pass, where it was kept.
    pub backup_path: Option<String>,
    /// One warning for each copy that failed.
    pub warnings: Vec<String>,
}

/// What a `SyncResult` says, as plain mathematics.
pub ghost struct SyncResultView {
    pub copied: nat,
    pub skipped: nat,
    pub backup_path: Option<Seq<char>>,
    pub warnings: Seq<Seq<char>>,
}

impl View for SyncResult {
    type V = SyncResultView;

    open spec fn view(&self) -> SyncResultView {
        SyncResultView {
            copied: self.copied as nat,
            skipped: self.skipped as nat,
            backup_path: self.backup_path.deep_view(),
            warnings: self.warnings.deep_view(),
        }
    }
}

/// The phases of a pass, in the order in which it goes through them. A
/// pass that is over, whether it succeeded or failed, is `Idle`.
#[derive(Debug, Clone, Copy, PartialEq, Eq, Structural)]
pub enum Phase {
    Idle,
    BackingUp,
    Detecting,
    Applying,
    Persisting,
    CleaningUp,
}

/// A pass in direction `direction` applies a change whose source is `src`.
pub open spec fn eligible(
    direction: SyncDirection,
    src: Seq<char>,
    local_root: Seq<char>,
    remote_root: Seq<char>,
) -> bool {
    match direction {
        SyncDirection::Push => is_under(src, local_root),
        SyncDirection::Pull => is_under(src, remote_root),
        SyncDirection::Bidirectional => true,
    }
}

/// Tells whether a pass in direction `direction` applies a change whose
/// source is `src`.
pub fn should_apply(direction: SyncDirection, src: &str, local_dir: &str, remote_dir: &str) -> (apply:
    bool)
    ensures
        apply == eligible(direction, src@, local_dir@, remote_dir@),
{
    match direction {
        SyncDirection::Push => {
            let path = chars_of(src);
            let root = chars_of(local_dir);
            path_is_under(path.as_slice(), root.as_slice())
        },
        SyncDirection::Pull => {
            let path = chars_of(src);
            let root = chars_of(remote_dir);
            path_is_under(path.as_slice(), root.as_slice())
        },
        SyncDirection::Bidirectional => true,
    }
}

/// The first position from `from` on at which `changes` holds a change
/// that the direction allows, or the length of `changes` where there is
/// none.
pub open spec fn first_eligible(
    changes: Seq<ChangeView>,
    from: int,
    direction: SyncDirection,
    local_root: Seq<char>,
    remote_root: Seq<char>,
) -> int
    decreases changes.len() - from,
{
    if from < 0 || from >= changes.len() {
        changes.len() as int
    } else if eligible(direction, changes[from].src, local_root, remote_root) {
        from
    } else {
        first_eligible(changes, from + 1, direction, local_root, remote_root)
    }
}

/// The warning for a copy that failed.
pub open spec fn copy_warning(change: ChangeView, error: CopyErrorView) -> Seq<char> {
    "Failed to copy "@ + change.rel_path + ": "@ + error.message(change.src, change.dst)
}

/// How a copy ended, as a pass is told: well, with the state of the
/// destination as far as it could be read, or with an error.
pub open spec fn copy_outcome_view(outcome: Result<Option<FileState>, CopyError>) -> Result<
    Option<FileStateView>,
    CopyErrorView,
> {
    match outcome {
        Ok(state) => Ok(state.deep_view()),
        Err(error) => Err(error@),
    }
}

/// The state of a pass.
pub ghost struct SyncPassView {
    pub phase: Phase,
    pub direction: SyncDirection,
    pub local_root: Seq<char>,
    pub remote_root: Seq<char>,
    pub files: Seq<Seq<char>>,
    pub dirs: Seq<Seq<char>>,
    pub backup_path: Seq<char>,
    pub marker_path: Seq<char>,
    /// The sync state as the pass has brought it up to date so far.
    pub state: SyncStateView,
    /// The changes that were detected.
    pub changes: Seq<ChangeView>,
    pub copied: nat,
    pub skipped: nat,
    pub warnings: Seq<Seq<char>>,
    /// Whether the backup was found to be identical to the local tree.
    pub redundant: bool,
    /// Why the pass failed, if it did.
    pub failure: Option<Seq<char>>,
}

impl SyncPassView {
    /// The position of the change that is dealt with next: every change
    /// before it was either copied or skipped.
    pub open spec fn cursor(self) -> int {
        (self.copied + self.skipped) as int
    }

    /// The pass has failed for good.
    pub open spec fn failed(self, why: Seq<char>) -> Self {
        SyncPassView { phase: Phase::Idle, failure: Some(why), ..self }
    }

    /// After the backup was taken, or could not be: without a backup the
    /// pass is over.
    pub open spec fn after_backup(self, done: Result<(), Seq<char>>) -> Self {
        if self.phase != Phase::BackingUp {
            self
        } else {
            match done {
                Ok(_) => SyncPassView { phase: Phase::Detecting, ..self },
                Err(why) => self.failed(why),
            }
        }
    }

    /// After the two roots were created, or could not be.
    pub open spec fn after_roots(self, done: Result<(), Seq<char>>) -> Self {
        if self.phase != Phase::Detecting {
            self
        } else {
            match done {
                Ok(_) => self,
                Err(why) => self.failed(why),
            }
        }
    }

    /// After the state was loaded, or could not be, and the trees were
    /// listed. A state document that is there and cannot be read ends the
    /// pass: nothing is detected, applied or persisted, so the document
    /// stays as it is. Else the state is the one that was loaded, now owned
    /// by `machine_id`, and the changes are those that the two listings
    /// call for.
    pub open spec fn after_detection(
        self,
        loaded: Result<SyncStateView, Seq<char>>,
        machine_id: Seq<char>,
        local: Seq<crate::detect::ListedFileView>,
        remote: Seq<crate::detect::ListedFileView>,
    ) -> Self {
        if self.phase != Phase::Detecting {
            self
        } else {
            match loaded {
                Err(why) => self.failed(why),
                Ok(state) => SyncPassView {
                    phase: Phase::Applying,
                    state: SyncStateView { machine_id, ..state },
                    changes: detected_changes(
                        self.local_root,
                        self.remote_root,
                        self.files,
                        self.dirs,
                        local,
                        remote,
                    ),
                    copied: 0,
                    skipped: 0,
                    ..self
                },
            }
        }
    }

    /// The position of the next change that the direction allows.
    pub open spec fn next_eligible(self) -> int {
        first_eligible(
            self.changes,
            self.cursor(),
            self.direction,
            self.local_root,
            self.remote_root,
        )
    }

    /// After the pass has moved on to the next change that the direction
    /// allows: those in between are counted as skipped. With no such change
    /// left the pass goes on to persist the state.
    pub open spec fn after_advance(self) -> Self {
        if self.phase != Phase::Applying {
            self
        } else {
            let next = self.next_eligible();
            SyncPassView {
                skipped: (self.skipped + (next - self.cursor())) as nat,
                phase: if next >= self.changes.len() {
                    Phase::Persisting
                } else {
                    Phase::Applying
                },
                ..self
            }
        }
    }

    /// The pass waits for the copy of the change at the cursor.
    pub open spec fn awaits_copy(self) -> bool {
        &&& self.phase == Phase::Applying
        &&& self.cursor() < self.changes.len()
        &&& eligible(
            self.direction,
            self.changes[self.cursor()].src,
            self.local_root,
            self.remote_root,
        )
    }

    /// After the copy of the change at the cursor has ended. A copy that
    /// went well is counted, and the state of the destination, where it
    /// could be read, is recorded for the path. A copy that failed is
    /// counted as skipped and leaves a warning; the state stays as it was.
    pub open spec fn after_copy(
        self,
        outcome: Result<Option<FileStateView>, CopyErrorView>,
        now: Timestamp,
    ) -> Self {
        if !self.awaits_copy() {
            self
        } else {
            let change = self.changes[self.cursor()];
            match outcome {
                Ok(Some(seen)) => SyncPassView {
                    copied: self.copied + 1nat,
                    state: SyncStateView {
                        last_sync: now,
                        files: self.state.files.insert(change.rel_path, seen),
                        ..self.state
                    },
                    ..self
                },
                Ok(None) => SyncPassView { copied: self.copied + 1nat, ..self },
                Err(error) => SyncPassView {
                    skipped: self.skipped + 1nat,
                    warnings: self.warnings.push(copy_warning(change, error)),
                    ..self
                },
            }
        }
    }

    /// After the state was written, or could not be.
    pub open spec fn after_persist(self, done: Result<(), Seq<char>>) -> Self {
        if self.phase != Phase::Persisting {
            self
        } else {
            match done {
                Ok(_) => SyncPassView { phase: Phase::CleaningUp, ..self },
                Err(why) => self.failed(why),
            }
        }
    }

    /// After the backup was compared with the local tree as it is now.
    pub open spec fn after_comparison(
        self,
        backup: Option<Seq<crate::detect::ListedFileView>>,
        local: Option<Seq<crate::detect::ListedFileView>>,
    ) -> Self {
        if self.phase != Phase::CleaningUp {
            self
        } else {
            SyncPassView { redundant: identical_dirs(backup, local), ..self }
        }
    }

    /// What the pass reports in the end. The backup is reported unless it
    /// was found redundant and has been removed.
    pub open spec fn result(self, backup_removed: bool) -> Result<SyncResultView, Seq<char>> {
        if self.failure is Some {
            Err(self.failure->0)
        } else if self.phase != Phase::CleaningUp {
            Err("Sync pass was not carried through"@)
        } else {
            Ok(
                SyncResultView {
                    copied: self.copied,
                    skipped: self.skipped,
                    backup_path: if self.redundant && backup_removed {
                        None
                    } else {
                        Some(self.backup_path)
                    },
                    warnings: self.warnings,
                },
            )
        }
    }
}

/// `first_eligible` gives a position from `from` on, all changes before
/// which are ruled out by the direction.
pub proof fn lemma_first_eligible(
    changes: Seq<ChangeView>,
    from: int,
    direction: SyncDirection,
    local_root: Seq<char>,
    remote_root: Seq<char>,
)
    requires
        0 <= from <= changes.len(),
    ensures
        from <= first_eligible(changes, from, direction, local_root, remote_root) <= changes.len(),
        forall|i: int|
            from <= i < first_eligible(changes, from, direction, local_root, remote_root)
                ==> !eligible(direction, (#[trigger] changes[i]).src, local_root, remote_root),
        first_eligible(changes, from, direction, local_root, remote_root) < changes.len()
            ==> eligible(
            direction,
            changes[first_eligible(changes, from, direction, local_root, remote_root)].src,
            local_root,
            remote_root,
        ),
    decreases changes.len() - from,
{
    if from < changes.len() && !eligible(direction, changes[from].src, local_root, remote_root) {
        lemma_first_eligible(changes, from + 1, direction, local_root, remote_root);
    }
}

/// One sync pass on its way through its phases.
#[derive(Debug)]
pub struct SyncPass {
    phase: Phase,
    direction: SyncDirection,
    local_dir: String,
    remote_dir: String,
    sync_files: Vec<String>,
    sync_dirs: Vec<String>,
    backup_path: String,
    marker_path: String,
    state: SyncState,
    changes: Vec<Change>,
    copied: usize,
    skipped: usize,
    warnings: Vec<String>,
    redundant: bool,
    failure: Option<String>,
}

impl View for SyncPass {
    type V = SyncPassView;

    closed spec fn view(&self) -> SyncPassView {
        SyncPassView {
            phase: self.phase,
            direction: self.direction,
            local_root: self.local_dir@,
            remote_root: self.remote_dir@,
            files: self.sync_files.deep_view(),
            dirs: self.sync_dirs.deep_view(),
            backup_path: self.backup_path@,
            marker_path: self.marker_path@,
            state: self.state@,
            changes: self.changes.deep_view(),
            copied: self.copied as nat,
            skipped: self.skipped as nat,
            warnings: self.warnings.deep_view(),
            redundant: self.redundant,
            failure: self.failure.deep_view(),
        }
    }
}

/// What the caller has to do for the backup of a pass: copy the tree at
/// `source` to `target`, links as links, and write `target` into the file
/// `marker`.
#[derive(Debug)]
pub struct BackupJob {
    pub source: String,
    pub target: String,
    pub marker: String,
}

impl SyncPass {
    #[verifier::type_invariant]
    spec fn counts_fit(&self) -> bool {
        &&& self.copied + self.skipped <= self.changes.len()
        &&& (self.phase == Phase::Persisting || self.phase == Phase::CleaningUp) ==> self.copied
            + self.skipped == self.changes.len()
    }

    /// The phase that the pass is in.
    pub fn phase(&self) -> (phase: Phase)
        ensures
            phase == self@.phase,
    {
        self.phase
    }

    /// The direction of the pass.
    pub fn direction(&self) -> (direction: SyncDirection)
        ensures
            direction == self@.direction,
    {
        self.direction
    }

    /// Where the backup of this pass goes.
    pub fn backup_path(&self) -> (path: &String)
        ensures
            path@ == self@.backup_path,
    {
        &self.backup_path
    }

    /// Where the marker that names the last backup is kept.
    pub fn marker_path(&self) -> (path: &String)
        ensures
            path@ == self@.marker_path,
    {
        &self.marker_path
    }

    /// The sync state as the pass has brought it up to date so far.
    pub fn state(&self) -> (state: &SyncState)
        ensures
            state@ == self@.state,
    {
        &self.state
    }

    /// The changes that were detected.
    pub fn changes(&self) -> (changes: &Vec<Change>)
        ensures
            changes.deep_view() == self@.changes,
    {
        &self.changes
    }

    /// The number of files copied so far.
    pub fn copied(&self) -> (count: usize)
        ensures
            count == self@.copied,
    {
        self.copied
    }

    /// The number of changes skipped so far.
    pub fn skipped(&self) -> (count: usize)
        ensures
            count == self@.skipped,
            self@.copied + self@.skipped <= self@.changes.len(),
    {
        proof {
            use_type_invariant(self);
        }
        self.skipped
    }

    /// The warnings collected so far.
    pub fn warnings(&self) -> (warnings: &Vec<String>)
        ensures
            warnings.deep_view() == self@.warnings,
    {
        &self.warnings
    }

    /// Why the pass failed, if it did.
    pub fn failure(&self) -> (failure: &Option<String>)
        ensures
            failure.deep_view() == self@.failure,
    {
        &self.failure
    }

    /// What is to be done for the backup: nothing where the local tree does
    /// not exist yet, for then there is nothing to protect.
    pub fn backup_job(&self, local_exists: bool) -> (job: Option<BackupJob>)
        ensures
            job is Some <==> local_exists,
            job is Some ==> job->0.source@ == self@.local_root && job->0.target@
                == self@.backup_path && job->0.marker@ == self@.marker_path,
    {
        if local_exists {
            Some(
                BackupJob {
                    source: self.local_dir.clone(),
                    target: self.backup_path.clone(),
                    marker: self.marker_path.clone(),
                },
            )
        } else {
            None
        }
    }

    /// Ends the pass with the failure `why`.
    fn fail(&mut self, why: String)
        ensures
            final(self)@ == old(self)@.failed(why@),
    {
        proof {
            use_type_invariant(&*self);
        }
        self.phase = Phase::Idle;
        self.failure = Some(why);
    }

    /// Takes the outcome of the backup. No change is applied unless the
    /// backup was made.
    pub fn backup_finished(&mut self, done: Result<(), String>)
        ensures
            final(self)@ == old(self)@.after_backup(crate::text::unit_result(done)),
    {
        proof {
            use_type_invariant(&*self);
        }
        if self.phase != Phase::BackingUp {
            return ;
        }
        match done {
            Ok(()) => {
                self.phase = Phase::Detecting;
            },
            Err(why) => self.fail(why),
        }
    }

    /// Takes the outcome of creating the two roots.
    pub fn roots_created(&mut self, done: Result<(), String>)
        ensures
            final(self)@ == old(self)@.after_roots(crate::text::unit_result(done)),
    {
        if self.phase != Phase::Detecting {
            return ;
        }
        match done {
            Ok(()) => {},
            Err(why) => self.fail(why),
        }
    }

    /// Takes what loading the state gave (`SyncState::load`), the identity
    /// of this machine and the listings of the two trees, and detects the
    /// changes. A state that could not be loaded ends the pass with that
    /// failure.
    pub fn detected(
        &mut self,
        loaded: Result<SyncState, String>,
        machine_id: String,
        local: &Vec<ListedFile>,
        remote: &Vec<ListedFile>,
    )
        ensures
            final(self)@ == old(self)@.after_detection(
                crate::state::loaded_view(loaded),
                machine_id@,
                local.deep_view(),
                remote.deep_view(),
            ),
    {
        proof {
            use_type_invariant(&*self);
        }
        if self.phase != Phase::Detecting {
            return ;
        }
        let mut state = match loaded {
            Ok(state) => state,
            Err(why) => {
                self.fail(why);
                return ;
            },
        };
        state.set_machine_id(machine_id);
        let changes = detect_changes(
            self.local_dir.as_str(),
            self.remote_dir.as_str(),
            &self.sync_files,
            &self.sync_dirs,
            &state,
            local,
            remote,
        );
        self.copied = 0;
        self.skipped = 0;
        self.changes = changes;
        self.state = state;
        self.phase = Phase::Applying;
    }

    /// Moves on to the next change that the direction allows and hands it
    /// out for copying; the changes passed over are counted as skipped.
    /// Returns `None` when no change is left: the state is to be persisted
    /// next.
    pub fn next_copy(&mut self) -> (job: Option<Change>)
        ensures
            final(self)@ == old(self)@.after_advance(),
            old(self)@.phase == Phase::Applying ==> (match job {
                Some(change) => final(self)@.awaits_copy() && change@
                    == final(self)@.changes[final(self)@.cursor()],
                None => final(self)@.phase == Phase::Persisting && final(self)@.cursor()
                    == final(self)@.changes.len(),
            }),
            old(self)@.phase != Phase::Applying ==> job is None,
    {
        proof {
            use_type_invariant(&*self);
        }
        if self.phase != Phase::Applying {
            return None;
        }
        proof {
            lemma_first_eligible(
                self@.changes,
                self@.cursor(),
                self@.direction,
                self@.local_root,
                self@.remote_root,
            );
        }
        loop
            invariant
                self.phase == Phase::Applying,
                self@.copied == old(self)@.copied,
                old(self)@.skipped <= self@.skipped,
                self@.cursor() <= old(self)@.next_eligible() <= self@.changes.len(),
                self@.next_eligible() == old(self)@.next_eligible(),
                self@ == (SyncPassView { skipped: self@.skipped, ..old(self)@ }),
                self.copied + self.skipped <= self.changes.len(),
            decreases self.changes.len() - (self.copied + self.skipped),
        {
            let at: usize = self.copied + self.skipped;
            if at >= self.changes.len() {
                self.phase = Phase::Persisting;
                return None;
            }
            if should_apply(
                self.direction,
                self.changes[at].src.as_str(),
                self.local_dir.as_str(),
                self.remote_dir.as_str(),
            ) {
                return Some(self.changes[at].clone());
            }
            proof {
                lemma_first_eligible(
                    self@.changes,
                    at + 1,
                    self@.direction,
                    self@.local_root,
                    self@.remote_root,
                );
            }
            self.skipped = self.skipped + 1;
        }
    }

    /// Adds a warning.
    fn push_warning(&mut self, text: String)
        ensures
            final(self)@ == (SyncPassView {
                warnings: old(self)@.warnings.push(text@),
                ..old(self)@
            }),
    {
        proof {
            use_type_invariant(&*self);
        }
        let mut warnings: Vec<String> = Vec::new();
        std::mem::swap(&mut self.warnings, &mut warnings);
        warnings.push(text);
        assert(warnings.deep_view() =~= old(self)@.warnings.push(text@));
        std::mem::swap(&mut self.warnings, &mut warnings);
    }

    /// Records `seen` as the state of `rel_path`, at time `now`.
    fn record(&mut self, rel_path: &str, seen: FileState, now: Timestamp)
        ensures
            final(self)@ == (SyncPassView {
                state: SyncStateView {
                    last_sync: now,
                    files: old(self)@.state.files.insert(rel_path@, seen@),
                    ..old(self)@.state
                },
                ..old(self)@
            }),
    {
        proof {
            use_type_invariant(&*self);
        }
        let mut state = SyncState::default();
        std::mem::swap(&mut self.state, &mut state);
        state.update_file_at(rel_path, seen, now);
        std::mem::swap(&mut self.state, &mut state);
    }

    /// Takes the outcome of the copy that the pass waits for, `now` being
    /// the time at which the state is changed.
    pub fn copy_finished_at(&mut self, outcome: Result<Option<FileState>, CopyError>, now: Timestamp)
        ensures
            final(self)@ == old(self)@.after_copy(copy_outcome_view(outcome), now),
    {
        proof {
            use_type_invariant(&*self);
        }
        if self.phase != Phase::Applying {
            return ;
        }
        let at: usize = self.copied + self.skipped;
        if at >= self.changes.len() {
            return ;
        }
        if !should_apply(
            self.direction,
            self.changes[at].src.as_str(),
            self.local_dir.as_str(),
            self.remote_dir.as_str(),
        ) {
            return ;
        }
        let change = self.changes[at].clone();
        match outcome {
            Ok(Some(seen)) => {
                self.record(change.rel_path.as_str(), seen, now);
                self.copied = self.copied + 1;
            },
            Ok(None) => {
                self.copied = self.copied + 1;
            },
            Err(error) => {
                let mut text = concat_text("Failed to copy ", change.rel_path.as_str());
                text.append(": ");
                text.append(error.message(change.src.as_str(), change.dst.as_str()).as_str());
                self.push_warning(text);
                self.skipped = self.skipped + 1;
            },
        }
    }

    /// Takes the outcome of the copy that the pass waits for; the time is
    /// read from the system clock.
    pub fn copy_finished(&mut self, outcome: Result<Option<FileState>, CopyError>)
        ensures
            exists|now: Timestamp|
                final(self)@ == old(self)@.after_copy(copy_outcome_view(outcome), now),
    {
        let now = crate::state::utc_now();
        self.copy_finished_at(outcome, now);
    }

    /// Takes the outcome of writing the state.
    pub fn persisted(&mut self, done: Result<(), String>)
        ensures
            final(self)@ == old(self)@.after_persist(crate::text::unit_result(done)),
    {
        proof {
            use_type_invariant(&*self);
        }
        if self.phase != Phase::Persisting {
            return ;
        }
        match done {
            Ok(()) => {
                self.phase = Phase::CleaningUp;
            },
            Err(why) => self.fail(why),
        }
    }

    /// Compares the backup with the local tree as it is now and tells
    /// whether the backup is to be removed: it is when the two are
    /// identical. Each tree is given by the listing of its files, or `None`
    /// where it does not exist.
    pub fn backup_compared(
        &mut self,
        backup: Option<&Vec<ListedFile>>,
        local: Option<&Vec<ListedFile>>,
    ) -> (remove: bool)
        ensures
            final(self)@ == old(self)@.after_comparison(listing_view(backup), listing_view(local)),
            remove == (old(self)@.phase == Phase::CleaningUp && identical_dirs(
                listing_view(backup),
                listing_view(local),
            )),
    {
        proof {
            use_type_invariant(&*self);
        }
        if self.phase != Phase::CleaningUp {
            return false;
        }
        let same = dirs_are_identical(backup, local);
        self.redundant = same;
        same
    }

    /// Ends the pass and reports what it has done. `backup_removed` tells
    /// whether the backup was in fact removed.
    pub fn finish(self, backup_removed: bool) -> (result: Result<SyncResult, String>)
        ensures
            result_view(result) == self@.result(backup_removed),
            result is Ok ==> result->Ok_0.copied + result->Ok_0.skipped == self@.changes.len(),
    {
        proof {
            use_type_invariant(&self);
        }
        match self.failure {
            Some(why) => Err(why),
            None => {
                if self.phase != Phase::CleaningUp {
                    Err("Sync pass was not carried through".to_owned())
                } else {
                    Ok(
                        SyncResult {
                            copied: self.copied,
                            skipped: self.skipped,
                            backup_path: if self.redundant && backup_removed {
                                None
                            } else {
                                Some(self.backup_path)
                            },
                            warnings: self.warnings,
                        },
                    )
                }
            },
        }
    }
}

/// The result of a pass, with texts as character sequences.
pub open spec fn result_view(result: Result<SyncResult, String>) -> Result<
    SyncResultView,
    Seq<char>,
> {
    match result {
        Ok(report) => Ok(report@),
        Err(why) => Err(why@),
    }
}

/// The sync engine: the configuration, and where the state is kept.
#[derive(Debug)]
pub struct SyncEngine {
    config: Config,
    state_path: String,
}

/// What a `SyncEngine` holds, as plain mathematics.
pub ghost struct SyncEngineView {
    pub config: ConfigView,
    pub state_path: Seq<char>,
}

impl View for SyncEngine {
    type V = SyncEngineView;

    closed spec fn view(&self) -> SyncEngineView {
        SyncEngineView { config: self.config@, state_path: self.state_path@ }
    }
}

impl SyncEngineView {
    /// A pass that has just begun.
    pub open spec fn pass_begun(
        self,
        direction: SyncDirection,
        home: Option<Seq<char>>,
        stamp: Seq<char>,
    ) -> SyncPassView {
        SyncPassView {
            phase: Phase::BackingUp,
            direction,
            local_root: self.config.claude_dir,
            remote_root: self.config.dropbox_claude_dir,
            files: self.config.sync_files,
            dirs: self.config.sync_dirs,
            backup_path: backup_path_for(home, stamp),
            marker_path: marker_path_for(home),
            state: empty_state(),
            changes: Seq::empty(),
            copied: 0,
            skipped: 0,
            warnings: Seq::empty(),
            redundant: false,
            failure: None,
        }
    }

    /// The complaints of the pre-flight check for a pass in direction
    /// `direction`: those about the tree or trees that it copies from.
    pub open spec fn source_complaints(
        self,
        direction: SyncDirection,
        local: crate::preflight::TreeProbeView,
        remote: crate::preflight::TreeProbeView,
    ) -> Seq<Seq<char>> {
        match direction {
            SyncDirection::Push => tree_complaints(local, self.config.claude_dir),
            SyncDirection::Pull => tree_complaints(remote, self.config.dropbox_claude_dir),
            SyncDirection::Bidirectional => tree_complaints(local, self.config.claude_dir)
                + tree_complaints(remote, self.config.dropbox_claude_dir),
        }
    }
}

impl SyncEngine {
    /// An engine for `config`. The state is kept in the local directory,
    /// never in the shared folder.
    pub fn new(config: Config) -> (engine: Self)
        ensures
            engine@.config == config@,
            engine@.state_path == crate::text::joined(
                config@.claude_dir,
                crate::config::state_file_name(),
            ),
            config@.claude_dir.len() > 0 ==> is_under(engine@.state_path, config@.claude_dir),
    {
        proof {
            if config@.claude_dir.len() > 0 {
                crate::text::lemma_joined_is_under(
                    config@.claude_dir,
                    crate::config::state_file_name(),
                );
            }
        }
        let state_path = config.local_state_path();
        SyncEngine { config, state_path }
    }

    /// The configuration.
    pub fn config(&self) -> (config: &Config)
        ensures
            config@ == self@.config,
    {
        &self.config
    }

    /// Where the state is kept.
    pub fn state_path(&self) -> (path: &String)
        ensures
            path@ == self@.state_path,
    {
        &self.state_path
    }

    /// Begins a pass in direction `direction`. The backup goes below
    /// `home`, under a name made from `stamp`.
    pub fn begin_pass(&self, direction: SyncDirection, home: Option<&str>, stamp: &str) -> (pass:
        SyncPass)
        ensures
            pass@ == self@.pass_begun(direction, home.deep_view(), stamp@),
    {
        let pass = SyncPass {
            phase: Phase::BackingUp,
            direction,
            local_dir: self.config.claude_dir.clone(),
            remote_dir: self.config.dropbox_claude_dir.clone(),
            sync_files: clone_strings(&self.config.sync_files),
            sync_dirs: clone_strings(&self.config.sync_dirs),
            backup_path: backup_path(home, stamp),
            marker_path: marker_path(home),
            state: SyncState::default(),
            changes: Vec::new(),
            copied: 0,
            skipped: 0,
            warnings: Vec::new(),
            redundant: false,
            failure: None,
        };
        assert(pass.changes.deep_view() =~= Seq::<ChangeView>::empty());
        assert(pass.warnings.deep_view() =~= Seq::<Seq<char>>::empty());
        pass
    }

    /// Begins a pass in direction `direction`, with its backup below the
    /// home directory of the current user and named after the current
    /// time.
    pub fn sync(&self, direction: SyncDirection) -> (pass: SyncPass)
        ensures
            exists|home: Option<Seq<char>>, stamp: Seq<char>|
                pass@ == self@.pass_begun(direction, home, stamp),
    {
        let home = Config::home_dir();
        let stamp = local_stamp();
        let pass = match &home {
            Some(dir) => self.begin_pass(direction, Some(dir.as_str()), stamp.as_str()),
            None => self.begin_pass(direction, None, stamp.as_str()),
        };
        assert(pass@ == self@.pass_begun(direction, home.deep_view(), stamp@));
        pass
    }

    /// Finds what is wrong with the files of one tree, whose root is
    /// `root`.
    pub fn validate_directory(&self, root: &str, tree: &TreeProbe) -> (complaints: Vec<String>)
        ensures
            complaints.deep_view() == tree_complaints(tree@, root@),
    {
        check_tree(tree, root)
    }

    /// The pre-flight check for a pass in direction `direction`: every
    /// empty file and every malformed JSON file among the sources is
    /// reported; nothing is copied.
    pub fn validate_sources(
        &self,
        direction: SyncDirection,
        local: &TreeProbe,
        remote: &TreeProbe,
    ) -> (complaints: Vec<String>)
        ensures
            complaints.deep_view() == self@.source_complaints(direction, local@, remote@),
    {
        match direction {
            SyncDirection::Push => self.validate_directory(self.config.claude_dir.as_str(), local),
            SyncDirection::Pull => self.validate_directory(
                self.config.dropbox_claude_dir.as_str(),
                remote,
            ),
            SyncDirection::Bidirectional => {
                let mut complaints = self.validate_directory(
                    self.config.claude_dir.as_str(),
                    local,
                );
                append_all(
                    &mut complaints,
                    self.validate_directory(self.config.dropbox_claude_dir.as_str(), remote),
                );
                complaints
            },
        }
    }
}

/// Direction filtering: a change whose source lies under the local root,
/// and not under the remote root as well, is applied by a push and by a
/// bidirectional pass, and ruled out by a pull.
pub proof fn lemma_direction_filter(src: Seq<char>, local_root: Seq<char>, remote_root: Seq<char>)
    requires
        is_under(src, local_root),
        !is_under(src, remote_root),
    ensures
        eligible(SyncDirection::Push, src, local_root, remote_root),
        eligible(SyncDirection::Bidirectional, src, local_root, remote_root),
        !eligible(SyncDirection::Pull, src, local_root, remote_root),
{
}

/// A pull pass that comes upon a change from the local side counts it as
/// skipped and does not hand it out for copying.
pub proof fn lemma_pull_skips_local_change(pass: SyncPassView)
    requires
        pass.phase == Phase::Applying,
        pass.direction == SyncDirection::Pull,
        pass.cursor() < pass.changes.len(),
        is_under(pass.changes[pass.cursor()].src, pass.local_root),
        !is_under(pass.changes[pass.cursor()].src, pass.remote_root),
    ensures
        pass.after_advance().copied == pass.copied,
        pass.after_advance().skipped >= pass.skipped + 1,
        pass.after_advance().cursor() > pass.cursor(),
{
    lemma_first_eligible(
        pass.changes,
        pass.cursor() + 1,
        pass.direction,
        pass.local_root,
        pass.remote_root,
    );
}

/// A push pass that comes upon a change from the local side hands it out
/// for copying, and counts it as copied once the copy has gone through.
pub proof fn lemma_push_applies_local_change(
    pass: SyncPassView,
    seen: Option<FileStateView>,
    now: Timestamp,
)
    requires
        pass.phase == Phase::Applying,
        pass.direction == SyncDirection::Push,
        pass.cursor() < pass.changes.len(),
        is_under(pass.changes[pass.cursor()].src, pass.local_root),
    ensures
        pass.after_advance() == pass,
        pass.awaits_copy(),
        pass.after_copy(Ok(seen), now).copied == pass.copied + 1,
        pass.after_copy(Ok(seen), now).skipped == pass.skipped,
{
}

/// The warning for a failed copy names the path.
pub proof fn lemma_warning_names_path(change: ChangeView, error: CopyErrorView)
    ensures
        crate::text::occurs_in(copy_warning(change, error), change.rel_path),
{
    let intro = "Failed to copy "@;
    let warning = copy_warning(change, error);
    assert(warning.subrange(intro.len() as int, intro.len() as int + change.rel_path.len())
        =~= change.rel_path);
    assert(crate::text::occurs_at(warning, intro.len() as int, change.rel_path));
}

/// The verification gate, as a pass sees it: a copy that failed, as one
/// does whose destination does not hash like its source, changes nothing in
/// the state. It is counted as skipped, and a warning that names the path is
/// added.
pub proof fn lemma_failed_copy_keeps_state(pass: SyncPassView, error: CopyErrorView, now: Timestamp)
    requires
        pass.awaits_copy(),
    ensures
        pass.after_copy(Err(error), now).state == pass.state,
        pass.after_copy(Err(error), now).copied == pass.copied,
        pass.after_copy(Err(error), now).skipped == pass.skipped + 1,
        pass.after_copy(Err(error), now).warnings == pass.warnings.push(
            copy_warning(pass.changes[pass.cursor()], error),
        ),
        crate::text::occurs_in(
            copy_warning(pass.changes[pass.cursor()], error),
            pass.changes[pass.cursor()].rel_path,
        ),
{
    lemma_warning_names_path(pass.changes[pass.cursor()], error);
}

/// A pass over two trees in which every path that detection looks at is
/// settled copies nothing, skips nothing and, once its backup was found
/// identical to the local tree and removed, reports no backup.
pub proof fn lemma_pass_over_settled_trees(
    pass: SyncPassView,
    loaded: SyncStateView,
    machine_id: Seq<char>,
    local: Seq<crate::detect::ListedFileView>,
    remote: Seq<crate::detect::ListedFileView>,
    backup: Seq<crate::detect::ListedFileView>,
)
    requires
        pass.phase == Phase::Detecting,
        pass.failure is None,
        crate::detect::unique_listing(local),
        crate::detect::unique_listing(remote),
        forall|path: Seq<char>| #[trigger]
            crate::detect::tracked_path(path, pass.files, pass.dirs) ==> crate::detect::settled(
                crate::detect::listed_state(local, path),
                crate::detect::listed_state(remote, path),
            ),
        identical_dirs(Some(backup), Some(local)),
    ensures
        ({
            let applied = pass.after_detection(
                Ok(loaded),
                machine_id,
                local,
                remote,
            ).after_advance();
            let cleaned = applied.after_persist(Ok(())).after_comparison(Some(backup), Some(local));
            &&& applied.phase == Phase::Persisting
            &&& applied.changes.len() == 0
            &&& cleaned.result(true) == Ok::<SyncResultView, Seq<char>>(
                SyncResultView {
                    copied: 0,
                    skipped: 0,
                    backup_path: None,
                    warnings: pass.warnings,
                },
            )
        }),
{
    crate::detect::lemma_settled_trees_have_no_changes(
        pass.local_root,
        pass.remote_root,
        pass.files,
        pass.dirs,
        local,
        remote,
    );
}

/// Idempotence: a pass that follows one whose changes were all applied,
/// with nothing else having happened to the trees in between, copies
/// nothing, and its backup, being identical to the local tree, is not kept.
///
/// `first` is the earlier pass after its detection. `local` and `remote`
/// list the trees as that pass found them, `local_after` and `remote_after`
/// as it left them: a file for which it recorded a change is in sync, every
/// other file that detection looks at is as it was.
pub proof fn lemma_second_pass_copies_nothing(
    first: SyncPassView,
    second: SyncPassView,
    loaded: SyncStateView,
    machine_id: Seq<char>,
    local: Seq<crate::detect::ListedFileView>,
    remote: Seq<crate::detect::ListedFileView>,
    local_after: Seq<crate::detect::ListedFileView>,
    remote_after: Seq<crate::detect::ListedFileView>,
    backup: Seq<crate::detect::ListedFileView>,
)
    requires
        first.changes == detected_changes(
            first.local_root,
            first.remote_root,
            first.files,
            first.dirs,
            local,
            remote,
        ),
        second.phase == Phase::Detecting,
        second.failure is None,
        second.local_root == first.local_root,
        second.remote_root == first.remote_root,
        second.files == first.files,
        second.dirs == first.dirs,
        crate::detect::unique_listing(local_after),
        crate::detect::unique_listing(remote_after),
        forall|path: Seq<char>| #[trigger]
            crate::detect::tracked_path(path, first.files, first.dirs) ==> (
            if crate::detect::already_recorded(first.changes, path) {
                crate::detect::in_sync(
                    crate::detect::listed_state(local_after, path),
                    crate::detect::listed_state(remote_after, path),
                )
            } else {
                crate::detect::listed_state(local_after, path) == crate::detect::listed_state(
                    local,
                    path,
                ) && crate::detect::listed_state(remote_after, path)
                    == crate::detect::listed_state(remote, path)
            }),
        identical_dirs(Some(backup), Some(local_after)),
    ensures
        ({
            let applied = second.after_detection(
                Ok(loaded),
                machine_id,
                local_after,
                remote_after,
            ).after_advance();
            let cleaned = applied.after_persist(Ok(())).after_comparison(
                Some(backup),
                Some(local_after),
            );
            &&& applied.phase == Phase::Persisting
            &&& applied.changes.len() == 0
            &&& cleaned.result(true) == Ok::<SyncResultView, Seq<char>>(
                SyncResultView {
                    copied: 0,
                    skipped: 0,
                    backup_path: None,
                    warnings: second.warnings,
                },
            )
        }),
{
    crate::detect::lemma_detection_after_sync_finds_nothing(
        first.local_root,
        first.remote_root,
        first.files,
        first.dirs,
        local,
        remote,
        local_after,
        remote_after,
    );
}

/// A change that detection found coming from one side is applied by the
/// pass in that side's direction: a push applies what comes from the local
/// side, a pull what comes from the remote side.
pub proof fn lemma_detected_change_fits_its_direction(
    rel_path: Seq<char>,
    change_type: crate::detect::ChangeType,
    source: crate::detect::Side,
    local_root: Seq<char>,
    remote_root: Seq<char>,
)
    requires
        local_root.len() > 0,
        remote_root.len() > 0,
    ensures
        eligible(
            match source {
                crate::detect::Side::Local => SyncDirection::Push,
                crate::detect::Side::Remote => SyncDirection::Pull,
            },
            crate::detect::change_from(rel_path, change_type, source, local_root, remote_root).src,
            local_root,
            remote_root,
        ),
{
    crate::text::lemma_joined_is_under(local_root, rel_path);
    crate::text::lemma_joined_is_under(remote_root, rel_path);
}

/// The state is changed by successful copies only, and only at the path
/// that was copied: whatever the outcome of a copy, the entry of any other
/// path stays as it was.
pub proof fn lemma_copy_touches_its_path_only(
    pass: SyncPassView,
    outcome: Result<Option<FileStateView>, CopyErrorView>,
    now: Timestamp,
    other: Seq<char>,
)
    requires
        pass.awaits_copy(),
        other != pass.changes[pass.cursor()].rel_path,
    ensures
        pass.after_copy(outcome, now).state.files.dom().contains(other)
            == pass.state.files.dom().contains(other),
        pass.state.files.dom().contains(other) ==> pass.after_copy(outcome, now).state.files[other]
            == pass.state.files[other],
        !(outcome matches Ok(Some(_))) ==> pass.after_copy(outcome, now).state == pass.state,
{
}

/// A state document that is there and cannot be read is a hard failure:
/// the pass ends with it, whatever the trees look like. No change is
/// detected or handed out, the state is not persisted, and the pass reports
/// the failure and no result.
pub proof fn lemma_unreadable_state_fails_pass(
    pass: SyncPassView,
    why: Seq<char>,
    machine_id: Seq<char>,
    local: Seq<crate::detect::ListedFileView>,
    remote: Seq<crate::detect::ListedFileView>,
    backup_removed: bool,
)
    requires
        pass.phase == Phase::Detecting,
    ensures
        ({
            let failed = pass.after_detection(Err(why), machine_id, local, remote);
            &&& failed.phase == Phase::Idle
            &&& failed.failure == Some(why)
            &&& failed.changes == pass.changes
            &&& failed.state == pass.state
            &&& failed.after_advance() == failed
            &&& failed.after_persist(Ok(())) == failed
            &&& failed.result(backup_removed) == Err::<SyncResultView, Seq<char>>(why)
        }),
{
}

} // verus!
