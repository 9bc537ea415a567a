//! The watch dispatch loop: raw notifications from the two roots go through
//! a filter into the debounce buffer, and a batch that is ready triggers a
//! sync pass.
//!
//! The loop itself, with its channel and its watchers, is run by the caller.
//! What happens on each turn of the loop is decided here.

use crate::buffer::{ChangeBuffer, ChangeBufferView};
use crate::config::Config;
use crate::preflight::TreeProbe;
use crate::sync::{SyncDirection, SyncEngine, SyncEngineView, SyncPass};
use crate::text::{
    chars_of, contains, ends_with, file_name, find_name_start, is_hidden_name, occurs_in,
};
use vstd::prelude::*;
use vstd::slice::slice_subrange;

verus! {

/// The kind of a raw notification, as the watch source tells it.
#[derive(Debug, Clone, Copy, PartialEq, Eq, Structural)]
pub enum EventKind {
    Any,
    Access,
    Create,
    Modify,
    Remove,
    Other,
}

/// A raw notification: something happened to the files at `paths`.
#[derive(Debug)]
pub struct RawEvent {
    pub kind: EventKind,
    pub paths: Vec<String>,
}

/// What a watcher hands to the dispatch loop.
#[derive(Debug)]
pub enum WatchEvent {
    /// The file at `path` has changed, on the local side or on the remote.
    FileChange { path: String, is_local: bool },
    /// The watch source has reported an error.
    Error(String),
}

/// What a `WatchEvent` says, as plain mathematics.
pub ghost enum WatchEventView {
    FileChange { path: Seq<char>, is_local: bool },
    Error(Seq<char>),
}

impl View for WatchEvent {
    type V = WatchEventView;

    open spec fn view(&self) -> WatchEventView {
        match self {
            WatchEvent::FileChange { path, is_local } => WatchEventView::FileChange {
                path: path@,
                is_local: *is_local,
            },
            WatchEvent::Error(why) => WatchEventView::Error(why@),
        }
    }
}

impl DeepView for WatchEvent {
    type V = WatchEventView;

    open spec fn deep_view(&self) -> WatchEventView {
        self@
    }
}

/// Only creations, modifications and removals count as changes.
pub open spec fn is_change(kind: EventKind) -> bool {
    kind == EventKind::Create || kind == EventKind::Modify || kind == EventKind::Remove
}

/// What is handed on for a raw notification from one side: one file change
/// for each path of a creation, modification or removal, nothing for the
/// other kinds, and the error where the watch source reported one.
pub open spec fn events_for(
    notified: Result<(EventKind, Seq<Seq<char>>), Seq<char>>,
    is_local: bool,
) -> Seq<WatchEventView> {
    match notified {
        Ok((kind, paths)) => if is_change(kind) {
            Seq::new(paths.len(), |i: int| WatchEventView::FileChange { path: paths[i], is_local })
        } else {
            Seq::empty()
        },
        Err(why) => seq![WatchEventView::Error(why)],
    }
}

/// A raw notification, with texts as character sequences.
pub open spec fn notified_view(notified: Result<RawEvent, String>) -> Result<
    (EventKind, Seq<Seq<char>>),
    Seq<char>,
> {
    match notified {
        Ok(event) => Ok((event.kind, event.paths.deep_view())),
        Err(why) => Err(why@),
    }
}

/// The file is a conflict copy, as the shared folder makes them.
pub open spec fn names_conflict(name: Seq<char>) -> bool {
    occurs_in(name, "conflicted copy"@)
}

/// The file is a temporary one.
pub open spec fn names_temporary(name: Seq<char>) -> bool {
    ".tmp"@.is_suffix_of(name) || "~"@.is_suffix_of(name)
}

/// A change to `path` is none of the watcher's business: the file is
/// hidden, or the sync state, or a lock, or metadata of the platform, or a
/// conflict copy, or temporary.
pub open spec fn ignored(path: Seq<char>) -> bool {
    let name = file_name(path);
    ||| is_hidden_name(name)
    ||| name == ".sync_state.json"@
    ||| name == ".sync_lock"@
    ||| name == ".DS_Store"@
    ||| "._"@.is_prefix_of(name)
    ||| names_conflict(name)
    ||| names_temporary(name)
}

/// A change to `path` is ignored because the file is a conflict copy, which
/// calls for a warning.
pub open spec fn conflict_detected(path: Seq<char>) -> bool {
    !is_hidden_name(file_name(path)) && names_conflict(file_name(path))
}

/// The direction of the pass for a batch: a push where all changes came
/// from the local side, a pull where all came from the remote side, and
/// both ways where they are mixed.
pub open spec fn batch_direction(batch: Seq<(Seq<char>, bool)>) -> SyncDirection {
    let some_local = exists|i: int| 0 <= i < batch.len() && (#[trigger] batch[i]).1;
    let some_remote = exists|i: int| 0 <= i < batch.len() && !(#[trigger] batch[i]).1;
    if some_local && !some_remote {
        SyncDirection::Push
    } else if some_remote && !some_local {
        SyncDirection::Pull
    } else {
        SyncDirection::Bidirectional
    }
}

/// What came out of the channel on one turn of the loop.
#[derive(Debug)]
pub enum Received {
    /// A watcher has seen a change.
    Change { path: String, is_local: bool },
    /// A watcher has reported an error.
    WatchError(String),
    /// Nothing came within the polling interval.
    Timeout,
    /// The channel is closed.
    Disconnected,
}

/// What a `Received` says, as plain mathematics.
pub ghost enum ReceivedView {
    Change { path: Seq<char>, is_local: bool },
    WatchError(Seq<char>),
    Timeout,
    Disconnected,
}

impl View for Received {
    type V = ReceivedView;

    open spec fn view(&self) -> ReceivedView {
        match self {
            Received::Change { path, is_local } => ReceivedView::Change {
                path: path@,
                is_local: *is_local,
            },
            Received::WatchError(why) => ReceivedView::WatchError(why@),
            Received::Timeout => ReceivedView::Timeout,
            Received::Disconnected => ReceivedView::Disconnected,
        }
    }
}

/// What the loop is to do at the end of a turn.
#[derive(Debug)]
pub enum Dispatch {
    /// Go on waiting.
    Wait,
    /// Run one sync pass in this direction, for this batch of changes.
    Sync { direction: SyncDirection, batch: Vec<(String, bool)> },
    /// Leave the loop.
    Stop,
}

/// What a `Dispatch` says, as plain mathematics.
pub ghost enum DispatchView {
    Wait,
    Sync { direction: SyncDirection, batch: Seq<(Seq<char>, bool)> },
    Stop,
}

impl View for Dispatch {
    type V = DispatchView;

    open spec fn view(&self) -> DispatchView {
        match self {
            Dispatch::Wait => DispatchView::Wait,
            Dispatch::Sync { direction, batch } => DispatchView::Sync {
                direction: *direction,
                batch: batch.deep_view(),
            },
            Dispatch::Stop => DispatchView::Stop,
        }
    }
}

/// The outcome of one turn of the loop.
#[derive(Debug)]
pub struct Turn {
    /// What to do next.
    pub dispatch: Dispatch,
    /// Whether the change received was a conflict copy, of which the user
    /// is to be warned.
    pub conflict: bool,
}

/// The buffer's content and what is dispatched after the buffer was asked
/// at time `now` whether a flush is due.
pub open spec fn flush_check(
    buffer: ChangeBufferView,
    now: u128,
    quiet_period: u128,
    max_batch_age: u128,
) -> (ChangeBufferView, DispatchView) {
    if buffer.flush_due(now, quiet_period, max_batch_age) {
        (
            ChangeBufferView { pending: Seq::empty(), first_change: None },
            DispatchView::Sync { direction: batch_direction(buffer.batch()), batch: buffer.batch() },
        )
    } else {
        (buffer, DispatchView::Wait)
    }
}

/// One turn of the loop at time `now`: the buffer's content afterwards,
/// what is dispatched, and whether a conflict copy was seen.
///
/// A change that is ignored ends the turn at once. Any other change goes
/// into the buffer. Then, and likewise after an error or a timeout, the
/// buffer is asked whether a flush is due. A closed channel stops the loop.
pub open spec fn turn(
    buffer: ChangeBufferView,
    received: ReceivedView,
    now: u128,
    quiet_period: u128,
    max_batch_age: u128,
) -> (ChangeBufferView, DispatchView, bool) {
    match received {
        ReceivedView::Change { path, is_local } => if ignored(path) {
            (buffer, DispatchView::Wait, conflict_detected(path))
        } else {
            let checked = flush_check(
                buffer.after_add(path, is_local, now),
                now,
                quiet_period,
                max_batch_age,
            );
            (checked.0, checked.1, false)
        },
        ReceivedView::WatchError(_) => {
            let checked = flush_check(buffer, now, quiet_period, max_batch_age);
            (checked.0, checked.1, false)
        },
        ReceivedView::Timeout => {
            let checked = flush_check(buffer, now, quiet_period, max_batch_age);
            (checked.0, checked.1, false)
        },
        ReceivedView::Disconnected => (buffer, DispatchView::Stop, false),
    }
}

/// Turns a raw notification from one side into what is handed to the
/// dispatch loop.
pub fn handle_event(notified: Result<RawEvent, String>, is_local: bool) -> (events: Vec<WatchEvent>)
    ensures
        events.deep_view() == events_for(notified_view(notified), is_local),
{
    let mut events: Vec<WatchEvent> = Vec::new();
    match notified {
        Ok(event) => {
            let relevant = match event.kind {
                EventKind::Create => true,
                EventKind::Modify => true,
                EventKind::Remove => true,
                _ => false,
            };
            if relevant {
                let mut i: usize = 0;
                while i < event.paths.len()
                    invariant
                        i <= event.paths.len(),
                        events.deep_view().len() == i,
                        forall|j: int|
                            0 <= j < i ==> #[trigger] events.deep_view()[j]
                                == (WatchEventView::FileChange {
                                path: event.paths.deep_view()[j],
                                is_local,
                            }),
                    decreases event.paths.len() - i,
                {
                    let ghost before = events.deep_view();
                    let item = WatchEvent::FileChange { path: event.paths[i].clone(), is_local };
                    events.push(item);
                    assert(events.deep_view() =~= before.push(item@));
                    i += 1;
                }
                assert(events.deep_view() =~= events_for(notified_view(notified), is_local));
            } else {
                assert(events.deep_view() =~= Seq::<WatchEventView>::empty());
            }
        },
        Err(why) => {
            let item = WatchEvent::Error(why);
            events.push(item);
            assert(events.deep_view() =~= seq![item@]);
        },
    }
    events
}

/// Tells whether a change to `path` is to be ignored.
pub fn should_ignore(path: &str) -> (ignore: bool)
    ensures
        ignore == ignored(path@),
{
    let chars = chars_of(path);
    let start = find_name_start(chars.as_slice());
    let name = slice_subrange(chars.as_slice(), start, chars.len());
    assert(name@ =~= file_name(path@));
    proof {
        reveal_strlit(".sync_state.json");
        reveal_strlit(".sync_lock");
        reveal_strlit(".DS_Store");
        reveal_strlit("._");
        if "._"@.is_prefix_of(name@) {
            assert(name@[0] == "._"@.subrange(0, 2)[0]);
        }
    }
    if name.len() > 0 && name[0] == '.' {
        return true;
    }
    let conflict = chars_of("conflicted copy");
    if contains(name, conflict.as_slice()) {
        return true;
    }
    let tmp = chars_of(".tmp");
    let tilde = chars_of("~");
    ends_with(name, tmp.as_slice()) || ends_with(name, tilde.as_slice())
}

/// Tells whether a change to `path` is ignored because the file is a
/// conflict copy.
pub fn is_conflict_copy(path: &str) -> (conflict: bool)
    ensures
        conflict == conflict_detected(path@),
{
    let chars = chars_of(path);
    let start = find_name_start(chars.as_slice());
    let name = slice_subrange(chars.as_slice(), start, chars.len());
    assert(name@ =~= file_name(path@));
    if name.len() > 0 && name[0] == '.' {
        return false;
    }
    let conflict = chars_of("conflicted copy");
    contains(name, conflict.as_slice())
}

/// Tells whether a file of this name is a conflict copy.
pub fn is_conflict_name(name: &str) -> (conflict: bool)
    ensures
        conflict == names_conflict(name@),
{
    let chars = chars_of(name);
    let marker = chars_of("conflicted copy");
    contains(chars.as_slice(), marker.as_slice())
}

/// Picks the direction of the pass for a batch.
pub fn classify_batch(batch: &Vec<(String, bool)>) -> (direction: SyncDirection)
    ensures
        direction == batch_direction(batch.deep_view()),
{
    let mut has_local = false;
    let mut has_remote = false;
    let mut i: usize = 0;
    while i < batch.len()
        invariant
            i <= batch.len(),
            has_local == (exists|j: int| 0 <= j < i && (#[trigger] batch.deep_view()[j]).1),
            has_remote == (exists|j: int| 0 <= j < i && !(#[trigger] batch.deep_view()[j]).1),
        decreases batch.len() - i,
    {
        assert(batch.deep_view()[i as int].1 == batch[i as int].1);
        if batch[i].1 {
            has_local = true;
        } else {
            has_remote = true;
        }
        i += 1;
    }
    if has_local && !has_remote {
        SyncDirection::Push
    } else if has_remote && !has_local {
        SyncDirection::Pull
    } else {
        SyncDirection::Bidirectional
    }
}

/// The watcher: the sync engine and the buffer in which changes wait for
/// it.
#[derive(Debug)]
pub struct SyncWatcher {
    engine: SyncEngine,
    buffer: ChangeBuffer,
    debounce_nanos: u128,
    max_batch_nanos: u128,
}

/// What a `SyncWatcher` holds, as plain mathematics.
pub ghost struct SyncWatcherView {
    pub engine: SyncEngineView,
    pub buffer: ChangeBufferView,
    pub debounce_nanos: u128,
    pub max_batch_nanos: u128,
}

impl View for SyncWatcher {
    type V = SyncWatcherView;

    closed spec fn view(&self) -> SyncWatcherView {
        SyncWatcherView {
            engine: self.engine@,
            buffer: self.buffer@,
            debounce_nanos: self.debounce_nanos,
            max_batch_nanos: self.max_batch_nanos,
        }
    }
}

impl SyncWatcher {
    /// A watcher for `config`, with nothing pending.
    pub fn new(config: Config) -> (watcher: Self)
        ensures
            watcher@.engine.config == config@,
            watcher@.debounce_nanos == config@.debounce_nanos,
            watcher@.max_batch_nanos == config@.max_batch_nanos,
            watcher@.buffer == (ChangeBufferView { pending: Seq::empty(), first_change: None }),
    {
        let debounce_nanos = config.debounce_nanos;
        let max_batch_nanos = config.max_batch_nanos;
        SyncWatcher {
            engine: SyncEngine::new(config),
            buffer: ChangeBuffer::new(),
            debounce_nanos,
            max_batch_nanos,
        }
    }

    /// The sync engine.
    pub fn engine(&self) -> (engine: &SyncEngine)
        ensures
            engine@ == self@.engine,
    {
        &self.engine
    }

    /// The time on the clock of the watcher's buffer.
    pub fn now(&self) -> (now: u128) {
        self.buffer.now()
    }

    /// The number of paths that wait in the buffer.
    pub fn pending(&self) -> (count: usize)
        ensures
            count == self@.buffer.pending.len(),
    {
        self.buffer.len()
    }

    /// Asks the buffer whether a flush is due at time `now`, and takes the
    /// batch out if it is.
    fn check_flush(&mut self, now: u128) -> (dispatch: Dispatch)
        ensures
            (final(self)@.buffer, dispatch@) == flush_check(
                old(self)@.buffer,
                now,
                old(self)@.debounce_nanos,
                old(self)@.max_batch_nanos,
            ),
            final(self)@.engine == old(self)@.engine,
            final(self)@.debounce_nanos == old(self)@.debounce_nanos,
            final(self)@.max_batch_nanos == old(self)@.max_batch_nanos,
    {
        if self.buffer.should_flush_at(now, self.debounce_nanos, self.max_batch_nanos) {
            let batch = self.buffer.take();
            let direction = classify_batch(&batch);
            Dispatch::Sync { direction, batch }
        } else {
            Dispatch::Wait
        }
    }

    /// One turn of the dispatch loop at time `now`: takes what came out of
    /// the channel and says what to do next.
    pub fn run_at(&mut self, received: Received, now: u128) -> (turned: Turn)
        ensures
            (final(self)@.buffer, turned.dispatch@, turned.conflict) == turn(
                old(self)@.buffer,
                received@,
                now,
                old(self)@.debounce_nanos,
                old(self)@.max_batch_nanos,
            ),
            final(self)@.engine == old(self)@.engine,
            final(self)@.debounce_nanos == old(self)@.debounce_nanos,
            final(self)@.max_batch_nanos == old(self)@.max_batch_nanos,
    {
        match received {
            Received::Change { path, is_local } => {
                if should_ignore(path.as_str()) {
                    let conflict = is_conflict_copy(path.as_str());
                    Turn { dispatch: Dispatch::Wait, conflict }
                } else {
                    self.buffer.add_at(path, is_local, now);
                    let dispatch = self.check_flush(now);
                    Turn { dispatch, conflict: false }
                }
            },
            Received::WatchError(_) => {
                let dispatch = self.check_flush(now);
                Turn { dispatch, conflict: false }
            },
            Received::Timeout => {
                let dispatch = self.check_flush(now);
                Turn { dispatch, conflict: false }
            },
            Received::Disconnected => Turn { dispatch: Dispatch::Stop, conflict: false },
        }
    }

    /// One turn of the dispatch loop, at the current time.
    pub fn run(&mut self, received: Received) -> (turned: Turn)
        ensures
            exists|now: u128|
                (final(self)@.buffer, turned.dispatch@, turned.conflict) == turn(
                    old(self)@.buffer,
                    received@,
                    now,
                    old(self)@.debounce_nanos,
                    old(self)@.max_batch_nanos,
                ),
            final(self)@.engine == old(self)@.engine,
            received@ is Disconnected ==> turned.dispatch@ == DispatchView::Stop
                && final(self)@.buffer == old(self)@.buffer,
            received@ matches ReceivedView::Change { path, .. } ==> (ignored(path)
                ==> turned.dispatch@ == DispatchView::Wait && turned.conflict == conflict_detected(
                path,
            ) && final(self)@.buffer == old(self)@.buffer),
    {
        let now = self.buffer.now();
        self.run_at(received, now)
    }

    /// Begins the single pass of a one-time sync: a bidirectional pass,
    /// unless the pre-flight check of both trees complains, in which case
    /// the complaints are returned and nothing is begun.
    pub fn sync_once(&self, local: &TreeProbe, remote: &TreeProbe) -> (begun: Result<
        SyncPass,
        Vec<String>,
    >)
        ensures
            begun is Ok <==> self@.engine.source_complaints(
                SyncDirection::Bidirectional,
                local@,
                remote@,
            ).len() == 0,
            begun matches Err(complaints) ==> complaints.deep_view()
                == self@.engine.source_complaints(SyncDirection::Bidirectional, local@, remote@),
            begun matches Ok(pass) ==> exists|home: Option<Seq<char>>, stamp: Seq<char>|
                pass@ == self@.engine.pass_begun(SyncDirection::Bidirectional, home, stamp),
    {
        let complaints = self.engine.validate_sources(SyncDirection::Bidirectional, local, remote);
        if complaints.len() > 0 {
            Err(complaints)
        } else {
            Ok(self.engine.sync(SyncDirection::Bidirectional))
        }
    }
}

/// A batch whose changes all came from the local side is pushed.
pub proof fn lemma_local_batch_is_pushed(batch: Seq<(Seq<char>, bool)>)
    requires
        batch.len() > 0,
        forall|i: int| 0 <= i < batch.len() ==> (#[trigger] batch[i]).1,
    ensures
        batch_direction(batch) == SyncDirection::Push,
{
    assert(batch[0].1);
}

/// A batch whose changes all came from the remote side is pulled.
pub proof fn lemma_remote_batch_is_pulled(batch: Seq<(Seq<char>, bool)>)
    requires
        batch.len() > 0,
        forall|i: int| 0 <= i < batch.len() ==> !(#[trigger] batch[i]).1,
    ensures
        batch_direction(batch) == SyncDirection::Pull,
{
    assert(!batch[0].1);
}

/// A batch with changes from both sides is synced both ways.
pub proof fn lemma_mixed_batch_goes_both_ways(batch: Seq<(Seq<char>, bool)>, i: int, j: int)
    requires
        0 <= i < batch.len(),
        0 <= j < batch.len(),
        batch[i].1,
        !batch[j].1,
    ensures
        batch_direction(batch) == SyncDirection::Bidirectional,
{
}

} // verus!
