//! The debounce buffer: raw change notifications are collected here until a
//! batch of them is ready for a sync pass.
//!
//! Times are nanoseconds on a monotonic clock that starts when the buffer is
//! made. Each operation exists twice: once taking the time as an argument,
//! with an exact contract, and once reading the clock itself.

use vstd::prelude::*;

verus! {

/// `std::time::Instant`, a reading of the monotonic clock. It is carried
/// about and never looked into.
#[verifier::external_type_specification]
#[verifier::external_body]
pub struct ExInstant(std::time::Instant);

/// `std::time::Instant::now`: a reading of the monotonic clock.
#[verifier::external_body]
fn instant_now() -> (now: std::time::Instant) {
    std::time::Instant::now()
}

/// `std::time::Instant::elapsed`, in nanoseconds: the time that has passed
/// since `start`. Nothing is promised of it.
#[verifier::external_body]
fn nanos_since(start: &std::time::Instant) -> (nanos: u128) {
    start.elapsed().as_nanos()
}

/// A path that awaits the next flush.
#[derive(Debug)]
pub struct PendingEvent {
    pub path: String,
    /// Whether the notification came from the local side.
    pub is_local: bool,
    /// When the path was first notified in this batch.
    pub first_seen: u128,
    /// When it was last notified.
    pub last_seen: u128,
}

/// What a `PendingEvent` says, as plain mathematics.
pub ghost struct PendingView {
    pub path: Seq<char>,
    pub is_local: bool,
    pub first_seen: u128,
    pub last_seen: u128,
}

impl View for PendingEvent {
    type V = PendingView;

    open spec fn view(&self) -> PendingView {
        PendingView {
            path: self.path@,
            is_local: self.is_local,
            first_seen: self.first_seen,
            last_seen: self.last_seen,
        }
    }
}

impl DeepView for PendingEvent {
    type V = PendingView;

    open spec fn deep_view(&self) -> PendingView {
        self@
    }
}

/// What a buffer holds: the pending paths in the order in which they came
/// in, and the time at which the current batch was opened.
pub ghost struct ChangeBufferView {
    pub pending: Seq<PendingView>,
    pub first_change: Option<u128>,
}

/// Some pending entry is for `path`.
pub open spec fn is_pending(pending: Seq<PendingView>, path: Seq<char>) -> bool {
    exists|i: int| 0 <= i < pending.len() && (#[trigger] pending[i]).path == path
}

/// The position of the pending entry for `path`.
pub open spec fn pending_index(pending: Seq<PendingView>, path: Seq<char>) -> int {
    choose|i: int| 0 <= i < pending.len() && (#[trigger] pending[i]).path == path
}

/// The time from `then` to `now`; zero where `now` is the earlier one.
pub open spec fn elapsed(now: u128, then: u128) -> int {
    if now >= then {
        now - then
    } else {
        0
    }
}

impl ChangeBufferView {
    /// A path is pending at most once, and a batch is open exactly when
    /// something is pending.
    pub open spec fn well_formed(self) -> bool {
        &&& forall|i: int, j: int|
            0 <= i < j < self.pending.len() ==> (#[trigger] self.pending[i]).path != (
            #[trigger] self.pending[j]).path
        &&& (self.first_change is None <==> self.pending.len() == 0)
    }

    /// The buffer after a notification for `path` at time `now`. A path
    /// that is pending already keeps its place and the time it was first
    /// seen; a new one goes to the end. The first notification of a batch
    /// opens it.
    pub open spec fn after_add(self, path: Seq<char>, is_local: bool, now: u128) -> Self {
        ChangeBufferView {
            pending: if is_pending(self.pending, path) {
                let i = pending_index(self.pending, path);
                self.pending.update(
                    i,
                    PendingView { is_local, last_seen: now, ..self.pending[i] },
                )
            } else {
                self.pending.push(
                    PendingView { path, is_local, first_seen: now, last_seen: now },
                )
            },
            first_change: if self.first_change is None {
                Some(now)
            } else {
                self.first_change
            },
        }
    }

    /// Every pending path has been quiet for more than `quiet_period`.
    pub open spec fn all_quiet(self, now: u128, quiet_period: u128) -> bool {
        forall|i: int|
            0 <= i < self.pending.len() ==> elapsed(now, (#[trigger] self.pending[i]).last_seen)
                > quiet_period
    }

    /// A flush is due at time `now`: something is pending, and either the
    /// batch has been open for at least `max_batch_age` or every pending
    /// path has been quiet for more than `quiet_period`.
    pub open spec fn flush_due(self, now: u128, quiet_period: u128, max_batch_age: u128) -> bool {
        &&& self.pending.len() > 0
        &&& ((self.first_change is Some && elapsed(now, self.first_change->0) >= max_batch_age)
            || self.all_quiet(now, quiet_period))
    }

    /// The batch that a flush hands out: each pending path with its origin,
    /// in the order in which the paths came in.
    pub open spec fn batch(self) -> Seq<(Seq<char>, bool)> {
        Seq::new(self.pending.len(), |i: int| (self.pending[i].path, self.pending[i].is_local))
    }
}

/// Collects change notifications and tells when a batch is ready.
#[derive(Debug)]
pub struct ChangeBuffer {
    pending: Vec<PendingEvent>,
    first_change: Option<u128>,
    started: std::time::Instant,
}

impl View for ChangeBuffer {
    type V = ChangeBufferView;

    closed spec fn view(&self) -> ChangeBufferView {
        ChangeBufferView { pending: self.pending.deep_view(), first_change: self.first_change }
    }
}

impl ChangeBuffer {
    #[verifier::type_invariant]
    spec fn inv(&self) -> bool {
        self@.well_formed()
    }

    /// An empty buffer; its clock starts now.
    pub fn new() -> (buffer: Self)
        ensures
            buffer@ == (ChangeBufferView { pending: Seq::empty(), first_change: None }),
    {
        let buffer = ChangeBuffer {
            pending: Vec::new(),
            first_change: None,
            started: instant_now(),
        };
        assert(buffer.pending.deep_view() =~= Seq::<PendingView>::empty());
        buffer
    }

    /// The time on the buffer's clock.
    pub fn now(&self) -> (now: u128) {
        nanos_since(&self.started)
    }

    /// The position of the pending entry for `path`.
    fn position(&self, path: &String) -> (found: Option<usize>)
        ensures
            match found {
                Some(i) => i < self@.pending.len() && self@.pending[i as int].path == path@,
                None => !is_pending(self@.pending, path@),
            },
    {
        let mut i: usize = 0;
        while i < self.pending.len()
            invariant
                i <= self.pending.len(),
                forall|j: int|
                    0 <= j < i ==> (#[trigger] self.pending.deep_view()[j]).path != path@,
            decreases self.pending.len() - i,
        {
            if self.pending[i].path == *path {
                return Some(i);
            }
            i += 1;
        }
        None
    }

    /// Takes the content out, leaving the buffer empty.
    fn take_content(&mut self) -> (content: (Vec<PendingEvent>, Option<u128>))
        ensures
            content.0.deep_view() == old(self)@.pending,
            content.1 == old(self)@.first_change,
            old(self)@.well_formed(),
            final(self)@ == (ChangeBufferView { pending: Seq::empty(), first_change: None }),
    {
        proof {
            use_type_invariant(&*self);
        }
        let mut taken = ChangeBuffer {
            pending: Vec::new(),
            first_change: None,
            started: self.started,
        };
        assert(taken.pending.deep_view() =~= Seq::<PendingView>::empty());
        std::mem::swap(self, &mut taken);
        let ChangeBuffer { pending, first_change, started } = taken;
        (pending, first_change)
    }

    /// Takes in a notification for `path` that arrived at time `now`.
    pub fn add_at(&mut self, path: String, is_local: bool, now: u128)
        ensures
            final(self)@ == old(self)@.after_add(path@, is_local, now),
            final(self)@.well_formed(),
    {
        let ghost before = self@;
        let found = self.position(&path);
        let started = self.started;
        let (mut pending, first_change) = self.take_content();
        proof {
            lemma_add_keeps_well_formed(before, path@, is_local, now);
        }
        match found {
            Some(i) => {
                assert(is_pending(before.pending, path@));
                assert(pending_index(before.pending, path@) == i);
                let first_seen = pending[i].first_seen;
                pending.set(i, PendingEvent { path, is_local, first_seen, last_seen: now });
            },
            None => {
                pending.push(PendingEvent { path, is_local, first_seen: now, last_seen: now });
            },
        }
        assert(pending.deep_view() =~= before.after_add(path@, is_local, now).pending);
        let first_change = match first_change {
            Some(first) => Some(first),
            None => Some(now),
        };
        *self = ChangeBuffer { pending, first_change, started };
    }

    /// Takes in a notification for `path`, stamped with the current time.
    pub fn add(&mut self, path: String, is_local: bool)
        ensures
            exists|now: u128| final(self)@ == old(self)@.after_add(path@, is_local, now),
            final(self)@.well_formed(),
    {
        let now = self.now();
        self.add_at(path, is_local, now);
    }

    /// Tells whether a flush is due at time `now`.
    pub fn should_flush_at(&self, now: u128, quiet_period: u128, max_batch_age: u128) -> (due:
        bool)
        ensures
            due == self@.flush_due(now, quiet_period, max_batch_age),
    {
        if self.pending.len() == 0 {
            return false;
        }
        match self.first_change {
            Some(first) => {
                if now >= first && now - first >= max_batch_age {
                    return true;
                }
                if now < first && max_batch_age == 0 {
                    return true;
                }
            },
            None => {},
        }
        let mut i: usize = 0;
        while i < self.pending.len()
            invariant
                i <= self.pending.len(),
                !(self@.first_change is Some && elapsed(now, self@.first_change->0)
                    >= max_batch_age),
                forall|j: int|
                    0 <= j < i ==> elapsed(now, (#[trigger] self.pending.deep_view()[j]).last_seen)
                        > quiet_period,
            decreases self.pending.len() - i,
        {
            let seen = self.pending[i].last_seen;
            let quiet_for: u128 = if now >= seen {
                now - seen
            } else {
                0
            };
            if quiet_for <= quiet_period {
                assert(self.pending.deep_view()[i as int].last_seen == seen);
                return false;
            }
            i += 1;
        }
        true
    }

    /// Tells whether a flush is due now.
    pub fn should_flush(&self, quiet_period: u128, max_batch_age: u128) -> (due: bool)
        ensures
            exists|now: u128| due == self@.flush_due(now, quiet_period, max_batch_age),
            self@.pending.len() == 0 ==> !due,
            self@.pending.len() > 0 && max_batch_age == 0 ==> due,
    {
        proof {
            use_type_invariant(self);
        }
        let now = self.now();
        self.should_flush_at(now, quiet_period, max_batch_age)
    }

    /// Hands out all pending paths, each with its origin, and empties the
    /// buffer.
    pub fn take(&mut self) -> (batch: Vec<(String, bool)>)
        ensures
            batch.deep_view() == old(self)@.batch(),
            final(self)@ == (ChangeBufferView { pending: Seq::empty(), first_change: None }),
    {
        let (pending, first_change) = self.take_content();
        let mut batch: Vec<(String, bool)> = Vec::new();
        let mut i: usize = 0;
        while i < pending.len()
            invariant
                i <= pending.len(),
                batch.deep_view().len() == i,
                forall|j: int|
                    0 <= j < i ==> #[trigger] batch.deep_view()[j] == (
                        pending.deep_view()[j].path,
                        pending.deep_view()[j].is_local,
                    ),
            decreases pending.len() - i,
        {
            let ghost prev = batch.deep_view();
            let item = (pending[i].path.clone(), pending[i].is_local);
            batch.push(item);
            assert(batch.deep_view() =~= prev.push(item.deep_view()));
            i += 1;
        }
        assert(batch.deep_view() =~= old(self)@.batch());
        batch
    }

    /// Tells whether anything is pending.
    pub fn has_pending(&self) -> (pending: bool)
        ensures
            pending == (self@.pending.len() > 0),
            self@.well_formed(),
    {
        proof {
            use_type_invariant(self);
        }
        self.pending.len() > 0
    }

    /// The number of pending paths.
    pub fn len(&self) -> (count: usize)
        ensures
            count == self@.pending.len(),
    {
        self.pending.len()
    }
}

/// A batch is never held longer than `max_batch_age`: once it has been open
/// that long, a flush is due, whatever else comes in.
pub proof fn lemma_batch_age_forces_flush(
    buffer: ChangeBufferView,
    now: u128,
    quiet_period: u128,
    max_batch_age: u128,
)
    requires
        buffer.well_formed(),
        buffer.pending.len() > 0,
        elapsed(now, buffer.first_change->0) >= max_batch_age,
    ensures
        buffer.flush_due(now, quiet_period, max_batch_age),
{
}

/// While the batch is younger than `max_batch_age`, a path that was
/// notified within the last `quiet_period` holds the flush back.
pub proof fn lemma_recent_change_defers_flush(
    buffer: ChangeBufferView,
    i: int,
    now: u128,
    quiet_period: u128,
    max_batch_age: u128,
)
    requires
        buffer.well_formed(),
        0 <= i < buffer.pending.len(),
        elapsed(now, buffer.pending[i].last_seen) <= quiet_period,
        elapsed(now, buffer.first_change->0) < max_batch_age,
    ensures
        !buffer.flush_due(now, quiet_period, max_batch_age),
{
}

/// A single notification at time `at` is flushed as soon as more than
/// `quiet_period` has passed since, or `max_batch_age` at the latest.
pub proof fn lemma_single_event_flush(
    path: Seq<char>,
    is_local: bool,
    at: u128,
    now: u128,
    quiet_period: u128,
    max_batch_age: u128,
)
    ensures
        ({
            let empty = ChangeBufferView { pending: Seq::empty(), first_change: None };
            empty.after_add(path, is_local, at).flush_due(now, quiet_period, max_batch_age) <==> (
            elapsed(now, at) > quiet_period || elapsed(now, at) >= max_batch_age)
        }),
{
    let empty = ChangeBufferView { pending: Seq::empty(), first_change: None };
    let one = empty.after_add(path, is_local, at);
    assert(!is_pending(empty.pending, path));
    assert(one.pending.len() == 1);
    assert(one.pending[0].last_seen == at);
}

/// Adding keeps the buffer well formed.
pub proof fn lemma_add_keeps_well_formed(
    buffer: ChangeBufferView,
    path: Seq<char>,
    is_local: bool,
    now: u128,
)
    requires
        buffer.well_formed(),
    ensures
        buffer.after_add(path, is_local, now).well_formed(),
        buffer.after_add(path, is_local, now).pending.len() > 0,
{
    let after = buffer.after_add(path, is_local, now);
    if is_pending(buffer.pending, path) {
        let i = pending_index(buffer.pending, path);
        assert forall|a: int, b: int| 0 <= a < b < after.pending.len() implies (
        #[trigger] after.pending[a]).path != (#[trigger] after.pending[b]).path by {
            assert(after.pending[a].path == buffer.pending[a].path);
            assert(after.pending[b].path == buffer.pending[b].path);
        }
    } else {
        assert forall|a: int, b: int| 0 <= a < b < after.pending.len() implies (
        #[trigger] after.pending[a]).path != (#[trigger] after.pending[b]).path by {
            if b < buffer.pending.len() {
                assert(after.pending[a] == buffer.pending[a]);
                assert(after.pending[b] == buffer.pending[b]);
            } else {
                assert(after.pending[a] == buffer.pending[a]);
            }
        }
    }
}

/// Under churn the batch age alone decides: as long as some path was
/// notified within the last `quiet_period`, a flush is due exactly when the
/// batch has been open for `max_batch_age`.
pub proof fn lemma_flush_under_churn(
    buffer: ChangeBufferView,
    i: int,
    now: u128,
    quiet_period: u128,
    max_batch_age: u128,
)
    requires
        buffer.well_formed(),
        0 <= i < buffer.pending.len(),
        elapsed(now, buffer.pending[i].last_seen) <= quiet_period,
    ensures
        buffer.flush_due(now, quiet_period, max_batch_age) <==> elapsed(
            now,
            buffer.first_change->0,
        ) >= max_batch_age,
{
}

} // verus!
