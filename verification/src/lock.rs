//! The sync lock: a small record in the shared folder that says which
//! machine is syncing, so that two machines do not sync at once.
//!
//! Reading and writing the record is left to the caller. Whether a record
//! that was found blocks this machine, and what is written in its place, is
//! decided here.

use crate::state::utc_now;
use crate::text::{join_path, joined};
use vstd::prelude::*;

verus! {

/// A lock that is older than this many seconds is stale and may be taken
/// over.
pub const LOCK_TIMEOUT_SECS: i64 = 60;

/// The content of the lock record.
#[derive(Debug)]
pub struct LockFile {
    /// The machine that holds the lock.
    pub machine_id: String,
    /// When the lock was taken or last refreshed, in seconds since the
    /// epoch.
    pub timestamp: i64,
    /// The process that holds the lock.
    pub pid: u32,
}

/// What a `LockFile` says, as plain mathematics.
pub ghost struct LockFileView {
    pub machine_id: Seq<char>,
    pub timestamp: i64,
    pub pid: u32,
}

impl View for LockFile {
    type V = LockFileView;

    open spec fn view(&self) -> LockFileView {
        LockFileView { machine_id: self.machine_id@, timestamp: self.timestamp, pid: self.pid }
    }
}

impl DeepView for LockFile {
    type V = LockFileView;

    open spec fn deep_view(&self) -> LockFileView {
        self@
    }
}

/// Why the lock could not be taken.
#[derive(Debug)]
pub enum LockError {
    /// Another machine holds it. `age` is the age of its lock in seconds,
    /// `remaining` the seconds after which it becomes stale.
    Held { holder: String, age: i64, remaining: i64 },
}

/// The lock of one machine on one shared folder.
#[derive(Debug)]
pub struct SyncLock {
    lock_path: String,
    machine_id: String,
}

/// What a machine holds while it has the lock.
#[derive(Debug)]
pub struct LockGuard {
    path: String,
    machine_id: String,
}

/// The nearest 64-bit number to `x`.
pub open spec fn clamped(x: int) -> i64 {
    if x < i64::MIN {
        i64::MIN
    } else if x > i64::MAX {
        i64::MAX
    } else {
        x as i64
    }
}

/// The age of a lock at time `now`, in seconds.
pub open spec fn lock_age(lock: LockFileView, now: i64) -> int {
    now - lock.timestamp
}

/// The record `existing` blocks the machine `me` at time `now`: it is not
/// stale, and it belongs to another machine.
pub open spec fn blocks(existing: Option<LockFileView>, me: Seq<char>, now: i64) -> bool {
    existing matches Some(lock) && lock_age(lock, now) < LOCK_TIMEOUT_SECS && lock.machine_id != me
}

/// The name of the lock record inside the shared folder.
pub open spec fn lock_file_name() -> Seq<char> {
    ".sync_lock"@
}

/// The record as a view, or `None`.
pub open spec fn record_view(existing: Option<&LockFile>) -> Option<LockFileView> {
    match existing {
        Some(lock) => Some(lock@),
        None => None,
    }
}

/// The nearest 64-bit number to `x`.
fn clamp_to_i64(x: i128) -> (n: i64)
    ensures
        n == clamped(x as int),
{
    if x < -0x8000_0000_0000_0000 {
        i64::MIN
    } else if x > 0x7fff_ffff_ffff_ffff {
        i64::MAX
    } else {
        x as i64
    }
}

/// The age of `lock` at time `now`, in seconds.
fn age_of(lock: &LockFile, now: i64) -> (age: i128)
    ensures
        age == lock_age(lock@, now),
{
    (now as i128) - (lock.timestamp as i128)
}

impl SyncLock {
    /// The lock of machine `machine_id` on the shared folder at
    /// `dropbox_claude_dir`.
    pub fn new(dropbox_claude_dir: &str, machine_id: String) -> (lock: Self)
        ensures
            lock.path() == joined(dropbox_claude_dir@, lock_file_name()),
            lock.owner() == machine_id@,
    {
        SyncLock { lock_path: join_path(dropbox_claude_dir, ".sync_lock"), machine_id }
    }

    /// Where the lock record is kept.
    pub closed spec fn path(&self) -> Seq<char> {
        self.lock_path@
    }

    /// The machine that this lock is for.
    pub closed spec fn owner(&self) -> Seq<char> {
        self.machine_id@
    }

    /// Where the lock record is kept.
    pub fn lock_path(&self) -> (path: &String)
        ensures
            path@ == self.path(),
    {
        &self.lock_path
    }

    /// Tells whether the record `existing` means that another machine
    /// holds the lock at time `now`.
    pub fn is_locked_by_other_at(&self, existing: Option<&LockFile>, now: i64) -> (locked: bool)
        ensures
            locked == blocks(record_view(existing), self.owner(), now),
    {
        match existing {
            Some(lock) => age_of(lock, now) < (LOCK_TIMEOUT_SECS as i128) && lock.machine_id
                != self.machine_id,
            None => false,
        }
    }

    /// Tells whether the record `existing` means that another machine
    /// holds the lock now.
    pub fn is_locked_by_other(&self, existing: Option<&LockFile>) -> (locked: bool)
        ensures
            exists|now: i64| locked == blocks(record_view(existing), self.owner(), now),
            existing is None ==> !locked,
            existing is Some && existing->0@.machine_id == self.owner() ==> !locked,
    {
        let now = utc_now().secs;
        self.is_locked_by_other_at(existing, now)
    }

    /// Who holds the lock according to `existing`, and how old the lock is
    /// at time `now`, in seconds.
    pub fn lock_info_at(&self, existing: Option<&LockFile>, now: i64) -> (info: Option<
        (String, i64),
    >)
        ensures
            match (existing, info) {
                (Some(lock), Some(pair)) => pair.0@ == lock@.machine_id && pair.1 == clamped(
                    lock_age(lock@, now),
                ),
                (None, None) => true,
                _ => false,
            },
    {
        match existing {
            Some(lock) => Some((lock.machine_id.clone(), clamp_to_i64(age_of(lock, now)))),
            None => None,
        }
    }

    /// Who holds the lock according to `existing`, and how old the lock is
    /// now.
    pub fn lock_info(&self, existing: Option<&LockFile>) -> (info: Option<(String, i64)>)
        ensures
            match (existing, info) {
                (Some(lock), Some(pair)) => pair.0@ == lock@.machine_id,
                (None, None) => true,
                _ => false,
            },
    {
        let now = utc_now().secs;
        self.lock_info_at(existing, now)
    }

    /// Tries to take the lock at time `now` for the process `pid`, given
    /// the record that was found. Fails where the record blocks this
    /// machine; else returns the record to write, and the guard.
    pub fn acquire_at(&self, existing: Option<&LockFile>, now: i64, pid: u32) -> (taken: Result<
        (LockFile, LockGuard),
        LockError,
    >)
        ensures
            taken is Err <==> blocks(record_view(existing), self.owner(), now),
            taken matches Ok(pair) ==> pair.0@ == (LockFileView {
                machine_id: self.owner(),
                timestamp: now,
                pid,
            }) && pair.1.path() == self.path() && pair.1.owner() == self.owner(),
            taken matches Err(LockError::Held { holder, age, remaining }) ==> holder@
                == existing->0@.machine_id && age == clamped(lock_age(existing->0@, now))
                && remaining
                == clamped(LOCK_TIMEOUT_SECS - lock_age(existing->0@, now)),
    {
        match existing {
            Some(lock) => {
                let age = age_of(lock, now);
                if age < (LOCK_TIMEOUT_SECS as i128) && lock.machine_id != self.machine_id {
                    return Err(
                        LockError::Held {
                            holder: lock.machine_id.clone(),
                            age: clamp_to_i64(age),
                            remaining: clamp_to_i64((LOCK_TIMEOUT_SECS as i128) - age),
                        },
                    );
                }
            },
            None => {},
        }
        Ok(
            (
                LockFile { machine_id: self.machine_id.clone(), timestamp: now, pid },
                LockGuard { path: self.lock_path.clone(), machine_id: self.machine_id.clone() },
            ),
        )
    }

    /// Tries to take the lock now for the process `pid`, given the record
    /// that was found.
    pub fn acquire(&self, existing: Option<&LockFile>, pid: u32) -> (taken: Result<
        (LockFile, LockGuard),
        LockError,
    >)
        ensures
            exists|now: i64|
                (taken is Err <==> blocks(record_view(existing), self.owner(), now)) && (
                taken matches Ok(pair) ==> pair.0@ == (LockFileView {
                    machine_id: self.owner(),
                    timestamp: now,
                    pid,
                })),
            existing is None ==> taken is Ok,
            existing is Some && existing->0@.machine_id == self.owner() ==> taken is Ok,
            taken matches Ok(pair) ==> pair.1.path() == self.path() && pair.1.owner()
                == self.owner(),
    {
        let now = utc_now().secs;
        self.acquire_at(existing, now, pid)
    }
}

impl LockGuard {
    /// Where the lock record is kept.
    pub closed spec fn path(&self) -> Seq<char> {
        self.path@
    }

    /// The machine that holds the lock.
    pub closed spec fn owner(&self) -> Seq<char> {
        self.machine_id@
    }

    /// Where the lock record is kept.
    pub fn lock_path(&self) -> (path: &String)
        ensures
            path@ == self.path(),
    {
        &self.path
    }

    /// Tells whether the record is to be removed when the guard goes: only
    /// if it is still this machine's.
    pub fn should_release(&self, existing: Option<&LockFile>) -> (release: bool)
        ensures
            release == (existing is Some && existing->0@.machine_id == self.owner()),
    {
        match existing {
            Some(lock) => lock.machine_id == self.machine_id,
            None => false,
        }
    }

    /// The record to write in order to keep the lock beyond time `now`.
    pub fn refresh_at(&self, now: i64, pid: u32) -> (record: LockFile)
        ensures
            record@ == (LockFileView { machine_id: self.owner(), timestamp: now, pid }),
    {
        LockFile { machine_id: self.machine_id.clone(), timestamp: now, pid }
    }

    /// The record to write in order to keep the lock from now on.
    pub fn refresh(&self, pid: u32) -> (record: LockFile)
        ensures
            record@.machine_id == self.owner(),
            record@.pid == pid,
    {
        let now = utc_now().secs;
        self.refresh_at(now, pid)
    }
}

/// A lock that is stale, or this machine's own, never blocks.
pub proof fn lemma_stale_or_own_lock_does_not_block(lock: LockFileView, me: Seq<char>, now: i64)
    requires
        lock_age(lock, now) >= LOCK_TIMEOUT_SECS || lock.machine_id == me,
    ensures
        !blocks(Some(lock), me, now),
{
}

} // verus!
