//! Keeps a local configuration directory and its mirror in a shared,
//! cloud-synced folder in step: what was last seen of each file, what has
//! changed since, when a burst of change notifications is ripe for a sync,
//! and how a sync pass goes about applying the changes without losing data.
//!
//! The library reads and writes no file. Its callers do, and tell it what
//! they found; what follows from that is decided, and proved, here.

pub mod applying;
pub mod backup;
pub mod buffer;
pub mod config;
pub mod copy;
pub mod detect;
pub mod digest;
pub mod json;
pub mod lock;
pub mod preflight;
pub mod state;
pub mod sync;
pub mod text;
pub mod watcher;
