//! Verified core of a Steam activity watcher for ActivityWatch.
//!
//! The library decides which installed game a running executable belongs to,
//! builds the events and bucket names reported to an ActivityWatch server,
//! reads the few fields it needs from Steam Web API replies, and holds the
//! watcher's per-tick decisions. Network, disk and process I/O stay outside.

pub mod decimal;
pub mod path;
pub mod steam;
pub mod aw;
pub mod report;
pub mod api;
pub mod watcher;
