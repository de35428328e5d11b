//! Version history engine for a watched text file.
//!
//! The library keeps an append-only, de-duplicated sequence of content
//! snapshots together with a browsing cursor, computes line-level diffs
//! between any two recorded texts, and decides how change-feed
//! notifications and navigation commands act on the history. All I/O
//! (file reading, the change feed itself, terminal rendering) lives with
//! the caller; the functions here work on plain values and carry proofs
//! of their contracts.

pub mod diff;
pub mod feed;
pub mod lines;
pub mod store;
