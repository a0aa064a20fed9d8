//! Registration-watch engine for a motorsport league's race-scheduling API.
//!
//! The library covers the verified core of the watcher: the catalog
//! synchronization that joins series and season feeds, the per-series
//! registration state machine that turns polling snapshots into discrete
//! announcements, the watch-matching rules that decide which destinations
//! hear about an announcement, and the dispatcher that batches outbound
//! messages under the transport's payload limit. Network fetches, the
//! chat-platform surface and durable storage live outside the library and
//! hand it plain values.

pub mod announce;
pub mod cmds;
pub mod db;
pub mod ir;
pub mod ir_watcher;
pub mod poll;
pub mod render;
pub mod seqs;
pub mod text;
