//! Change-detection and state-reconciliation engine for a live view of a
//! version-controlled working tree.
//!
//! The library models the data that flows through the engine — status
//! snapshots, recency records, selection state, change batches — as plain
//! values, and proves the reconciliation, classification, sorting and
//! animation rules about them.

pub mod app;
pub mod classify;
pub mod color;
pub mod diff;
pub mod effects;
pub mod events;
pub mod file_list;
pub mod icons;
pub mod recency;
pub mod sorting;
pub mod status;
pub mod strutil;
