//! Planning and decision logic for deleting file-system trees in parallel.
//!
//! Nothing in this crate touches the file system. A driver walks the tree,
//! removes entries and clears attributes; this crate decides what the driver
//! does next and in which order entries are handed to the worker pool.

pub mod engine;
pub mod entry;
pub mod grouping;
pub mod outcome;
pub mod plan;
pub mod progress;
pub mod scan;
pub mod targets;
