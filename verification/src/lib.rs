//! Verified extraction of structured records from two-line broker logs:
//! matching the fixed header and content patterns against raw lines,
//! decomposing actor identifiers, merging named sources into one sorted,
//! deduplicated collection, and computing summary statistics.

pub mod actor;
pub mod chars;
pub mod collection;
pub mod entry;
pub mod matcher;
pub mod merge;
pub mod order;
pub mod parse;
pub mod report;
pub mod timestamp;
