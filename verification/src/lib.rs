//! An in-memory partial index over a delimited-text table.
//!
//! The index keeps a caller-chosen subset of each row's columns resident in
//! memory together with the byte offset at which the row's line starts in the
//! source text, so that the full row can be fetched later by a single seek.
//! The line reader, the index construction, the sorted lookup and the snapshot
//! freshness rule are all defined here over plain values; opening files,
//! seeking and (de)serializing snapshots are left to the surrounding program.

pub mod cache;
pub mod error;
pub mod offset;
pub mod reader;
pub mod record;

pub use cache::is_cache_expired;
pub use cache::CsvPartialCache;
pub use cache::FromLineOffset;
pub use cache::SnapshotSource;
pub use error::Error;
pub use offset::OffsetType;
pub use record::IdRecord;
pub use reader::LineOffset;
