//! A write-ahead log kept in segment files, with the decisions of the log
//! (record format, segment bookkeeping, recovery, group commit, read-ahead)
//! verified, and the file operations left to the caller.
use vstd::prelude::*;

pub mod bytes;
mod clock;
pub mod compression;
pub mod config;
pub mod decimal;
pub mod error;
pub mod paths;
pub mod segment;
pub mod stats;
pub mod storage;
pub mod wal;

pub use config::{Config, PersistenceMode};
pub use error::{Error, Result};
pub use segment::LogSegment;
pub use wal::Wal;

verus! {
} // verus!
