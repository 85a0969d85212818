//! Incremental tar snapshots of a work directory: the naming of archives
//! and their snar listings, the lookups of snapshot bases, the rules that
//! exclude build artifacts, and the tar command line, verified with Verus.
//! Listing directories, walking the source tree and running tar are the
//! caller's.

pub mod cli;
pub mod excludes;
pub mod paths;
pub mod snapshot;
pub mod storage;
pub mod text;
pub mod timestamp;
