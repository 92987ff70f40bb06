//! A read engine for ESE (Extensible Storage Engine) style databases.
//!
//! The engine reads a database image as a flat byte buffer: a fixed-size
//! header page followed by fixed-size pages that form independent B-trees
//! (one per table, one for the catalog, one per long-value store). Opening
//! the image validates the header, then resolves the reserved catalog tree
//! into an immutable index of tables and columns. Records decode lazily,
//! column by column, into a closed set of typed values; values too large to
//! sit inline are reassembled from segments of a long-value tree, and
//! multi-valued columns expose their repetitions by ordinal.
//!
//! The engine is read-only and synchronous; every fallible operation
//! returns a [`error::Error`] instead of panicking.

pub mod btree;
pub mod catalog;
pub mod datatype;
pub mod db;
pub mod error;
pub mod iter;
pub mod page;
pub mod record;
pub mod value;
pub mod wire;

pub use datatype::{filetime_from_systemtime, systemtime_from_filetime, FileTime};
pub use db::{Column, EseDb, LongValue, MultiValue, Record, Table};
pub use error::Error;
pub use iter::{IterEntries, LoadEntry};
pub use value::{ColType, Value};
