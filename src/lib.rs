//! Named capture groups of a compiled pattern.
//!
//! A compiled pattern keeps a bucketed table from group names to the capture
//! groups they label. [`table`] models that table as plain values and decodes
//! its records; [`names`] walks it lazily, bucket by bucket and chain by chain;
//! [`laws`] states what every walk over one pattern has in common.

pub mod laws;
pub mod names;
pub mod table;

pub use names::{Names, Regex};
pub use table::{NameEntry, NameError, NameTable};
