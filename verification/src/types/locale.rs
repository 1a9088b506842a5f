//! Locale attributes and timestamps carried by file records.
//!
//! The enumerations mapping 16-bit codes to symbolic territory and language
//! names are external collaborators, outside this crate's scope; the codes
//! are exposed as the values the writer stored.

use vstd::prelude::*;

verus! {

/// A territory code as stored in a file record.
#[derive(Debug, Clone, Copy, PartialEq, Eq, Structural)]
pub struct Territory {
    pub code: u16,
}

/// A language code as stored in a file record.
#[derive(Debug, Clone, Copy, PartialEq, Eq, Structural)]
pub struct Language {
    pub code: u16,
}

/// A last-modified timestamp, in milliseconds since the Unix epoch.
#[derive(Debug, Clone, Copy, PartialEq, Eq, Structural)]
pub struct Timestamp {
    pub millis: i64,
}

impl Timestamp {
    /// The timestamp's value in milliseconds since the Unix epoch.
    pub fn timestamp_millis(&self) -> (r: i64)
        ensures
            r == self.millis,
    {
        self.millis
    }
}

} // verus!
