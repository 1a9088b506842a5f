//! The crate's error taxonomy. Kinds stay coarse; each carries the numeric
//! offset at which parsing failed where one is meaningful.

use vstd::prelude::*;

verus! {

/// Identifies which caller-supplied structural offset was rejected.
#[derive(Debug, Clone, Copy, PartialEq, Eq, Structural)]
pub enum OffsetName {
    StructOffset,
    NameOffset,
    DataOffset,
}

/// Errors while parsing Qt's resources.
#[derive(Debug, Clone, Copy, PartialEq, Eq)]
#[allow(inconsistent_fields)]
pub enum Error {
    /// A structural offset supplied by the caller is not inside the image.
    InvalidOffset { name: OffsetName, received: usize, expected: usize },
    /// The format version is above the highest supported one.
    UnsupportedVersion { received: u32, expected: u32 },
    /// The first four bytes of the image do not spell the expected magic.
    InvalidHeaderMagic { received: [u8; 4], expected: [u8; 4] },
    /// A bounds check failed during traversal or a read, including a short
    /// read of the fixed-size header: short reads are structural, not
    /// transient.
    OutOfBounds { offset: usize },
    /// A decompression failure.
    IO { offset: usize },
    /// Structured data was found which is invalid or corrupted.
    InvalidData { offset: usize },
}

} // verus!
