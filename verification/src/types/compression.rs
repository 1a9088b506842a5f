//! The compression tag of a file payload.

use vstd::prelude::*;

use crate::types::flags::ResourceFlags;

verus! {

/// The compression algorithm the writer applied to a payload.
#[derive(Debug, Clone, Copy, PartialEq, Eq, Structural)]
pub enum CompressionAlgorithm {
    /// The payload is stored plain.
    Plain,
    /// The payload is compressed with the zlib library.
    Zlib,
    /// The payload is compressed with the zstd library.
    Zstd,
}

/// The compression tag encoded by a record's flag field: the zlib bit wins
/// over the zstd bit, matching the writer's semantics.
pub open spec fn spec_compression_of(flags: u16) -> CompressionAlgorithm {
    if flags & ResourceFlags::ZlibCompression.spec_bits() != 0 {
        CompressionAlgorithm::Zlib
    } else if flags & ResourceFlags::ZstdCompression.spec_bits() != 0 {
        CompressionAlgorithm::Zstd
    } else {
        CompressionAlgorithm::Plain
    }
}

impl From<u16> for CompressionAlgorithm {
    /// Decodes the compression tag from a record's flag field.
    fn from(value: u16) -> (r: Self) {
        if value & ResourceFlags::ZlibCompression.bits() != 0 {
            CompressionAlgorithm::Zlib
        } else if value & ResourceFlags::ZstdCompression.bits() != 0 {
            CompressionAlgorithm::Zstd
        } else {
            CompressionAlgorithm::Plain
        }
    }
}

impl vstd::std_specs::convert::FromSpecImpl<u16> for CompressionAlgorithm {
    open spec fn obeys_from_spec() -> bool {
        true
    }

    open spec fn from_spec(value: u16) -> Self {
        spec_compression_of(value)
    }
}

} // verus!
