//! The writer's per-record flags.

use vstd::prelude::*;

verus! {

/// A flag bit stored in a record's 16-bit flag field.
#[derive(Debug, Clone, Copy, PartialEq, Eq, Structural)]
pub enum ResourceFlags {
    /// The resource payload is compressed with the zlib library.
    ZlibCompression,
    /// The resource is a directory.
    Directory,
    /// The resource payload is compressed with the zstd library.
    ZstdCompression,
}

impl ResourceFlags {
    /// The bit this flag occupies in the flag field.
    pub open spec fn spec_bits(self) -> u16 {
        match self {
            ResourceFlags::ZlibCompression => 0x01,
            ResourceFlags::Directory => 0x02,
            ResourceFlags::ZstdCompression => 0x04,
        }
    }

    /// The bit this flag occupies in the flag field.
    #[verifier::when_used_as_spec(spec_bits)]
    pub fn bits(self) -> (r: u16)
        ensures
            r == self.spec_bits(),
    {
        match self {
            ResourceFlags::ZlibCompression => 0x01,
            ResourceFlags::Directory => 0x02,
            ResourceFlags::ZstdCompression => 0x04,
        }
    }
}

} // verus!
