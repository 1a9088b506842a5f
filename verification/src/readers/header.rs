//! Decoder for the fixed prefix of a standalone container: the magic, the
//! format version, the three structural offsets, and (from format version 3
//! on) the overall flags.

use vstd::prelude::*;

use crate::bytes;
use crate::constants::SUPPORTED_FORMAT_VERSION;
use crate::error::Error;

verus! {

/// The decoded header of a standalone container file.
#[derive(Debug)]
pub struct RCCFileHeaderReader {
    pub magic: [u8; 4],
    pub format_version: u32,
    pub struct_offset: usize,
    pub data_offset: usize,
    pub name_offset: usize,
    pub overall_flags: Option<u32>,
}

/// True when the image begins with the magic bytes spelling `qres`.
pub open spec fn magic_ok(img: Seq<u8>) -> bool {
    img.len() >= 4 && img[0] == 0x71 && img[1] == 0x72 && img[2] == 0x65 && img[3] == 0x73
}

/// The number of bytes the header occupies for the given format version.
pub open spec fn header_len(version: u32) -> int {
    if version >= 3 {
        24
    } else {
        20
    }
}

impl RCCFileHeaderReader {
    /// Parses the header at the start of `rcc_bytes`.
    ///
    /// Short reads are structural, not transient: they surface as
    /// `OutOfBounds` carrying the offset at which the read began. A wrong
    /// magic surfaces as `InvalidHeaderMagic` carrying the received and the
    /// expected bytes, and a decoded format version above the supported one
    /// as `UnsupportedVersion`.
    pub fn new(rcc_bytes: &[u8]) -> (r: Result<Self, Error>)
        ensures
            rcc_bytes@.len() < 4 ==> r == Err::<Self, Error>(Error::OutOfBounds { offset: 0 }),
            rcc_bytes@.len() >= 4 && !magic_ok(rcc_bytes@) ==> (r matches Err(e) && e matches
                Error::InvalidHeaderMagic { received, expected } && received@ == rcc_bytes@.take(4)
                && expected@ == seq![0x71u8, 0x72u8, 0x65u8, 0x73u8]),
            magic_ok(rcc_bytes@) && rcc_bytes@.len() < 8 ==> r == Err::<Self, Error>(
                Error::OutOfBounds { offset: 4 },
            ),
            magic_ok(rcc_bytes@) && 8 <= rcc_bytes@.len() < 12 ==> r == Err::<Self, Error>(
                Error::OutOfBounds { offset: 8 },
            ),
            magic_ok(rcc_bytes@) && 12 <= rcc_bytes@.len() < 16 ==> r == Err::<Self, Error>(
                Error::OutOfBounds { offset: 12 },
            ),
            magic_ok(rcc_bytes@) && 16 <= rcc_bytes@.len() < 20 ==> r == Err::<Self, Error>(
                Error::OutOfBounds { offset: 16 },
            ),
            magic_ok(rcc_bytes@) && 20 <= rcc_bytes@.len() && rcc_bytes@.len() < 24 && bytes::be_u32(
                rcc_bytes@,
                4,
            ) >= 3 ==> r == Err::<Self, Error>(Error::OutOfBounds { offset: 20 }),
            magic_ok(rcc_bytes@) && rcc_bytes@.len() >= header_len(bytes::be_u32(rcc_bytes@, 4))
                && bytes::be_u32(rcc_bytes@, 4) > SUPPORTED_FORMAT_VERSION ==> r == Err::<
                Self,
                Error,
            >(
                Error::UnsupportedVersion {
                    received: bytes::be_u32(rcc_bytes@, 4),
                    expected: SUPPORTED_FORMAT_VERSION,
                },
            ),
            magic_ok(rcc_bytes@) && rcc_bytes@.len() >= header_len(bytes::be_u32(rcc_bytes@, 4))
                && bytes::be_u32(rcc_bytes@, 4) <= SUPPORTED_FORMAT_VERSION ==> (r matches Ok(h)
                && h.magic@ == rcc_bytes@.take(4) && h.format_version == bytes::be_u32(
                rcc_bytes@,
                4,
            ) && h.struct_offset == bytes::be_u32(rcc_bytes@, 8) && h.data_offset == bytes::be_u32(
                rcc_bytes@,
                12,
            ) && h.name_offset == bytes::be_u32(rcc_bytes@, 16) && h.overall_flags == (
            if bytes::be_u32(rcc_bytes@, 4) >= 3 {
                Some(bytes::be_u32(rcc_bytes@, 20))
            } else {
                None::<u32>
            })),
    {
        if rcc_bytes.len() < 4 {
            return Err(Error::OutOfBounds { offset: 0 });
        }
        let magic = [rcc_bytes[0], rcc_bytes[1], rcc_bytes[2], rcc_bytes[3]];
        proof {
            assert(magic@ =~= rcc_bytes@.take(4));
        }
        if !(rcc_bytes[0] == 0x71 && rcc_bytes[1] == 0x72 && rcc_bytes[2] == 0x65 && rcc_bytes[3]
            == 0x73) {
            let expected = [0x71u8, 0x72u8, 0x65u8, 0x73u8];
            proof {
                assert(expected@ =~= seq![0x71u8, 0x72u8, 0x65u8, 0x73u8]);
            }
            return Err(Error::InvalidHeaderMagic { received: magic, expected });
        }
        let format_version = match bytes::read_u32(rcc_bytes, 4, 0) {
            Ok(v) => v,
            Err(_) => {
                return Err(Error::OutOfBounds { offset: 4 });
            },
        };
        let struct_offset = match bytes::read_u32(rcc_bytes, 8, 0) {
            Ok(v) => v as usize,
            Err(_) => {
                return Err(Error::OutOfBounds { offset: 8 });
            },
        };
        let data_offset = match bytes::read_u32(rcc_bytes, 12, 0) {
            Ok(v) => v as usize,
            Err(_) => {
                return Err(Error::OutOfBounds { offset: 12 });
            },
        };
        let name_offset = match bytes::read_u32(rcc_bytes, 16, 0) {
            Ok(v) => v as usize,
            Err(_) => {
                return Err(Error::OutOfBounds { offset: 16 });
            },
        };
        let overall_flags = if format_version >= 3 {
            match bytes::read_u32(rcc_bytes, 20, 0) {
                Ok(v) => Some(v),
                Err(_) => {
                    return Err(Error::OutOfBounds { offset: 20 });
                },
            }
        } else {
            None
        };
        if format_version > SUPPORTED_FORMAT_VERSION {
            return Err(
                Error::UnsupportedVersion {
                    received: format_version,
                    expected: SUPPORTED_FORMAT_VERSION,
                },
            );
        }
        Ok(
            Self {
                magic,
                format_version,
                struct_offset,
                data_offset,
                name_offset,
                overall_flags,
            },
        )
    }
}

} // verus!
