//! Big-endian integer decoding at an arbitrary offset within a borrowed byte
//! slice. This is the sole source of byte-level extraction used by the upper
//! layers, which localises the bounds-check policy.

use vstd::prelude::*;

use crate::error::Error;

verus! {

/// The big-endian 16-bit value stored at `off`.
pub open spec fn be_u16(s: Seq<u8>, off: int) -> u16
    recommends
        0 <= off,
        off + 2 <= s.len(),
{
    (s[off] * 0x100 + s[off + 1]) as u16
}

/// The big-endian 32-bit value stored at `off`.
pub open spec fn be_u32(s: Seq<u8>, off: int) -> u32
    recommends
        0 <= off,
        off + 4 <= s.len(),
{
    (s[off] * 0x1000000 + s[off + 1] * 0x10000 + s[off + 2] * 0x100 + s[off + 3]) as u32
}

/// The big-endian 64-bit value stored at `off`.
pub open spec fn be_u64(s: Seq<u8>, off: int) -> u64
    recommends
        0 <= off,
        off + 8 <= s.len(),
{
    ((be_u32(s, off) as int) * 0x100000000 + (be_u32(s, off + 4) as int)) as u64
}

/// Clamps a mathematical offset to the machine's address range, for reporting
/// the site of a failed read even when the offset itself does not fit `usize`.
pub open spec fn clamp_offset(off: int) -> usize {
    if off > usize::MAX as int {
        usize::MAX
    } else if off < 0 {
        0
    } else {
        off as usize
    }
}

/// The outcome of reading a `width`-byte big-endian integer at `off`: the
/// decoded value when the read stays within the image, otherwise an
/// out-of-bounds error carrying the offending offset.
pub open spec fn spec_read_u16(s: Seq<u8>, off: int) -> Result<u16, Error> {
    if 0 <= off && off + 2 <= s.len() {
        Ok(be_u16(s, off))
    } else {
        Err(Error::OutOfBounds { offset: clamp_offset(off) })
    }
}

/// As [`spec_read_u16`], for a 32-bit value.
pub open spec fn spec_read_u32(s: Seq<u8>, off: int) -> Result<u32, Error> {
    if 0 <= off && off + 4 <= s.len() {
        Ok(be_u32(s, off))
    } else {
        Err(Error::OutOfBounds { offset: clamp_offset(off) })
    }
}

/// As [`spec_read_u16`], for a 64-bit value.
pub open spec fn spec_read_u64(s: Seq<u8>, off: int) -> Result<u64, Error> {
    if 0 <= off && off + 8 <= s.len() {
        Ok(be_u64(s, off))
    } else {
        Err(Error::OutOfBounds { offset: clamp_offset(off) })
    }
}

/// Reads the big-endian `u16` whose first byte lies at `base + delta`.
pub fn read_u16(bytes: &[u8], base: usize, delta: usize) -> (r: Result<u16, Error>)
    ensures
        r == spec_read_u16(bytes@, base + delta),
{
    let n = bytes.len();
    let off = match base.checked_add(delta) {
        Some(o) => o,
        None => {
            return Err(Error::OutOfBounds { offset: usize::MAX });
        },
    };
    if off < n && 2 <= n - off {
        let b0 = bytes[off];
        let b1 = bytes[off + 1];
        Ok((b0 as u16) * 0x100 + (b1 as u16))
    } else {
        Err(Error::OutOfBounds { offset: off })
    }
}

/// Reads the big-endian `u32` whose first byte lies at `base + delta`.
pub fn read_u32(bytes: &[u8], base: usize, delta: usize) -> (r: Result<u32, Error>)
    ensures
        r == spec_read_u32(bytes@, base + delta),
{
    let n = bytes.len();
    let off = match base.checked_add(delta) {
        Some(o) => o,
        None => {
            return Err(Error::OutOfBounds { offset: usize::MAX });
        },
    };
    if off < n && 4 <= n - off {
        let b0 = bytes[off];
        let b1 = bytes[off + 1];
        let b2 = bytes[off + 2];
        let b3 = bytes[off + 3];
        Ok((b0 as u32) * 0x1000000 + (b1 as u32) * 0x10000 + (b2 as u32) * 0x100 + (b3 as u32))
    } else {
        Err(Error::OutOfBounds { offset: off })
    }
}

/// Reads the big-endian `u64` whose first byte lies at `base + delta`.
pub fn read_u64(bytes: &[u8], base: usize, delta: usize) -> (r: Result<u64, Error>)
    ensures
        r == spec_read_u64(bytes@, base + delta),
{
    let n = bytes.len();
    let off = match base.checked_add(delta) {
        Some(o) => o,
        None => {
            return Err(Error::OutOfBounds { offset: usize::MAX });
        },
    };
    if off < n && 8 <= n - off {
        let hi = match read_u32(bytes, off, 0) {
            Ok(v) => v,
            Err(e) => {
                return Err(e);
            },
        };
        let lo = match read_u32(bytes, off, 4) {
            Ok(v) => v,
            Err(e) => {
                return Err(e);
            },
        };
        Ok((hi as u64) * 0x100000000 + (lo as u64))
    } else {
        Err(Error::OutOfBounds { offset: off })
    }
}

} // verus!
