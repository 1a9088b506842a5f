//! Decoding of the fields shared by directory and file records: the
//! name-table offset, the flags, and the name entry (length, hash, UTF-16
//! name) it points to.

use vstd::prelude::*;

use crate::bytes;
use crate::error::Error;
use crate::utils;

verus! {

/// The name-table relative offset stored at the start of the record at `ptr`.
pub open spec fn spec_name_table_off(img: Seq<u8>, ptr: int) -> Result<u32, Error> {
    bytes::spec_read_u32(img, ptr)
}

/// The 16-bit flag field of the record at `ptr`.
pub open spec fn spec_flags(img: Seq<u8>, ptr: int) -> Result<u16, Error> {
    bytes::spec_read_u16(img, ptr + 4)
}

/// The precomputed hash in the name entry of the record at `ptr`.
pub open spec fn spec_hash(img: Seq<u8>, name_off: int, ptr: int) -> Result<u32, Error> {
    match spec_name_table_off(img, ptr) {
        Err(e) => Err(e),
        Ok(no) => bytes::spec_read_u32(img, name_off + no + 2),
    }
}

/// The length, in 16-bit units, of the name of the record at `ptr`.
pub open spec fn spec_name_len(img: Seq<u8>, name_off: int, ptr: int) -> Result<u16, Error> {
    match spec_name_table_off(img, ptr) {
        Err(e) => Err(e),
        Ok(no) => bytes::spec_read_u16(img, name_off + no),
    }
}

/// The `len` big-endian 16-bit units starting at `base`.
pub open spec fn name_units_at(img: Seq<u8>, base: int, len: int) -> Seq<u16> {
    Seq::new(len as nat, |i: int| bytes::be_u16(img, base + 2 * i))
}

/// The UTF-16 units of the name of the record at `ptr`: length-prefixed,
/// after the 4-byte hash, in the name table.
pub open spec fn spec_name_units(img: Seq<u8>, name_off: int, ptr: int) -> Result<Seq<u16>, Error> {
    match spec_name_len(img, name_off, ptr) {
        Err(e) => Err(e),
        Ok(l) => {
            match spec_name_table_off(img, ptr) {
                Err(e) => Err(e),
                Ok(no) => {
                    let base = name_off + no + 6;
                    if 0 <= base && base + 2 * l <= img.len() {
                        Ok(name_units_at(img, base, l as int))
                    } else {
                        Err(Error::OutOfBounds { offset: bytes::clamp_offset(base) })
                    }
                },
            }
        },
    }
}

/// The decoded name of the record at `ptr`; invalid UTF-16 surfaces as
/// `InvalidData` at the name's position.
pub open spec fn spec_name(img: Seq<u8>, name_off: int, ptr: int) -> Result<Seq<char>, Error> {
    match spec_name_units(img, name_off, ptr) {
        Err(e) => Err(e),
        Ok(units) => {
            match utils::utf16_decode(units) {
                Some(cs) => Ok(cs),
                None => {
                    match spec_name_table_off(img, ptr) {
                        Err(e) => Err(e),
                        Ok(no) => Err(
                            Error::InvalidData { offset: bytes::clamp_offset(name_off + no + 6) },
                        ),
                    }
                },
            }
        },
    }
}

/// Reads the name-table relative offset of the record at `ptr`.
pub(crate) fn read_name_table_off(img: &[u8], ptr: usize) -> (r: Result<u32, Error>)
    ensures
        r == spec_name_table_off(img@, ptr as int),
{
    bytes::read_u32(img, ptr, 0)
}

/// Reads the flag field of the record at `ptr`.
pub(crate) fn read_flags(img: &[u8], ptr: usize) -> (r: Result<u16, Error>)
    ensures
        r == spec_flags(img@, ptr as int),
{
    bytes::read_u16(img, ptr, 4)
}

/// Reads the stored hash of the record at `ptr`.
pub(crate) fn read_hash(img: &[u8], name_off: usize, ptr: usize) -> (r: Result<u32, Error>)
    ensures
        r == spec_hash(img@, name_off as int, ptr as int),
{
    let no = match read_name_table_off(img, ptr) {
        Ok(v) => v,
        Err(e) => {
            return Err(e);
        },
    };
    match name_off.checked_add(no as usize) {
        Some(base) => bytes::read_u32(img, base, 2),
        None => {
            proof {
                vstd::slice::axiom_spec_len(img);
            }
            Err(Error::OutOfBounds { offset: usize::MAX })
        },
    }
}

/// Reads and decodes the name of the record at `ptr`.
pub(crate) fn read_name(img: &[u8], name_off: usize, ptr: usize) -> (r: Result<String, Error>)
    ensures
        r matches Ok(s) ==> (spec_name(img@, name_off as int, ptr as int) matches Ok(cs) && s@
            == cs),
        r matches Err(e) ==> spec_name(img@, name_off as int, ptr as int) == Err::<
            Seq<char>,
            Error,
        >(e),
{
    let no = match read_name_table_off(img, ptr) {
        Ok(v) => v,
        Err(e) => {
            return Err(e);
        },
    };
    let entry = match name_off.checked_add(no as usize) {
        Some(b) => b,
        None => {
            proof {
                vstd::slice::axiom_spec_len(img);
            }
            return Err(Error::OutOfBounds { offset: usize::MAX });
        },
    };
    let l = match bytes::read_u16(img, entry, 0) {
        Ok(v) => v,
        Err(e) => {
            return Err(e);
        },
    };
    let base = match entry.checked_add(6) {
        Some(b) => b,
        None => {
            proof {
                vstd::slice::axiom_spec_len(img);
            }
            return Err(Error::OutOfBounds { offset: usize::MAX });
        },
    };
    let need = (l as usize) * 2;
    if base > img.len() || need > img.len() - base {
        return Err(Error::OutOfBounds { offset: base });
    }
    let ghost units = name_units_at(img@, base as int, l as int);
    let mut out = String::new();
    let mut i: usize = 0;
    proof {
        assert(units.skip(0) =~= units);
        assert(spec_name_units(img@, name_off as int, ptr as int) == Ok::<Seq<u16>, Error>(units));
    }
    while i < l as usize
        invariant
            i <= l,
            need == l * 2,
            base + need <= img@.len(),
            units == name_units_at(img@, base as int, l as int),
            units.len() == l,
            spec_name_units(img@, name_off as int, ptr as int) == Ok::<Seq<u16>, Error>(units),
            spec_name_table_off(img@, ptr as int) == Ok::<u32, Error>(no),
            base == name_off + no + 6,
            utils::utf16_decode(units) == match utils::utf16_decode(units.skip(i as int)) {
                None => None::<Seq<char>>,
                Some(rest) => Some(out@ + rest),
            },
        decreases l - i,
    {
        let u = match bytes::read_u16(img, base, 2 * i) {
            Ok(v) => v,
            Err(e) => {
                proof {
                    assert(false);
                }
                return Err(e);
            },
        };
        proof {
            assert(u == units[i as int]);
            assert(units.skip(i as int)[0] == units[i as int]);
            assert(units.skip(i as int).drop_first() =~= units.skip(i as int + 1));
        }
        if u < 0xD800 || u >= 0xE000 {
            let c = match utils::char_from_u32(u as u32) {
                Some(c) => c,
                None => {
                    proof {
                        assert(false);
                    }
                    return Err(Error::InvalidData { offset: base });
                },
            };
            proof {
                vstd::utf8::char_u32_cast(c, u as u32);
            }
            utils::push_char(&mut out, c);
            proof {
                match utils::utf16_decode(units.skip(i as int + 1)) {
                    Some(rest) => {
                        assert(utils::utf16_decode(units.skip(i as int)) == Some(
                            seq![((u as u32) as char)] + rest,
                        ));
                        assert(out@.drop_last() + seq![c] =~= out@);
                        assert(out@.drop_last() + (seq![((u as u32) as char)] + rest) =~= out@
                            + rest);
                    },
                    None => {},
                }
            }
            i += 1;
        } else if u < 0xDC00 {
            if i + 1 >= l as usize {
                return Err(Error::InvalidData { offset: base });
            }
            let u2 = match bytes::read_u16(img, base, 2 * i + 2) {
                Ok(v) => v,
                Err(e) => {
                    proof {
                        assert(false);
                    }
                    return Err(e);
                },
            };
            proof {
                assert(u2 == units[i as int + 1]);
                assert(units.skip(i as int)[1] == units[i as int + 1]);
                assert(units.skip(i as int).len() >= 2);
            }
            if !(u2 >= 0xDC00 && u2 < 0xE000) {
                return Err(Error::InvalidData { offset: base });
            }
            let v: u32 = 0x10000 + ((u - 0xD800) as u32) * 0x400 + ((u2 - 0xDC00) as u32);
            let c = match utils::char_from_u32(v) {
                Some(c) => c,
                None => {
                    proof {
                        assert(false);
                    }
                    return Err(Error::InvalidData { offset: base });
                },
            };
            proof {
                vstd::utf8::char_u32_cast(c, v);
            }
            utils::push_char(&mut out, c);
            proof {
                assert(units.skip(i as int).skip(2) =~= units.skip(i as int + 2));
                match utils::utf16_decode(units.skip(i as int + 2)) {
                    Some(rest) => {
                        assert(utils::utf16_decode(units.skip(i as int)) == Some(seq![(v as char)]
                            + rest));
                        assert(out@.drop_last() + seq![c] =~= out@);
                        assert(out@.drop_last() + (seq![(v as char)] + rest) =~= out@ + rest);
                    },
                    None => {},
                }
            }
            i += 2;
        } else {
            return Err(Error::InvalidData { offset: base });
        }
    }
    proof {
        assert(units.skip(l as int) =~= Seq::<u16>::empty());
        assert(out@ + Seq::<char>::empty() =~= out@);
    }
    Ok(out)
}

} // verus!
