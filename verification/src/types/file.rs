//! The file view over a record: name, hash, locale attributes, timestamp,
//! compression tag, and the stored and decoded payload.

use vstd::prelude::*;

use crate::bytes;
use crate::codecs;
use crate::error::Error;
use crate::readers::ResourceReader;
use crate::types::record;
use crate::types::spec_compression_of;
use crate::types::CompressionAlgorithm;
use crate::types::Language;
use crate::types::Territory;
use crate::types::Timestamp;

verus! {

/// Whether a milliseconds-since-epoch value falls in the range the date
/// library can represent.
pub uninterp spec fn millis_in_datetime_range(ms: i64) -> bool;

/// Relies on chrono's `DateTime::from_timestamp_millis`: whether a
/// milliseconds value has a representable date is a function of the value
/// alone.
#[verifier::external_body]
fn timestamp_representable(ms: i64) -> (r: bool)
    ensures
        r == millis_in_datetime_range(ms),
{
    chrono::DateTime::from_timestamp_millis(ms).is_some()
}

/// The signed 64-bit value whose two's-complement bit pattern is `v`.
pub open spec fn wrap_i64(v: u64) -> i64 {
    if v <= i64::MAX as u64 {
        v as i64
    } else {
        (v - 0x10000000000000000) as i64
    }
}

/// The decoded payload of a file: borrowed in place when the stored bytes
/// are the plaintext, owned when decompression produced it.
#[derive(Debug)]
pub enum ResourceData<'a> {
    Borrowed(&'a [u8]),
    Owned(Vec<u8>),
}

impl<'a> View for ResourceData<'a> {
    type V = Seq<u8>;

    open spec fn view(&self) -> Seq<u8> {
        match self {
            ResourceData::Borrowed(s) => s@,
            ResourceData::Owned(v) => v@,
        }
    }
}

impl<'a> ResourceData<'a> {
    /// The payload bytes.
    pub fn as_slice(&self) -> (r: &[u8])
        ensures
            r@ == self@,
    {
        match self {
            ResourceData::Borrowed(s) => s,
            ResourceData::Owned(v) => v.as_slice(),
        }
    }
}

/// A file node: a record base address, the stamped absolute path, and the
/// owning parse session.
#[derive(Debug)]
pub struct ResourceFile<'a> {
    pub ptr: usize,
    pub absolute_path: String,
    pub reader: &'a ResourceReader<'a>,
}

/// The stored payload of the file record at `ptr`: the bytes following the
/// 4-byte size prefix at the record's data-table position.
pub open spec fn spec_raw_data(img: Seq<u8>, data_off: int, ptr: int) -> Result<Seq<u8>, Error> {
    match bytes::spec_read_u32(img, ptr + 10) {
        Err(e) => Err(e),
        Ok(rel) => {
            let p = data_off + rel;
            match bytes::spec_read_u32(img, p) {
                Err(e) => Err(e),
                Ok(n) => {
                    if p + 4 + n <= img.len() {
                        Ok(img.subrange(p + 4, p + 4 + n))
                    } else {
                        Err(Error::OutOfBounds { offset: bytes::clamp_offset(p + 4) })
                    }
                },
            }
        },
    }
}

/// The decompressed size of the file record at `ptr`: the raw length for a
/// plain payload, the 4-byte prefix for zlib, the declared frame content
/// size for zstd; the empty payload has size zero whatever the tag says.
pub open spec fn spec_size(img: Seq<u8>, data_off: int, ptr: int) -> Result<u64, Error> {
    match spec_raw_data(img, data_off, ptr) {
        Err(e) => Err(e),
        Ok(raw) => {
            if raw.len() == 0 {
                Ok(0)
            } else {
                match record::spec_flags(img, ptr) {
                    Err(e) => Err(e),
                    Ok(f) => {
                        match spec_compression_of(f) {
                            CompressionAlgorithm::Plain => Ok(raw.len() as u64),
                            CompressionAlgorithm::Zlib => {
                                if raw.len() >= 4 {
                                    Ok(bytes::be_u32(raw, 0) as u64)
                                } else {
                                    Err(Error::OutOfBounds { offset: 0 })
                                }
                            },
                            CompressionAlgorithm::Zstd => {
                                match codecs::zstd_frame_size(raw) {
                                    Some(n) => Ok(n),
                                    None => Err(Error::InvalidData { offset: 0 }),
                                }
                            },
                        }
                    },
                }
            }
        },
    }
}

impl<'a> ResourceFile<'a> {
    /// Builds the file view of the record with the given index.
    pub fn new(index: u64, reader: &'a ResourceReader<'a>) -> (r: Self)
        requires
            reader.model().rec_ptr(index as int) <= usize::MAX as int,
        ensures
            r.ptr == reader.model().rec_ptr(index as int),
            r.absolute_path@ == Seq::<char>::empty(),
            r.reader == reader,
    {
        let ptr = match reader.find_ptr(index) {
            Some(p) => p,
            None => {
                proof {
                    assert(false);
                }
                0
            },
        };
        Self { ptr, absolute_path: String::new(), reader }
    }

    /// The file's decoded name.
    pub fn name(&self) -> (r: Result<String, Error>)
        ensures
            r matches Ok(s) ==> (record::spec_name(
                self.reader.model().img,
                self.reader.model().name_off,
                self.ptr as int,
            ) matches Ok(cs) && s@ == cs),
            r matches Err(e) ==> record::spec_name(
                self.reader.model().img,
                self.reader.model().name_off,
                self.ptr as int,
            ) == Err::<Seq<char>, Error>(e),
    {
        record::read_name(self.reader.bytes, self.reader.name_offset, self.ptr)
    }

    /// The file's stored name hash.
    pub fn hash(&self) -> (r: Result<u32, Error>)
        ensures
            r == record::spec_hash(
                self.reader.model().img,
                self.reader.model().name_off,
                self.ptr as int,
            ),
    {
        record::read_hash(self.reader.bytes, self.reader.name_offset, self.ptr)
    }

    /// The file's territory code.
    ///
    /// The mapping from codes to symbolic territories is an external
    /// enumeration, outside this crate's scope; the stored 16-bit code is
    /// returned as it is, and deciding whether a code is known is left to
    /// that enumeration rather than guessed at here.
    pub fn territory(&self) -> (r: Result<Territory, Error>)
        ensures
            r matches Ok(t) ==> bytes::spec_read_u16(self.reader.model().img, self.ptr + 6)
                == Ok::<u16, Error>(t.code),
            r matches Err(e) ==> bytes::spec_read_u16(self.reader.model().img, self.ptr + 6)
                == Err::<u16, Error>(e),
    {
        match bytes::read_u16(self.reader.bytes, self.ptr, 6) {
            Ok(code) => Ok(Territory { code }),
            Err(e) => Err(e),
        }
    }

    /// The file's language code.
    ///
    /// The mapping from codes to symbolic languages is an external
    /// enumeration, outside this crate's scope; the stored 16-bit code is
    /// returned as it is, and deciding whether a code is known is left to
    /// that enumeration rather than guessed at here.
    pub fn language(&self) -> (r: Result<Language, Error>)
        ensures
            r matches Ok(l) ==> bytes::spec_read_u16(self.reader.model().img, self.ptr + 8)
                == Ok::<u16, Error>(l.code),
            r matches Err(e) ==> bytes::spec_read_u16(self.reader.model().img, self.ptr + 8)
                == Err::<u16, Error>(e),
    {
        match bytes::read_u16(self.reader.bytes, self.ptr, 8) {
            Ok(code) => Ok(Language { code }),
            Err(e) => Err(e),
        }
    }

    /// The compression algorithm applied to the file's payload, derived from
    /// the record's flag field.
    pub fn compression_algo(&self) -> (r: Result<CompressionAlgorithm, Error>)
        ensures
            ({
                let f = record::spec_flags(self.reader.model().img, self.ptr as int);
                match r {
                    Ok(algo) => f matches Ok(v) && algo == spec_compression_of(v),
                    Err(e) => f == Err::<u16, Error>(e),
                }
            }),
    {
        match record::read_flags(self.reader.bytes, self.ptr) {
            Ok(f) => Ok(CompressionAlgorithm::from(f)),
            Err(e) => Err(e),
        }
    }

    /// The file's last-modified timestamp: absent before format version 2,
    /// and absent when the stored milliseconds fall outside the
    /// representable date range.
    pub fn last_modified(&self) -> (r: Result<Option<Timestamp>, Error>)
        ensures
            self.reader.model().version < 2 ==> r == Ok::<Option<Timestamp>, Error>(None),
            self.reader.model().version >= 2 ==> ({
                let raw = bytes::spec_read_u64(self.reader.model().img, self.ptr + 14);
                match r {
                    Ok(t) => raw matches Ok(v) && t == (if millis_in_datetime_range(wrap_i64(v)) {
                        Some(Timestamp { millis: wrap_i64(v) })
                    } else {
                        None::<Timestamp>
                    }),
                    Err(e) => raw == Err::<u64, Error>(e),
                }
            }),
    {
        if self.reader.format_version < 2 {
            return Ok(None);
        }
        let raw = match bytes::read_u64(self.reader.bytes, self.ptr, 14) {
            Ok(v) => v,
            Err(e) => {
                return Err(e);
            },
        };
        let ms: i64 = if raw <= 0x7fffffffffffffff {
            raw as i64
        } else {
            i64::MIN + ((raw - 0x8000000000000000) as i64)
        };
        if timestamp_representable(ms) {
            Ok(Some(Timestamp { millis: ms }))
        } else {
            Ok(None)
        }
    }

    /// The record's data-table relative offset.
    pub fn data_offset(&self) -> (r: Result<u32, Error>)
        ensures
            r == bytes::spec_read_u32(self.reader.model().img, self.ptr + 10),
    {
        bytes::read_u32(self.reader.bytes, self.ptr, 10)
    }

    /// The stored payload, borrowed in place: the bytes after the 4-byte
    /// size prefix at the record's data-table position.
    pub fn raw_data(&self) -> (r: Result<&'a [u8], Error>)
        ensures
            ({
                let sp = spec_raw_data(
                    self.reader.model().img,
                    self.reader.model().data_off,
                    self.ptr as int,
                );
                match r {
                    Ok(d) => sp matches Ok(raw) && d@ == raw,
                    Err(e) => sp == Err::<Seq<u8>, Error>(e),
                }
            }),
    {
        let rel = match self.data_offset() {
            Ok(v) => v,
            Err(e) => {
                return Err(e);
            },
        };
        let p = match self.reader.data_offset.checked_add(rel as usize) {
            Some(p) => p,
            None => {
                proof {
                    vstd::slice::axiom_spec_len(self.reader.bytes);
                }
                return Err(Error::OutOfBounds { offset: usize::MAX });
            },
        };
        let n = match bytes::read_u32(self.reader.bytes, p, 0) {
            Ok(v) => v,
            Err(e) => {
                return Err(e);
            },
        };
        let start = match p.checked_add(4) {
            Some(s) => s,
            None => {
                proof {
                    vstd::slice::axiom_spec_len(self.reader.bytes);
                }
                return Err(Error::OutOfBounds { offset: usize::MAX });
            },
        };
        let len = self.reader.bytes.len();
        if start > len || (n as usize) > len - start {
            return Err(Error::OutOfBounds { offset: start });
        }
        Ok(vstd::slice::slice_subrange(self.reader.bytes, start, start + n as usize))
    }

    /// The file's decompressed size, without decompressing: the raw length
    /// for a plain payload, the stored 4-byte prefix for zlib, the declared
    /// frame content size for zstd.
    pub fn size(&self) -> (r: Result<u64, Error>)
        ensures
            r == spec_size(self.reader.model().img, self.reader.model().data_off, self.ptr as int),
    {
        let data = match self.raw_data() {
            Ok(d) => d,
            Err(e) => {
                return Err(e);
            },
        };
        if data.len() == 0 {
            return Ok(0);
        }
        let algo = match self.compression_algo() {
            Ok(a) => a,
            Err(e) => {
                return Err(e);
            },
        };
        match algo {
            CompressionAlgorithm::Plain => Ok(data.len() as u64),
            CompressionAlgorithm::Zstd => {
                match codecs::read_zstd_frame_size(data) {
                    Some(n) => Ok(n),
                    None => Err(Error::InvalidData { offset: 0 }),
                }
            },
            CompressionAlgorithm::Zlib => {
                match bytes::read_u32(data, 0, 0) {
                    Ok(n) => Ok(n as u64),
                    Err(_) => Err(Error::OutOfBounds { offset: 0 }),
                }
            },
        }
    }

    /// The decoded payload: the stored bytes, borrowed in place, for a
    /// plain or empty payload; the decompressed bytes, owned, otherwise.
    /// Decompression succeeds exactly when the codec accepts the stored
    /// bytes (for zstd, into a buffer of the declared content size); a
    /// failure surfaces as `IO`.
    pub fn data(&self) -> (r: Result<ResourceData<'a>, Error>)
        ensures
            ({
                let m = self.reader.model();
                let sp_raw = spec_raw_data(m.img, m.data_off, self.ptr as int);
                let sp_flags = record::spec_flags(m.img, self.ptr as int);
                let sp_size = spec_size(m.img, m.data_off, self.ptr as int);
                &&& (sp_raw matches Err(e) ==> r == Err::<ResourceData<'a>, Error>(e))
                &&& (sp_raw matches Ok(raw) ==> {
                    &&& (sp_flags matches Err(e) ==> r == Err::<ResourceData<'a>, Error>(e))
                    &&& (sp_flags matches Ok(f) ==> {
                        let algo = spec_compression_of(f);
                        &&& (raw.len() == 0 || algo == CompressionAlgorithm::Plain ==> (r matches
                        Ok(d) && d matches ResourceData::Borrowed(b) && b@ == raw))
                        &&& (raw.len() > 0 && algo != CompressionAlgorithm::Plain ==> (match
                        sp_size {
                            Err(e) => r == Err::<ResourceData<'a>, Error>(e),
                            Ok(n) => {
                                let cap = if n <= usize::MAX as u64 {
                                    n as int
                                } else {
                                    0
                                };
                                &&& (algo == CompressionAlgorithm::Zstd ==> (r is Ok)
                                    == codecs::zstd_ok(raw, cap))
                                &&& (algo == CompressionAlgorithm::Zstd ==> (r matches Ok(d)
                                    ==> d@ == codecs::zstd_plain(raw)))
                                &&& (algo == CompressionAlgorithm::Zstd && n <= usize::MAX as u64
                                    ==> (r matches Ok(d) ==> d@.len() == n))
                                &&& (algo == CompressionAlgorithm::Zlib ==> (r is Ok)
                                    == codecs::zlib_ok(raw.skip(4)))
                                &&& (algo == CompressionAlgorithm::Zlib ==> (r matches Ok(d)
                                    ==> d@ == codecs::zlib_plain(raw.skip(4))))
                                &&& (r matches Ok(d) ==> d matches ResourceData::Owned(_))
                                &&& (r matches Err(e) ==> e == Error::IO { offset: 0 })
                            },
                        }))
                    })
                })
            }),
    {
        let data = match self.raw_data() {
            Ok(d) => d,
            Err(e) => {
                return Err(e);
            },
        };
        let algo = match self.compression_algo() {
            Ok(a) => a,
            Err(e) => {
                return Err(e);
            },
        };
        if data.len() == 0 || algo == CompressionAlgorithm::Plain {
            return Ok(ResourceData::Borrowed(data));
        }
        let cap64 = match self.size() {
            Ok(n) => n,
            Err(e) => {
                return Err(e);
            },
        };
        let cap: usize = if cap64 <= usize::MAX as u64 {
            cap64 as usize
        } else {
            0
        };
        match algo {
            CompressionAlgorithm::Zstd => {
                match codecs::zstd_decompress(data, cap) {
                    Ok(v) => Ok(ResourceData::Owned(v)),
                    Err(_) => Err(Error::IO { offset: 0 }),
                }
            },
            CompressionAlgorithm::Zlib => {
                let rest = vstd::slice::slice_subrange(data, 4, data.len());
                match codecs::zlib_decompress(rest, cap) {
                    Ok(v) => Ok(ResourceData::Owned(v)),
                    Err(_) => Err(Error::IO { offset: 0 }),
                }
            },
            CompressionAlgorithm::Plain => {
                proof {
                    assert(false);
                }
                Ok(ResourceData::Owned(Vec::new()))
            },
        }
    }
}

} // verus!
