//! The parse session over a container byte image, and the resolver that
//! walks a slash-separated path into a resource node.

use vstd::prelude::*;
use vstd::string::StringExecFns;

use crate::bytes;
use crate::constants::SUPPORTED_FORMAT_VERSION;
use crate::error::Error;
use crate::error::OffsetName;
use crate::readers::header::header_len;
use crate::readers::header::magic_ok;
use crate::readers::RCCFileHeaderReader;
use crate::types::record;
use crate::types::resource_matches;
use crate::types::Resource;
use crate::types::ResourceFlags;
use crate::utils;

verus! {

/// The mathematical model of a parse session: the byte image and the four
/// structural parameters that drive all decoding.
pub struct Model {
    pub img: Seq<u8>,
    pub struct_off: int,
    pub name_off: int,
    pub data_off: int,
    pub version: u32,
}

impl Model {
    /// The byte width of one record slot.
    pub open spec fn stride(self) -> int {
        if self.version >= 2 {
            22
        } else {
            14
        }
    }

    /// The base address of the record with the given index.
    pub open spec fn rec_ptr(self, index: int) -> int {
        self.struct_off + index * self.stride()
    }

    /// The flag field of the record with the given index.
    pub open spec fn rec_flags(self, index: int) -> Result<u16, Error> {
        record::spec_flags(self.img, self.rec_ptr(index))
    }

    /// Whether the record with the given index is a directory.
    pub open spec fn rec_is_dir(self, index: int) -> bool
        recommends
            self.rec_flags(index) is Ok,
    {
        self.rec_flags(index) matches Ok(f) && f & ResourceFlags::Directory.spec_bits() != 0
    }

    /// The stored name hash of the record with the given index.
    pub open spec fn rec_hash(self, index: int) -> Result<u32, Error> {
        record::spec_hash(self.img, self.name_off, self.rec_ptr(index))
    }

    /// The decoded name of the record with the given index.
    pub open spec fn rec_name(self, index: int) -> Result<Seq<char>, Error> {
        record::spec_name(self.img, self.name_off, self.rec_ptr(index))
    }

    /// The child count of the directory record with the given index.
    pub open spec fn dir_child_count(self, index: int) -> Result<u32, Error> {
        bytes::spec_read_u32(self.img, self.rec_ptr(index) + 6)
    }

    /// The index of the first child of the directory record with the given
    /// index.
    pub open spec fn dir_child_offset(self, index: int) -> Result<u32, Error> {
        bytes::spec_read_u32(self.img, self.rec_ptr(index) + 10)
    }
}

/// A parse session: a borrowed byte image together with the three structural
/// offsets and the format version.
#[derive(Debug)]
pub struct ResourceReader<'a> {
    pub struct_offset: usize,
    pub name_offset: usize,
    pub data_offset: usize,
    pub format_version: u32,
    pub bytes: &'a [u8],
}

impl<'a> ResourceReader<'a> {
    /// The session's mathematical model.
    pub open spec fn model(self) -> Model {
        Model {
            img: self.bytes@,
            struct_off: self.struct_offset as int,
            name_off: self.name_offset as int,
            data_off: self.data_offset as int,
            version: self.format_version,
        }
    }

    /// The well-formedness the constructors establish: every structural
    /// offset lies inside the image and the version is supported.
    pub open spec fn wf(self) -> bool {
        &&& self.struct_offset < self.bytes@.len()
        &&& self.name_offset < self.bytes@.len()
        &&& self.data_offset < self.bytes@.len()
        &&& self.format_version <= 3
    }

    /// Builds a parse session from an image and externally supplied
    /// structural offsets, as used for containers embedded in a larger
    /// binary.
    ///
    /// Each offset must lie inside the image and the version must be
    /// supported; the offending parameter is reported otherwise, first
    /// violation first.
    pub fn from_bytes(
        bytes: &'a [u8],
        struct_offset: usize,
        name_offset: usize,
        data_offset: usize,
        format_version: u32,
    ) -> (r: Result<ResourceReader<'a>, Error>)
        ensures
            struct_offset >= bytes@.len() ==> r == Err::<ResourceReader<'a>, Error>(
                Error::InvalidOffset {
                    name: OffsetName::StructOffset,
                    received: struct_offset,
                    expected: bytes@.len() as usize,
                },
            ),
            struct_offset < bytes@.len() && name_offset >= bytes@.len() ==> r == Err::<
                ResourceReader<'a>,
                Error,
            >(
                Error::InvalidOffset {
                    name: OffsetName::NameOffset,
                    received: name_offset,
                    expected: bytes@.len() as usize,
                },
            ),
            struct_offset < bytes@.len() && name_offset < bytes@.len() && data_offset
                >= bytes@.len() ==> r == Err::<ResourceReader<'a>, Error>(
                Error::InvalidOffset {
                    name: OffsetName::DataOffset,
                    received: data_offset,
                    expected: bytes@.len() as usize,
                },
            ),
            struct_offset < bytes@.len() && name_offset < bytes@.len() && data_offset
                < bytes@.len() && format_version > 3 ==> r == Err::<ResourceReader<'a>, Error>(
                Error::UnsupportedVersion {
                    received: format_version,
                    expected: SUPPORTED_FORMAT_VERSION,
                },
            ),
            struct_offset < bytes@.len() && name_offset < bytes@.len() && data_offset
                < bytes@.len() && format_version <= 3 ==> (r matches Ok(rd) && rd.bytes@ == bytes@
                && rd.struct_offset == struct_offset && rd.name_offset == name_offset
                && rd.data_offset == data_offset && rd.format_version == format_version && rd.wf()),
    {
        let len = bytes.len();
        if struct_offset >= len {
            return Err(
                Error::InvalidOffset {
                    name: OffsetName::StructOffset,
                    received: struct_offset,
                    expected: len,
                },
            );
        }
        if name_offset >= len {
            return Err(
                Error::InvalidOffset {
                    name: OffsetName::NameOffset,
                    received: name_offset,
                    expected: len,
                },
            );
        }
        if data_offset >= len {
            return Err(
                Error::InvalidOffset {
                    name: OffsetName::DataOffset,
                    received: data_offset,
                    expected: len,
                },
            );
        }
        if format_version > 3 {
            return Err(
                Error::UnsupportedVersion {
                    received: format_version,
                    expected: SUPPORTED_FORMAT_VERSION,
                },
            );
        }
        Ok(
            Self {
                format_version,
                struct_offset,
                name_offset,
                data_offset,
                bytes,
            },
        )
    }

    /// Builds a parse session from a standalone container image, decoding
    /// the header to recover the structural offsets and the version.
    pub fn from_rcc(rcc_bytes: &'a [u8]) -> (r: Result<ResourceReader<'a>, Error>)
        ensures
            rcc_bytes@.len() < 4 ==> r == Err::<ResourceReader<'a>, Error>(
                Error::OutOfBounds { offset: 0 },
            ),
            rcc_bytes@.len() >= 4 && !magic_ok(rcc_bytes@) ==> (r matches Err(e) && e matches
                Error::InvalidHeaderMagic { received, expected } && received@ == rcc_bytes@.take(4)
                && expected@ == seq![0x71u8, 0x72u8, 0x65u8, 0x73u8]),
            magic_ok(rcc_bytes@) && rcc_bytes@.len() < 8 ==> r == Err::<ResourceReader<'a>, Error>(
                Error::OutOfBounds { offset: 4 },
            ),
            magic_ok(rcc_bytes@) && 8 <= rcc_bytes@.len() < 12 ==> r == Err::<
                ResourceReader<'a>,
                Error,
            >(Error::OutOfBounds { offset: 8 }),
            magic_ok(rcc_bytes@) && 12 <= rcc_bytes@.len() < 16 ==> r == Err::<
                ResourceReader<'a>,
                Error,
            >(Error::OutOfBounds { offset: 12 }),
            magic_ok(rcc_bytes@) && 16 <= rcc_bytes@.len() < 20 ==> r == Err::<
                ResourceReader<'a>,
                Error,
            >(Error::OutOfBounds { offset: 16 }),
            magic_ok(rcc_bytes@) && 20 <= rcc_bytes@.len() < 24 && bytes::be_u32(rcc_bytes@, 4) >= 3
                ==> r == Err::<ResourceReader<'a>, Error>(Error::OutOfBounds { offset: 20 }),
            magic_ok(rcc_bytes@) && rcc_bytes@.len() >= header_len(bytes::be_u32(rcc_bytes@, 4))
                && bytes::be_u32(rcc_bytes@, 4) > SUPPORTED_FORMAT_VERSION ==> r == Err::<
                ResourceReader<'a>,
                Error,
            >(
                Error::UnsupportedVersion {
                    received: bytes::be_u32(rcc_bytes@, 4),
                    expected: SUPPORTED_FORMAT_VERSION,
                },
            ),
            ({
                let version = bytes::be_u32(rcc_bytes@, 4);
                let so = bytes::be_u32(rcc_bytes@, 8) as usize;
                let dofs = bytes::be_u32(rcc_bytes@, 12) as usize;
                let no = bytes::be_u32(rcc_bytes@, 16) as usize;
                let n = rcc_bytes@.len();
                magic_ok(rcc_bytes@) && n >= header_len(version) && version
                    <= SUPPORTED_FORMAT_VERSION ==> {
                    &&& so >= n ==> r == Err::<ResourceReader<'a>, Error>(
                        Error::InvalidOffset {
                            name: OffsetName::StructOffset,
                            received: so,
                            expected: n as usize,
                        },
                    )
                    &&& so < n && no >= n ==> r == Err::<ResourceReader<'a>, Error>(
                        Error::InvalidOffset {
                            name: OffsetName::NameOffset,
                            received: no,
                            expected: n as usize,
                        },
                    )
                    &&& so < n && no < n && dofs >= n ==> r == Err::<ResourceReader<'a>, Error>(
                        Error::InvalidOffset {
                            name: OffsetName::DataOffset,
                            received: dofs,
                            expected: n as usize,
                        },
                    )
                    &&& so < n && no < n && dofs < n ==> (r matches Ok(rd)
                        && rd.bytes@ == rcc_bytes@ && rd.struct_offset == so && rd.name_offset == no
                        && rd.data_offset == dofs && rd.format_version == version && rd.wf())
                }
            }),
    {
        let reader = match RCCFileHeaderReader::new(rcc_bytes) {
            Ok(h) => h,
            Err(e) => {
                return Err(e);
            },
        };
        Self::from_bytes(
            rcc_bytes,
            reader.struct_offset,
            reader.name_offset,
            reader.data_offset,
            reader.format_version,
        )
    }

    /// The base address of the record with the given index, or `None` when
    /// it does not fit the machine's address range (in which case every read
    /// from it would be out of bounds anyway).
    pub(crate) fn find_ptr(&self, index: u64) -> (r: Option<usize>)
        ensures
            (r is Some) <==> self.model().rec_ptr(index as int) <= usize::MAX as int,
            r matches Some(p) ==> p == self.model().rec_ptr(index as int),
    {
        let stride: u64 = if self.format_version >= 2 {
            22
        } else {
            14
        };
        let off = match index.checked_mul(stride) {
            Some(o) => o,
            None => {
                return None;
            },
        };
        let total = match (self.struct_offset as u64).checked_add(off) {
            Some(t) => t,
            None => {
                return None;
            },
        };
        if total <= usize::MAX as u64 {
            Some(total as usize)
        } else {
            None
        }
    }

    /// The hash-ordered binary search among the children `[child_offset,
    /// child_offset + child_count)` for the record whose stored hash equals
    /// the hash of `key`; ties on equal hashes go to the first probe that
    /// reaches equality. The returned node is not yet stamped with a path.
    pub fn binary_search(
        &self,
        key: &str,
        child_count: u32,
        child_offset: u32,
    ) -> (r: Result<Option<Resource<'_>>, Error>)
        ensures
            ({
                let m = self.model();
                let sp = spec_bsearch(
                    m,
                    child_offset as int,
                    0,
                    child_count as int,
                    utils::spec_qt_hash(key@, 0),
                );
                &&& (r matches Err(e) ==> sp == Err::<Option<int>, Error>(e))
                &&& (r matches Ok(opt) && opt is None ==> sp == Ok::<Option<int>, Error>(None))
                &&& (r matches Ok(opt) ==> (opt matches Some(res) ==> (sp matches Ok(oi)
                    && oi matches Some(idx) && resource_matches(res, m, idx, Seq::empty())
                    && m.rec_hash(idx) == Ok::<u32, Error>(utils::spec_qt_hash(key@, 0)))))
            }),
    {
        let ghost m = self.model();
        let ghost kh = utils::spec_qt_hash(key@, 0);
        let ghost co = child_offset as int;
        let key_hash = utils::qt_hash(key, 0);
        let mut left: u32 = 0;
        let mut right: u32 = child_count;
        while left < right
            invariant
                left <= right <= child_count,
                m == self.model(),
                co == child_offset as int,
                key_hash == kh,
                kh == utils::spec_qt_hash(key@, 0),
                spec_bsearch(m, co, 0, child_count as int, kh) == spec_bsearch(
                    m,
                    co,
                    left as int,
                    right as int,
                    kh,
                ),
            decreases right - left,
        {
            let ghost old_left = left as int;
            let ghost old_right = right as int;
            let mid = left + (right - left) / 2;
            proof {
                assert(mid as int == (old_left + old_right) / 2);
            }
            let index: u64 = (child_offset as u64) + (mid as u64);
            proof {
                assert(index as int == co + mid);
            }
            let node = match Resource::derive(index, self) {
                Ok(n) => n,
                Err(e) => {
                    proof {
                        assert(spec_probe(m, co + mid) == Err::<u32, Error>(e));
                        assert(spec_bsearch(m, co, old_left, old_right, kh) == Err::<
                            Option<int>,
                            Error,
                        >(e));
                    }
                    return Err(e);
                },
            };
            let h = match node.hash() {
                Ok(h) => h,
                Err(e) => {
                    proof {
                        assert(node.spec_model() == m);
                        assert(node.spec_ptr() == m.rec_ptr(co + mid));
                        assert(m.rec_hash(co + mid) == Err::<u32, Error>(e));
                        assert(spec_probe(m, co + mid) == Err::<u32, Error>(e));
                        assert(spec_bsearch(m, co, old_left, old_right, kh) == Err::<
                            Option<int>,
                            Error,
                        >(e));
                    }
                    return Err(e);
                },
            };
            proof {
                assert(node.spec_model() == m);
                assert(node.spec_ptr() == m.rec_ptr(co + mid));
                assert(m.rec_hash(co + mid) == Ok::<u32, Error>(h));
                assert(spec_probe(m, co + mid) == Ok::<u32, Error>(h));
            }
            if h == key_hash {
                proof {
                    assert(spec_bsearch(m, co, old_left, old_right, kh) == Ok::<
                        Option<int>,
                        Error,
                    >(Some(co + mid)));
                }
                return Ok(Some(node));
            } else if h < key_hash {
                left = mid + 1;
                proof {
                    assert(spec_bsearch(m, co, old_left, old_right, kh) == spec_bsearch(
                        m,
                        co,
                        mid + 1,
                        old_right,
                        kh,
                    ));
                }
            } else {
                right = mid;
                proof {
                    assert(spec_bsearch(m, co, old_left, old_right, kh) == spec_bsearch(
                        m,
                        co,
                        old_left,
                        mid as int,
                        kh,
                    ));
                }
            }
        }
        proof {
            assert(spec_bsearch(m, co, left as int, right as int, kh) == Ok::<
                Option<int>,
                Error,
            >(None));
        }
        Ok(None)
    }

    /// Resolves a slash-separated path (in the POSIX or the Windows-style
    /// dialect) to the resource it names: the path is normalised against the
    /// root, and each remaining segment is looked up by a hash-ordered
    /// binary search among the current directory's children.
    ///
    /// Yields the found node with its absolute path stamped, `None` when the
    /// path names nothing (including descent through a file), and an error
    /// when the image is structurally invalid along the walk.
    #[verifier::rlimit(100)]
    pub fn find(&self, path: &str) -> (r: Result<Option<Resource<'_>>, Error>)
        ensures
            ({
                let sp = spec_find(self.model(), path@);
                &&& (r matches Err(e) ==> sp == SpecFind::Fail(e))
                &&& (r matches Ok(opt) && opt is None ==> sp == SpecFind::Missing)
                &&& (r matches Ok(opt) ==> (opt matches Some(res) ==> (sp matches SpecFind::Found {
                    index,
                    is_dir,
                    path: p,
                } && resource_matches(res, self.model(), index, p) && is_dir == (res matches
                Resource::Directory(_)))))
            }),
    {
        let ghost m = self.model();
        let ghost segs = utils::norm_segments(utils::unix_path_of(path@));
        let unix = utils::str_to_unix_path(path);
        let segments = utils::split_normalise(unix.as_str());
        proof {
            assert(segments.deep_view() == segs);
        }
        let root_path = String::from_str("/");
        proof {
            reveal_strlit("/");
            assert(root_path@ =~= seq!['/']);
        }
        let mut res0 = match Resource::derive(0, self) {
            Ok(n) => n,
            Err(e) => {
                proof {
                    assert(spec_find(m, path@) == SpecFind::Fail(e));
                }
                return Err(e);
            },
        };
        res0.set_absolute_path(root_path.as_str());
        let root = match res0 {
            Resource::File(_) => {
                proof {
                    assert(m.rec_ptr(0) == self.struct_offset as int);
                    assert(bytes::clamp_offset(m.rec_ptr(0)) == self.struct_offset);
                }
                return Err(Error::InvalidData { offset: self.struct_offset });
            },
            Resource::Directory(d) => d,
        };
        proof {
            assert(m.rec_is_dir(0));
            assert(root.ptr == m.rec_ptr(0));
            assert(root.reader.model() == m);
        }
        if segments.len() == 0 {
            proof {
                assert(segs.len() == 0);
                assert(spec_find(m, path@) == (SpecFind::Found {
                    index: 0,
                    is_dir: true,
                    path: seq!['/'],
                }));
                assert(resource_matches(Resource::Directory(root), m, 0, seq!['/']));
            }
            return Ok(Some(Resource::Directory(root)));
        }
        let mut child_count = match root.child_count() {
            Ok(n) => n,
            Err(e) => {
                proof {
                    assert(m.dir_child_count(0) == Err::<u32, Error>(e));
                    assert(spec_find(m, path@) == SpecFind::Fail(e));
                }
                return Err(e);
            },
        };
        let mut child_offset = match root.child_offset() {
            Ok(o) => o,
            Err(e) => {
                proof {
                    assert(m.dir_child_offset(0) == Err::<u32, Error>(e));
                    assert(spec_find(m, path@) == SpecFind::Fail(e));
                }
                return Err(e);
            },
        };
        let ghost goal = spec_resolve(m, segs, child_count as int, child_offset as int, seq!['/']);
        proof {
            assert(m.dir_child_count(0) == Ok::<u32, Error>(child_count));
            assert(m.dir_child_offset(0) == Ok::<u32, Error>(child_offset));
            assert(spec_find(m, path@) == goal);
        }
        let mut resource_path = root_path;
        let mut k: usize = 0;
        proof {
            assert(segs.skip(0) =~= segs);
        }
        while k < segments.len()
            invariant
                k < segments@.len(),
                segments.deep_view() == segs,
                m == self.model(),
                spec_resolve(
                    m,
                    segs.skip(k as int),
                    child_count as int,
                    child_offset as int,
                    resource_path@,
                ) == goal,
                spec_find(m, path@) == goal,
            decreases segments@.len() - k,
        {
            let ghost rest = segs.skip(k as int);
            let ghost cc = child_count as int;
            let ghost co = child_offset as int;
            let ghost rp = resource_path@;
            let segment = &segments[k];
            proof {
                assert(rest[0] == segments.deep_view()[k as int]);
                assert(segment@ == rest[0]);
                assert(rest.drop_first() =~= segs.skip(k as int + 1));
                assert(rest.len() == segs.len() - k);
            }
            let ghost sp_b = spec_bsearch(m, co, 0, cc, utils::spec_qt_hash(rest[0], 0));
            let found = match self.binary_search(segment.as_str(), child_count, child_offset) {
                Ok(f) => f,
                Err(e) => {
                    proof {
                        assert(sp_b == Err::<Option<int>, Error>(e));
                        assert(spec_resolve(m, rest, cc, co, rp) == SpecFind::Fail(e));
                    }
                    return Err(e);
                },
            };
            let mut node = match found {
                Some(n) => n,
                None => {
                    proof {
                        assert(sp_b == Ok::<Option<int>, Error>(None));
                        assert(spec_resolve(m, rest, cc, co, rp) == SpecFind::Missing);
                    }
                    return Ok(None);
                },
            };
            let ghost idx = sp_b->Ok_0->Some_0;
            proof {
                assert(resource_matches(node, m, idx, Seq::empty()));
                assert(node.spec_model() == m);
                assert(node.spec_ptr() == m.rec_ptr(idx));
            }
            let name = match node.name() {
                Ok(n) => n,
                Err(e) => {
                    proof {
                        assert(m.rec_name(idx) == Err::<Seq<char>, Error>(e));
                        assert(spec_resolve(m, rest, cc, co, rp) == SpecFind::Fail(e));
                    }
                    return Err(e);
                },
            };
            proof {
                assert(m.rec_name(idx) matches Ok(nm) && nm == name@);
            }
            let stamped = utils::path_join(resource_path.as_str(), name.as_str());
            resource_path = stamped;
            node.set_absolute_path(resource_path.as_str());
            let ghost new_path = utils::spec_path_join(rp, name@);
            proof {
                assert(resource_path@ == new_path);
                assert(node.spec_absolute_path() == new_path);
                assert(resource_matches(node, m, idx, new_path));
            }
            match node {
                Resource::Directory(d) => {
                    proof {
                        assert(m.rec_is_dir(idx));
                        assert(d.ptr == m.rec_ptr(idx));
                        assert(d.reader.model() == m);
                        assert(d.absolute_path@ == new_path);
                    }
                    if k + 1 < segments.len() {
                        proof {
                            assert(rest.len() > 1);
                        }
                        child_count = match d.child_count() {
                            Ok(n) => n,
                            Err(e) => {
                                proof {
                                    assert(m.dir_child_count(idx) == Err::<u32, Error>(e));
                                    assert(spec_resolve(m, rest, cc, co, rp) == SpecFind::Fail(e));
                                }
                                return Err(e);
                            },
                        };
                        child_offset = match d.child_offset() {
                            Ok(o) => o,
                            Err(e) => {
                                proof {
                                    assert(m.dir_child_count(idx) == Ok::<u32, Error>(child_count));
                                    assert(m.dir_child_offset(idx) == Err::<u32, Error>(e));
                                    assert(spec_resolve(m, rest, cc, co, rp) == SpecFind::Fail(e));
                                }
                                return Err(e);
                            },
                        };
                        proof {
                            assert(m.dir_child_count(idx) == Ok::<u32, Error>(child_count));
                            assert(m.dir_child_offset(idx) == Ok::<u32, Error>(child_offset));
                            assert(spec_resolve(m, rest, cc, co, rp) == spec_resolve(
                                m,
                                rest.drop_first(),
                                child_count as int,
                                child_offset as int,
                                new_path,
                            ));
                        }
                        k += 1;
                    } else {
                        proof {
                            assert(rest.len() == 1);
                            assert(spec_resolve(m, rest, cc, co, rp) == (SpecFind::Found {
                                index: idx,
                                is_dir: true,
                                path: new_path,
                            }));
                            assert(resource_matches(Resource::Directory(d), m, idx, new_path));
                        }
                        return Ok(Some(Resource::Directory(d)));
                    }
                },
                Resource::File(f) => {
                    proof {
                        assert(!m.rec_is_dir(idx));
                    }
                    if k + 1 < segments.len() {
                        proof {
                            assert(rest.len() > 1);
                            assert(spec_resolve(m, rest, cc, co, rp) == SpecFind::Missing);
                        }
                        return Ok(None);
                    } else {
                        proof {
                            assert(rest.len() == 1);
                            assert(spec_resolve(m, rest, cc, co, rp) == (SpecFind::Found {
                                index: idx,
                                is_dir: false,
                                path: new_path,
                            }));
                            assert(resource_matches(Resource::File(f), m, idx, new_path));
                        }
                        return Ok(Some(Resource::File(f)));
                    }
                },
            }
        }
        proof {
            assert(false);
        }
        Ok(None)
    }
}

/// The outcome of resolving a path against a session.
pub enum SpecFind {
    /// A structural error ended the walk.
    Fail(Error),
    /// The path names no resource.
    Missing,
    /// The record at `index` was reached; `is_dir` tells its kind and `path`
    /// is the absolute path stamped onto the returned node.
    Found { index: int, is_dir: bool, path: Seq<char> },
}

/// One probe of the binary search: the flag read that derives the node,
/// then its stored hash.
pub open spec fn spec_probe(m: Model, index: int) -> Result<u32, Error> {
    match m.rec_flags(index) {
        Err(e) => Err(e),
        Ok(_) => m.rec_hash(index),
    }
}

/// The hash-ordered binary search over the child range `[co + left,
/// co + right)`, mirroring the probe order of the resolver: ties on equal
/// hashes go to the first probe that reaches equality.
pub open spec fn spec_bsearch(m: Model, co: int, left: int, right: int, key: u32) -> Result<
    Option<int>,
    Error,
>
    decreases right - left,
{
    if left >= right {
        Ok(None)
    } else {
        let mid = (left + right) / 2;
        match spec_probe(m, co + mid) {
            Err(e) => Err(e),
            Ok(h) => {
                if h == key {
                    Ok(Some(co + mid))
                } else if h < key {
                    spec_bsearch(m, co, mid + 1, right, key)
                } else {
                    spec_bsearch(m, co, left, mid, key)
                }
            },
        }
    }
}

/// The descent over the remaining path segments, from a directory whose
/// child range is `[co, co + cc)` and whose absolute path is `path`.
pub open spec fn spec_resolve(
    m: Model,
    segs: Seq<Seq<char>>,
    cc: int,
    co: int,
    path: Seq<char>,
) -> SpecFind
    decreases segs.len(),
{
    if segs.len() == 0 {
        SpecFind::Missing
    } else {
        match spec_bsearch(m, co, 0, cc, utils::spec_qt_hash(segs[0], 0)) {
            Err(e) => SpecFind::Fail(e),
            Ok(None) => SpecFind::Missing,
            Ok(Some(idx)) => match m.rec_name(idx) {
                Err(e) => SpecFind::Fail(e),
                Ok(nm) => {
                    let new_path = utils::spec_path_join(path, nm);
                    if m.rec_is_dir(idx) {
                        if segs.len() > 1 {
                            match m.dir_child_count(idx) {
                                Err(e) => SpecFind::Fail(e),
                                Ok(cc2) => match m.dir_child_offset(idx) {
                                    Err(e) => SpecFind::Fail(e),
                                    Ok(co2) => spec_resolve(
                                        m,
                                        segs.drop_first(),
                                        cc2 as int,
                                        co2 as int,
                                        new_path,
                                    ),
                                },
                            }
                        } else {
                            SpecFind::Found { index: idx, is_dir: true, path: new_path }
                        }
                    } else {
                        if segs.len() > 1 {
                            SpecFind::Missing
                        } else {
                            SpecFind::Found { index: idx, is_dir: false, path: new_path }
                        }
                    }
                },
            },
        }
    }
}

/// What `find` yields on a session with model `m` for the given path: the
/// path is normalised, the root record is checked to be a directory, and the
/// normalised segments are resolved from the root's child range.
pub open spec fn spec_find(m: Model, path: Seq<char>) -> SpecFind {
    let segs = utils::norm_segments(utils::unix_path_of(path));
    match m.rec_flags(0) {
        Err(e) => SpecFind::Fail(e),
        Ok(_) => {
            if !m.rec_is_dir(0) {
                SpecFind::Fail(Error::InvalidData { offset: bytes::clamp_offset(m.rec_ptr(0)) })
            } else if segs.len() == 0 {
                SpecFind::Found { index: 0, is_dir: true, path: seq!['/'] }
            } else {
                match m.dir_child_count(0) {
                    Err(e) => SpecFind::Fail(e),
                    Ok(cc) => match m.dir_child_offset(0) {
                        Err(e) => SpecFind::Fail(e),
                        Ok(co) => spec_resolve(m, segs, cc as int, co as int, seq!['/']),
                    },
                }
            }
        },
    }
}

} // verus!
