//! The directory view over a record: name, hash, and the contiguous child
//! range in the record table.

use vstd::prelude::*;
use vstd::string::StringExecFns;

use crate::bytes;
use crate::error::Error;
use crate::readers::Model;
use crate::readers::ResourceReader;
use crate::types::record;
use crate::types::resource_matches;
use crate::types::Resource;
use crate::utils;

verus! {

/// A directory node: a record base address, the stamped absolute path, and
/// the owning parse session.
#[derive(Debug)]
pub struct ResourceDirectory<'a> {
    pub ptr: usize,
    pub absolute_path: String,
    pub reader: &'a ResourceReader<'a>,
}

/// Walks the error side of materialising children `k..cnt` of the child
/// range starting at `co`: the first failing flag or name read, if any.
pub open spec fn spec_children_walk(m: Model, co: int, k: int, cnt: int) -> Option<Error>
    decreases cnt - k,
{
    if k >= cnt {
        None
    } else {
        match m.rec_flags(co + k) {
            Err(e) => Some(e),
            Ok(_) => {
                match m.rec_name(co + k) {
                    Err(e) => Some(e),
                    Ok(_) => spec_children_walk(m, co, k + 1, cnt),
                }
            },
        }
    }
}

impl<'a> ResourceDirectory<'a> {
    /// Builds the directory view of the record with the given index.
    pub fn new(index: u64, reader: &'a ResourceReader<'a>) -> (r: Self)
        requires
            reader.model().rec_ptr(index as int) <= usize::MAX as int,
        ensures
            r.ptr == reader.model().rec_ptr(index as int),
            r.absolute_path@ == Seq::<char>::empty(),
            r.reader == reader,
    {
        let ptr = match reader.find_ptr(index) {
            Some(p) => p,
            None => {
                proof {
                    assert(false);
                }
                0
            },
        };
        Self { ptr, absolute_path: String::new(), reader }
    }

    /// The directory's decoded name.
    pub fn name(&self) -> (r: Result<String, Error>)
        ensures
            r matches Ok(s) ==> (record::spec_name(
                self.reader.model().img,
                self.reader.model().name_off,
                self.ptr as int,
            ) matches Ok(cs) && s@ == cs),
            r matches Err(e) ==> record::spec_name(
                self.reader.model().img,
                self.reader.model().name_off,
                self.ptr as int,
            ) == Err::<Seq<char>, Error>(e),
    {
        record::read_name(self.reader.bytes, self.reader.name_offset, self.ptr)
    }

    /// The directory's stored name hash.
    pub fn hash(&self) -> (r: Result<u32, Error>)
        ensures
            r == record::spec_hash(
                self.reader.model().img,
                self.reader.model().name_off,
                self.ptr as int,
            ),
    {
        record::read_hash(self.reader.bytes, self.reader.name_offset, self.ptr)
    }

    /// The number of children of this directory.
    pub fn child_count(&self) -> (r: Result<u32, Error>)
        ensures
            r == bytes::spec_read_u32(self.reader.model().img, self.ptr + 6),
    {
        bytes::read_u32(self.reader.bytes, self.ptr, 6)
    }

    /// The record-table index of this directory's first child.
    pub fn child_offset(&self) -> (r: Result<u32, Error>)
        ensures
            r == bytes::spec_read_u32(self.reader.model().img, self.ptr + 10),
    {
        bytes::read_u32(self.reader.bytes, self.ptr, 10)
    }

    /// Materialises the full child vector, each child's absolute path
    /// stamped with this directory's path and the child's own name.
    pub fn children(&self) -> (r: Result<Vec<Resource<'a>>, Error>)
        ensures
            ({
                let m = self.reader.model();
                let cc = bytes::spec_read_u32(m.img, self.ptr + 6);
                let co = bytes::spec_read_u32(m.img, self.ptr + 10);
                &&& (r matches Err(e) ==> {
                    ||| cc == Err::<u32, Error>(e)
                    ||| (cc is Ok && co == Err::<u32, Error>(e))
                    ||| (cc matches Ok(n) && co matches Ok(o) && spec_children_walk(
                        m,
                        o as int,
                        0,
                        n as int,
                    ) == Some(e))
                })
                &&& (r matches Ok(v) ==> (cc matches Ok(n) && co matches Ok(o) && v@.len()
                    == n && spec_children_walk(m, o as int, 0, n as int) is None && forall|k: int|
                    0 <= k < n ==> resource_matches(
                        #[trigger] v@[k],
                        m,
                        o + k,
                        utils::spec_path_join(
                            self.absolute_path@,
                            m.rec_name(o + k)->Ok_0,
                        ),
                    )))
            }),
    {
        let ghost m = self.reader.model();
        let child_count = match self.child_count() {
            Ok(n) => n,
            Err(e) => {
                return Err(e);
            },
        };
        let child_offset = match self.child_offset() {
            Ok(o) => o,
            Err(e) => {
                return Err(e);
            },
        };
        let mut childs: Vec<Resource<'a>> = Vec::new();
        let mut child: u32 = 0;
        while child < child_count
            invariant
                child <= child_count,
                m == self.reader.model(),
                bytes::spec_read_u32(m.img, self.ptr + 6) == Ok::<u32, Error>(child_count),
                bytes::spec_read_u32(m.img, self.ptr + 10) == Ok::<u32, Error>(child_offset),
                childs@.len() == child,
                spec_children_walk(m, child_offset as int, 0, child as int) is None,
                forall|k: int|
                    0 <= k < child ==> resource_matches(
                        #[trigger] childs@[k],
                        m,
                        child_offset + k,
                        utils::spec_path_join(
                            self.absolute_path@,
                            m.rec_name(child_offset + k)->Ok_0,
                        ),
                    ),
            decreases child_count - child,
        {
            let index: u64 = (child_offset as u64) + (child as u64);
            let mut node = match Resource::derive(index, self.reader) {
                Ok(n) => n,
                Err(e) => {
                    proof {
                        lemma_children_walk_fail(m, child_offset as int, child as int, child_count as int, e, true);
                    }
                    return Err(e);
                },
            };
            let name = match node.name() {
                Ok(n) => n,
                Err(e) => {
                    proof {
                        lemma_children_walk_fail(m, child_offset as int, child as int, child_count as int, e, false);
                    }
                    return Err(e);
                },
            };
            let stamped = utils::path_join(self.absolute_path.as_str(), name.as_str());
            node.set_absolute_path(stamped.as_str());
            childs.push(node);
            proof {
                lemma_children_walk_extend(m, child_offset as int, child as int);
            }
            child += 1;
        }
        Ok(childs)
    }
}

/// A failing flag or name read at child `k` makes the whole walk fail with
/// that error, provided the walk reached `k`.
proof fn lemma_children_walk_fail(m: Model, co: int, k: int, cnt: int, e: Error, at_flags: bool)
    requires
        0 <= k < cnt,
        spec_children_walk(m, co, 0, k) is None,
        at_flags ==> m.rec_flags(co + k) == Err::<u16, Error>(e),
        !at_flags ==> m.rec_flags(co + k) is Ok && m.rec_name(co + k) == Err::<Seq<char>, Error>(e),
    ensures
        spec_children_walk(m, co, 0, cnt) == Some(e),
{
    lemma_children_walk_shift(m, co, 0, k, cnt);
    assert(spec_children_walk(m, co, k, cnt) == Some(e));
}

/// Extending a clean walk by one clean child keeps it clean.
proof fn lemma_children_walk_extend(m: Model, co: int, k: int)
    requires
        0 <= k,
        spec_children_walk(m, co, 0, k) is None,
        m.rec_flags(co + k) is Ok,
        m.rec_name(co + k) is Ok,
    ensures
        spec_children_walk(m, co, 0, k + 1) is None,
{
    lemma_children_walk_shift(m, co, 0, k, k + 1);
    assert(spec_children_walk(m, co, k + 1, k + 1) is None);
    assert(spec_children_walk(m, co, k, k + 1) is None);
}

/// A walk over `j..cnt` agrees with first walking `j..k` (cleanly) and then
/// `k..cnt`.
proof fn lemma_children_walk_shift(m: Model, co: int, j: int, k: int, cnt: int)
    requires
        0 <= j <= k <= cnt,
        spec_children_walk(m, co, j, k) is None,
    ensures
        spec_children_walk(m, co, j, cnt) == spec_children_walk(m, co, k, cnt),
    decreases k - j,
{
    if j < k {
        lemma_children_walk_shift(m, co, j + 1, k, cnt);
    }
}

} // verus!
