//! A node of the virtual filesystem: a directory or a file, discriminated by
//! one flag bit at a fixed record offset.

use vstd::prelude::*;
use vstd::string::StringExecFns;

use crate::error::Error;
use crate::readers::Model;
use crate::readers::ResourceReader;
use crate::types::record;
use crate::types::ResourceDirectory;
use crate::types::ResourceFile;
use crate::types::ResourceFlags;

verus! {

/// A resource node: a file or a directory view over one record.
#[derive(Debug)]
pub enum Resource<'a> {
    File(ResourceFile<'a>),
    Directory(ResourceDirectory<'a>),
}

/// Whether `r` is the view of the record with the given index, carrying the
/// given absolute path, over a session with the given model.
pub open spec fn resource_matches(r: Resource, m: Model, index: int, path: Seq<char>) -> bool {
    match r {
        Resource::Directory(d) => {
            &&& d.reader.model() == m
            &&& d.ptr == m.rec_ptr(index)
            &&& d.absolute_path@ == path
            &&& m.rec_flags(index) is Ok
            &&& m.rec_is_dir(index)
        },
        Resource::File(f) => {
            &&& f.reader.model() == m
            &&& f.ptr == m.rec_ptr(index)
            &&& f.absolute_path@ == path
            &&& m.rec_flags(index) is Ok
            &&& !m.rec_is_dir(index)
        },
    }
}

impl<'a> Resource<'a> {
    /// Builds the view of the record with the given index, choosing the
    /// variant by the directory bit of its flag field.
    pub fn derive(index: u64, reader: &'a ResourceReader<'a>) -> (r: Result<Resource<'a>, Error>)
        ensures
            r matches Err(e) ==> reader.model().rec_flags(index as int) == Err::<u16, Error>(e),
            r matches Ok(res) ==> (reader.model().rec_flags(index as int) is Ok
                && resource_matches(res, reader.model(), index as int, Seq::empty())),
    {
        let ptr = match reader.find_ptr(index) {
            Some(p) => p,
            None => {
                proof {
                    vstd::slice::axiom_spec_len(reader.bytes);
                }
                return Err(Error::OutOfBounds { offset: usize::MAX });
            },
        };
        let flags = match record::read_flags(reader.bytes, ptr) {
            Ok(f) => f,
            Err(e) => {
                return Err(e);
            },
        };
        if flags & ResourceFlags::Directory.bits() != 0 {
            Ok(Resource::Directory(ResourceDirectory::new(index, reader)))
        } else {
            Ok(Resource::File(ResourceFile::new(index, reader)))
        }
    }

    /// True for a file node.
    pub fn is_file(&self) -> (r: bool)
        ensures
            r == (self matches Resource::File(_)),
    {
        match self {
            Resource::File(_) => true,
            Resource::Directory(_) => false,
        }
    }

    /// True for a directory node.
    pub fn is_dir(&self) -> (r: bool)
        ensures
            r == (self matches Resource::Directory(_)),
    {
        match self {
            Resource::File(_) => false,
            Resource::Directory(_) => true,
        }
    }

    /// The record's base address.
    pub open spec fn spec_ptr(self) -> int {
        match self {
            Resource::File(f) => f.ptr as int,
            Resource::Directory(d) => d.ptr as int,
        }
    }

    /// The session model the node was derived over.
    pub open spec fn spec_model(self) -> Model {
        match self {
            Resource::File(f) => f.reader.model(),
            Resource::Directory(d) => d.reader.model(),
        }
    }

    /// The node's stamped absolute path.
    pub open spec fn spec_absolute_path(self) -> Seq<char> {
        match self {
            Resource::File(f) => f.absolute_path@,
            Resource::Directory(d) => d.absolute_path@,
        }
    }

    /// The node's decoded name.
    pub fn name(&self) -> (r: Result<String, Error>)
        ensures
            r matches Ok(s) ==> (record::spec_name(
                self.spec_model().img,
                self.spec_model().name_off,
                self.spec_ptr(),
            ) matches Ok(cs) && s@ == cs),
            r matches Err(e) ==> record::spec_name(
                self.spec_model().img,
                self.spec_model().name_off,
                self.spec_ptr(),
            ) == Err::<Seq<char>, Error>(e),
    {
        match self {
            Resource::File(res) => res.name(),
            Resource::Directory(res) => res.name(),
        }
    }

    /// The node's stored name hash.
    pub fn hash(&self) -> (r: Result<u32, Error>)
        ensures
            r == record::spec_hash(
                self.spec_model().img,
                self.spec_model().name_off,
                self.spec_ptr(),
            ),
    {
        match self {
            Resource::File(res) => res.hash(),
            Resource::Directory(res) => res.hash(),
        }
    }

    /// Stamps the node's absolute path, leaving everything else as it is.
    pub(crate) fn set_absolute_path(&mut self, path: &str)
        ensures
            final(self).spec_absolute_path() == path@,
            final(self).spec_ptr() == old(self).spec_ptr(),
            final(self).spec_model() == old(self).spec_model(),
            ((*final(self)) matches Resource::File(_)) == ((*old(self)) matches Resource::File(
                _,
            )),
    {
        match self {
            Resource::File(res) => {
                res.absolute_path = String::from_str(path);
            },
            Resource::Directory(res) => {
                res.absolute_path = String::from_str(path);
            },
        }
    }
}

} // verus!
