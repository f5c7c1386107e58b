use vstd::prelude::*;

use crate::bytemap::{spec_lookup, spec_store, ByteMap};
use crate::errors::Error;
use crate::file_utils::{parse_document, spec_parse_document, YamlResource};
use crate::locations::FileLocation;

verus! {

/// The filesystem as the engine sees it: the contents of the files named by
/// the node's locations, read in by whoever drives the run and written back
/// by it afterwards.
pub struct Filesystem {
    pub files: ByteMap,
}

impl Filesystem {
    /// The file contents, keyed by path.
    pub open spec fn view(&self) -> Seq<(Seq<u8>, Seq<u8>)> {
        self.files@
    }

    /// An empty filesystem.
    pub fn new() -> (r: Self)
        ensures
            r@ == Seq::<(Seq<u8>, Seq<u8>)>::empty(),
    {
        Filesystem { files: ByteMap::new() }
    }

    /// The bytes of the file at `path`, if it exists.
    pub fn read_file(&self, path: &Vec<u8>) -> (r: Option<Vec<u8>>)
        ensures
            match r {
                Some(v) => spec_lookup(self@, path@) == Some(v@),
                None => spec_lookup(self@, path@) is None,
            },
    {
        self.files.get(path)
    }

    /// Writes `content` to the file at `path`.
    pub fn write_file(&mut self, path: &Vec<u8>, content: Vec<u8>)
        ensures
            final(self)@ == spec_store(old(self)@, path@, content@),
    {
        self.files.put(path, content);
    }
}

/// Reads the file a YAML-shaped location points at and parses it.
pub fn get_filesystem_yaml(filesystem: &Filesystem, filelocation: &FileLocation) -> (r: Result<
    YamlResource,
    Error,
>)
    ensures
        r matches Ok(res) ==> spec_lookup(filesystem@, filelocation.path@) matches Some(bytes)
            && spec_parse_document(bytes) == Some(res@),
        r == Result::<YamlResource, Error>::Err(Error::FileMissing) <==> spec_lookup(
            filesystem@,
            filelocation.path@,
        ) is None,
        r == Result::<YamlResource, Error>::Err(Error::MalformedYaml) <==> (spec_lookup(
            filesystem@,
            filelocation.path@,
        ) matches Some(bytes) && spec_parse_document(bytes) is None),
        r matches Err(e) ==> (e == Error::FileMissing || e == Error::MalformedYaml),
{
    let bytes = match filesystem.read_file(&filelocation.path) {
        Some(bytes) => bytes,
        None => {
            return Err(Error::FileMissing);
        },
    };
    parse_document(&bytes)
}

} // verus!
