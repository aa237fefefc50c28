//! Where the device mappings are kept on disk.
use vstd::prelude::*;

verus! {

/// Handles persistence of device mappings to/from disk.
pub struct MappingPersistence {
    file_path: String,
}

impl MappingPersistence {
    /// The path of the mappings file.
    pub closed spec fn path(&self) -> Seq<char> {
        self.file_path@
    }

    pub fn new(file_path: String) -> (p: Self)
        ensures
            p.path() == file_path@,
    {
        Self { file_path }
    }

    /// The path of the mappings file.
    pub fn file_path(&self) -> (p: &str)
        ensures
            p@ == self.path(),
    {
        self.file_path.as_str()
    }
}

} // verus!
