//! Where the results database lives.
use std::path::PathBuf;
use vstd::prelude::*;

verus! {

#[verifier::external_type_specification]
#[verifier::external_body]
pub struct ExPathBuf(PathBuf);

/// A database in a local file.
pub struct LocalDatabase {
    path: PathBuf,
}

impl LocalDatabase {
    pub closed spec fn location(&self) -> PathBuf {
        self.path
    }

    pub fn new(path: PathBuf) -> (r: Self)
        ensures
            r.location() == path,
    {
        LocalDatabase { path }
    }

    /// The file of the database.
    pub fn path(&self) -> (r: &PathBuf)
        ensures
            *r == self.location(),
    {
        &self.path
    }
}

} // verus!
