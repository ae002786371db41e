//! Stored mock payloads live in one directory; this type carries its root.
//! Listing and reading the files is disk I/O and lives with the binary built
//! around the library.

use vstd::prelude::*;

verus! {

/// A directory of stored payloads, named by its root path.
#[derive(Clone, Default, Debug)]
pub struct Mocks {
    root: String,
}

impl View for Mocks {
    type V = Seq<char>;

    closed spec fn view(&self) -> Seq<char> {
        self.root@
    }
}

impl Mocks {
    /// A store rooted at the given path.
    pub fn from_root(path: String) -> (r: Self)
        ensures
            r@ == path@,
    {
        Mocks { root: path }
    }

    /// The root path.
    pub fn root(&self) -> (r: &String)
        ensures
            r@ == self@,
    {
        &self.root
    }
}

} // verus!
