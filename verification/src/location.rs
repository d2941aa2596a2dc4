//! Where a served file is installed on the client. The location is a tagged
//! value so that forms other than an absolute path can be added without
//! changing the wire shape from a bare string.

use vstd::prelude::*;

verus! {

/// The install destination of one served file.
pub enum InstallLocation {
    AbsolutePath(String),
}

impl InstallLocation {
    /// The characters of the location's path.
    pub open spec fn path_spec(self) -> Seq<char> {
        match self {
            InstallLocation::AbsolutePath(s) => s@,
        }
    }

    /// Borrow the location's path.
    pub fn path(&self) -> (r: &String)
        ensures
            r@ == self.path_spec(),
    {
        match self {
            InstallLocation::AbsolutePath(s) => s,
        }
    }

    /// An equal location.
    pub fn dup(&self) -> (r: InstallLocation)
        ensures
            r == *self,
    {
        match self {
            InstallLocation::AbsolutePath(s) => InstallLocation::AbsolutePath(s.clone()),
        }
    }
}

} // verus!
