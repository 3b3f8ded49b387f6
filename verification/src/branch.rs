//! A named branch of a repository.

use vstd::prelude::*;

verus! {

/// A branch: its name and whether it tracks a remote.
pub struct Branch {
    name: String,
    is_remote: bool,
}

impl Branch {
    /// The branch's name, as contracts speak of it.
    pub closed spec fn spec_name(&self) -> Seq<char> {
        self.name@
    }

    /// Whether the branch tracks a remote, as contracts speak of it.
    pub closed spec fn spec_is_remote(&self) -> bool {
        self.is_remote
    }

    pub fn new(name: String, is_remote: bool) -> (r: Branch)
        ensures
            r.spec_name() == name@,
            r.spec_is_remote() == is_remote,
    {
        Branch { name, is_remote }
    }

    /// The branch's name.
    pub fn name(&self) -> (r: String)
        ensures
            r@ == self.spec_name(),
    {
        self.name.clone()
    }

    /// Whether the branch tracks a remote.
    pub fn is_remote(&self) -> (r: bool)
        ensures
            r == self.spec_is_remote(),
    {
        self.is_remote
    }
}

} // verus!
