//! Records of stored packfiles.

use crate::types::githash::GitHash;
use vstd::prelude::*;

verus! {

/// A packfile that is stored, and what is in it.
#[derive(Debug)]
pub struct PackfileRecord {
    /// What tells the packfile from others.
    pub id: String,
    /// Where it is stored.
    pub path: String,
    /// The commits that it brings.
    pub contains_commits: Vec<GitHash>,
}

/// What a `PackfileRecord` stands for.
#[verifier::ext_equal]
pub struct Packfile {
    pub id: Seq<char>,
    pub path: Seq<char>,
    pub contains_commits: Seq<Seq<char>>,
}

impl View for PackfileRecord {
    type V = Packfile;

    open spec fn view(&self) -> Packfile {
        Packfile {
            id: self.id@,
            path: self.path@,
            contains_commits: Seq::new(
                self.contains_commits@.len(),
                |i: int| self.contains_commits@[i]@,
            ),
        }
    }
}

} // verus!
