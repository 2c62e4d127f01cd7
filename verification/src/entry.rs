//! Entries discovered by one walk of a tree.

use vstd::prelude::*;

verus! {

/// What a node is once links leading to it have been followed.
#[derive(Clone, Copy, Debug, PartialEq, Eq, Structural)]
pub enum EntryKind {
    File,
    Directory,
}

/// How a node is taken off the disk.
#[derive(Clone, Copy, Debug, PartialEq, Eq, Structural)]
pub enum Removal {
    /// Remove the one file.
    Unlink,
    /// Remove the directory together with whatever is still below it, in
    /// one recursive removal.
    Recursive,
}

impl EntryKind {
    /// The removal that fits a node of this kind.
    pub open spec fn spec_removal(self) -> Removal {
        match self {
            EntryKind::File => Removal::Unlink,
            EntryKind::Directory => Removal::Recursive,
        }
    }

    /// The removal that fits a node of this kind: a directory goes with
    /// its subtree, a file goes alone.
    #[verifier::when_used_as_spec(spec_removal)]
    pub fn removal(self) -> (removal: Removal)
        ensures
            removal == self.spec_removal(),
    {
        match self {
            EntryKind::File => Removal::Unlink,
            EntryKind::Directory => Removal::Recursive,
        }
    }
}

/// A snapshot of one node, taken when the walk reached it.
///
/// `P` is whatever the driver uses to name a node; this crate never looks
/// inside it.
#[derive(Clone, Debug, PartialEq, Eq)]
pub struct Entry<P> {
    pub path: P,
    pub kind: EntryKind,
    /// Number of path segments between the root of the walk and this node.
    pub depth: u64,
}

} // verus!
