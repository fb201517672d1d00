use vstd::prelude::*;

verus! {

/// Position of a commit in the store's append-only commit arena.
#[derive(Clone, Copy, Debug, PartialEq, Eq, Structural)]
pub struct CommitId(pub usize);

/// Position of a tree in the store's append-only tree arena.
#[derive(Clone, Copy, Debug, PartialEq, Eq, Structural)]
pub struct TreeId(pub usize);

/// Identity of a logical change; it survives rewrites of the commit that carries it.
#[derive(Clone, Copy, Debug, PartialEq, Eq, Structural)]
pub struct ChangeId(pub usize);

/// Reference to the content of one file.
#[derive(Clone, Copy, Debug, PartialEq, Eq, Structural)]
pub struct FileId(pub u64);

} // verus!
