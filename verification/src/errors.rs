//! The errors of the filesystem.
use vstd::prelude::*;

verus! {

#[derive(Clone, Copy, Debug, PartialEq, Eq, Structural)]
pub enum FxfsError {
    /// Something of that name exists already.
    AlreadyExists,
    /// The caller may not do this.
    AccessDenied,
    /// The store is unlocked already.
    AlreadyBound,
    /// What was read from the device contradicts itself.
    Inconsistent,
    /// The filesystem cannot go on with this.
    Internal,
    /// The arguments make no sense for this store.
    InvalidArgs,
    /// The object is not a file.
    NotFile,
    /// Nothing of that name or identifier exists.
    NotFound,
}

} // verus!
