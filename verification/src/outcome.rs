//! What deleting one target comes to.

use vstd::prelude::*;

verus! {

/// Why a target could not be deleted. `E` is the driver's error type,
/// passed through untouched.
#[derive(Clone, Debug, PartialEq, Eq)]
pub enum Failure<E> {
    /// The walk could not enumerate the tree, so nothing was removed.
    Scan,
    /// The target is a single file, and clearing its read-only attribute or
    /// removing it failed.
    File(E),
    /// The target was still there after the sweep, and the removal that
    /// followed the repair pass failed as well.
    Residual(E),
}

/// The result of deleting one target.
#[derive(Clone, Debug, PartialEq, Eq)]
pub enum Outcome<E> {
    /// The target is gone.
    Success,
    /// The target, or part of it, is still there.
    PartialFailure(Failure<E>),
    /// There was nothing at the target path to begin with.
    NotFound,
}

impl<E> Outcome<E> {
    /// Whether the target is gone because of this deletion.
    pub fn is_success(&self) -> (yes: bool)
        ensures
            yes == (self is Success),
    {
        match self {
            Outcome::Success => true,
            _ => false,
        }
    }
}

} // verus!
