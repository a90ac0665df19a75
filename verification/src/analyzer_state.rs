use vstd::prelude::*;

verus! {

/// What the analysis knows of a pointer variable at a program point.
#[derive(Debug, Clone, Copy, PartialEq, Eq, Structural)]
pub enum OwnershipState {
    Allocated,
    Freed,
    Uninitialized,
    Null,
    OutOfScope,
    MaybeFreed,
    Returned,
}

} // verus!
