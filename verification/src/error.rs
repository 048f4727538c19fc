//! The ways in which sizing an arena or compiling into it can fail.

use vstd::prelude::*;

verus! {

/// Why an arena could not be had or a predicate could not be compiled. Every
/// one of these is final: nothing is retried.
#[derive(Clone, Copy, Debug, PartialEq, Eq, Structural)]
pub enum JitError {
    /// No arena of the requested size can be provided.
    AllocationFailure,
    /// The code for the whole domain does not fit in the arena.
    CapacityExceeded,
    /// The requested instruction set has no encoder.
    UnsupportedTarget,
}

} // verus!
