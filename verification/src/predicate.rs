//! Ground-truth predicates: what the compiler evaluates, value by value, while
//! it lays out the code.

use vstd::prelude::*;

verus! {

/// A boolean predicate over 32-bit values that can be evaluated while compiling.
pub trait Predicate {
    /// The truth value of the predicate at `k`.
    spec fn holds(&self, k: u32) -> bool;

    /// Evaluates the predicate at `k`.
    fn eval(&self, k: u32) -> (r: bool)
        ensures
            r == self.holds(k),
    ;
}

/// The predicate "`k` is odd".
#[derive(Clone, Copy, Debug)]
pub struct IsOdd;

impl Predicate for IsOdd {
    open spec fn holds(&self, k: u32) -> bool {
        k % 2 == 1
    }

    fn eval(&self, k: u32) -> (r: bool) {
        assert(k & 1 == k % 2) by (bit_vector);
        k & 1 == 1
    }
}

} // verus!
