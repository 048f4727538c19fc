//! The executable arena: its size and its initial fill.

use vstd::prelude::*;
use crate::error::JitError;

verus! {

/// Granularity, in bytes, to which every arena size is rounded up.
pub const PAGE_SIZE: usize = 4096;

/// First byte of the two-byte undefined-instruction encoding (`ud2`).
pub const TRAP_FIRST: u8 = 0x0f;

/// Second byte of the two-byte undefined-instruction encoding (`ud2`).
pub const TRAP_SECOND: u8 = 0x0b;

/// The one-byte encoding of a near return (`ret`).
pub const RETURN_BYTE: u8 = 0xc3;

/// What an arena holds wherever no code has been written.
#[derive(Clone, Copy, Debug, PartialEq, Eq, Structural)]
pub enum Fill {
    /// The undefined instruction, repeated: control that reaches it faults at
    /// once. This is the fill to prefer.
    Trap,
    /// The lenient fill, a return in every byte: control that reaches it goes
    /// back to the caller with whatever the result register holds.
    Return,
}

/// The size of the arena that serves a request for `size` bytes: `size` itself
/// when it is a whole number of pages, else the next multiple of the page size.
pub open spec fn page_aligned(size: nat) -> nat {
    if size % (PAGE_SIZE as nat) == 0 {
        size
    } else {
        (size - size % (PAGE_SIZE as nat) + PAGE_SIZE) as nat
    }
}

/// The byte that `fill` places at offset `i`.
pub open spec fn fill_byte(fill: Fill, i: int) -> u8 {
    match fill {
        Fill::Trap => if i % 2 == 0 {
            TRAP_FIRST
        } else {
            TRAP_SECOND
        },
        Fill::Return => RETURN_BYTE,
    }
}

/// An arena of `len` bytes in its initial state.
pub open spec fn filled(fill: Fill, len: nat) -> Seq<u8> {
    Seq::new(len, |i: int| fill_byte(fill, i))
}

/// The rounded size is the least multiple of the page size that is not below
/// the request.
pub proof fn law_page_aligned_is_least_multiple(size: nat)
    ensures
        page_aligned(size) % (PAGE_SIZE as nat) == 0,
        size <= page_aligned(size) < size + PAGE_SIZE,
{
}

/// Rounds a requested arena size up to a whole number of pages.
///
/// Fails with `AllocationFailure` exactly when the rounded size does not fit
/// in `usize`: no arena that large can exist.
pub fn page_aligned_size(size: usize) -> (rounded: Result<usize, JitError>)
    ensures
        rounded == if page_aligned(size as nat) <= usize::MAX {
            Ok::<usize, JitError>(page_aligned(size as nat) as usize)
        } else {
            Err::<usize, JitError>(JitError::AllocationFailure)
        },
{
    let rem: usize = size % PAGE_SIZE;
    if rem == 0 {
        Ok(size)
    } else {
        let base: usize = size - rem;
        if base > usize::MAX - PAGE_SIZE {
            Err(JitError::AllocationFailure)
        } else {
            Ok(base + PAGE_SIZE)
        }
    }
}

/// Overwrites the whole arena with `fill`.
pub fn fill_arena(mem: &mut [u8], fill: Fill)
    ensures
        final(mem)@ == filled(fill, old(mem)@.len()),
{
    let n: usize = mem.len();
    let mut i: usize = 0;
    while i < n
        invariant
            n == mem@.len(),
            mem@.len() == old(mem)@.len(),
            i <= n,
            forall|j: int| 0 <= j < i ==> mem@[j] == fill_byte(fill, j),
        decreases n - i,
    {
        mem[i] = match fill {
            Fill::Trap => if i % 2 == 0 {
                TRAP_FIRST
            } else {
                TRAP_SECOND
            },
            Fill::Return => RETURN_BYTE,
        };
        i += 1;
    }
    assert(mem@ =~= filled(fill, old(mem)@.len()));
}

} // verus!
