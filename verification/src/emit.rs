//! The emitter: the single, cursor-based way of writing into an arena.

use vstd::prelude::*;

verus! {

/// The arena `mem` after `bytes` have been written at offset `at`.
pub open spec fn patched(mem: Seq<u8>, at: int, bytes: Seq<u8>) -> Seq<u8> {
    mem.subrange(0, at) + bytes + mem.subrange(at + bytes.len(), mem.len() as int)
}

/// A write replaces the bytes of its range by the bytes written and leaves
/// every byte before and behind the range as it was; the arena keeps its size.
pub proof fn law_write_touches_only_its_range(mem: Seq<u8>, at: int, bytes: Seq<u8>)
    requires
        0 <= at,
        at + bytes.len() <= mem.len(),
    ensures
        patched(mem, at, bytes).len() == mem.len(),
        patched(mem, at, bytes).subrange(at, at + bytes.len()) == bytes,
        forall|i: int| 0 <= i < at ==> patched(mem, at, bytes)[i] == mem[i],
        forall|i: int| at + bytes.len() <= i < mem.len() ==> patched(mem, at, bytes)[i] == mem[i],
{
    assert(patched(mem, at, bytes).subrange(at, at + bytes.len()) =~= bytes);
}

/// Copies `from` into the arena `to` at the cursor `at` and returns the
/// cursor advanced past the bytes written. Nothing outside
/// `at..at + from.len()` changes.
pub fn write(to: &mut [u8], at: usize, from: &[u8]) -> (next: usize)
    requires
        at + from@.len() <= old(to)@.len(),
    ensures
        next == at + from@.len(),
        final(to)@ == patched(old(to)@, at as int, from@),
{
    let n: usize = from.len();
    let capacity: usize = to.len();
    let mut i: usize = 0;
    while i < n
        invariant
            n == from@.len(),
            at + n <= capacity,
            capacity == to@.len(),
            to@.len() == old(to)@.len(),
            i <= n,
            forall|j: int| 0 <= j < i ==> to@[at + j] == from@[j],
            forall|j: int| 0 <= j < to@.len() && !(at <= j < at + i) ==> to@[j] == old(to)@[j],
        decreases n - i,
    {
        to[at + i] = from[i];
        i += 1;
    }
    assert(to@ =~= patched(old(to)@, at as int, from@));
    at + n
}

} // verus!
