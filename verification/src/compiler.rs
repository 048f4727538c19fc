//! The predicate compiler: a default header followed by one
//! compare-and-return block per domain value, in ascending order.
//!
//! For the domain `0..=max` the arena holds, from offset 0:
//!
//! ```text
//! mov rax, 0                  header: the default result
//! cmp rdi, 0                  block of the value 0
//! jne +8
//! mov rax, <truth value of 0>
//! ret
//! ..                          one block per value, ascending order
//! cmp rdi, max                block of the value max
//! jne +8
//! mov rax, <truth value of max>
//! ret
//! ..                          the fill of the arena
//! ```
//!
//! An argument that equals a domain value returns from that value's block; any
//! other argument falls through every block into the fill.

use vstd::prelude::*;
use crate::emit::patched;
use crate::error::JitError;
use crate::isa::{holds_at, to_le_bytes, Instruction};
use crate::predicate::{IsOdd, Predicate};

verus! {

/// The instruction sets for which a build may be requested.
#[derive(Clone, Copy, Debug, PartialEq, Eq, Structural)]
pub enum Target {
    /// 64-bit x86, the one instruction set with an encoder.
    X86_64,
    /// 64-bit ARM, for which no encoder exists.
    Aarch64,
}

/// Length in bytes of the header.
pub const HEADER_LEN: usize = 7;

/// Length in bytes of every block.
pub const BLOCK_LEN: usize = 21;

/// Offset inside a block of the four-byte immediate that holds the domain value.
pub const KEY_OFFSET: usize = 3;

/// Offset inside a block of the byte that holds the result.
pub const RESULT_OFFSET: usize = 16;

/// Number of bytes that the conditional jump of a block skips: the load of the
/// result and the return that follow it. Every block has the same tail, so
/// the distance is the same in all of them.
pub const SKIP_DISTANCE: u32 = 8;

/// The encoding of a truth value in the result register.
pub open spec fn result_code(r: bool) -> u32 {
    if r {
        1
    } else {
        0
    }
}

/// The header: it sets the result register to the default, 0, and falls
/// through into the first block.
pub open spec fn header_code() -> Seq<u8> {
    Instruction::LoadResult(0).encoding()
}

/// The block for the domain value `k` with result `r`: compare the argument
/// with `k`; unless equal, skip to the next block; load `r`; return.
pub open spec fn block_code(k: u32, r: bool) -> Seq<u8> {
    Instruction::CompareArgument(k).encoding()
        + Instruction::JumpIfNotEqual(SKIP_DISTANCE).encoding()
        + Instruction::LoadResult(result_code(r)).encoding()
        + Instruction::Return.encoding()
}

/// The code for the first `n` domain values `0, 1, .., n - 1`.
pub open spec fn program<P: Predicate>(p: &P, n: nat) -> Seq<u8>
    decreases n,
{
    if n == 0 {
        header_code()
    } else {
        program(p, (n - 1) as nat) + block_code((n - 1) as u32, p.holds((n - 1) as u32))
    }
}

/// The length in bytes of the code for `n` domain values.
pub open spec fn program_len(n: nat) -> nat {
    HEADER_LEN as nat + BLOCK_LEN as nat * n
}

/// The length in bytes of the code for the domain `0..=max`.
pub open spec fn code_len(max: u32) -> nat {
    program_len((max + 1) as nat)
}

/// The arena that held `before`, after `p` has been compiled over the domain
/// `0..=max` into it: the code from offset 0, and behind it what was there.
pub open spec fn compiled<P: Predicate>(before: Seq<u8>, p: &P, max: u32) -> Seq<u8> {
    patched(before, 0, program(p, (max + 1) as nat))
}

/// Whether `b` agrees with the block template everywhere but at the two
/// places that are patched per domain value.
pub open spec fn fits_template(b: Seq<u8>) -> bool {
    &&& b.len() == BLOCK_LEN
    &&& forall|i: int|
        0 <= i < BLOCK_LEN && !(KEY_OFFSET <= i < KEY_OFFSET + 4) && i != RESULT_OFFSET ==> b[i]
            == block_code(0, false)[i]
}

/// What a build for `target` over the domain `0..=max` answers when the arena
/// has `capacity` bytes: the cursor behind the last block, or the reason for
/// which nothing was written.
pub open spec fn build_result(target: Target, capacity: nat, max: u32) -> Result<usize, JitError> {
    if target != Target::X86_64 {
        Err(JitError::UnsupportedTarget)
    } else if code_len(max) > capacity {
        Err(JitError::CapacityExceeded)
    } else {
        Ok(code_len(max) as usize)
    }
}

/// Every block has the length of the template and agrees with it outside the
/// patched places.
pub proof fn lemma_block_fits_template(k: u32, r: bool)
    ensures
        fits_template(block_code(k, r)),
{
}

/// The code for `n` domain values is `program_len(n)` bytes long.
pub proof fn lemma_program_len<P: Predicate>(p: &P, n: nat)
    ensures
        program(p, n).len() == program_len(n),
    decreases n,
{
    if n > 0 {
        lemma_program_len(p, (n - 1) as nat);
    }
}

/// The code for `n` domain values starts with the header and holds the block
/// of each value `k` below `n` at offset `program_len(k)`.
pub proof fn lemma_program_layout<P: Predicate>(p: &P, n: nat, k: nat)
    requires
        k < n,
    ensures
        holds_at(program(p, n), 0, header_code()),
        holds_at(program(p, n), program_len(k) as int, block_code(k as u32, p.holds(k as u32))),
    decreases n,
{
    let prev = program(p, (n - 1) as nat);
    let last = block_code((n - 1) as u32, p.holds((n - 1) as u32));
    lemma_program_len(p, (n - 1) as nat);
    lemma_program_len(p, n);
    assert(program(p, n) == prev + last);
    assert(program(p, n).subrange(0, 7) =~= prev.subrange(0, 7));
    if n == 1 {
        assert(prev.subrange(0, 7) =~= header_code());
    } else {
        lemma_program_layout(p, (n - 1) as nat, 0);
    }
    let at = program_len(k) as int;
    if k == n - 1 {
        assert(program(p, n).subrange(at, at + last.len()) =~= last);
    } else {
        lemma_program_layout(p, (n - 1) as nat, k);
        let b = block_code(k as u32, p.holds(k as u32));
        assert(program(p, n).subrange(at, at + b.len()) =~= prev.subrange(at, at + b.len()));
    }
}

/// Whether an encoder exists for `target`.
pub fn has_encoder(target: Target) -> (yes: bool)
    ensures
        yes == (target == Target::X86_64),
{
    match target {
        Target::X86_64 => true,
        Target::Aarch64 => false,
    }
}

/// The header as bytes.
pub fn header() -> (h: [u8; 7])
    ensures
        h@ == header_code(),
{
    let h: [u8; 7] = [0x48, 0xc7, 0xc0, 0x00, 0x00, 0x00, 0x00];
    assert(h@ =~= header_code());
    h
}

/// The block template, with placeholders where the domain value and the
/// result are patched in.
pub fn block_template() -> (b: [u8; 21])
    ensures
        b@ == block_code(0x1234_5678, true),
        fits_template(b@),
{
    let b: [u8; 21] = [
        0x48, 0x81, 0xff, 0x78, 0x56, 0x34, 0x12,
        0x0f, 0x85, 0x08, 0x00, 0x00, 0x00,
        0x48, 0xc7, 0xc0, 0x01, 0x00, 0x00, 0x00,
        0xc3,
    ];
    assert(b@ =~= block_code(0x1234_5678, true));
    proof {
        lemma_block_fits_template(0x1234_5678, true);
    }
    b
}

/// Patches the domain value `k` and the result `r` into a block that came
/// from the template, whatever was patched into it before.
pub fn patch_block(block: &mut [u8; 21], k: u32, r: bool)
    requires
        fits_template(old(block)@),
    ensures
        final(block)@ == block_code(k, r),
        fits_template(final(block)@),
{
    let key: [u8; 4] = to_le_bytes(k);
    block[KEY_OFFSET] = key[0];
    block[KEY_OFFSET + 1] = key[1];
    block[KEY_OFFSET + 2] = key[2];
    block[KEY_OFFSET + 3] = key[3];
    block[RESULT_OFFSET] = if r { 1 } else { 0 };
    assert(block@ =~= block_code(k, r));
    proof {
        lemma_block_fits_template(k, r);
    }
}

/// The number of bytes that the code for the domain `0..=max` occupies: the
/// header and one block per value.
pub fn required_size(max: u32) -> (size: u64)
    ensures
        size == code_len(max),
{
    HEADER_LEN as u64 + BLOCK_LEN as u64 * (max as u64 + 1)
}

/// Compiles `p` over the domain `0..=max` into the arena `mem`.
///
/// The build is refused, with the arena untouched, when `target` has no
/// encoder or when the code for the whole domain does not fit; both are decided
/// before the first byte is written. Otherwise the code is laid out from
/// offset 0, the rest of the arena keeps its contents, and the returned cursor
/// is the offset just past the last block.
pub fn build_predicate<P: Predicate>(target: Target, mem: &mut [u8], max: u32, p: &P) -> (built:
    Result<usize, JitError>)
    ensures
        built == build_result(target, old(mem)@.len(), max),
        final(mem)@ == (if built is Ok {
            compiled(old(mem)@, p, max)
        } else {
            old(mem)@
        }),
{
    if !has_encoder(target) {
        return Err(JitError::UnsupportedTarget);
    }
    let capacity: usize = mem.len();
    if required_size(max) > capacity as u64 {
        return Err(JitError::CapacityExceeded);
    }
    let head: [u8; 7] = header();
    let mut cursor: usize = crate::emit::write(mem, 0, &head);
    let mut block: [u8; 21] = block_template();
    let mut k: u64 = 0;
    assert(mem@ =~= patched(old(mem)@, 0, program(p, 0)));
    while k <= max as u64
        invariant
            k <= max + 1,
            capacity == mem@.len(),
            mem@.len() == old(mem)@.len(),
            code_len(max) <= capacity,
            cursor == program_len(k as nat),
            fits_template(block@),
            mem@ == patched(old(mem)@, 0, program(p, k as nat)),
        decreases max + 1 - k,
    {
        let key: u32 = k as u32;
        let r: bool = p.eval(key);
        patch_block(&mut block, key, r);
        proof {
            lemma_program_len(p, k as nat);
            lemma_program_len(p, (k + 1) as nat);
        }
        cursor = crate::emit::write(mem, cursor, &block);
        k += 1;
        assert(mem@ =~= patched(old(mem)@, 0, program(p, k as nat)));
    }
    Ok(cursor)
}

/// Compiles the predicate "is odd" over the domain `0..=max` into `mem`.
///
/// This is `build_predicate` for `IsOdd`: the same refusals, the same layout.
pub fn build_is_odd(target: Target, mem: &mut [u8], max: u32) -> (built: Result<usize, JitError>)
    ensures
        built == build_result(target, old(mem)@.len(), max),
        final(mem)@ == (if built is Ok {
            compiled(old(mem)@, &IsOdd, max)
        } else {
            old(mem)@
        }),
{
    build_predicate(target, mem, max, &IsOdd)
}

} // verus!
