//! What holds of compiled code: the theorems that tie the compiler to the
//! processor model.

use vstd::prelude::*;
use crate::arena::{filled, Fill};
use crate::compiler::{
    block_code, code_len, compiled, header_code, lemma_program_layout, lemma_program_len, program,
    program_len, result_code,
};
use crate::emit::law_write_touches_only_its_range;
use crate::isa::{
    decode, holds_at, lemma_decode_encoding, lemma_encoding_len, sign_extend, Instruction,
};
use crate::machine::{run, step, Cpu, Outcome, Step};
use crate::predicate::Predicate;

verus! {

/// The number of instructions that an invocation executes until the block
/// of the domain value `k` returns.
pub open spec fn steps_to_return(k: u32) -> nat {
    (2 * k + 5) as nat
}

/// The number of instructions that an invocation executes until it has
/// passed the header and the blocks of all of `0..=max`.
pub open spec fn steps_through_chain(max: u32) -> nat {
    (2 * (max + 1) + 1) as nat
}

/// Whether `argument` selects one of the blocks of the domain `0..=max`.
pub open spec fn in_domain(argument: i64, max: u32) -> bool {
    exists|k: u32| k <= max && sign_extend(k) == argument
}

/// A pattern that stands in a sequence also stands in whatever holds that
/// sequence, shifted by the place of the sequence.
proof fn lemma_holds_at_nested(code: Seq<u8>, base: int, outer: Seq<u8>, at: int, inner: Seq<u8>)
    requires
        holds_at(code, base, outer),
        holds_at(outer, at, inner),
    ensures
        holds_at(code, base + at, inner),
{
    assert(code.subrange(base + at, base + at + inner.len()) =~= inner) by {
        assert forall|i: int| 0 <= i < inner.len() implies code[base + at + i] == inner[i] by {
            assert(outer.subrange(at, at + inner.len())[i] == outer[at + i]);
            assert(code.subrange(base, base + outer.len())[at + i] == code[base + at + i]);
        }
    }
}

/// The four instructions of a block decode one after another wherever the
/// block stands.
proof fn lemma_decode_block(code: Seq<u8>, at: int, k: u32, r: bool)
    requires
        holds_at(code, at, block_code(k, r)),
    ensures
        decode(code, at) == Some(Instruction::CompareArgument(k)),
        decode(code, at + 7) == Some(Instruction::JumpIfNotEqual(8)),
        decode(code, at + 13) == Some(Instruction::LoadResult(result_code(r))),
        decode(code, at + 20) == Some(Instruction::Return),
{
    let i0 = Instruction::CompareArgument(k);
    let i1 = Instruction::JumpIfNotEqual(8);
    let i2 = Instruction::LoadResult(result_code(r));
    let i3 = Instruction::Return;
    let b = block_code(k, r);
    lemma_encoding_len(i0);
    lemma_encoding_len(i1);
    lemma_encoding_len(i2);
    lemma_encoding_len(i3);
    assert(b.subrange(0, 7) =~= i0.encoding());
    assert(b.subrange(7, 13) =~= i1.encoding());
    assert(b.subrange(13, 20) =~= i2.encoding());
    assert(b.subrange(20, 21) =~= i3.encoding());
    lemma_holds_at_nested(code, at, b, 0, i0.encoding());
    lemma_holds_at_nested(code, at, b, 7, i1.encoding());
    lemma_holds_at_nested(code, at, b, 13, i2.encoding());
    lemma_holds_at_nested(code, at, b, 20, i3.encoding());
    lemma_decode_encoding(code, at, i0);
    lemma_decode_encoding(code, at + 7, i1);
    lemma_decode_encoding(code, at + 13, i2);
    lemma_decode_encoding(code, at + 20, i3);
}

/// An argument that differs from the domain values `j, .., m - 1` passes
/// their blocks in two instructions each and arrives at block `m` with the
/// result register as it was.
proof fn lemma_skip_blocks<P: Predicate>(
    code: Seq<u8>,
    p: &P,
    n: nat,
    j: nat,
    m: nat,
    cpu: Cpu,
    fuel: nat,
)
    requires
        holds_at(code, 0, program(p, n)),
        j <= m <= n <= 0x1_0000_0000,
        cpu.pc == program_len(j),
        forall|i: u32| j <= i < m ==> sign_extend(i) != cpu.argument,
        fuel >= 2 * (m - j),
    ensures
        run(code, cpu, fuel) == run(
            code,
            Cpu {
                pc: program_len(m) as int,
                equal: if j < m {
                    false
                } else {
                    cpu.equal
                },
                ..cpu
            },
            (fuel - 2 * (m - j)) as nat,
        ),
    decreases m - j,
{
    if j < m {
        let k = j as u32;
        lemma_program_layout(p, n, j);
        lemma_holds_at_nested(
            code,
            0,
            program(p, n),
            program_len(j) as int,
            block_code(k, p.holds(k)),
        );
        lemma_decode_block(code, cpu.pc, k, p.holds(k));
        let compared = Cpu { pc: cpu.pc + 7, equal: false, ..cpu };
        assert(step(code, cpu) == Step::Continue(compared));
        let jumped = Cpu { pc: cpu.pc + 21, ..compared };
        assert(sign_extend(8) == 8);
        assert(step(code, compared) == Step::Continue(jumped));
        assert(run(code, cpu, fuel) == run(code, compared, (fuel - 1) as nat));
        assert(run(code, compared, (fuel - 1) as nat) == run(code, jumped, (fuel - 2) as nat));
        lemma_skip_blocks(code, p, n, j + 1, m, jumped, (fuel - 2) as nat);
    }
}

/// An argument that equals the domain value `k` leaves block `k` with the
/// truth value of `k` after four instructions.
proof fn lemma_hit_block<P: Predicate>(code: Seq<u8>, p: &P, n: nat, k: u32, cpu: Cpu, fuel: nat)
    requires
        holds_at(code, 0, program(p, n)),
        k < n,
        cpu.pc == program_len(k as nat),
        cpu.argument == sign_extend(k),
        fuel >= 4,
    ensures
        run(code, cpu, fuel) == Outcome::Returned(result_code(p.holds(k)) as i64),
{
    lemma_program_layout(p, n, k as nat);
    lemma_holds_at_nested(
        code,
        0,
        program(p, n),
        program_len(k as nat) as int,
        block_code(k, p.holds(k)),
    );
    lemma_decode_block(code, cpu.pc, k, p.holds(k));
    let compared = Cpu { pc: cpu.pc + 7, equal: true, ..cpu };
    assert(step(code, cpu) == Step::Continue(compared));
    let stayed = Cpu { pc: cpu.pc + 13, ..compared };
    assert(step(code, compared) == Step::Continue(stayed));
    let loaded = Cpu { pc: cpu.pc + 20, result: result_code(p.holds(k)) as i64, ..stayed };
    assert(step(code, stayed) == Step::Continue(loaded));
    assert(step(code, loaded) == Step::Halt(Outcome::Returned(loaded.result)));
    assert(run(code, cpu, fuel) == run(code, compared, (fuel - 1) as nat));
    assert(run(code, compared, (fuel - 1) as nat) == run(code, stayed, (fuel - 2) as nat));
    assert(run(code, stayed, (fuel - 2) as nat) == run(code, loaded, (fuel - 3) as nat));
    assert(run(code, loaded, (fuel - 3) as nat) == Outcome::Returned(loaded.result));
}

/// The header takes one instruction and leaves the default, 0, in the result
/// register.
proof fn lemma_header<P: Predicate>(code: Seq<u8>, p: &P, n: nat, cpu: Cpu, fuel: nat)
    requires
        holds_at(code, 0, program(p, n)),
        0 < n,
        cpu.pc == 0,
        fuel >= 1,
    ensures
        run(code, cpu, fuel) == run(code, Cpu { pc: 7, result: 0, ..cpu }, (fuel - 1) as nat),
{
    lemma_program_layout(p, n, 0);
    lemma_holds_at_nested(code, 0, program(p, n), 0, header_code());
    lemma_decode_encoding(code, 0, Instruction::LoadResult(0));
    assert(step(code, cpu) == Step::Continue(Cpu { pc: 7, result: 0, ..cpu }));
}

/// Correctness: once `p` has been compiled over `0..=max` into an arena, an
/// invocation whose argument is the domain value `k` returns the truth value
/// of `p` at `k`, 1 for true and 0 for false, whatever the result register
/// and the flags held on entry and whatever the arena holds behind the code.
///
/// The argument is the 64-bit value that the processor compares against, the
/// sign extension of `k`; for every `k` below 2^31 that is `k` itself.
pub proof fn law_in_domain_returns_truth<P: Predicate>(
    before: Seq<u8>,
    p: &P,
    max: u32,
    k: u32,
    cpu: Cpu,
    fuel: nat,
)
    requires
        code_len(max) <= before.len(),
        k <= max,
        cpu.pc == 0,
        cpu.argument == sign_extend(k),
        fuel >= steps_to_return(k),
    ensures
        run(compiled(before, p, max), cpu, fuel) == Outcome::Returned(
            result_code(p.holds(k)) as i64,
        ),
{
    let n = (max + 1) as nat;
    let code = compiled(before, p, max);
    lemma_program_len(p, n);
    law_write_touches_only_its_range(before, 0, program(p, n));
    lemma_header(code, p, n, cpu, fuel);
    let entered = Cpu { pc: 7, result: 0, ..cpu };
    lemma_skip_blocks(code, p, n, 0, k as nat, entered, (fuel - 1) as nat);
    let arrived = Cpu {
        pc: program_len(k as nat) as int,
        equal: if 0 < k {
            false
        } else {
            entered.equal
        },
        ..entered
    };
    lemma_hit_block(code, p, n, k, arrived, (fuel - 1 - 2 * k) as nat);
}

/// Out-of-domain arguments reach the fill: once `p` has been compiled over
/// `0..=max` into an arena, an invocation whose argument selects no block
/// matches none, passes the header and every block, and arrives at the first
/// byte behind the code with the default, 0, in the result register. What
/// happens next is up to what the arena holds there.
pub proof fn law_out_of_domain_reaches_fill<P: Predicate>(
    before: Seq<u8>,
    p: &P,
    max: u32,
    cpu: Cpu,
    fuel: nat,
)
    requires
        code_len(max) <= before.len(),
        cpu.pc == 0,
        !in_domain(cpu.argument, max),
        fuel >= steps_through_chain(max),
    ensures
        run(compiled(before, p, max), cpu, fuel) == run(
            compiled(before, p, max),
            Cpu { pc: code_len(max) as int, result: 0, argument: cpu.argument, equal: false },
            (fuel - steps_through_chain(max)) as nat,
        ),
{
    let n = (max + 1) as nat;
    let code = compiled(before, p, max);
    lemma_program_len(p, n);
    law_write_touches_only_its_range(before, 0, program(p, n));
    lemma_header(code, p, n, cpu, fuel);
    let entered = Cpu { pc: 7, result: 0, ..cpu };
    assert forall|i: u32| 0 <= i < n implies sign_extend(i) != cpu.argument by {
        if sign_extend(i) == cpu.argument {
            assert(i <= max && sign_extend(i) == cpu.argument);
        }
    }
    lemma_skip_blocks(code, p, n, 0, n, entered, (fuel - 1) as nat);
}

/// Out-of-domain arguments trap: in an arena that was trap-filled before `p`
/// was compiled over `0..=max` into it, an invocation whose argument selects
/// no block runs through the whole chain and faults on the undefined
/// instruction right behind the last block.
///
/// The trap pattern is two bytes wide and laid from offset 0, so the
/// processor reads it as the undefined instruction only at even offsets: the
/// code has to end on one, which it does exactly when `max` is even, and at
/// least one whole pattern has to be left behind it.
pub proof fn law_out_of_domain_traps<P: Predicate>(
    len: nat,
    p: &P,
    max: u32,
    cpu: Cpu,
    fuel: nat,
)
    requires
        code_len(max) + 2 <= len,
        max % 2 == 0,
        cpu.pc == 0,
        !in_domain(cpu.argument, max),
        fuel >= steps_through_chain(max) + 1,
    ensures
        run(compiled(filled(Fill::Trap, len), p, max), cpu, fuel)
            == Outcome::Trapped,
{
    let n = (max + 1) as nat;
    let end = program_len(n) as int;
    let before = filled(Fill::Trap, len);
    let code = compiled(before, p, max);
    lemma_program_len(p, n);
    law_write_touches_only_its_range(before, 0, program(p, n));
    law_out_of_domain_reaches_fill(before, p, max, cpu, fuel);
    assert(code[end] == 0x0f && code[end + 1] == 0x0b);
    assert(decode(code, end) == Some(Instruction::Trap));
}

/// Out-of-domain arguments under the lenient fill: in an arena that was
/// return-filled before `p` was compiled over `0..=max` into it, an invocation
/// whose argument selects no block returns the default, 0, provided that at
/// least one byte of the fill is left behind the code.
pub proof fn law_out_of_domain_returns_default<P: Predicate>(
    len: nat,
    p: &P,
    max: u32,
    cpu: Cpu,
    fuel: nat,
)
    requires
        code_len(max) + 1 <= len,
        cpu.pc == 0,
        !in_domain(cpu.argument, max),
        fuel >= steps_through_chain(max) + 1,
    ensures
        run(compiled(filled(Fill::Return, len), p, max), cpu, fuel)
            == Outcome::Returned(0),
{
    let n = (max + 1) as nat;
    let end = program_len(n) as int;
    let before = filled(Fill::Return, len);
    let code = compiled(before, p, max);
    lemma_program_len(p, n);
    law_write_touches_only_its_range(before, 0, program(p, n));
    law_out_of_domain_reaches_fill(before, p, max, cpu, fuel);
    assert(code[end] == 0xc3);
    assert(decode(code, end) == Some(Instruction::Return));
}

/// Boundaries of the domain: the least value, 0, and the greatest, `max`,
/// both get their truth value.
pub proof fn law_boundaries_return_truth<P: Predicate>(
    before: Seq<u8>,
    p: &P,
    max: u32,
    cpu: Cpu,
    fuel: nat,
)
    requires
        code_len(max) <= before.len(),
        cpu.pc == 0,
        fuel >= steps_to_return(max),
    ensures
        cpu.argument == 0 ==> run(compiled(before, p, max), cpu, fuel)
            == Outcome::Returned(result_code(p.holds(0)) as i64),
        cpu.argument == sign_extend(max) ==> run(compiled(before, p, max), cpu, fuel)
            == Outcome::Returned(result_code(p.holds(max)) as i64),
{
    if cpu.argument == 0 {
        law_in_domain_returns_truth(before, p, max, 0, cpu, fuel);
    }
    if cpu.argument == sign_extend(max) {
        law_in_domain_returns_truth(before, p, max, max, cpu, fuel);
    }
}

/// One past the maximum: the argument `max + 1` selects no block. In a
/// trap-filled arena whose code ends on an even offset with a whole trap
/// pattern behind it the invocation traps; in a return-filled arena with a
/// byte of fill behind the code it returns the default, 0. Either way it does
/// not answer with the truth value of another domain value.
pub proof fn law_one_past_maximum<P: Predicate>(
    fill: Fill,
    len: nat,
    p: &P,
    max: u32,
    cpu: Cpu,
    fuel: nat,
)
    requires
        fill == Fill::Trap ==> max % 2 == 0 && code_len(max) + 2 <= len,
        fill == Fill::Return ==> code_len(max) + 1 <= len,
        cpu.pc == 0,
        cpu.argument == max + 1,
        fuel >= steps_through_chain(max) + 1,
    ensures
        run(compiled(filled(fill, len), p, max), cpu, fuel) == (match fill {
            Fill::Trap => Outcome::Trapped,
            Fill::Return => Outcome::Returned(0),
        }),
{
    assert(!in_domain(cpu.argument, max));
    match fill {
        Fill::Trap => law_out_of_domain_traps(len, p, max, cpu, fuel),
        Fill::Return => law_out_of_domain_returns_default(len, p, max, cpu, fuel),
    }
}

/// Determinism: compiling the same predicate over the same domain into two
/// arenas leaves the same instruction stream in both, whatever either held
/// before; two arenas that were equal before are equal afterwards.
pub proof fn law_compilation_is_deterministic<P: Predicate>(
    first: Seq<u8>,
    second: Seq<u8>,
    p: &P,
    max: u32,
)
    requires
        code_len(max) <= first.len(),
        code_len(max) <= second.len(),
    ensures
        compiled(first, p, max).subrange(0, code_len(max) as int) == compiled(
            second,
            p,
            max,
        ).subrange(0, code_len(max) as int),
        first == second ==> compiled(first, p, max) == compiled(second, p, max),
{
    let n = (max + 1) as nat;
    lemma_program_len(p, n);
    law_write_touches_only_its_range(first, 0, program(p, n));
    law_write_touches_only_its_range(second, 0, program(p, n));
}

} // verus!
