//! A model of the processor, as far as the emitted code exercises it: four
//! pieces of state and the five instructions of the subset.

use vstd::prelude::*;
use crate::isa::{decode, fetch, sign_extend, sign_extended, Instruction};

verus! {

/// The processor state that the emitted code reads or writes.
pub struct Cpu {
    /// Offset in the arena of the next instruction.
    pub pc: int,
    /// The result register (`rax`).
    pub result: i64,
    /// The argument register (`rdi`).
    pub argument: i64,
    /// The zero flag: whether the last comparison found its operands equal.
    pub equal: bool,
}

/// How an invocation of arena code ends.
#[derive(Clone, Copy, Debug, PartialEq, Eq, Structural)]
pub enum Outcome {
    /// The code returned to its caller with this value in the result register.
    Returned(i64),
    /// The code reached a trap and raised the invalid-opcode exception.
    Trapped,
    /// Control left the arena or reached bytes outside the modelled subset.
    Faulted,
    /// The step budget ran out before the code returned, trapped or faulted.
    Unfinished,
}

/// The effect of one instruction.
pub enum Step {
    /// Execution goes on from this state.
    Continue(Cpu),
    /// Execution ends.
    Halt(Outcome),
}

impl Cpu {
    /// The state in which a call with `argument` enters the arena when the
    /// result register and the zero flag happen to be clear.
    pub open spec fn entry(argument: i64) -> Cpu {
        Cpu { pc: 0, result: 0, argument, equal: false }
    }
}

/// What `instr` does to a state whose program counter has already moved
/// past it. Only the program counter, the result register and the zero flag
/// ever change.
pub open spec fn effect(instr: Instruction, cpu: Cpu) -> Step {
    match instr {
        Instruction::LoadResult(imm) => Step::Continue(Cpu { result: sign_extend(imm), ..cpu }),
        Instruction::CompareArgument(imm) => Step::Continue(
            Cpu { equal: cpu.argument == sign_extend(imm), ..cpu },
        ),
        Instruction::JumpIfNotEqual(rel) => Step::Continue(
            if cpu.equal {
                cpu
            } else {
                Cpu { pc: cpu.pc + sign_extend(rel), ..cpu }
            },
        ),
        Instruction::Return => Step::Halt(Outcome::Returned(cpu.result)),
        Instruction::Trap => Step::Halt(Outcome::Trapped),
    }
}

/// Executes the instruction at the program counter. Where no instruction of
/// the subset stands, inside the arena, execution faults.
pub open spec fn step(code: Seq<u8>, cpu: Cpu) -> Step {
    match decode(code, cpu.pc) {
        None => Step::Halt(Outcome::Faulted),
        Some(instr) => effect(instr, Cpu { pc: cpu.pc + instr.size(), ..cpu }),
    }
}

/// Executes at most `fuel` instructions, starting in state `cpu`.
pub open spec fn run(code: Seq<u8>, cpu: Cpu, fuel: nat) -> Outcome
    decreases fuel,
{
    if fuel == 0 {
        Outcome::Unfinished
    } else {
        match step(code, cpu) {
            Step::Continue(next) => run(code, next, (fuel - 1) as nat),
            Step::Halt(outcome) => outcome,
        }
    }
}

/// Invokes the code in the arena `code` with `argument`, as the processor
/// would, for at most `fuel` instructions.
pub fn invoke(code: &[u8], argument: i64, fuel: u64) -> (outcome: Outcome)
    ensures
        outcome == run(code@, Cpu::entry(argument), fuel as nat),
{
    let len: usize = code.len();
    let mut pc: i128 = 0;
    let mut result: i64 = 0;
    let mut equal: bool = false;
    let mut left: u64 = fuel;
    while left > 0
        invariant
            len == code@.len(),
            -0x1_0000_0000 <= pc <= len + 0x1_0000_0000,
            run(code@, Cpu::entry(argument), fuel as nat) == run(
                code@,
                Cpu { pc: pc as int, result, argument, equal },
                left as nat,
            ),
        decreases left,
    {
        if pc < 0 || pc >= len as i128 {
            return Outcome::Faulted;
        }
        match fetch(code, pc as usize) {
            None => {
                return Outcome::Faulted;
            },
            Some(instr) => {
                pc = pc + instr.length() as i128;
                match instr {
                    Instruction::LoadResult(imm) => {
                        result = sign_extended(imm);
                    },
                    Instruction::CompareArgument(imm) => {
                        equal = argument == sign_extended(imm);
                    },
                    Instruction::JumpIfNotEqual(rel) => {
                        if !equal {
                            pc = pc + sign_extended(rel) as i128;
                        }
                    },
                    Instruction::Return => {
                        return Outcome::Returned(result);
                    },
                    Instruction::Trap => {
                        return Outcome::Trapped;
                    },
                }
            },
        }
        left -= 1;
    }
    Outcome::Unfinished
}

} // verus!
