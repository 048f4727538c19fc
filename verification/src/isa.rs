//! The handful of x86-64 instructions that the compiler emits, with their
//! byte encodings and a decoder that reads them back.

use vstd::prelude::*;

verus! {

/// One instruction of the emitted subset. Immediates are kept as the raw
/// 32-bit field of the encoding; the processor sign-extends them to 64 bits.
#[derive(Clone, Copy, Debug, PartialEq, Eq, Structural)]
pub enum Instruction {
    /// `mov rax, imm32`: sets the result register.
    LoadResult(u32),
    /// `cmp rdi, imm32`: compares the argument register with the immediate.
    CompareArgument(u32),
    /// `jne rel32`: skips `rel32` bytes when the last comparison was unequal.
    JumpIfNotEqual(u32),
    /// `ret`: hands the result register back to the caller.
    Return,
    /// `ud2`: raises the invalid-opcode exception.
    Trap,
}

/// The four bytes of `v`, least significant first.
pub open spec fn le_bytes(v: u32) -> Seq<u8> {
    seq![
        (v % 256) as u8,
        (v / 256 % 256) as u8,
        (v / 65536 % 256) as u8,
        (v / 16777216) as u8,
    ]
}

/// The 32-bit value whose little-endian bytes are `b0, b1, b2, b3`.
pub open spec fn le_value(b0: u8, b1: u8, b2: u8, b3: u8) -> u32 {
    (b0 + b1 * 256 + b2 * 65536 + b3 * 16777216) as u32
}

/// The 64-bit value that the processor derives from a 32-bit immediate.
pub open spec fn sign_extend(imm: u32) -> i64 {
    if imm < 0x8000_0000 {
        imm as i64
    } else {
        (imm - 0x1_0000_0000) as i64
    }
}

impl Instruction {
    /// The bytes that encode this instruction.
    pub open spec fn encoding(self) -> Seq<u8> {
        match self {
            Instruction::LoadResult(imm) => seq![0x48u8, 0xc7u8, 0xc0u8] + le_bytes(imm),
            Instruction::CompareArgument(imm) => seq![0x48u8, 0x81u8, 0xffu8] + le_bytes(imm),
            Instruction::JumpIfNotEqual(rel) => seq![0x0fu8, 0x85u8] + le_bytes(rel),
            Instruction::Return => seq![0xc3u8],
            Instruction::Trap => seq![0x0fu8, 0x0bu8],
        }
    }

    /// The number of bytes that this instruction occupies.
    pub open spec fn size(self) -> int {
        match self {
            Instruction::LoadResult(_) => 7,
            Instruction::CompareArgument(_) => 7,
            Instruction::JumpIfNotEqual(_) => 6,
            Instruction::Return => 1,
            Instruction::Trap => 2,
        }
    }
}

/// Whether `code` holds the bytes `pattern` at offset `at`.
pub open spec fn holds_at(code: Seq<u8>, at: int, pattern: Seq<u8>) -> bool {
    &&& 0 <= at
    &&& at + pattern.len() <= code.len()
    &&& code.subrange(at, at + pattern.len()) == pattern
}

/// The 32-bit little-endian field that starts at offset `at`.
pub open spec fn field_at(code: Seq<u8>, at: int) -> u32 {
    le_value(code[at], code[at + 1], code[at + 2], code[at + 3])
}

/// The instruction that starts at offset `at`, if the bytes there encode one
/// of the subset and it lies wholly inside `code`.
pub open spec fn decode(code: Seq<u8>, at: int) -> Option<Instruction> {
    if at < 0 || at >= code.len() {
        None
    } else if code[at] == 0xc3 {
        Some(Instruction::Return)
    } else if at + 2 <= code.len() && code[at] == 0x0f && code[at + 1] == 0x0b {
        Some(Instruction::Trap)
    } else if at + 6 <= code.len() && code[at] == 0x0f && code[at + 1] == 0x85 {
        Some(Instruction::JumpIfNotEqual(field_at(code, at + 2)))
    } else if at + 7 <= code.len() && code[at] == 0x48 && code[at + 1] == 0xc7 && code[at + 2]
        == 0xc0 {
        Some(Instruction::LoadResult(field_at(code, at + 3)))
    } else if at + 7 <= code.len() && code[at] == 0x48 && code[at + 1] == 0x81 && code[at + 2]
        == 0xff {
        Some(Instruction::CompareArgument(field_at(code, at + 3)))
    } else {
        None
    }
}

/// Splitting a 32-bit value into bytes and reassembling them is the identity.
proof fn lemma_le_round_trip(v: u32)
    ensures
        le_bytes(v).len() == 4,
        le_value(le_bytes(v)[0], le_bytes(v)[1], le_bytes(v)[2], le_bytes(v)[3]) == v,
{
}

/// Reassembling four bytes and splitting the value again yields the bytes.
proof fn lemma_le_bytes_of_value(b0: u8, b1: u8, b2: u8, b3: u8)
    ensures
        le_bytes(le_value(b0, b1, b2, b3)) == seq![b0, b1, b2, b3],
{
    let v: int = b0 + b1 * 256 + b2 * 65536 + b3 * 16777216;
    assert(0 <= v <= u32::MAX);
    assert(v / 16777216 == b3 as int);
    assert(v / 65536 == b2 + b3 * 256);
    assert(v / 256 == b1 + b2 * 256 + b3 * 65536);
    assert(v % 256 == b0 as int);
    assert((v / 256) % 256 == b1 as int);
    assert((v / 65536) % 256 == b2 as int);
    assert(le_bytes(le_value(b0, b1, b2, b3)) =~= seq![b0, b1, b2, b3]);
}

/// Every instruction occupies as many bytes as `size` says.
pub proof fn lemma_encoding_len(instr: Instruction)
    ensures
        instr.encoding().len() == instr.size(),
{
}

/// Wherever the encoding of `instr` stands in `code`, the decoder reads
/// `instr` back.
pub proof fn lemma_decode_encoding(code: Seq<u8>, at: int, instr: Instruction)
    requires
        holds_at(code, at, instr.encoding()),
    ensures
        decode(code, at) == Some(instr),
{
    let enc = instr.encoding();
    lemma_encoding_len(instr);
    assert forall|i: int| 0 <= i < enc.len() implies code[at + i] == enc[i] by {
        assert(code.subrange(at, at + enc.len())[i] == code[at + i]);
    }
    match instr {
        Instruction::LoadResult(imm) => {
            lemma_le_round_trip(imm);
            assert(enc[0] == 0x48u8 && enc[1] == 0xc7u8 && enc[2] == 0xc0u8);
            assert(enc[3] == le_bytes(imm)[0] && enc[4] == le_bytes(imm)[1]
                && enc[5] == le_bytes(imm)[2] && enc[6] == le_bytes(imm)[3]);
        },
        Instruction::CompareArgument(imm) => {
            lemma_le_round_trip(imm);
            assert(enc[0] == 0x48u8 && enc[1] == 0x81u8 && enc[2] == 0xffu8);
            assert(enc[3] == le_bytes(imm)[0] && enc[4] == le_bytes(imm)[1]
                && enc[5] == le_bytes(imm)[2] && enc[6] == le_bytes(imm)[3]);
        },
        Instruction::JumpIfNotEqual(rel) => {
            lemma_le_round_trip(rel);
            assert(enc[0] == 0x0fu8 && enc[1] == 0x85u8);
            assert(enc[2] == le_bytes(rel)[0] && enc[3] == le_bytes(rel)[1]
                && enc[4] == le_bytes(rel)[2] && enc[5] == le_bytes(rel)[3]);
        },
        Instruction::Return => {
            assert(enc[0] == 0xc3u8);
        },
        Instruction::Trap => {
            assert(enc[0] == 0x0fu8 && enc[1] == 0x0bu8);
        },
    }
}

/// Whatever the decoder reads at an offset stands encoded at that offset.
proof fn lemma_decoded_stands_encoded(code: Seq<u8>, at: int, instr: Instruction)
    requires
        decode(code, at) == Some(instr),
    ensures
        holds_at(code, at, instr.encoding()),
{
    let enc = instr.encoding();
    lemma_encoding_len(instr);
    match instr {
        Instruction::LoadResult(imm) => {
            lemma_le_bytes_of_value(code[at + 3], code[at + 4], code[at + 5], code[at + 6]);
        },
        Instruction::CompareArgument(imm) => {
            lemma_le_bytes_of_value(code[at + 3], code[at + 4], code[at + 5], code[at + 6]);
        },
        Instruction::JumpIfNotEqual(rel) => {
            lemma_le_bytes_of_value(code[at + 2], code[at + 3], code[at + 4], code[at + 5]);
        },
        Instruction::Return => {},
        Instruction::Trap => {},
    }
    assert(code.subrange(at, at + enc.len()) =~= enc);
}

/// The decoder is the inverse of the encoding: it reads `instr` at an offset
/// exactly when the encoding of `instr` stands there.
pub proof fn law_decode_inverts_encoding(code: Seq<u8>, at: int, instr: Instruction)
    ensures
        decode(code, at) == Some(instr) <==> holds_at(code, at, instr.encoding()),
{
    if decode(code, at) == Some(instr) {
        lemma_decoded_stands_encoded(code, at, instr);
    }
    if holds_at(code, at, instr.encoding()) {
        lemma_decode_encoding(code, at, instr);
    }
}

/// Reads the 32-bit little-endian field that starts at offset `at`.
fn read_field(code: &[u8], at: usize) -> (v: u32)
    requires
        at + 4 <= code@.len(),
    ensures
        v == field_at(code@, at as int),
{
    let b0: u32 = code[at] as u32;
    let b1: u32 = code[at + 1] as u32;
    let b2: u32 = code[at + 2] as u32;
    let b3: u32 = code[at + 3] as u32;
    b0 + b1 * 256 + b2 * 65536 + b3 * 16777216
}

/// Decodes the instruction that starts at offset `at`.
pub fn fetch(code: &[u8], at: usize) -> (instr: Option<Instruction>)
    ensures
        instr == decode(code@, at as int),
{
    let len: usize = code.len();
    if at >= len {
        return None;
    }
    let room: usize = len - at;
    let b0: u8 = code[at];
    if b0 == 0xc3 {
        return Some(Instruction::Return);
    }
    if room < 2 {
        return None;
    }
    let b1: u8 = code[at + 1];
    if b0 == 0x0f && b1 == 0x0b {
        return Some(Instruction::Trap);
    }
    if room >= 6 && b0 == 0x0f && b1 == 0x85 {
        return Some(Instruction::JumpIfNotEqual(read_field(code, at + 2)));
    }
    if room < 7 {
        return None;
    }
    let b2: u8 = code[at + 2];
    if b0 == 0x48 && b1 == 0xc7 && b2 == 0xc0 {
        return Some(Instruction::LoadResult(read_field(code, at + 3)));
    }
    if b0 == 0x48 && b1 == 0x81 && b2 == 0xff {
        return Some(Instruction::CompareArgument(read_field(code, at + 3)));
    }
    None
}

/// Computes the four bytes of `v`, least significant first.
pub fn to_le_bytes(v: u32) -> (bytes: [u8; 4])
    ensures
        bytes@ == le_bytes(v),
{
    let bytes: [u8; 4] = [
        (v % 256) as u8,
        (v / 256 % 256) as u8,
        (v / 65536 % 256) as u8,
        (v / 16777216) as u8,
    ];
    assert(bytes@ =~= le_bytes(v));
    bytes
}

impl Instruction {
    /// Computes the number of bytes that this instruction occupies.
    pub fn length(&self) -> (n: usize)
        ensures
            n == self.size(),
    {
        match self {
            Instruction::LoadResult(_) => 7,
            Instruction::CompareArgument(_) => 7,
            Instruction::JumpIfNotEqual(_) => 6,
            Instruction::Return => 1,
            Instruction::Trap => 2,
        }
    }
}

/// Computes the 64-bit value that the processor derives from a 32-bit immediate.
pub fn sign_extended(imm: u32) -> (v: i64)
    ensures
        v == sign_extend(imm),
{
    if imm < 0x8000_0000 {
        imm as i64
    } else {
        imm as i64 - 0x1_0000_0000
    }
}

} // verus!
