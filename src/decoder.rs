//! Field extraction from 32-bit instruction words.
use vstd::arithmetic::div_mod::lemma_fundamental_div_mod_converse;
use vstd::prelude::*;

verus! {

/// Bits 31..28: the operation number.
pub open spec fn opcode_field(w: u32) -> nat {
    (w / 0x1000_0000) as nat
}

/// Bits 8..6: register A of a standard instruction.
pub open spec fn a_field(w: u32) -> nat {
    ((w / 64) % 8) as nat
}

/// Bits 5..3: register B of a standard instruction.
pub open spec fn b_field(w: u32) -> nat {
    ((w / 8) % 8) as nat
}

/// Bits 2..0: register C of a standard instruction.
pub open spec fn c_field(w: u32) -> nat {
    (w % 8) as nat
}

/// Bits 27..25: the destination register of an orthography instruction.
pub open spec fn ortho_reg_field(w: u32) -> nat {
    ((w / 0x0200_0000) % 8) as nat
}

/// Bits 24..0: the immediate value of an orthography instruction.
pub open spec fn ortho_value_field(w: u32) -> nat {
    (w % 0x0200_0000) as nat
}

/// The word of a standard instruction with the given fields.
pub open spec fn encode_standard(op: nat, a: nat, b: nat, c: nat) -> nat {
    op * 0x1000_0000 + a * 64 + b * 8 + c
}

/// The word of an orthography instruction loading `value` into register `reg`.
pub open spec fn encode_orthography(reg: nat, value: nat) -> nat {
    13 * 0x1000_0000 + reg * 0x0200_0000 + value
}

pub fn get_operator(w: u32) -> (r: u8)
    ensures
        r as nat == opcode_field(w),
        r < 16,
{
    let r = ((w & 0xF000_0000) >> 28u32) as u8;
    assert(((w & 0xF000_0000) >> 28u32) == w / 0x1000_0000) by (bit_vector);
    assert(w / 0x1000_0000 < 16) by (bit_vector);
    r
}

pub fn get_a(w: u32) -> (r: usize)
    ensures
        r as nat == a_field(w),
        r < 8,
{
    assert(((w & 0b111_000_000) >> 6u32) == (w / 64) % 8) by (bit_vector);
    ((w & 0b111_000_000) >> 6u32) as usize
}

pub fn get_b(w: u32) -> (r: usize)
    ensures
        r as nat == b_field(w),
        r < 8,
{
    assert(((w & 0b111_000) >> 3u32) == (w / 8) % 8) by (bit_vector);
    ((w & 0b111_000) >> 3u32) as usize
}

pub fn get_c(w: u32) -> (r: usize)
    ensures
        r as nat == c_field(w),
        r < 8,
{
    assert((w & 0b111) == w % 8) by (bit_vector);
    (w & 0b111) as usize
}

pub fn get_sp_a(w: u32) -> (r: usize)
    ensures
        r as nat == ortho_reg_field(w),
        r < 8,
{
    assert(((w & 0x0E00_0000) >> 25u32) == (w / 0x0200_0000) % 8) by (bit_vector);
    ((w & 0x0E00_0000) >> 25u32) as usize
}

pub fn get_sp_value(w: u32) -> (r: u32)
    ensures
        r as nat == ortho_value_field(w),
        r < 0x0200_0000,
{
    assert((w & 0x01FF_FFFF) == w % 0x0200_0000) by (bit_vector);
    w & 0x01FF_FFFF
}

/// One decoded instruction; register fields are indices into the register file.
#[derive(Clone, Copy, Debug, PartialEq, Eq, Structural)]
pub enum Instruction {
    ConditionalMove { a: usize, b: usize, c: usize },
    ArrayIndex { a: usize, b: usize, c: usize },
    ArrayAmendment { a: usize, b: usize, c: usize },
    Addition { a: usize, b: usize, c: usize },
    Multiplication { a: usize, b: usize, c: usize },
    Division { a: usize, b: usize, c: usize },
    NotAnd { a: usize, b: usize, c: usize },
    Halt,
    Allocation { b: usize, c: usize },
    Abandonment { c: usize },
    Output { c: usize },
    Input { c: usize },
    LoadProgram { b: usize, c: usize },
    Orthography { a: usize, value: u32 },
    /// Operation numbers 14 and 15, which do nothing.
    Unused,
}

/// The instruction that a word encodes.
pub open spec fn decode_spec(w: u32) -> Instruction {
    let a = a_field(w) as usize;
    let b = b_field(w) as usize;
    let c = c_field(w) as usize;
    let op = opcode_field(w);
    if op == 0 {
        Instruction::ConditionalMove { a, b, c }
    } else if op == 1 {
        Instruction::ArrayIndex { a, b, c }
    } else if op == 2 {
        Instruction::ArrayAmendment { a, b, c }
    } else if op == 3 {
        Instruction::Addition { a, b, c }
    } else if op == 4 {
        Instruction::Multiplication { a, b, c }
    } else if op == 5 {
        Instruction::Division { a, b, c }
    } else if op == 6 {
        Instruction::NotAnd { a, b, c }
    } else if op == 7 {
        Instruction::Halt
    } else if op == 8 {
        Instruction::Allocation { b, c }
    } else if op == 9 {
        Instruction::Abandonment { c }
    } else if op == 10 {
        Instruction::Output { c }
    } else if op == 11 {
        Instruction::Input { c }
    } else if op == 12 {
        Instruction::LoadProgram { b, c }
    } else if op == 13 {
        Instruction::Orthography {
            a: ortho_reg_field(w) as usize,
            value: ortho_value_field(w) as u32,
        }
    } else {
        Instruction::Unused
    }
}

impl Instruction {
    /// Every register index held by the instruction is below 8.
    pub open spec fn registers_in_range(self) -> bool {
        match self {
            Instruction::ConditionalMove { a, b, c }
            | Instruction::ArrayIndex { a, b, c }
            | Instruction::ArrayAmendment { a, b, c }
            | Instruction::Addition { a, b, c }
            | Instruction::Multiplication { a, b, c }
            | Instruction::Division { a, b, c }
            | Instruction::NotAnd { a, b, c } => a < 8 && b < 8 && c < 8,
            Instruction::Allocation { b, c } | Instruction::LoadProgram { b, c } => b < 8 && c < 8,
            Instruction::Abandonment { c } | Instruction::Output { c } | Instruction::Input { c } => c < 8,
            Instruction::Orthography { a, value } => a < 8 && value < 0x0200_0000,
            Instruction::Halt | Instruction::Unused => true,
        }
    }
}

/// Decodes a word into the instruction it encodes.
pub fn decode(w: u32) -> (r: Instruction)
    ensures
        r == decode_spec(w),
        r.registers_in_range(),
{
    let op = get_operator(w);
    let a = get_a(w);
    let b = get_b(w);
    let c = get_c(w);
    match op {
        0 => Instruction::ConditionalMove { a, b, c },
        1 => Instruction::ArrayIndex { a, b, c },
        2 => Instruction::ArrayAmendment { a, b, c },
        3 => Instruction::Addition { a, b, c },
        4 => Instruction::Multiplication { a, b, c },
        5 => Instruction::Division { a, b, c },
        6 => Instruction::NotAnd { a, b, c },
        7 => Instruction::Halt,
        8 => Instruction::Allocation { b, c },
        9 => Instruction::Abandonment { c },
        10 => Instruction::Output { c },
        11 => Instruction::Input { c },
        12 => Instruction::LoadProgram { b, c },
        13 => Instruction::Orthography { a: get_sp_a(w), value: get_sp_value(w) },
        _ => Instruction::Unused,
    }
}

/// Every field of every word lies within its bit width.
pub proof fn lemma_fields_in_range(w: u32)
    ensures
        opcode_field(w) < 16,
        a_field(w) < 8,
        b_field(w) < 8,
        c_field(w) < 8,
        ortho_reg_field(w) < 8,
        ortho_value_field(w) < 0x0200_0000,
        decode_spec(w).registers_in_range(),
{
}

/// Decoding the word built from chosen standard fields gives those fields back.
pub proof fn lemma_standard_round_trip(op: nat, a: nat, b: nat, c: nat)
    requires
        op < 16,
        a < 8,
        b < 8,
        c < 8,
    ensures
        0 <= encode_standard(op, a, b, c) <= u32::MAX,
        opcode_field(encode_standard(op, a, b, c) as u32) == op,
        a_field(encode_standard(op, a, b, c) as u32) == a,
        b_field(encode_standard(op, a, b, c) as u32) == b,
        c_field(encode_standard(op, a, b, c) as u32) == c,
{
    let w = encode_standard(op, a, b, c) as int;
    let (op, a, b, c) = (op as int, a as int, b as int, c as int);
    lemma_fundamental_div_mod_converse(w, 0x1000_0000, op, a * 64 + b * 8 + c);
    lemma_fundamental_div_mod_converse(w, 64, op * 0x40_0000 + a, b * 8 + c);
    lemma_fundamental_div_mod_converse(op * 0x40_0000 + a, 8, op * 0x8_0000, a);
    lemma_fundamental_div_mod_converse(w, 8, op * 0x200_0000 + a * 8 + b, c);
    lemma_fundamental_div_mod_converse(op * 0x200_0000 + a * 8 + b, 8, op * 0x40_0000 + a, b);
}

/// Decoding the word built from a chosen destination and immediate gives them back.
pub proof fn lemma_orthography_round_trip(reg: nat, value: nat)
    requires
        reg < 8,
        value < 0x0200_0000,
    ensures
        0 <= encode_orthography(reg, value) <= u32::MAX,
        opcode_field(encode_orthography(reg, value) as u32) == 13,
        ortho_reg_field(encode_orthography(reg, value) as u32) == reg,
        ortho_value_field(encode_orthography(reg, value) as u32) == value,
{
    let w = encode_orthography(reg, value) as int;
    let (reg, value) = (reg as int, value as int);
    lemma_fundamental_div_mod_converse(w, 0x1000_0000, 13, reg * 0x0200_0000 + value);
    lemma_fundamental_div_mod_converse(w, 0x0200_0000, 13 * 8 + reg, value);
    lemma_fundamental_div_mod_converse(13 * 8 + reg, 8, 13, reg);
}

} // verus!
