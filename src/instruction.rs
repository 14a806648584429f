//! The instruction set: opcodes with their codes, mnemonics and operand
//! layouts, the register symbols, and the encoding of one instruction word.
use crate::error::AsmError;
use crate::text;
use vstd::prelude::*;

verus! {

/// The reserved code of the `copystatic` header that starts every image.
pub const COPY_STATIC_HEADER: u8 = 1;

/// The bits of an opcode byte that hold the family.
pub const OPCODE_TYPE_MASK: u8 = 0x38;

/// The bits of an opcode byte that hold the subtype within the family.
pub const OPCODE_SUBTYPE_MASK: u8 = 0x07;

/// An instruction. Its byte is `MMTTTSSS`: `MM` marks which of the operand
/// bytes 1 and 2 are immediates, `TTT` is the family and `SSS` the subtype.
#[derive(Debug, Clone, Copy, PartialEq, Eq, Structural)]
pub enum Opcode {
    Add,
    Sub,
    And,
    Or,
    Not,
    Xor,
    /// Low four bits of the product.
    MulLow,
    /// The product shifted right by four.
    MulHigh,
    JpEq,
    JpGe,
    JpGt,
    JpLe,
    JpLt,
    JpNe,
    Jp,
    /// Load from RAM.
    Load,
    /// Store into RAM.
    Store,
    Push,
    Pop,
    Call,
    /// Return from a function.
    Return,
    FPush,
    FPop,
    Shl,
    Shr,
    /// Wrapping shift left.
    WShl,
    /// Wrapping shift right.
    WShr,
    Div,
    Mod,
    /// Add with carry in and carry out.
    CAdd,
    /// Add with the carry untouched.
    Anc,
    /// Subtract with the carry untouched.
    Snc,
    /// Move the carry into a register.
    Mvc,
    Halt,
    /// Copy an operand into a register.
    Copy,
    /// Load the jump-address register.
    JumpAddrMove,
    Nop,
}

/// The 6-bit code of an opcode: family in bits 5..3, subtype in bits 2..0.
pub open spec fn opcode_code(op: Opcode) -> u8 {
    match op {
        Opcode::Add => 0x08,
        Opcode::Sub => 0x09,
        Opcode::And => 0x0a,
        Opcode::Or => 0x0b,
        Opcode::Not => 0x0c,
        Opcode::Xor => 0x0d,
        Opcode::MulLow => 0x0e,
        Opcode::MulHigh => 0x0f,
        Opcode::JpEq => 0x21,
        Opcode::JpGe => 0x26,
        Opcode::JpGt => 0x27,
        Opcode::JpLe => 0x23,
        Opcode::JpLt => 0x22,
        Opcode::JpNe => 0x25,
        Opcode::Jp => 0x24,
        Opcode::Load => 0x28,
        Opcode::Store => 0x29,
        Opcode::Push => 0x30,
        Opcode::Pop => 0x31,
        Opcode::Call => 0x38,
        Opcode::Return => 0x39,
        Opcode::FPush => 0x3a,
        Opcode::FPop => 0x3b,
        Opcode::Shl => 0x10,
        Opcode::Shr => 0x11,
        Opcode::WShl => 0x12,
        Opcode::WShr => 0x13,
        Opcode::Div => 0x18,
        Opcode::Mod => 0x19,
        Opcode::CAdd => 0x1a,
        Opcode::Anc => 0x1b,
        Opcode::Snc => 0x1c,
        Opcode::Mvc => 0x1d,
        Opcode::Halt => 0x02,
        Opcode::Copy => 0x03,
        Opcode::JumpAddrMove => 0x04,
        Opcode::Nop => 0x05,
    }
}

/// The opcode that a 6-bit code names, if any.
pub open spec fn opcode_from_code(c: u8) -> Option<Opcode> {
    if c == 0x08 {
        Some(Opcode::Add)
    } else if c == 0x09 {
        Some(Opcode::Sub)
    } else if c == 0x0a {
        Some(Opcode::And)
    } else if c == 0x0b {
        Some(Opcode::Or)
    } else if c == 0x0c {
        Some(Opcode::Not)
    } else if c == 0x0d {
        Some(Opcode::Xor)
    } else if c == 0x0e {
        Some(Opcode::MulLow)
    } else if c == 0x0f {
        Some(Opcode::MulHigh)
    } else if c == 0x21 {
        Some(Opcode::JpEq)
    } else if c == 0x26 {
        Some(Opcode::JpGe)
    } else if c == 0x27 {
        Some(Opcode::JpGt)
    } else if c == 0x23 {
        Some(Opcode::JpLe)
    } else if c == 0x22 {
        Some(Opcode::JpLt)
    } else if c == 0x25 {
        Some(Opcode::JpNe)
    } else if c == 0x24 {
        Some(Opcode::Jp)
    } else if c == 0x28 {
        Some(Opcode::Load)
    } else if c == 0x29 {
        Some(Opcode::Store)
    } else if c == 0x30 {
        Some(Opcode::Push)
    } else if c == 0x31 {
        Some(Opcode::Pop)
    } else if c == 0x38 {
        Some(Opcode::Call)
    } else if c == 0x39 {
        Some(Opcode::Return)
    } else if c == 0x3a {
        Some(Opcode::FPush)
    } else if c == 0x3b {
        Some(Opcode::FPop)
    } else if c == 0x10 {
        Some(Opcode::Shl)
    } else if c == 0x11 {
        Some(Opcode::Shr)
    } else if c == 0x12 {
        Some(Opcode::WShl)
    } else if c == 0x13 {
        Some(Opcode::WShr)
    } else if c == 0x18 {
        Some(Opcode::Div)
    } else if c == 0x19 {
        Some(Opcode::Mod)
    } else if c == 0x1a {
        Some(Opcode::CAdd)
    } else if c == 0x1b {
        Some(Opcode::Anc)
    } else if c == 0x1c {
        Some(Opcode::Snc)
    } else if c == 0x1d {
        Some(Opcode::Mvc)
    } else if c == 0x02 {
        Some(Opcode::Halt)
    } else if c == 0x03 {
        Some(Opcode::Copy)
    } else if c == 0x04 {
        Some(Opcode::JumpAddrMove)
    } else if c == 0x05 {
        Some(Opcode::Nop)
    } else {
        None
    }
}

/// The lower-case mnemonic of an opcode.
pub open spec fn mnemonic(op: Opcode) -> Seq<char> {
    match op {
        Opcode::Add => seq!['a', 'd', 'd'],
        Opcode::Sub => seq!['s', 'u', 'b'],
        Opcode::And => seq!['a', 'n', 'd'],
        Opcode::Or => seq!['o', 'r'],
        Opcode::Not => seq!['n', 'o', 't'],
        Opcode::Xor => seq!['x', 'o', 'r'],
        Opcode::MulLow => seq!['m', 'u', 'l', 'l'],
        Opcode::MulHigh => seq!['m', 'u', 'l', 'h'],
        Opcode::JpEq => seq!['j', 'p', 'e', 'q'],
        Opcode::JpGe => seq!['j', 'p', 'g', 'e'],
        Opcode::JpGt => seq!['j', 'p', 'g', 't'],
        Opcode::JpLe => seq!['j', 'p', 'l', 'e'],
        Opcode::JpLt => seq!['j', 'p', 'l', 't'],
        Opcode::JpNe => seq!['j', 'p', 'n', 'e'],
        Opcode::Jp => seq!['j', 'p'],
        Opcode::Load => seq!['l', 'd'],
        Opcode::Store => seq!['s', 't'],
        Opcode::Push => seq!['p', 'u', 's', 'h'],
        Opcode::Pop => seq!['p', 'o', 'p'],
        Opcode::Call => seq!['c', 'a', 'l', 'l'],
        Opcode::Return => seq!['r', 'e', 't'],
        Opcode::FPush => seq!['f', 'p', 'u', 's', 'h'],
        Opcode::FPop => seq!['f', 'p', 'o', 'p'],
        Opcode::Shl => seq!['s', 'h', 'l'],
        Opcode::Shr => seq!['s', 'h', 'r'],
        Opcode::WShl => seq!['w', 's', 'h', 'l'],
        Opcode::WShr => seq!['w', 's', 'h', 'r'],
        Opcode::Div => seq!['d', 'i', 'v'],
        Opcode::Mod => seq!['m', 'o', 'd'],
        Opcode::CAdd => seq!['c', 'a', 'd', 'd'],
        Opcode::Anc => seq!['a', 'n', 'c'],
        Opcode::Snc => seq!['s', 'n', 'c'],
        Opcode::Mvc => seq!['m', 'v', 'c'],
        Opcode::Halt => seq!['h', 'a', 'l', 't'],
        Opcode::Copy => seq!['c', 'p'],
        Opcode::JumpAddrMove => seq!['j', 'a', 'm', 'v'],
        Opcode::Nop => seq!['n', 'o', 'p'],
    }
}

/// How many operands an opcode takes.
pub open spec fn arity(op: Opcode) -> nat {
    match op {
        Opcode::Add => 3,
        Opcode::Sub => 3,
        Opcode::And => 3,
        Opcode::Or => 3,
        Opcode::Not => 3,
        Opcode::Xor => 3,
        Opcode::MulLow => 3,
        Opcode::MulHigh => 3,
        Opcode::JpEq => 2,
        Opcode::JpGe => 2,
        Opcode::JpGt => 2,
        Opcode::JpLe => 2,
        Opcode::JpLt => 2,
        Opcode::JpNe => 2,
        Opcode::Jp => 0,
        Opcode::Load => 2,
        Opcode::Store => 2,
        Opcode::Push => 1,
        Opcode::Pop => 1,
        Opcode::Call => 2,
        Opcode::Return => 0,
        Opcode::FPush => 1,
        Opcode::FPop => 1,
        Opcode::Shl => 3,
        Opcode::Shr => 3,
        Opcode::WShl => 3,
        Opcode::WShr => 3,
        Opcode::Div => 3,
        Opcode::Mod => 3,
        Opcode::CAdd => 3,
        Opcode::Anc => 3,
        Opcode::Snc => 3,
        Opcode::Mvc => 1,
        Opcode::Halt => 0,
        Opcode::Copy => 2,
        Opcode::JumpAddrMove => 2,
        Opcode::Nop => 0,
    }
}

/// For each of the instruction bytes 1, 2 and 3, the operand (counted from
/// 1) that fills it, or 0 where the byte stays 0.
pub open spec fn slot_source(op: Opcode, slot: int) -> nat {
    let l: (nat, nat, nat) = match op {
        Opcode::Add => (1, 2, 3),
        Opcode::Sub => (1, 2, 3),
        Opcode::And => (1, 2, 3),
        Opcode::Or => (1, 2, 3),
        Opcode::Not => (1, 2, 3),
        Opcode::Xor => (1, 2, 3),
        Opcode::MulLow => (1, 2, 3),
        Opcode::MulHigh => (1, 2, 3),
        Opcode::JpEq => (1, 2, 0),
        Opcode::JpGe => (1, 2, 0),
        Opcode::JpGt => (1, 2, 0),
        Opcode::JpLe => (1, 2, 0),
        Opcode::JpLt => (1, 2, 0),
        Opcode::JpNe => (1, 2, 0),
        Opcode::Jp => (0, 0, 0),
        Opcode::Load => (1, 2, 0),
        Opcode::Store => (1, 2, 0),
        Opcode::Push => (1, 0, 0),
        Opcode::Pop => (1, 0, 0),
        Opcode::Call => (0, 1, 2),
        Opcode::Return => (0, 0, 0),
        Opcode::FPush => (1, 0, 0),
        Opcode::FPop => (1, 0, 0),
        Opcode::Shl => (1, 2, 3),
        Opcode::Shr => (1, 2, 3),
        Opcode::WShl => (1, 2, 3),
        Opcode::WShr => (1, 2, 3),
        Opcode::Div => (1, 2, 3),
        Opcode::Mod => (1, 2, 3),
        Opcode::CAdd => (1, 2, 3),
        Opcode::Anc => (1, 2, 3),
        Opcode::Snc => (1, 2, 3),
        Opcode::Mvc => (0, 0, 1),
        Opcode::Halt => (0, 0, 0),
        Opcode::Copy => (1, 0, 2),
        Opcode::JumpAddrMove => (0, 1, 2),
        Opcode::Nop => (0, 0, 0),
    };
    if slot == 1 {
        l.0
    } else if slot == 2 {
        l.1
    } else if slot == 3 {
        l.2
    } else {
        0
    }
}


/// A register name as it appears in operand bytes.
#[derive(Debug, Clone, Copy, PartialEq, Eq, Structural)]
pub enum OperandSymbol {
    R0,
    R1,
    R2,
    R3,
    R4,
    R5,
    R6,
    R7,
    R8,
    R9,
    R10,
    R11,
    /// Input when read, output when written.
    InOut,
    /// Always one.
    Aor,
    /// Always zero.
    Azr,
    /// Function stack start.
    Fss,
}

pub open spec fn symbol_index(s: OperandSymbol) -> u8 {
    match s {
        OperandSymbol::R0 => 0,
        OperandSymbol::R1 => 1,
        OperandSymbol::R2 => 2,
        OperandSymbol::R3 => 3,
        OperandSymbol::R4 => 4,
        OperandSymbol::R5 => 5,
        OperandSymbol::R6 => 6,
        OperandSymbol::R7 => 7,
        OperandSymbol::R8 => 8,
        OperandSymbol::R9 => 9,
        OperandSymbol::R10 => 10,
        OperandSymbol::R11 => 11,
        OperandSymbol::InOut => 12,
        OperandSymbol::Aor => 13,
        OperandSymbol::Azr => 14,
        OperandSymbol::Fss => 15,
    }
}

pub open spec fn symbol_from_index(i: u8) -> Option<OperandSymbol> {
    if i == 0 {
        Some(OperandSymbol::R0)
    } else if i == 1 {
        Some(OperandSymbol::R1)
    } else if i == 2 {
        Some(OperandSymbol::R2)
    } else if i == 3 {
        Some(OperandSymbol::R3)
    } else if i == 4 {
        Some(OperandSymbol::R4)
    } else if i == 5 {
        Some(OperandSymbol::R5)
    } else if i == 6 {
        Some(OperandSymbol::R6)
    } else if i == 7 {
        Some(OperandSymbol::R7)
    } else if i == 8 {
        Some(OperandSymbol::R8)
    } else if i == 9 {
        Some(OperandSymbol::R9)
    } else if i == 10 {
        Some(OperandSymbol::R10)
    } else if i == 11 {
        Some(OperandSymbol::R11)
    } else if i == 12 {
        Some(OperandSymbol::InOut)
    } else if i == 13 {
        Some(OperandSymbol::Aor)
    } else if i == 14 {
        Some(OperandSymbol::Azr)
    } else if i == 15 {
        Some(OperandSymbol::Fss)
    } else {
        None
    }
}

/// Whether `s` names the register, ignoring ASCII case; `in` and `out`
/// both name the I/O register.
pub open spec fn names_symbol(sym: OperandSymbol, s: Seq<char>) -> bool {
    let l = text::lower(s);
    match sym {
        OperandSymbol::R0 => l == seq!['r', '0'],
        OperandSymbol::R1 => l == seq!['r', '1'],
        OperandSymbol::R2 => l == seq!['r', '2'],
        OperandSymbol::R3 => l == seq!['r', '3'],
        OperandSymbol::R4 => l == seq!['r', '4'],
        OperandSymbol::R5 => l == seq!['r', '5'],
        OperandSymbol::R6 => l == seq!['r', '6'],
        OperandSymbol::R7 => l == seq!['r', '7'],
        OperandSymbol::R8 => l == seq!['r', '8'],
        OperandSymbol::R9 => l == seq!['r', '9'],
        OperandSymbol::R10 => l == seq!['r', '1', '0'],
        OperandSymbol::R11 => l == seq!['r', '1', '1'],
        OperandSymbol::InOut => l == seq!['i', 'n'] || l == seq!['o', 'u', 't'],
        OperandSymbol::Aor => l == seq!['a', 'o', 'r'],
        OperandSymbol::Azr => l == seq!['a', 'z', 'r'],
        OperandSymbol::Fss => l == seq!['f', 's', 's'],
    }
}

/// The first register, by index, that `s` names.
pub open spec fn find_symbol_from(s: Seq<char>, i: int) -> Option<OperandSymbol>
    decreases 16 - i,
{
    if i < 0 || i >= 16 {
        None
    } else {
        match symbol_from_index(i as u8) {
            Some(sym) => if names_symbol(sym, s) {
                Some(sym)
            } else {
                find_symbol_from(s, i + 1)
            },
            None => None,
        }
    }
}

/// The register that a name denotes, if any.
pub open spec fn parse_symbol(s: Seq<char>) -> Option<OperandSymbol> {
    find_symbol_from(s, 0)
}

/// The first opcode, by code, whose mnemonic is `s` up to ASCII case.
pub open spec fn find_opcode_from(s: Seq<char>, c: int) -> Option<Opcode>
    decreases 64 - c,
{
    if c < 0 || c >= 64 {
        None
    } else {
        match opcode_from_code(c as u8) {
            Some(op) => if mnemonic(op) == text::lower(s) {
                Some(op)
            } else {
                find_opcode_from(s, c + 1)
            },
            None => find_opcode_from(s, c + 1),
        }
    }
}

/// The opcode that a mnemonic denotes, ignoring ASCII case.
pub open spec fn parse_opcode(s: Seq<char>) -> Option<Opcode> {
    find_opcode_from(s, 0)
}

/// An operand as written in an instruction: a literal byte or a register.
#[derive(Debug, Clone, Copy, PartialEq, Eq, Structural)]
pub enum Operand {
    Immediate(u8),
    Symbol(OperandSymbol),
}

/// The byte that stands for an operand in an instruction word.
pub open spec fn operand_byte(o: Operand) -> u8 {
    match o {
        Operand::Immediate(x) => x,
        Operand::Symbol(s) => symbol_index(s),
    }
}

/// An operand token: a byte literal, else a register name.
pub open spec fn parse_operand(s: Seq<char>) -> Option<Operand> {
    match text::u8_literal(s) {
        Some(x) => Some(Operand::Immediate(x)),
        None => match parse_symbol(s) {
            Some(sym) => Some(Operand::Symbol(sym)),
            None => None,
        },
    }
}

/// The operand that fills instruction byte `slot`, if one does.
pub open spec fn slot_operand(op: Opcode, ops: Seq<Operand>, slot: int) -> Option<Operand> {
    let j = slot_source(op, slot);
    if j == 0 {
        None
    } else {
        Some(ops[j - 1])
    }
}

pub open spec fn slot_value(op: Opcode, ops: Seq<Operand>, slot: int) -> u8 {
    match slot_operand(op, ops, slot) {
        Some(o) => operand_byte(o),
        None => 0,
    }
}

pub open spec fn slot_immediate(op: Opcode, ops: Seq<Operand>, slot: int) -> bool {
    match slot_operand(op, ops, slot) {
        Some(o) => o is Immediate,
        None => false,
    }
}

/// The opcode byte: the code with bit 7 set for an immediate in byte 1 and
/// bit 6 set for an immediate in byte 2.
pub open spec fn opcode_byte(op: Opcode, imm1: bool, imm2: bool) -> u8 {
    (opcode_code(op) + (if imm1 {
        128int
    } else {
        0int
    }) + (if imm2 {
        64int
    } else {
        0int
    })) as u8
}

/// The instruction word for an opcode and its operands.
pub open spec fn encode(op: Opcode, ops: Seq<Operand>) -> Seq<u8> {
    seq![
        opcode_byte(op, slot_immediate(op, ops, 1), slot_immediate(op, ops, 2)),
        slot_value(op, ops, 1),
        slot_value(op, ops, 2),
        slot_value(op, ops, 3),
    ]
}

/// The instruction byte that operand `j` (counted from 1) fills.
pub open spec fn operand_slot(op: Opcode, j: int) -> int {
    match op {
        Opcode::Call | Opcode::JumpAddrMove => j + 1,
        Opcode::Copy => if j == 2 {
            3
        } else {
            j
        },
        Opcode::Mvc => 3,
        _ => j,
    }
}

/// Whether byte 3 carries an immediate (the high byte of an address) rather
/// than a destination register.
pub open spec fn slot3_immediate(op: Opcode) -> bool {
    op is Call || op is JumpAddrMove
}

pub open spec fn register_operand(b: u8) -> Option<Operand> {
    match symbol_from_index(b) {
        Some(s) => Some(Operand::Symbol(s)),
        None => None,
    }
}

/// Reads back the operand in instruction byte `slot`.
pub open spec fn decode_slot(op: Opcode, w: Seq<u8>, slot: int) -> Option<Operand> {
    if slot == 1 {
        if w[0] >= 128 {
            Some(Operand::Immediate(w[1]))
        } else {
            register_operand(w[1])
        }
    } else if slot == 2 {
        if (w[0] / 64) % 2 == 1 {
            Some(Operand::Immediate(w[2]))
        } else {
            register_operand(w[2])
        }
    } else if slot3_immediate(op) {
        Some(Operand::Immediate(w[3]))
    } else {
        register_operand(w[3])
    }
}

/// Reads back an instruction word: its opcode and its operands in order.
pub open spec fn decode(w: Seq<u8>) -> Option<(Opcode, Seq<Operand>)> {
    match opcode_from_code((w[0] % 64) as u8) {
        None => None,
        Some(op) => {
            let ops = Seq::new(arity(op), |j: int| decode_slot(op, w, operand_slot(op, j + 1)));
            if forall|j: int| 0 <= j < arity(op) ==> (#[trigger] ops[j]) is Some {
                Some((op, ops.map_values(|o: Option<Operand>| o->0)))
            } else {
                None
            }
        },
    }
}

/// Operands that an opcode's layout can carry: as many as it takes, and a
/// register where byte 3 holds a destination, an immediate where it holds
/// an address byte.
pub open spec fn fits_layout(op: Opcode, ops: Seq<Operand>) -> bool {
    &&& ops.len() == arity(op)
    &&& forall|j: int|
        0 <= j < ops.len() && operand_slot(op, j + 1) == 3 ==> (if slot3_immediate(op) {
            ops[j] is Immediate
        } else {
            (#[trigger] ops[j]) is Symbol
        })
}

impl Opcode {
    /// The 6-bit code of this opcode.
    pub fn code(&self) -> (r: u8)
        ensures
            r == opcode_code(*self),
    {
        match self {
            Opcode::Add => 0x08,
            Opcode::Sub => 0x09,
            Opcode::And => 0x0a,
            Opcode::Or => 0x0b,
            Opcode::Not => 0x0c,
            Opcode::Xor => 0x0d,
            Opcode::MulLow => 0x0e,
            Opcode::MulHigh => 0x0f,
            Opcode::JpEq => 0x21,
            Opcode::JpGe => 0x26,
            Opcode::JpGt => 0x27,
            Opcode::JpLe => 0x23,
            Opcode::JpLt => 0x22,
            Opcode::JpNe => 0x25,
            Opcode::Jp => 0x24,
            Opcode::Load => 0x28,
            Opcode::Store => 0x29,
            Opcode::Push => 0x30,
            Opcode::Pop => 0x31,
            Opcode::Call => 0x38,
            Opcode::Return => 0x39,
            Opcode::FPush => 0x3a,
            Opcode::FPop => 0x3b,
            Opcode::Shl => 0x10,
            Opcode::Shr => 0x11,
            Opcode::WShl => 0x12,
            Opcode::WShr => 0x13,
            Opcode::Div => 0x18,
            Opcode::Mod => 0x19,
            Opcode::CAdd => 0x1a,
            Opcode::Anc => 0x1b,
            Opcode::Snc => 0x1c,
            Opcode::Mvc => 0x1d,
            Opcode::Halt => 0x02,
            Opcode::Copy => 0x03,
            Opcode::JumpAddrMove => 0x04,
            Opcode::Nop => 0x05,
        }
    }

    /// The opcode that a 6-bit code names, if any.
    pub fn from_code(c: u8) -> (r: Option<Opcode>)
        ensures
            r == opcode_from_code(c),
    {
        if c == 0x08 {
            Some(Opcode::Add)
        } else if c == 0x09 {
            Some(Opcode::Sub)
        } else if c == 0x0a {
            Some(Opcode::And)
        } else if c == 0x0b {
            Some(Opcode::Or)
        } else if c == 0x0c {
            Some(Opcode::Not)
        } else if c == 0x0d {
            Some(Opcode::Xor)
        } else if c == 0x0e {
            Some(Opcode::MulLow)
        } else if c == 0x0f {
            Some(Opcode::MulHigh)
        } else if c == 0x21 {
            Some(Opcode::JpEq)
        } else if c == 0x26 {
            Some(Opcode::JpGe)
        } else if c == 0x27 {
            Some(Opcode::JpGt)
        } else if c == 0x23 {
            Some(Opcode::JpLe)
        } else if c == 0x22 {
            Some(Opcode::JpLt)
        } else if c == 0x25 {
            Some(Opcode::JpNe)
        } else if c == 0x24 {
            Some(Opcode::Jp)
        } else if c == 0x28 {
            Some(Opcode::Load)
        } else if c == 0x29 {
            Some(Opcode::Store)
        } else if c == 0x30 {
            Some(Opcode::Push)
        } else if c == 0x31 {
            Some(Opcode::Pop)
        } else if c == 0x38 {
            Some(Opcode::Call)
        } else if c == 0x39 {
            Some(Opcode::Return)
        } else if c == 0x3a {
            Some(Opcode::FPush)
        } else if c == 0x3b {
            Some(Opcode::FPop)
        } else if c == 0x10 {
            Some(Opcode::Shl)
        } else if c == 0x11 {
            Some(Opcode::Shr)
        } else if c == 0x12 {
            Some(Opcode::WShl)
        } else if c == 0x13 {
            Some(Opcode::WShr)
        } else if c == 0x18 {
            Some(Opcode::Div)
        } else if c == 0x19 {
            Some(Opcode::Mod)
        } else if c == 0x1a {
            Some(Opcode::CAdd)
        } else if c == 0x1b {
            Some(Opcode::Anc)
        } else if c == 0x1c {
            Some(Opcode::Snc)
        } else if c == 0x1d {
            Some(Opcode::Mvc)
        } else if c == 0x02 {
            Some(Opcode::Halt)
        } else if c == 0x03 {
            Some(Opcode::Copy)
        } else if c == 0x04 {
            Some(Opcode::JumpAddrMove)
        } else if c == 0x05 {
            Some(Opcode::Nop)
        } else {
            None
        }
    }

    fn mnemonic_chars(&self) -> (r: Vec<char>)
        ensures
            r@ == mnemonic(*self),
    {
        match self {
            Opcode::Add => vec!['a', 'd', 'd'],
            Opcode::Sub => vec!['s', 'u', 'b'],
            Opcode::And => vec!['a', 'n', 'd'],
            Opcode::Or => vec!['o', 'r'],
            Opcode::Not => vec!['n', 'o', 't'],
            Opcode::Xor => vec!['x', 'o', 'r'],
            Opcode::MulLow => vec!['m', 'u', 'l', 'l'],
            Opcode::MulHigh => vec!['m', 'u', 'l', 'h'],
            Opcode::JpEq => vec!['j', 'p', 'e', 'q'],
            Opcode::JpGe => vec!['j', 'p', 'g', 'e'],
            Opcode::JpGt => vec!['j', 'p', 'g', 't'],
            Opcode::JpLe => vec!['j', 'p', 'l', 'e'],
            Opcode::JpLt => vec!['j', 'p', 'l', 't'],
            Opcode::JpNe => vec!['j', 'p', 'n', 'e'],
            Opcode::Jp => vec!['j', 'p'],
            Opcode::Load => vec!['l', 'd'],
            Opcode::Store => vec!['s', 't'],
            Opcode::Push => vec!['p', 'u', 's', 'h'],
            Opcode::Pop => vec!['p', 'o', 'p'],
            Opcode::Call => vec!['c', 'a', 'l', 'l'],
            Opcode::Return => vec!['r', 'e', 't'],
            Opcode::FPush => vec!['f', 'p', 'u', 's', 'h'],
            Opcode::FPop => vec!['f', 'p', 'o', 'p'],
            Opcode::Shl => vec!['s', 'h', 'l'],
            Opcode::Shr => vec!['s', 'h', 'r'],
            Opcode::WShl => vec!['w', 's', 'h', 'l'],
            Opcode::WShr => vec!['w', 's', 'h', 'r'],
            Opcode::Div => vec!['d', 'i', 'v'],
            Opcode::Mod => vec!['m', 'o', 'd'],
            Opcode::CAdd => vec!['c', 'a', 'd', 'd'],
            Opcode::Anc => vec!['a', 'n', 'c'],
            Opcode::Snc => vec!['s', 'n', 'c'],
            Opcode::Mvc => vec!['m', 'v', 'c'],
            Opcode::Halt => vec!['h', 'a', 'l', 't'],
            Opcode::Copy => vec!['c', 'p'],
            Opcode::JumpAddrMove => vec!['j', 'a', 'm', 'v'],
            Opcode::Nop => vec!['n', 'o', 'p'],
        }
    }

    /// The operand count, and for instruction bytes 1, 2 and 3 the operand
    /// (counted from 1) that fills each, 0 where the byte stays 0.
    fn binary_asm_indices_mapping(&self) -> (r: (usize, [usize; 3]))
        ensures
            r.0 == arity(*self),
            r.1@ == seq![slot_source(*self, 1) as usize, slot_source(*self, 2) as usize, slot_source(*self, 3) as usize],
    {
        match self {
            Opcode::Add => (3, [1, 2, 3]),
            Opcode::Sub => (3, [1, 2, 3]),
            Opcode::And => (3, [1, 2, 3]),
            Opcode::Or => (3, [1, 2, 3]),
            Opcode::Not => (3, [1, 2, 3]),
            Opcode::Xor => (3, [1, 2, 3]),
            Opcode::MulLow => (3, [1, 2, 3]),
            Opcode::MulHigh => (3, [1, 2, 3]),
            Opcode::JpEq => (2, [1, 2, 0]),
            Opcode::JpGe => (2, [1, 2, 0]),
            Opcode::JpGt => (2, [1, 2, 0]),
            Opcode::JpLe => (2, [1, 2, 0]),
            Opcode::JpLt => (2, [1, 2, 0]),
            Opcode::JpNe => (2, [1, 2, 0]),
            Opcode::Jp => (0, [0, 0, 0]),
            Opcode::Load => (2, [1, 2, 0]),
            Opcode::Store => (2, [1, 2, 0]),
            Opcode::Push => (1, [1, 0, 0]),
            Opcode::Pop => (1, [1, 0, 0]),
            Opcode::Call => (2, [0, 1, 2]),
            Opcode::Return => (0, [0, 0, 0]),
            Opcode::FPush => (1, [1, 0, 0]),
            Opcode::FPop => (1, [1, 0, 0]),
            Opcode::Shl => (3, [1, 2, 3]),
            Opcode::Shr => (3, [1, 2, 3]),
            Opcode::WShl => (3, [1, 2, 3]),
            Opcode::WShr => (3, [1, 2, 3]),
            Opcode::Div => (3, [1, 2, 3]),
            Opcode::Mod => (3, [1, 2, 3]),
            Opcode::CAdd => (3, [1, 2, 3]),
            Opcode::Anc => (3, [1, 2, 3]),
            Opcode::Snc => (3, [1, 2, 3]),
            Opcode::Mvc => (1, [0, 0, 1]),
            Opcode::Halt => (0, [0, 0, 0]),
            Opcode::Copy => (2, [1, 0, 2]),
            Opcode::JumpAddrMove => (2, [0, 1, 2]),
            Opcode::Nop => (0, [0, 0, 0]),
        }
    }

    /// The opcode whose mnemonic is `s`, ignoring ASCII case.
    pub fn from_mnemonic(s: &[char]) -> (r: Option<Opcode>)
        ensures
            r == parse_opcode(s@),
    {
        let mut c: u8 = 64;
        let mut found: Option<Opcode> = None;
        while c > 0
            invariant
                c <= 64,
                found == find_opcode_from(s@, c as int),
            decreases c,
        {
            c = c - 1;
            match Opcode::from_code(c) {
                Some(op) => {
                    let m = op.mnemonic_chars();
                    if text::eq_lower(s, m.as_slice()) {
                        found = Some(op);
                    }
                },
                None => {},
            }
        }
        found
    }

    /// Encodes this opcode with its operands into an instruction word; bytes
    /// that no operand fills are 0.
    pub fn binary(&self, operands: &[Operand]) -> (r: Result<[u8; 4], AsmError>)
        ensures
            r is Ok <==> operands@.len() >= arity(*self),
            r is Ok ==> r->Ok_0@ == encode(*self, operands@),
            r is Err ==> r == Err::<[u8; 4], AsmError>(AsmError::MissingOperand),
    {
        let mapping = self.binary_asm_indices_mapping();
        if operands.len() < mapping.0 {
            return Err(AsmError::MissingOperand);
        }
        let mut inst: [u8; 4] = [0, 0, 0, 0];
        let mut imm1 = false;
        let mut imm2 = false;
        let src1 = mapping.1[0];
        let src2 = mapping.1[1];
        let src3 = mapping.1[2];
        if src1 != 0 {
            inst[1] = operands[src1 - 1].to_u8();
            imm1 = operands[src1 - 1].is_immediate();
        }
        if src2 != 0 {
            inst[2] = operands[src2 - 1].to_u8();
            imm2 = operands[src2 - 1].is_immediate();
        }
        if src3 != 0 {
            inst[3] = operands[src3 - 1].to_u8();
        }
        let code = self.code();
        assert(code < 64);
        let m1: u8 = if imm1 {
            128
        } else {
            0
        };
        let m2: u8 = if imm2 {
            64
        } else {
            0
        };
        inst[0] = code + m1 + m2;
        assert(inst@ =~= encode(*self, operands@));
        Ok(inst)
    }
}

impl OperandSymbol {
    /// The 4-bit index of this register.
    pub fn index(&self) -> (r: u8)
        ensures
            r == symbol_index(*self),
    {
        match self {
            OperandSymbol::R0 => 0,
            OperandSymbol::R1 => 1,
            OperandSymbol::R2 => 2,
            OperandSymbol::R3 => 3,
            OperandSymbol::R4 => 4,
            OperandSymbol::R5 => 5,
            OperandSymbol::R6 => 6,
            OperandSymbol::R7 => 7,
            OperandSymbol::R8 => 8,
            OperandSymbol::R9 => 9,
            OperandSymbol::R10 => 10,
            OperandSymbol::R11 => 11,
            OperandSymbol::InOut => 12,
            OperandSymbol::Aor => 13,
            OperandSymbol::Azr => 14,
            OperandSymbol::Fss => 15,
        }
    }

    /// The register with a 4-bit index, if the index is below 16.
    pub fn from_index(i: u8) -> (r: Option<OperandSymbol>)
        ensures
            r == symbol_from_index(i),
    {
        if i == 0 {
            Some(OperandSymbol::R0)
        } else if i == 1 {
            Some(OperandSymbol::R1)
        } else if i == 2 {
            Some(OperandSymbol::R2)
        } else if i == 3 {
            Some(OperandSymbol::R3)
        } else if i == 4 {
            Some(OperandSymbol::R4)
        } else if i == 5 {
            Some(OperandSymbol::R5)
        } else if i == 6 {
            Some(OperandSymbol::R6)
        } else if i == 7 {
            Some(OperandSymbol::R7)
        } else if i == 8 {
            Some(OperandSymbol::R8)
        } else if i == 9 {
            Some(OperandSymbol::R9)
        } else if i == 10 {
            Some(OperandSymbol::R10)
        } else if i == 11 {
            Some(OperandSymbol::R11)
        } else if i == 12 {
            Some(OperandSymbol::InOut)
        } else if i == 13 {
            Some(OperandSymbol::Aor)
        } else if i == 14 {
            Some(OperandSymbol::Azr)
        } else if i == 15 {
            Some(OperandSymbol::Fss)
        } else {
            None
        }
    }

    fn names(&self, s: &[char]) -> (r: bool)
        ensures
            r == names_symbol(*self, s@),
    {
        match self {
            OperandSymbol::R0 => text::eq_lower(s, &['r', '0']),
            OperandSymbol::R1 => text::eq_lower(s, &['r', '1']),
            OperandSymbol::R2 => text::eq_lower(s, &['r', '2']),
            OperandSymbol::R3 => text::eq_lower(s, &['r', '3']),
            OperandSymbol::R4 => text::eq_lower(s, &['r', '4']),
            OperandSymbol::R5 => text::eq_lower(s, &['r', '5']),
            OperandSymbol::R6 => text::eq_lower(s, &['r', '6']),
            OperandSymbol::R7 => text::eq_lower(s, &['r', '7']),
            OperandSymbol::R8 => text::eq_lower(s, &['r', '8']),
            OperandSymbol::R9 => text::eq_lower(s, &['r', '9']),
            OperandSymbol::R10 => text::eq_lower(s, &['r', '1', '0']),
            OperandSymbol::R11 => text::eq_lower(s, &['r', '1', '1']),
            OperandSymbol::InOut => text::eq_lower(s, &['i', 'n']) || text::eq_lower(
                s,
                &['o', 'u', 't'],
            ),
            OperandSymbol::Aor => text::eq_lower(s, &['a', 'o', 'r']),
            OperandSymbol::Azr => text::eq_lower(s, &['a', 'z', 'r']),
            OperandSymbol::Fss => text::eq_lower(s, &['f', 's', 's']),
        }
    }

    /// The register that `s` names, ignoring ASCII case.
    pub fn from_name(s: &[char]) -> (r: Option<OperandSymbol>)
        ensures
            r == parse_symbol(s@),
    {
        let mut i: u8 = 16;
        let mut found: Option<OperandSymbol> = None;
        while i > 0
            invariant
                i <= 16,
                found == find_symbol_from(s@, i as int),
            decreases i,
        {
            i = i - 1;
            match OperandSymbol::from_index(i) {
                Some(sym) => {
                    if sym.names(s) {
                        found = Some(sym);
                    }
                },
                None => {},
            }
        }
        found
    }
}

impl Operand {
    /// The byte that stands for this operand in an instruction word.
    pub fn to_u8(self) -> (r: u8)
        ensures
            r == operand_byte(self),
    {
        match self {
            Operand::Immediate(x) => x,
            Operand::Symbol(x) => x.index(),
        }
    }

    pub fn is_symbol(&self) -> (r: bool)
        ensures
            r == (*self is Symbol),
    {
        match self {
            Operand::Immediate(_) => false,
            Operand::Symbol(_) => true,
        }
    }

    pub fn is_immediate(&self) -> (r: bool)
        ensures
            r == (*self is Immediate),
    {
        match self {
            Operand::Immediate(_) => true,
            Operand::Symbol(_) => false,
        }
    }

    /// Reads an operand token: a byte literal, else a register name.
    pub fn parse(s: &[char]) -> (r: Option<Operand>)
        ensures
            r == parse_operand(s@),
    {
        match text::parse_u8_chars(s) {
            Some(x) => Some(Operand::Immediate(x)),
            None => match OperandSymbol::from_name(s) {
                Some(sym) => Some(Operand::Symbol(sym)),
                None => None,
            },
        }
    }
}

/// The family of an opcode, from bits 5..3 of its code.
#[derive(Debug, Clone, Copy, PartialEq, Eq, Structural)]
pub enum OpcodeType {
    Compute,
    ConditionalJumping,
    Memory,
    Stack,
    Functions,
    Shifts,
    ArithmeticSupplementary,
    Miscellaneous,
}

pub open spec fn opcode_type_of(family: u8) -> OpcodeType {
    if family % 8 == 0 {
        OpcodeType::Miscellaneous
    } else if family % 8 == 1 {
        OpcodeType::Compute
    } else if family % 8 == 2 {
        OpcodeType::Shifts
    } else if family % 8 == 3 {
        OpcodeType::ArithmeticSupplementary
    } else if family % 8 == 4 {
        OpcodeType::ConditionalJumping
    } else if family % 8 == 5 {
        OpcodeType::Memory
    } else if family % 8 == 6 {
        OpcodeType::Stack
    } else {
        OpcodeType::Functions
    }
}

impl OpcodeType {
    /// The family that the low three bits of `family` name.
    pub fn from_family(family: u8) -> (r: OpcodeType)
        ensures
            r == opcode_type_of(family),
    {
        let f = family % 8;
        if f == 0 {
            OpcodeType::Miscellaneous
        } else if f == 1 {
            OpcodeType::Compute
        } else if f == 2 {
            OpcodeType::Shifts
        } else if f == 3 {
            OpcodeType::ArithmeticSupplementary
        } else if f == 4 {
            OpcodeType::ConditionalJumping
        } else if f == 5 {
            OpcodeType::Memory
        } else if f == 6 {
            OpcodeType::Stack
        } else {
            OpcodeType::Functions
        }
    }
}

/// Every instruction whose operands fit its layout reads back as the same
/// opcode and operands, and the two mask bits of its opcode byte say
/// exactly which of bytes 1 and 2 hold immediates.
pub proof fn lemma_encode_decode(op: Opcode, ops: Seq<Operand>)
    requires
        fits_layout(op, ops),
    ensures
        decode(encode(op, ops)) == Some((op, ops)),
        encode(op, ops)[0] >= 128 <==> slot_immediate(op, ops, 1),
        (encode(op, ops)[0] / 64) % 2 == 1 <==> slot_immediate(op, ops, 2),
{
    let w = encode(op, ops);
    let c = opcode_code(op);
    assert(c < 64);
    assert((w[0] % 64) as u8 == c);
    assert(opcode_from_code(c) == Some(op));
    assert forall|s: OperandSymbol| symbol_from_index(#[trigger] symbol_index(s)) == Some(s) by {}
    let dec = Seq::new(arity(op), |j: int| decode_slot(op, w, operand_slot(op, j + 1)));
    assert forall|j: int| 0 <= j < arity(op) implies #[trigger] dec[j] == Some(ops[j]) by {
        assert(slot_source(op, operand_slot(op, j + 1)) == j + 1);
    }
    assert(dec.map_values(|o: Option<Operand>| o->0) =~= ops);
}

} // verus!
