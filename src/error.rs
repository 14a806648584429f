//! The ways in which assembling or running a program can fail.
use vstd::prelude::*;

verus! {

/// Why a source text does not assemble.
#[derive(Debug, Clone, Copy, PartialEq, Eq, Structural)]
pub enum AsmError {
    /// Two sections share a name.
    DuplicateSection,
    /// The `.code` or the `.entry` section is absent.
    MissingRequiredSection,
    /// A section header or a section line lacks a required part.
    SectionSyntax,
    /// A byte literal is malformed or out of range.
    BadU8Literal,
    /// A `.data` value is neither a string, an array nor a byte literal.
    BadDataValue,
    /// A `.data` array holds an element that is not a byte literal.
    BadArrayLiteral,
    /// A `.data` string is not closed by a quote.
    BadQuotedString,
    /// No opcode has the mnemonic.
    UnknownMnemonic,
    /// An operand is neither a constant, a byte literal nor a register.
    UnknownOperand,
    /// An instruction has fewer operands than its layout needs.
    MissingOperand,
    /// A label that is used is not defined.
    UnknownLabel,
    /// The entry point lies beyond the first 256 bytes of the image.
    EntrypointOutOfRange,
    /// The static data does not fit in RAM or its length in a byte.
    DataOverflow,
    /// The code reaches beyond the 16-bit address space.
    ProgramTooLarge,
}

/// Why the emulator refuses a program or an instruction.
#[derive(Debug, Clone, Copy, PartialEq, Eq, Structural)]
pub enum EmulatorError {
    /// The image does not start with a complete `copystatic` header and
    /// the static data it announces.
    BadHeader,
    /// The static data would reach beyond the end of RAM.
    DataOverflow,
    /// A tick was asked of a halted CPU.
    AlreadyHalted,
    /// `div` or `mod` by zero.
    DivisionByZero,
}

} // verus!
