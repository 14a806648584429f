//! An assembler and an emulator for LEG, an 8-bit teaching CPU with fixed
//! four-byte instruction words.
use vstd::prelude::*;

pub mod assembler;
pub mod components;
pub mod emulator;
pub mod error;
pub mod instruction;
pub mod sections;
pub mod text;

verus! {

/// Parses a byte literal: `0x` followed by hexadecimal digits, `0b`
/// followed by binary digits, or decimal digits; each form takes an
/// optional `+` before its digits and must denote a value below 256.
pub fn parse_u8_literal(s: &str) -> (r: Option<u8>)
    ensures
        r == text::u8_literal(s@),
{
    let cs = text::chars_of(s);
    text::parse_u8_chars(cs.as_slice())
}

} // verus!
