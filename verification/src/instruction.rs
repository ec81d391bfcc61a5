//! The eight operations of the language and the bytes that denote them.

use vstd::prelude::*;

verus! {

/// The byte `[`.
pub const LSQUARE: u8 = 0x5b;

/// The byte `]`.
pub const RSQUARE: u8 = 0x5d;

/// The byte `>`.
pub const RARROW: u8 = 0x3e;

/// The byte `<`.
pub const LARROW: u8 = 0x3c;

/// The byte `.`.
pub const DOT: u8 = 0x2e;

/// The byte `,`.
pub const COMMA: u8 = 0x2c;

/// The byte `+`.
pub const PLUS: u8 = 0x2b;

/// The byte `-`.
pub const MINUS: u8 = 0x2d;

/// An operation of the language. Every byte of a program either denotes one
/// of these or is commentary.
#[derive(Clone, Copy, Debug, PartialEq, Eq, Structural)]
pub enum Instruction {
    /// `[`: enter the loop body, or leave the loop if the current cell is zero.
    LSquare,
    /// `]`: go back to the matching `[`.
    RSquare,
    /// `>`: move the cursor one cell to the right.
    RArrow,
    /// `<`: move the cursor one cell to the left.
    LArrow,
    /// `.`: write the current cell to the output.
    Dot,
    /// `,`: read one byte of input into the current cell.
    Comma,
    /// `+`: add one to the current cell.
    Plus,
    /// `-`: subtract one from the current cell.
    Minus,
}

/// The operation a byte denotes, if any.
pub open spec fn decode(byte: u8) -> Option<Instruction> {
    if byte == LSQUARE {
        Some(Instruction::LSquare)
    } else if byte == RSQUARE {
        Some(Instruction::RSquare)
    } else if byte == RARROW {
        Some(Instruction::RArrow)
    } else if byte == LARROW {
        Some(Instruction::LArrow)
    } else if byte == DOT {
        Some(Instruction::Dot)
    } else if byte == COMMA {
        Some(Instruction::Comma)
    } else if byte == PLUS {
        Some(Instruction::Plus)
    } else if byte == MINUS {
        Some(Instruction::Minus)
    } else {
        None
    }
}

/// Whether a byte is one of the two loop delimiters.
pub open spec fn is_bracket(byte: u8) -> bool {
    byte == LSQUARE || byte == RSQUARE
}

impl Instruction {
    /// The byte that denotes this operation in program text.
    pub open spec fn symbol_spec(self) -> u8 {
        match self {
            Instruction::LSquare => LSQUARE,
            Instruction::RSquare => RSQUARE,
            Instruction::RArrow => RARROW,
            Instruction::LArrow => LARROW,
            Instruction::Dot => DOT,
            Instruction::Comma => COMMA,
            Instruction::Plus => PLUS,
            Instruction::Minus => MINUS,
        }
    }

    /// Classifies one byte of program text: `Some` for the eight operation
    /// symbols, `None` for every other byte.
    pub fn from_byte(byte: u8) -> (instruction: Option<Instruction>)
        ensures
            instruction == decode(byte),
    {
        if byte == LSQUARE {
            Some(Instruction::LSquare)
        } else if byte == RSQUARE {
            Some(Instruction::RSquare)
        } else if byte == RARROW {
            Some(Instruction::RArrow)
        } else if byte == LARROW {
            Some(Instruction::LArrow)
        } else if byte == DOT {
            Some(Instruction::Dot)
        } else if byte == COMMA {
            Some(Instruction::Comma)
        } else if byte == PLUS {
            Some(Instruction::Plus)
        } else if byte == MINUS {
            Some(Instruction::Minus)
        } else {
            None
        }
    }

    /// The byte that denotes this operation in program text.
    #[verifier::when_used_as_spec(symbol_spec)]
    pub fn symbol(self) -> (byte: u8)
        ensures
            byte == self.symbol_spec(),
            decode(byte) == Some(self),
    {
        match self {
            Instruction::LSquare => LSQUARE,
            Instruction::RSquare => RSQUARE,
            Instruction::RArrow => RARROW,
            Instruction::LArrow => LARROW,
            Instruction::Dot => DOT,
            Instruction::Comma => COMMA,
            Instruction::Plus => PLUS,
            Instruction::Minus => MINUS,
        }
    }
}

} // verus!
