//! The instruction set: one byte per operation.

use vstd::prelude::*;

verus! {

/// Operation code.
#[derive(Clone, Copy, Debug, PartialEq, Eq, Structural)]
pub enum OpCode {
    Constant,
    Add,
    Subtract,
    Multiply,
    Divide,
    Negate,
    Return,
}

/// The operation that a byte stands for, if it stands for one.
pub open spec fn decode(byte: u8) -> Option<OpCode> {
    if byte == 0 {
        Some(OpCode::Constant)
    } else if byte == 1 {
        Some(OpCode::Add)
    } else if byte == 2 {
        Some(OpCode::Subtract)
    } else if byte == 3 {
        Some(OpCode::Multiply)
    } else if byte == 4 {
        Some(OpCode::Divide)
    } else if byte == 5 {
        Some(OpCode::Negate)
    } else if byte == 6 {
        Some(OpCode::Return)
    } else {
        None
    }
}

impl OpCode {
    /// The byte that encodes this operation.
    pub open spec fn byte(self) -> u8 {
        match self {
            OpCode::Constant => 0,
            OpCode::Add => 1,
            OpCode::Subtract => 2,
            OpCode::Multiply => 3,
            OpCode::Divide => 4,
            OpCode::Negate => 5,
            OpCode::Return => 6,
        }
    }

    /// Number of bytes the instruction occupies: the opcode and its operands.
    pub open spec fn width(self) -> nat {
        match self {
            OpCode::Constant => 2,
            _ => 1,
        }
    }

    /// Decodes one byte. Total: a byte outside the instruction set gives
    /// `None`, never a guess.
    pub fn from_u8(byte: u8) -> (op: Option<OpCode>)
        ensures
            op == decode(byte),
    {
        match byte {
            0 => Some(OpCode::Constant),
            1 => Some(OpCode::Add),
            2 => Some(OpCode::Subtract),
            3 => Some(OpCode::Multiply),
            4 => Some(OpCode::Divide),
            5 => Some(OpCode::Negate),
            6 => Some(OpCode::Return),
            _ => None,
        }
    }

    /// Encodes this operation as its byte.
    pub fn to_u8(self) -> (byte: u8)
        ensures
            byte == self.byte(),
            decode(byte) == Some(self),
    {
        match self {
            OpCode::Constant => 0,
            OpCode::Add => 1,
            OpCode::Subtract => 2,
            OpCode::Multiply => 3,
            OpCode::Divide => 4,
            OpCode::Negate => 5,
            OpCode::Return => 6,
        }
    }
}

} // verus!
