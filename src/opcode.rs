use vstd::prelude::*;

verus! {

/// The instruction set of the virtual machine.
#[allow(non_camel_case_types)]
#[derive(Debug, Clone, Copy, PartialEq, Eq, Structural)]
pub enum OpCode {
    OP_CONSTANT,
    OP_ADD,
    OP_SUBTRACT,
    OP_MULTIPLY,
    OP_DIVIDE,
    OP_NEGATE,
    OP_RETURN,
}

/// The byte that encodes an opcode in the instruction stream.
pub open spec fn opcode_byte(op: OpCode) -> u8 {
    match op {
        OpCode::OP_CONSTANT => 0,
        OpCode::OP_ADD => 1,
        OpCode::OP_SUBTRACT => 2,
        OpCode::OP_MULTIPLY => 3,
        OpCode::OP_DIVIDE => 4,
        OpCode::OP_NEGATE => 5,
        OpCode::OP_RETURN => 6,
    }
}

/// The opcode a byte stands for, if any.
pub open spec fn opcode_of(b: u8) -> Option<OpCode> {
    if b == 0 {
        Some(OpCode::OP_CONSTANT)
    } else if b == 1 {
        Some(OpCode::OP_ADD)
    } else if b == 2 {
        Some(OpCode::OP_SUBTRACT)
    } else if b == 3 {
        Some(OpCode::OP_MULTIPLY)
    } else if b == 4 {
        Some(OpCode::OP_DIVIDE)
    } else if b == 5 {
        Some(OpCode::OP_NEGATE)
    } else if b == 6 {
        Some(OpCode::OP_RETURN)
    } else {
        None
    }
}

impl OpCode {
    /// Encodes the opcode as its byte.
    pub fn to_byte(self) -> (r: u8)
        ensures
            r == opcode_byte(self),
    {
        match self {
            OpCode::OP_CONSTANT => 0,
            OpCode::OP_ADD => 1,
            OpCode::OP_SUBTRACT => 2,
            OpCode::OP_MULTIPLY => 3,
            OpCode::OP_DIVIDE => 4,
            OpCode::OP_NEGATE => 5,
            OpCode::OP_RETURN => 6,
        }
    }

    /// Decodes a byte; a byte outside the instruction set gives `None`.
    pub fn from_byte(byte: u8) -> (r: Option<OpCode>)
        ensures
            r == opcode_of(byte),
    {
        match byte {
            0 => Some(OpCode::OP_CONSTANT),
            1 => Some(OpCode::OP_ADD),
            2 => Some(OpCode::OP_SUBTRACT),
            3 => Some(OpCode::OP_MULTIPLY),
            4 => Some(OpCode::OP_DIVIDE),
            5 => Some(OpCode::OP_NEGATE),
            6 => Some(OpCode::OP_RETURN),
            _ => None,
        }
    }
}

/// Decoding the encoding of an opcode gives that opcode back, and a byte that
/// decodes to an opcode is that opcode's encoding.
pub proof fn lemma_opcode_round_trip(op: OpCode, b: u8)
    ensures
        opcode_of(opcode_byte(op)) == Some(op),
        opcode_of(b) == Some(op) ==> opcode_byte(op) == b,
{
}

} // verus!
