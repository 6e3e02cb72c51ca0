//! Bytecode chunks and the closed set of instructions they encode.
use vstd::prelude::*;

verus! {

/// The instruction kinds. Each tag is one byte in a chunk's code; only
/// `Constant` is followed by an operand byte, the index of a pooled constant.
#[derive(Clone, Copy, Debug, PartialEq, Eq, Structural)]
pub enum OpCode {
    Constant,
    Return,
    Negate,
    Add,
    Subtract,
    Multiply,
    Divide,
}

impl OpCode {
    /// The byte that encodes the instruction: dense, in declaration order.
    pub open spec fn spec_byte(self) -> u8 {
        match self {
            OpCode::Constant => 0,
            OpCode::Return => 1,
            OpCode::Negate => 2,
            OpCode::Add => 3,
            OpCode::Subtract => 4,
            OpCode::Multiply => 5,
            OpCode::Divide => 6,
        }
    }

    /// The instruction that a byte encodes, if any.
    pub open spec fn spec_decode(b: u8) -> Option<OpCode> {
        if b == 0 {
            Some(OpCode::Constant)
        } else if b == 1 {
            Some(OpCode::Return)
        } else if b == 2 {
            Some(OpCode::Negate)
        } else if b == 3 {
            Some(OpCode::Add)
        } else if b == 4 {
            Some(OpCode::Subtract)
        } else if b == 5 {
            Some(OpCode::Multiply)
        } else if b == 6 {
            Some(OpCode::Divide)
        } else {
            None
        }
    }

    pub fn to_byte(self) -> (r: u8)
        ensures
            r == self.spec_byte(),
            Self::spec_decode(r) == Some(self),
    {
        match self {
            OpCode::Constant => 0,
            OpCode::Return => 1,
            OpCode::Negate => 2,
            OpCode::Add => 3,
            OpCode::Subtract => 4,
            OpCode::Multiply => 5,
            OpCode::Divide => 6,
        }
    }

    pub fn decode(b: u8) -> (r: Option<OpCode>)
        ensures
            r == Self::spec_decode(b),
            r matches Some(op) ==> op.spec_byte() == b,
    {
        match b {
            0 => Some(OpCode::Constant),
            1 => Some(OpCode::Return),
            2 => Some(OpCode::Negate),
            3 => Some(OpCode::Add),
            4 => Some(OpCode::Subtract),
            5 => Some(OpCode::Multiply),
            6 => Some(OpCode::Divide),
            _ => None,
        }
    }

    /// The mnemonic under which the disassembler lists the instruction.
    pub open spec fn spec_mnemonic(self) -> Seq<char> {
        match self {
            OpCode::Constant => "OpConstant"@,
            OpCode::Return => "OpReturn"@,
            OpCode::Negate => "OpNegate"@,
            OpCode::Add => "OpAdd"@,
            OpCode::Subtract => "OpSubtract"@,
            OpCode::Multiply => "OpMultiply"@,
            OpCode::Divide => "OpDivide"@,
        }
    }

    pub fn mnemonic(self) -> (r: &'static str)
        ensures
            r@ == self.spec_mnemonic(),
    {
        match self {
            OpCode::Constant => "OpConstant",
            OpCode::Return => "OpReturn",
            OpCode::Negate => "OpNegate",
            OpCode::Add => "OpAdd",
            OpCode::Subtract => "OpSubtract",
            OpCode::Multiply => "OpMultiply",
            OpCode::Divide => "OpDivide",
        }
    }
}

/// The most constants a chunk can pool: an operand byte indexes the pool.
pub const MAX_CONSTANTS: usize = 256;

/// An append-only unit of bytecode: the code bytes, the source line of each
/// byte, and the pool of constants that `Constant` instructions index.
pub struct Chunk<V> {
    pub code: Vec<u8>,
    pub lines: Vec<usize>,
    pub constants: Vec<V>,
}

impl<V> Chunk<V> {
    /// One line number for each code byte, and a pool an operand byte can index.
    pub open spec fn wf(&self) -> bool {
        &&& self.lines@.len() == self.code@.len()
        &&& self.constants@.len() <= MAX_CONSTANTS
    }

    pub fn new() -> (r: Self)
        ensures
            r.wf(),
            r.code@ == Seq::<u8>::empty(),
            r.lines@ == Seq::<usize>::empty(),
            r.constants@ == Seq::<V>::empty(),
    {
        Chunk { code: Vec::new(), lines: Vec::new(), constants: Vec::new() }
    }

    /// Appends one byte of code and the line it came from.
    pub fn write(&mut self, byte: u8, line: usize)
        requires
            old(self).wf(),
        ensures
            final(self).wf(),
            final(self).code@ == old(self).code@.push(byte),
            final(self).lines@ == old(self).lines@.push(line),
            final(self).constants@ == old(self).constants@,
    {
        self.code.push(byte);
        self.lines.push(line);
    }

    /// Pools a constant and returns its index, or `None`, leaving the pool as
    /// it was, when the pool is already full.
    pub fn add_constant(&mut self, value: V) -> (r: Option<u8>)
        requires
            old(self).wf(),
        ensures
            final(self).wf(),
            final(self).code@ == old(self).code@,
            final(self).lines@ == old(self).lines@,
            old(self).constants@.len() < MAX_CONSTANTS ==> {
                &&& r == Some(old(self).constants@.len() as u8)
                &&& final(self).constants@ == old(self).constants@.push(value)
            },
            old(self).constants@.len() >= MAX_CONSTANTS ==> {
                &&& r is None
                &&& final(self).constants@ == old(self).constants@
            },
    {
        if self.constants.len() >= MAX_CONSTANTS {
            return None;
        }
        let index = self.constants.len() as u8;
        self.constants.push(value);
        Some(index)
    }
}

} // verus!
