//! A chunk of bytecode: the code bytes, the source line of each, and the
//! pool of constants that operands refer to.

use crate::error::InterpretError;
use crate::opcode::{decode, OpCode};
use vstd::prelude::*;
use vstd::string::*;

verus! {

/// Most constants one chunk can hold: an operand is one byte.
pub const MAX_CONSTANTS: usize = 256;

/// What a chunk holds, as plain sequences.
pub struct ChunkView<V> {
    /// Opcode bytes, each followed by its operand bytes.
    pub code: Seq<u8>,
    /// For each byte of `code`, the source line that gave rise to it.
    pub lines: Seq<u32>,
    /// The constants, in the order in which they were added.
    pub constants: Seq<V>,
}

impl<V> ChunkView<V> {
    /// The chunk with no code and no constants.
    pub open spec fn empty() -> Self {
        ChunkView { code: Seq::empty(), lines: Seq::empty(), constants: Seq::empty() }
    }

    /// This chunk with one more byte of code.
    pub open spec fn write(self, byte: u8, line: u32) -> Self {
        ChunkView { code: self.code.push(byte), lines: self.lines.push(line), ..self }
    }

    /// This chunk with one more constant.
    pub open spec fn add_constant(self, value: V) -> Self {
        ChunkView { constants: self.constants.push(value), ..self }
    }

    /// Every byte has its line.
    pub open spec fn wf(self) -> bool {
        self.code.len() == self.lines.len()
    }

    /// The instruction that starts at `offset`, or what keeps the bytes
    /// there from being one.
    pub open spec fn instruction_at(self, offset: int) -> Result<Instruction<V>, DecodeFault> {
        if !(0 <= offset < self.code.len()) {
            Err(DecodeFault::PastEnd)
        } else {
            match decode(self.code[offset]) {
                None => Err(DecodeFault::UnknownOpcode(self.code[offset])),
                Some(OpCode::Constant) => {
                    if offset + 1 >= self.code.len() {
                        Err(DecodeFault::MissingOperand)
                    } else if self.code[offset + 1] >= self.constants.len() {
                        Err(DecodeFault::BadConstant(self.code[offset + 1]))
                    } else {
                        Ok(
                            Instruction {
                                op: OpCode::Constant,
                                operand: Some(
                                    (
                                        self.code[offset + 1],
                                        self.constants[self.code[offset + 1] as int],
                                    ),
                                ),
                            },
                        )
                    }
                },
                Some(op) => Ok(Instruction { op, operand: None }),
            }
        }
    }

    /// Whether the code from `offset` to its end is made of whole
    /// instructions, each of which decodes.
    pub open spec fn is_program_from(self, offset: int) -> bool
        decreases self.code.len() - offset,
    {
        if 0 <= offset < self.code.len() {
            match self.instruction_at(offset) {
                Ok(instruction) => self.is_program_from(offset + instruction.op.width()),
                Err(_) => false,
            }
        } else {
            offset == self.code.len()
        }
    }

    /// Whether all of the code is made of whole instructions.
    pub open spec fn is_program(self) -> bool {
        self.is_program_from(0)
    }
}

/// One decoded instruction.
#[derive(Clone, Copy, Debug, PartialEq)]
pub struct Instruction<V> {
    /// The operation.
    pub op: OpCode,
    /// For `Constant`, the index in the pool and the value found there.
    pub operand: Option<(u8, V)>,
}

/// What keeps the bytes at an offset from being an instruction.
#[derive(Clone, Copy, Debug, PartialEq, Eq, Structural)]
pub enum DecodeFault {
    /// The offset is not within the code.
    PastEnd,
    /// The byte there is no opcode.
    UnknownOpcode(u8),
    /// The code ends where the operand should stand.
    MissingOperand,
    /// The operand names a constant that the pool does not hold.
    BadConstant(u8),
}

/// Message of the error for a constant beyond the pool's ceiling.
pub open spec fn too_many_constants() -> Seq<char> {
    "Too many constants in one chunk."@
}

/// Bytecode with its line table and its constant pool. It only grows.
///
/// Each byte is kept together with its line, so the two never part.
pub struct Chunk<V> {
    code: Vec<(u8, u32)>,
    constants: Vec<V>,
}

impl<V> View for Chunk<V> {
    type V = ChunkView<V>;

    closed spec fn view(&self) -> ChunkView<V> {
        ChunkView {
            code: Seq::new(self.code@.len(), |i: int| self.code@[i].0),
            lines: Seq::new(self.code@.len(), |i: int| self.code@[i].1),
            constants: self.constants@,
        }
    }
}

impl<V> Chunk<V> {
    /// An empty chunk.
    pub fn new() -> (chunk: Self)
        ensures
            chunk@ == ChunkView::<V>::empty(),
    {
        let chunk = Chunk { code: Vec::new(), constants: Vec::new() };
        assert(chunk@.code =~= Seq::<u8>::empty());
        assert(chunk@.lines =~= Seq::<u32>::empty());
        chunk
    }

    /// Appends one byte of code and the source line it comes from.
    pub fn write(&mut self, byte: u8, line: u32)
        ensures
            final(self)@ == old(self)@.write(byte, line),
    {
        self.code.push((byte, line));
        assert(self@.code =~= old(self)@.code.push(byte));
        assert(self@.lines =~= old(self)@.lines.push(line));
    }

    /// Appends `value` to the constant pool and returns its index, to be
    /// written as the operand of a `Constant` instruction.
    ///
    /// The pool holds at most `MAX_CONSTANTS` values, as many as one operand
    /// byte can tell apart. A further one is refused with a compile error,
    /// and the chunk stays as it was.
    pub fn add_constant(&mut self, value: V) -> (index: Result<u8, InterpretError>)
        ensures
            old(self)@.constants.len() < MAX_CONSTANTS ==> index == Ok::<u8, InterpretError>(
                old(self)@.constants.len() as u8,
            ) && final(self)@ == old(self)@.add_constant(value),
            old(self)@.constants.len() >= MAX_CONSTANTS ==> final(self)@ == old(self)@ && (index
                matches Err(InterpretError::CompileError(message)) && message@
                == too_many_constants()),
    {
        let count = self.constants.len();
        if count >= MAX_CONSTANTS {
            return Err(
                InterpretError::CompileError(String::from_str("Too many constants in one chunk.")),
            );
        }
        self.constants.push(value);
        Ok(count as u8)
    }

    /// Number of bytes of code.
    pub fn len(&self) -> (len: usize)
        ensures
            len == self@.code.len(),
            self@.wf(),
    {
        self.code.len()
    }

    /// The byte of code at `offset`, if there is one.
    pub fn byte_at(&self, offset: usize) -> (byte: Option<u8>)
        ensures
            byte == if offset < self@.code.len() {
                Some(self@.code[offset as int])
            } else {
                None
            },
    {
        if offset < self.code.len() {
            Some(self.code[offset].0)
        } else {
            None
        }
    }

    /// The source line of the byte of code at `offset`, if there is one.
    pub fn line_at(&self, offset: usize) -> (line: Option<u32>)
        ensures
            line == if offset < self@.code.len() {
                Some(self@.lines[offset as int])
            } else {
                None
            },
    {
        if offset < self.code.len() {
            Some(self.code[offset].1)
        } else {
            None
        }
    }
}

impl<V: Copy> Chunk<V> {
    /// Decodes the instruction that starts at `offset`. Never guesses: bytes
    /// that are no instruction give the fault that says why.
    pub fn instruction_at(&self, offset: usize) -> (decoded: Result<Instruction<V>, DecodeFault>)
        ensures
            decoded == self@.instruction_at(offset as int),
            self@.code.len() <= usize::MAX,
    {
        if offset >= self.len() {
            return Err(DecodeFault::PastEnd);
        }
        let byte = self.code[offset].0;
        match OpCode::from_u8(byte) {
            None => Err(DecodeFault::UnknownOpcode(byte)),
            Some(OpCode::Constant) => {
                let index = match self.byte_at(offset + 1) {
                    Some(index) => index,
                    None => {
                        return Err(DecodeFault::MissingOperand);
                    },
                };
                match self.constant_at(index) {
                    Some(value) => Ok(
                        Instruction { op: OpCode::Constant, operand: Some((index, value)) },
                    ),
                    None => Err(DecodeFault::BadConstant(index)),
                }
            },
            Some(op) => Ok(Instruction { op, operand: None }),
        }
    }

    /// The constant at `index`, if the pool holds that many.
    pub fn constant_at(&self, index: u8) -> (value: Option<V>)
        ensures
            value == if index < self@.constants.len() {
                Some(self@.constants[index as int])
            } else {
                None
            },
    {
        if (index as usize) < self.constants.len() {
            Some(self.constants[index as usize])
        } else {
            None
        }
    }
}

impl<V> ChunkView<V> {
    /// Whether this chunk is `earlier` grown: it starts with all that
    /// `earlier` holds.
    pub open spec fn extends(self, earlier: Self) -> bool {
        &&& earlier.code.is_prefix_of(self.code)
        &&& earlier.lines.is_prefix_of(self.lines)
        &&& earlier.constants.is_prefix_of(self.constants)
    }
}

/// Growth keeps instructions: code that was made of whole instructions
/// still is, as far as it went, and whole programs stay whole where what was
/// appended is made of whole instructions too.
pub proof fn lemma_program_extended<V>(earlier: ChunkView<V>, later: ChunkView<V>, offset: int)
    requires
        later.extends(earlier),
        0 <= offset <= earlier.code.len(),
        earlier.is_program_from(offset),
        later.is_program_from(earlier.code.len() as int),
    ensures
        later.is_program_from(offset),
    decreases earlier.code.len() - offset,
{
    if offset < earlier.code.len() {
        let instruction = earlier.instruction_at(offset)->Ok_0;
        assert(later.code[offset] == earlier.code[offset]);
        if instruction.op == OpCode::Constant {
            assert(later.code[offset + 1] == earlier.code[offset + 1]);
            assert(later.constants[earlier.code[offset + 1] as int]
                == earlier.constants[earlier.code[offset + 1] as int]);
        }
        assert(later.instruction_at(offset) == earlier.instruction_at(offset));
        lemma_program_extended(earlier, later, offset + instruction.op.width());
    }
}

/// A program stays one when a constant is added to its pool.
pub proof fn lemma_add_constant_keeps_program<V>(chunk: ChunkView<V>, value: V)
    requires
        chunk.is_program(),
    ensures
        chunk.add_constant(value).is_program(),
{
    lemma_program_extended(chunk, chunk.add_constant(value), 0);
}

/// A program stays one when the byte of an operation without operand is
/// written behind it.
pub proof fn lemma_write_simple_keeps_program<V>(chunk: ChunkView<V>, op: OpCode, line: u32)
    requires
        chunk.is_program(),
        op != OpCode::Constant,
    ensures
        chunk.write(op.byte(), line).is_program(),
{
    let later = chunk.write(op.byte(), line);
    let end = chunk.code.len() as int;
    assert(later.instruction_at(end) == Ok::<Instruction<V>, DecodeFault>(
        Instruction { op, operand: None },
    ));
    assert(later.is_program_from(end + 1));
    lemma_program_extended(chunk, later, 0);
}

/// A program stays one when a `Constant` instruction is written behind it
/// whose operand is an index of the pool.
pub proof fn lemma_write_constant_keeps_program<V>(
    chunk: ChunkView<V>,
    index: u8,
    line: u32,
    operand_line: u32,
)
    requires
        chunk.is_program(),
        index < chunk.constants.len(),
    ensures
        chunk.write(OpCode::Constant.byte(), line).write(index, operand_line).is_program(),
{
    let later = chunk.write(OpCode::Constant.byte(), line).write(index, operand_line);
    let end = chunk.code.len() as int;
    assert(later.code[end] == OpCode::Constant.byte());
    assert(later.code[end + 1] == index);
    assert(later.instruction_at(end) is Ok);
    assert(later.is_program_from(end + 2));
    lemma_program_extended(chunk, later, 0);
}

} // verus!
