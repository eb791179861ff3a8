//! The disassembler: a read-only view of a chunk, one record and one line
//! of text per instruction.

use crate::chunk::{Chunk, ChunkView, DecodeFault, Instruction};
use crate::opcode::OpCode;
use crate::text::{
    decimal, pad_left, pad_right, push_decimal_padded, push_padded_right,
};
use vstd::prelude::*;
use vstd::string::*;

verus! {

/// One instruction as the disassembler shows it.
#[derive(Clone, Copy, Debug, PartialEq)]
pub struct Disassembled<V> {
    /// Offset of its opcode byte.
    pub offset: usize,
    /// Its source line; `None` where that is the line of the byte before
    /// it, which the text shows as a continuation mark.
    pub line: Option<u32>,
    /// The instruction itself.
    pub instruction: Instruction<V>,
    /// Offset of the instruction after it.
    pub next: usize,
}

/// A chunk taken apart: a header and its instructions in order, up to the
/// first bytes that are no instruction.
#[derive(Debug)]
pub struct Disassembly<V> {
    /// The header line, which names the chunk.
    pub header: String,
    /// The instructions, in order of offset.
    pub lines: Vec<Disassembled<V>>,
    /// Where decoding had to stop, and why; `None` where it reached the end.
    pub fault: Option<(usize, DecodeFault)>,
}

/// The name by which the disassembler shows an operation.
pub open spec fn mnemonic(op: OpCode) -> Seq<char> {
    match op {
        OpCode::Constant => "OP_CONSTANT"@,
        OpCode::Add => "OP_ADD"@,
        OpCode::Subtract => "OP_SUBTRACT"@,
        OpCode::Multiply => "OP_MULTPLY"@,
        OpCode::Divide => "OP_DIVIDE"@,
        OpCode::Negate => "OP_NEGATE"@,
        OpCode::Return => "OP_RETURN"@,
    }
}

/// The header line for a chunk called `name`.
pub open spec fn header_text(name: Seq<char>) -> Seq<char> {
    "== "@ + name + " =="@
}

impl OpCode {
    /// The name by which the disassembler shows this operation.
    pub fn mnemonic(self) -> (name: &'static str)
        ensures
            name@ == mnemonic(self),
    {
        match self {
            OpCode::Constant => "OP_CONSTANT",
            OpCode::Add => "OP_ADD",
            OpCode::Subtract => "OP_SUBTRACT",
            OpCode::Multiply => "OP_MULTPLY",
            OpCode::Divide => "OP_DIVIDE",
            OpCode::Negate => "OP_NEGATE",
            OpCode::Return => "OP_RETURN",
        }
    }
}

impl<V> ChunkView<V> {
    /// The line to show for the byte at `offset`: its own, unless the byte
    /// before it comes from the same line.
    pub open spec fn shown_line(self, offset: int) -> Option<u32> {
        if offset > 0 && self.lines[offset] == self.lines[offset - 1] {
            None
        } else {
            Some(self.lines[offset])
        }
    }

    /// The record of the instruction at `offset`, or why there is none.
    pub open spec fn disassembled_at(self, offset: int) -> Result<Disassembled<V>, DecodeFault> {
        match self.instruction_at(offset) {
            Ok(instruction) => Ok(
                Disassembled {
                    offset: offset as usize,
                    line: self.shown_line(offset),
                    instruction,
                    next: (offset + instruction.op.width()) as usize,
                },
            ),
            Err(fault) => Err(fault),
        }
    }

    /// The records of the instructions from `offset` on, each starting where
    /// the one before it ends, up to the end of the code or to the first
    /// bytes that do not decode.
    pub open spec fn listing_from(self, offset: int) -> Seq<Disassembled<V>>
        decreases self.code.len() - offset,
    {
        if 0 <= offset < self.code.len() {
            match self.disassembled_at(offset) {
                Ok(record) => seq![record] + self.listing_from(
                    offset + record.instruction.op.width(),
                ),
                Err(_) => Seq::empty(),
            }
        } else {
            Seq::empty()
        }
    }

    /// Where, walking the instructions from `offset` on, decoding first
    /// fails, and why; `None` where it does not fail.
    pub open spec fn first_fault_from(self, offset: int) -> Option<(usize, DecodeFault)>
        decreases self.code.len() - offset,
    {
        if 0 <= offset < self.code.len() {
            match self.instruction_at(offset) {
                Ok(instruction) => self.first_fault_from(offset + instruction.op.width()),
                Err(fault) => Some((offset as usize, fault)),
            }
        } else {
            None
        }
    }
}

impl<V> Disassembled<V> {
    /// The line of text for this record: the offset in four digits, the
    /// source line in a field of four or the continuation mark, the name of
    /// the operation and, for a constant, its index in a field of four and
    /// `value_text` between single quotes.
    pub open spec fn text(self, value_text: Seq<char>) -> Seq<char> {
        pad_left(decimal(self.offset as nat), 4, '0') + " "@ + (match self.line {
            None => "   | "@,
            Some(line) => pad_left(decimal(line as nat), 4, ' ') + " "@,
        }) + (match self.instruction.operand {
            None => mnemonic(self.instruction.op),
            Some((index, _)) => pad_right(mnemonic(self.instruction.op), 16, ' ') + " "@
                + pad_left(decimal(index as nat), 4, ' ') + " '"@ + value_text + "'"@,
        })
    }

    /// Renders this record as one line of text, without a line break.
    /// `value_text` is the constant as the caller wants it shown; a record
    /// without a constant does not use it.
    pub fn render(&self, value_text: &str) -> (line: String)
        ensures
            line@ == self.text(value_text@),
    {
        let mut out = String::new();
        push_decimal_padded(&mut out, self.offset as u64, 4, '0');
        out.append(" ");
        match self.line {
            None => {
                out.append("   | ");
            },
            Some(line) => {
                push_decimal_padded(&mut out, line as u64, 4, ' ');
                out.append(" ");
            },
        }
        let name = self.instruction.op.mnemonic();
        match self.instruction.operand {
            None => {
                out.append(name);
            },
            Some((index, _)) => {
                push_padded_right(&mut out, name, 16);
                out.append(" ");
                push_decimal_padded(&mut out, index as u64, 4, ' ');
                out.append(" '");
                out.append(value_text);
                out.append("'");
            },
        }
        assert(out@ =~= self.text(value_text@));
        out
    }
}

impl<V: Copy> Chunk<V> {
    /// Decodes the one instruction at `offset` into its record, which also
    /// says where the next instruction starts: two bytes on for an
    /// instruction with an operand, one byte on for any other.
    pub fn disassemble_instruction(&self, offset: usize) -> (record: Result<
        Disassembled<V>,
        DecodeFault,
    >)
        ensures
            record == self@.disassembled_at(offset as int),
            record matches Ok(shown) ==> offset < shown.next <= self@.code.len(),
    {
        let instruction = match self.instruction_at(offset) {
            Ok(instruction) => instruction,
            Err(fault) => {
                return Err(fault);
            },
        };
        let own = match self.line_at(offset) {
            Some(line) => line,
            None => {
                return Err(DecodeFault::PastEnd);
            },
        };
        let line = if offset > 0 && self.line_at(offset - 1) == Some(own) {
            None
        } else {
            Some(own)
        };
        match instruction.op {
            OpCode::Constant => Ok(constant_instruction(offset, line, instruction)),
            _ => Ok(simple_instruction(offset, line, instruction)),
        }
    }

    /// Takes the whole chunk apart, instruction after instruction from
    /// offset 0, under a header that names it.
    pub fn disassemble(&self, name: &str) -> (listing: Disassembly<V>)
        ensures
            listing.header@ == header_text(name@),
            listing.lines@ == self@.listing_from(0),
            listing.fault == self@.first_fault_from(0),
            listing.fault is None <==> self@.is_program(),
            self@.is_program() ==> walks(self@, listing.lines@, 0, self@.code.len() as int),
    {
        let end = self.len();
        proof {
            lemma_no_fault_iff_program(self@, 0);
            if self@.is_program() {
                lemma_listing_walks_program(self@, 0);
            }
        }
        let mut header = String::from_str("== ");
        header.append(name);
        header.append(" ==");

        let mut lines: Vec<Disassembled<V>> = Vec::new();
        let mut fault: Option<(usize, DecodeFault)> = None;
        let mut offset: usize = 0;
        while offset < end
            invariant_except_break
                lines@ + self@.listing_from(offset as int) == self@.listing_from(0),
                self@.first_fault_from(offset as int) == self@.first_fault_from(0),
                fault is None,
            invariant
                end == self@.code.len(),
                offset <= end,
            ensures
                lines@ == self@.listing_from(0),
                fault == self@.first_fault_from(0),
            decreases self@.code.len() - offset,
        {
            match self.disassemble_instruction(offset) {
                Ok(record) => {
                    proof {
                        assert(lines@.push(record) + self@.listing_from(record.next as int)
                            =~= lines@ + self@.listing_from(offset as int));
                    }
                    lines.push(record);
                    offset = record.next;
                },
                Err(found) => {
                    fault = Some((offset, found));
                    assert(lines@ =~= lines@ + self@.listing_from(offset as int));
                    break ;
                },
            }
        }
        Disassembly { header, lines, fault }
    }
}

/// Record of an instruction without operand: the next one starts one byte on.
fn simple_instruction<V>(offset: usize, line: Option<u32>, instruction: Instruction<V>) -> (record:
    Disassembled<V>)
    requires
        offset + 1 <= usize::MAX,
    ensures
        record == (Disassembled { offset, line, instruction, next: (offset + 1) as usize }),
{
    Disassembled { offset, line, instruction, next: offset + 1 }
}

/// Record of an instruction with a constant as operand: the next one starts
/// two bytes on.
fn constant_instruction<V>(offset: usize, line: Option<u32>, instruction: Instruction<V>) -> (record:
    Disassembled<V>)
    requires
        offset + 2 <= usize::MAX,
    ensures
        record == (Disassembled { offset, line, instruction, next: (offset + 2) as usize }),
{
    Disassembled { offset, line, instruction, next: offset + 2 }
}

/// Whether `records` walk the code of `chunk` from offset `from` to offset
/// `to` without a gap and without a repeat: each record is the instruction
/// at its offset, is at least one byte long, and ends where the next one
/// starts; the first starts at `from` and the last ends at `to`.
pub open spec fn walks<V>(chunk: ChunkView<V>, records: Seq<Disassembled<V>>, from: int, to: int)
    -> bool {
    &&& records.len() == 0 ==> from == to
    &&& records.len() > 0 ==> records[0].offset == from && records.last().next == to
    &&& forall|i: int|
        0 <= i < records.len() ==> chunk.disassembled_at((#[trigger] records[i]).offset as int)
            == Ok::<Disassembled<V>, DecodeFault>(records[i]) && records[i].offset
            < records[i].next
    &&& forall|i: int, j: int|
        0 <= i && j == i + 1 && j < records.len() ==> (#[trigger] records[i]).next == (
        #[trigger] records[j]).offset
}

/// Decoding from `offset` on fails nowhere exactly if the code from there
/// on is made of whole instructions.
pub proof fn lemma_no_fault_iff_program<V>(chunk: ChunkView<V>, offset: int)
    requires
        0 <= offset <= chunk.code.len(),
    ensures
        chunk.first_fault_from(offset) is None <==> chunk.is_program_from(offset),
    decreases chunk.code.len() - offset,
{
    if offset < chunk.code.len() {
        match chunk.instruction_at(offset) {
            Ok(instruction) => {
                lemma_no_fault_iff_program(chunk, offset + instruction.op.width());
            },
            Err(_) => {},
        }
    }
}

/// Disassembling instruction after instruction, from the start of code that
/// is made of whole instructions, visits every instruction once, in order,
/// and the last record ends exactly at the end of the code.
pub proof fn lemma_listing_walks_program<V>(chunk: ChunkView<V>, offset: int)
    requires
        0 <= offset <= chunk.code.len(),
        chunk.code.len() <= usize::MAX,
        chunk.is_program_from(offset),
    ensures
        walks(chunk, chunk.listing_from(offset), offset, chunk.code.len() as int),
    decreases chunk.code.len() - offset,
{
    if offset < chunk.code.len() {
        let instruction = chunk.instruction_at(offset)->Ok_0;
        let record = chunk.disassembled_at(offset)->Ok_0;
        let next = offset + instruction.op.width();
        lemma_listing_walks_program(chunk, next);
        let rest = chunk.listing_from(next);
        let all = chunk.listing_from(offset);
        assert(all == seq![record] + rest);
        assert(all[0] == record);
        assert forall|i: int| 0 <= i < all.len() implies chunk.disassembled_at(
            (#[trigger] all[i]).offset as int,
        ) == Ok::<Disassembled<V>, DecodeFault>(all[i]) && all[i].offset < all[i].next by {
            if i > 0 {
                assert(all[i] == rest[i - 1]);
            }
        }
        assert forall|i: int, j: int| 0 <= i && j == i + 1 && j < all.len() implies (
        #[trigger] all[i]).next == (#[trigger] all[j]).offset by {
            assert(all[j] == rest[i]);
            if i > 0 {
                assert(all[i] == rest[i - 1]);
            }
        }
        if rest.len() > 0 {
            assert(all.last() == rest.last());
        }
    }
}

} // verus!
