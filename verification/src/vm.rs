//! The virtual machine: an instruction pointer and a value stack over one
//! chunk, advanced one instruction at a time.
//!
//! The machine decides; it does not compute with values. An instruction
//! that needs arithmetic hands its operands out, and the caller pushes the
//! result before the next step.

use crate::chunk::{Chunk, ChunkView, DecodeFault, MAX_CONSTANTS};
use crate::error::InterpretError;
use crate::opcode::{decode, OpCode};
use crate::text::{decimal, push_decimal};
use vstd::prelude::*;
use vstd::string::*;

verus! {

/// Most values the stack can hold.
pub const STACK_MAX: usize = 256;

/// An arithmetic operation on two values.
#[derive(Clone, Copy, Debug, PartialEq, Eq, Structural)]
pub enum BinaryOp {
    Add,
    Subtract,
    Multiply,
    Divide,
}

/// Why the machine cannot execute the instruction it stands at.
#[derive(Clone, Copy, Debug, PartialEq, Eq, Structural)]
pub enum RuntimeFault {
    /// The bytes at the instruction pointer are no instruction.
    Decode(DecodeFault),
    /// A push would exceed `STACK_MAX` values.
    StackOverflow,
    /// A pop found the stack with too few values.
    StackUnderflow,
}

impl RuntimeFault {
    /// The message that reports this fault.
    pub open spec fn message_text(self) -> Seq<char> {
        match self {
            RuntimeFault::Decode(DecodeFault::UnknownOpcode(byte)) => "Instruction "@ + decimal(
                byte as nat,
            ) + " not recognized!"@,
            RuntimeFault::Decode(DecodeFault::PastEnd) => "Execution ran past the end of the code."@,
            RuntimeFault::Decode(DecodeFault::MissingOperand) => "Instruction lacks its operand."@,
            RuntimeFault::Decode(DecodeFault::BadConstant(index)) => "Constant "@ + decimal(
                index as nat,
            ) + " is not in the pool."@,
            RuntimeFault::StackOverflow => "Stack overflow."@,
            RuntimeFault::StackUnderflow => "Stack underflow."@,
        }
    }

    /// The message that reports this fault.
    pub fn message(self) -> (text: String)
        ensures
            text@ == self.message_text(),
    {
        match self {
            RuntimeFault::Decode(DecodeFault::UnknownOpcode(byte)) => {
                let mut text = String::from_str("Instruction ");
                push_decimal(&mut text, byte as u64);
                text.append(" not recognized!");
                text
            },
            RuntimeFault::Decode(DecodeFault::PastEnd) => String::from_str(
                "Execution ran past the end of the code.",
            ),
            RuntimeFault::Decode(DecodeFault::MissingOperand) => String::from_str(
                "Instruction lacks its operand.",
            ),
            RuntimeFault::Decode(DecodeFault::BadConstant(index)) => {
                let mut text = String::from_str("Constant ");
                push_decimal(&mut text, index as u64);
                text.append(" is not in the pool.");
                text
            },
            RuntimeFault::StackOverflow => String::from_str("Stack overflow."),
            RuntimeFault::StackUnderflow => String::from_str("Stack underflow."),
        }
    }

    /// This fault as the runtime error that carries its message.
    pub fn into_error(self) -> (error: InterpretError)
        ensures
            reports(error, self),
    {
        InterpretError::RuntimeError(self.message())
    }
}

/// Whether `error` is the runtime error that reports `fault`.
pub open spec fn reports(error: InterpretError, fault: RuntimeFault) -> bool {
    error matches InterpretError::RuntimeError(message) && message@ == fault.message_text()
}

/// What the caller is to do after a step.
#[derive(Clone, Copy, Debug, PartialEq)]
pub enum Step<V> {
    /// Nothing: the instruction is done.
    Continue,
    /// Compute `left op right` and push the result. `left` is the value that
    /// was popped first, the top of the stack, and `right` the one under it.
    Binary { op: BinaryOp, left: V, right: V },
    /// Negate `value` and push the result.
    Negate { value: V },
    /// Show `value` as the result of the run, which ends here.
    Return { value: V },
}

/// The state of a machine, as plain values.
pub struct VmView<V> {
    /// Offset of the instruction to execute next.
    pub ip: int,
    /// The stack, bottom first.
    pub stack: Seq<V>,
}

impl<V> VmView<V> {
    /// The state before the first step.
    pub open spec fn start() -> Self {
        VmView { ip: 0, stack: Seq::empty() }
    }

    /// The bounds that hold of every state: the stack within its capacity,
    /// the instruction pointer within the code or right behind it.
    pub open spec fn wf(self, chunk: ChunkView<V>) -> bool {
        &&& self.stack.len() <= STACK_MAX
        &&& 0 <= self.ip <= chunk.code.len()
    }

    /// This state with `value` pushed, or the fault where the stack is full.
    pub open spec fn push(self, value: V) -> Result<Self, RuntimeFault> {
        if self.stack.len() >= STACK_MAX {
            Err(RuntimeFault::StackOverflow)
        } else {
            Ok(VmView { stack: self.stack.push(value), ..self })
        }
    }

    /// This state with its top value popped, and that value; or the fault
    /// where the stack is empty.
    pub open spec fn pop(self) -> Result<(Self, V), RuntimeFault> {
        if self.stack.len() == 0 {
            Err(RuntimeFault::StackUnderflow)
        } else {
            Ok((VmView { stack: self.stack.drop_last(), ..self }, self.stack.last()))
        }
    }

    /// This state with the instruction pointer moved on by `width` bytes.
    pub open spec fn advance(self, width: int) -> Self {
        VmView { ip: self.ip + width, ..self }
    }

    /// The two operands popped, the top one first, and `op` handed out; or
    /// the fault where the stack holds fewer than two values. On the fault
    /// nothing is popped.
    pub open spec fn binary(self, op: BinaryOp) -> Result<(Self, Step<V>), RuntimeFault> {
        if self.stack.len() < 2 {
            Err(RuntimeFault::StackUnderflow)
        } else {
            let left = self.stack.last();
            let right = self.stack[self.stack.len() - 2];
            Ok(
                (
                    VmView { ip: self.ip + 1, stack: self.stack.take(self.stack.len() - 2) },
                    Step::Binary { op, left, right },
                ),
            )
        }
    }

    /// One step of the machine over `chunk`: the next state and what the
    /// caller is to do, or the fault that keeps the instruction at the
    /// instruction pointer from being executed.
    pub open spec fn step(self, chunk: ChunkView<V>) -> Result<(Self, Step<V>), RuntimeFault> {
        match chunk.instruction_at(self.ip) {
            Err(fault) => Err(RuntimeFault::Decode(fault)),
            Ok(instruction) => match instruction.op {
                OpCode::Constant => match instruction.operand {
                    Some((_, value)) => match self.push(value) {
                        Ok(pushed) => Ok((pushed.advance(2), Step::Continue)),
                        Err(fault) => Err(fault),
                    },
                    None => Err(RuntimeFault::Decode(DecodeFault::MissingOperand)),
                },
                OpCode::Add => self.binary(BinaryOp::Add),
                OpCode::Subtract => self.binary(BinaryOp::Subtract),
                OpCode::Multiply => self.binary(BinaryOp::Multiply),
                OpCode::Divide => self.binary(BinaryOp::Divide),
                OpCode::Negate => match self.pop() {
                    Ok((popped, value)) => Ok((popped.advance(1), Step::Negate { value })),
                    Err(fault) => Err(fault),
                },
                OpCode::Return => match self.pop() {
                    Ok((popped, value)) => Ok((popped.advance(1), Step::Return { value })),
                    Err(fault) => Err(fault),
                },
            },
        }
    }
}

/// A machine over one chunk, which it borrows and never changes.
pub struct VM<'a, V> {
    chunk: &'a Chunk<V>,
    ip: usize,
    stack: Vec<V>,
}

impl<'a, V> View for VM<'a, V> {
    type V = VmView<V>;

    closed spec fn view(&self) -> VmView<V> {
        VmView { ip: self.ip as int, stack: self.stack@ }
    }
}

impl<'a, V: Copy> VM<'a, V> {
    /// The chunk that this machine executes.
    pub closed spec fn chunk(&self) -> ChunkView<V> {
        self.chunk@
    }

    /// A machine at the start of `chunk`, its stack empty.
    pub fn new(chunk: &'a Chunk<V>) -> (vm: Self)
        ensures
            vm@ == VmView::<V>::start(),
            vm.chunk() == chunk@,
            vm@.wf(vm.chunk()),
    {
        VM { chunk, ip: 0, stack: Vec::new() }
    }

    /// Offset of the instruction to execute next.
    pub fn ip(&self) -> (ip: usize)
        ensures
            ip == self@.ip,
    {
        self.ip
    }

    /// The stack, bottom first.
    pub fn stack(&self) -> (stack: &Vec<V>)
        ensures
            stack@ == self@.stack,
    {
        &self.stack
    }

    /// Pushes `value`, unless the stack is full: then the stack stays as it
    /// is and the error reports the overflow.
    pub fn push_value(&mut self, value: V) -> (pushed: Result<(), InterpretError>)
        ensures
            final(self).chunk() == old(self).chunk(),
            old(self)@.wf(old(self).chunk()) ==> final(self)@.wf(final(self).chunk()),
            match old(self)@.push(value) {
                Ok(next) => pushed is Ok && final(self)@ == next,
                Err(fault) => final(self)@ == old(self)@ && (pushed matches Err(error) && reports(
                    error,
                    fault,
                )),
            },
    {
        if self.stack.len() >= STACK_MAX {
            return Err(RuntimeFault::StackOverflow.into_error());
        }
        self.stack.push(value);
        Ok(())
    }

    /// Pops the top value, unless the stack is empty: then the error
    /// reports the underflow.
    pub fn pop_value(&mut self) -> (popped: Result<V, InterpretError>)
        ensures
            final(self).chunk() == old(self).chunk(),
            old(self)@.wf(old(self).chunk()) ==> final(self)@.wf(final(self).chunk()),
            match old(self)@.pop() {
                Ok((next, value)) => popped == Ok::<V, InterpretError>(value) && final(self)@
                    == next,
                Err(fault) => final(self)@ == old(self)@ && (popped matches Err(error) && reports(
                    error,
                    fault,
                )),
            },
    {
        match self.stack.pop() {
            Some(value) => {
                assert(self.stack@ =~= old(self).stack@.drop_last());
                Ok(value)
            },
            None => Err(RuntimeFault::StackUnderflow.into_error()),
        }
    }

    /// Executes a binary instruction as far as the machine can: pops the two
    /// operands, the top one first, moves past the instruction and hands
    /// both out with `op`. With fewer than two values on the stack nothing
    /// changes and the error reports the underflow.
    fn binary_op(&mut self, op: BinaryOp) -> (outcome: Result<Step<V>, InterpretError>)
        requires
            old(self)@.ip < old(self).chunk().code.len() <= usize::MAX,
        ensures
            final(self).chunk() == old(self).chunk(),
            old(self)@.wf(old(self).chunk()) ==> final(self)@.wf(final(self).chunk()),
            match old(self)@.binary(op) {
                Ok((next, action)) => final(self)@ == next && outcome == Ok::<
                    Step<V>,
                    InterpretError,
                >(action),
                Err(fault) => final(self)@ == old(self)@ && (outcome matches Err(error) && reports(
                    error,
                    fault,
                )),
            },
    {
        let depth = self.stack.len();
        if depth < 2 {
            return Err(RuntimeFault::StackUnderflow.into_error());
        }
        let left = self.stack[depth - 1];
        let right = self.stack[depth - 2];
        self.stack.truncate(depth - 2);
        self.ip = self.ip + 1;
        assert(self.stack@ =~= old(self).stack@.take(depth - 2));
        Ok(Step::Binary { op, left, right })
    }

    /// Executes the instruction at the instruction pointer and says what the
    /// caller is to do next.
    ///
    /// - `Constant` pushes the constant that its operand names.
    /// - `Add`, `Subtract`, `Multiply` and `Divide` pop two values and hand
    ///   them out; `Negate` pops one and hands it out. The caller pushes the
    ///   result with `push_value`.
    /// - `Return` pops one value and hands it out as the result of the run.
    ///
    /// Bytes that are no instruction, a push on a full stack and a pop on
    /// one with too few values are runtime errors. On an error the machine
    /// is left exactly as it was.
    pub fn step(&mut self) -> (outcome: Result<Step<V>, InterpretError>)
        ensures
            final(self).chunk() == old(self).chunk(),
            old(self)@.wf(old(self).chunk()) ==> final(self)@.wf(final(self).chunk()),
            match old(self)@.step(old(self).chunk()) {
                Ok((next, action)) => final(self)@ == next && outcome == Ok::<
                    Step<V>,
                    InterpretError,
                >(action),
                Err(fault) => final(self)@ == old(self)@ && (outcome matches Err(error) && reports(
                    error,
                    fault,
                )),
            },
    {
        let instruction = match self.chunk.instruction_at(self.ip) {
            Ok(instruction) => instruction,
            Err(fault) => {
                return Err(RuntimeFault::Decode(fault).into_error());
            },
        };
        match instruction.op {
            OpCode::Constant => {
                let value = match instruction.operand {
                    Some((_, value)) => value,
                    None => {
                        return Err(RuntimeFault::Decode(DecodeFault::MissingOperand).into_error());
                    },
                };
                match self.push_value(value) {
                    Ok(()) => {
                        self.ip = self.ip + 2;
                        Ok(Step::Continue)
                    },
                    Err(error) => Err(error),
                }
            },
            OpCode::Add => self.binary_op(BinaryOp::Add),
            OpCode::Subtract => self.binary_op(BinaryOp::Subtract),
            OpCode::Multiply => self.binary_op(BinaryOp::Multiply),
            OpCode::Divide => self.binary_op(BinaryOp::Divide),
            OpCode::Negate => match self.pop_value() {
                Ok(value) => {
                    self.ip = self.ip + 1;
                    Ok(Step::Negate { value })
                },
                Err(error) => Err(error),
            },
            OpCode::Return => match self.pop_value() {
                Ok(value) => {
                    self.ip = self.ip + 1;
                    Ok(Step::Return { value })
                },
                Err(error) => Err(error),
            },
        }
    }
}

/// A step keeps the bounds of the state: the stack within its capacity and
/// the instruction pointer within the code or right behind it.
pub proof fn lemma_step_keeps_bounds<V>(chunk: ChunkView<V>, vm: VmView<V>)
    requires
        vm.wf(chunk),
    ensures
        vm.step(chunk) matches Ok((next, _)) ==> next.wf(chunk),
{
}

/// Every step that succeeds moves the instruction pointer forward, and
/// never past the end of the code: a run takes no more steps than the code
/// has bytes.
pub proof fn lemma_step_advances<V>(chunk: ChunkView<V>, vm: VmView<V>)
    ensures
        vm.step(chunk) matches Ok((next, _)) ==> vm.ip < next.ip <= chunk.code.len(),
{
}

/// A constant that was added to the pool, and is loaded by a `Constant`
/// instruction written with the index it was given, arrives on the stack
/// as the very value that was added.
pub proof fn lemma_constant_round_trip<V>(
    chunk: ChunkView<V>,
    value: V,
    line: u32,
    vm: VmView<V>,
)
    requires
        chunk.constants.len() < MAX_CONSTANTS,
        vm.ip == chunk.code.len(),
        vm.stack.len() < STACK_MAX,
    ensures
        ({
            let index = chunk.constants.len() as u8;
            let written = chunk.add_constant(value).write(OpCode::Constant.byte(), line).write(
                index,
                line,
            );
            vm.step(written) == Ok::<(VmView<V>, Step<V>), RuntimeFault>(
                (VmView { ip: vm.ip + 2, stack: vm.stack.push(value) }, Step::Continue),
            )
        }),
{
    let index = chunk.constants.len() as u8;
    let written = chunk.add_constant(value).write(OpCode::Constant.byte(), line).write(index, line);
    assert(written.code[vm.ip] == OpCode::Constant.byte());
    assert(written.code[vm.ip + 1] == index);
    assert(written.constants[index as int] == value);
}

/// A byte that is no opcode stops the machine with the fault that names
/// the byte: the step yields no next state.
pub proof fn lemma_unknown_opcode_faults<V>(chunk: ChunkView<V>, vm: VmView<V>)
    requires
        0 <= vm.ip < chunk.code.len(),
        decode(chunk.code[vm.ip]) is None,
    ensures
        vm.step(chunk) == Err::<(VmView<V>, Step<V>), RuntimeFault>(
            RuntimeFault::Decode(DecodeFault::UnknownOpcode(chunk.code[vm.ip])),
        ),
{
}

} // verus!
