use lox_core::chunk::{DecodeFault, Instruction, MAX_CONSTANTS};
use lox_core::vm::{BinaryOp, RuntimeFault, Step, STACK_MAX, VM};
use lox_core::{Chunk, InterpretError, OpCode};

fn constant(chunk: &mut Chunk<f64>, value: f64, line: u32) {
    let index = chunk.add_constant(value).unwrap();
    chunk.write(OpCode::Constant.to_u8(), line);
    chunk.write(index, line);
}

fn apply(op: BinaryOp, left: f64, right: f64) -> f64 {
    match op {
        BinaryOp::Add => left + right,
        BinaryOp::Subtract => left - right,
        BinaryOp::Multiply => left * right,
        BinaryOp::Divide => left / right,
    }
}

/// Runs the machine to its `Return` and gives what it would print.
fn run(vm: &mut VM<f64>) -> Result<String, InterpretError> {
    loop {
        match vm.step()? {
            Step::Continue => {}
            Step::Binary { op, left, right } => vm.push_value(apply(op, left, right))?,
            Step::Negate { value } => vm.push_value(-1.0 * value)?,
            Step::Return { value } => return Ok(format!("{:.6}", value)),
        }
    }
}

fn run_chunk(chunk: &Chunk<f64>) -> Result<String, InterpretError> {
    let mut vm = VM::new(chunk);
    run(&mut vm)
}

fn runtime_message(result: Result<String, InterpretError>) -> String {
    match result {
        Err(InterpretError::RuntimeError(message)) => message,
        other => panic!("expected a runtime error, got {:?}", other),
    }
}

#[test]
fn opcode_bytes_round_trip() {
    let all = [
        OpCode::Constant,
        OpCode::Add,
        OpCode::Subtract,
        OpCode::Multiply,
        OpCode::Divide,
        OpCode::Negate,
        OpCode::Return,
    ];
    for (byte, op) in all.iter().enumerate() {
        assert_eq!(op.to_u8() as usize, byte);
        assert_eq!(OpCode::from_u8(byte as u8), Some(*op));
    }
    for byte in 7..=255u8 {
        assert_eq!(OpCode::from_u8(byte), None);
    }
}

#[test]
fn constant_is_pushed_bit_for_bit() {
    for value in [1.2, -0.0, 0.1 + 0.2, f64::MAX, f64::MIN_POSITIVE, f64::INFINITY] {
        let mut chunk = Chunk::new();
        constant(&mut chunk, value, 1);
        let mut vm = VM::new(&chunk);
        assert_eq!(vm.step().unwrap(), Step::Continue);
        assert_eq!(vm.stack().len(), 1);
        assert_eq!(vm.stack()[0].to_bits(), value.to_bits());
        assert_eq!(vm.ip(), 2);
    }
}

#[test]
fn the_value_popped_first_is_the_left_operand() {
    let mut chunk = Chunk::new();
    constant(&mut chunk, 5.0, 1);
    constant(&mut chunk, 2.0, 1);
    chunk.write(OpCode::Subtract.to_u8(), 1);
    let mut vm = VM::new(&chunk);
    vm.step().unwrap();
    vm.step().unwrap();
    assert_eq!(
        vm.step().unwrap(),
        Step::Binary { op: BinaryOp::Subtract, left: 2.0, right: 5.0 }
    );
    assert_eq!(vm.stack().len(), 0);
    assert_eq!(vm.ip(), 5);
}

#[test]
fn subtract_depends_on_the_order_of_the_pushes() {
    let mut chunk = Chunk::new();
    constant(&mut chunk, 5.0, 1);
    constant(&mut chunk, 2.0, 1);
    chunk.write(OpCode::Subtract.to_u8(), 1);
    chunk.write(OpCode::Return.to_u8(), 1);
    assert_eq!(run_chunk(&chunk).unwrap(), "-3.000000");

    let mut swapped = Chunk::new();
    constant(&mut swapped, 2.0, 1);
    constant(&mut swapped, 5.0, 1);
    swapped.write(OpCode::Subtract.to_u8(), 1);
    swapped.write(OpCode::Return.to_u8(), 1);
    assert_eq!(run_chunk(&swapped).unwrap(), "3.000000");
}

#[test]
fn divide_depends_on_the_order_of_the_pushes() {
    let mut chunk = Chunk::new();
    constant(&mut chunk, 2.0, 1);
    constant(&mut chunk, 8.0, 1);
    chunk.write(OpCode::Divide.to_u8(), 1);
    chunk.write(OpCode::Return.to_u8(), 1);
    assert_eq!(run_chunk(&chunk).unwrap(), "4.000000");
}

#[test]
fn division_by_zero_is_no_error() {
    let mut chunk = Chunk::new();
    constant(&mut chunk, 0.0, 1);
    constant(&mut chunk, 1.0, 1);
    chunk.write(OpCode::Divide.to_u8(), 1);
    chunk.write(OpCode::Return.to_u8(), 1);
    assert_eq!(run_chunk(&chunk).unwrap(), "inf");
}

#[test]
fn add_and_multiply() {
    let mut chunk = Chunk::new();
    constant(&mut chunk, 1.5, 1);
    constant(&mut chunk, 2.25, 1);
    chunk.write(OpCode::Add.to_u8(), 1);
    constant(&mut chunk, 4.0, 2);
    chunk.write(OpCode::Multiply.to_u8(), 2);
    chunk.write(OpCode::Return.to_u8(), 2);
    assert_eq!(run_chunk(&chunk).unwrap(), "15.000000");
}

#[test]
fn negate_then_return() {
    let mut chunk = Chunk::new();
    constant(&mut chunk, 1.2, 1);
    chunk.write(OpCode::Negate.to_u8(), 1);
    chunk.write(OpCode::Return.to_u8(), 1);
    assert_eq!(run_chunk(&chunk).unwrap(), "-1.200000");
}

#[test]
fn return_pops_the_result() {
    let mut chunk = Chunk::new();
    constant(&mut chunk, 7.0, 1);
    chunk.write(OpCode::Return.to_u8(), 1);
    let mut vm = VM::new(&chunk);
    vm.step().unwrap();
    assert_eq!(vm.step().unwrap(), Step::Return { value: 7.0 });
    assert_eq!(vm.stack().len(), 0);
    assert_eq!(vm.ip(), 3);
}

#[test]
fn unknown_opcode_is_a_runtime_error() {
    let mut chunk = Chunk::new();
    constant(&mut chunk, 1.0, 1);
    chunk.write(200, 1);
    chunk.write(OpCode::Return.to_u8(), 1);
    let mut vm = VM::new(&chunk);
    vm.step().unwrap();
    match vm.step() {
        Err(InterpretError::RuntimeError(message)) => {
            assert_eq!(message, "Instruction 200 not recognized!")
        }
        other => panic!("expected a runtime error, got {:?}", other),
    }
    // the machine is as it was before the failed step, however often it is asked
    assert_eq!(vm.ip(), 2);
    assert_eq!(vm.stack(), &vec![1.0]);
    assert!(vm.step().is_err());
    assert_eq!(vm.ip(), 2);
    assert_eq!(vm.stack(), &vec![1.0]);
    for byte in [7u8, 9, 77, 255] {
        let mut bad = Chunk::<f64>::new();
        bad.write(byte, 1);
        assert_eq!(
            runtime_message(run_chunk(&bad)),
            format!("Instruction {byte} not recognized!")
        );
    }
}

#[test]
fn running_off_the_end_is_a_runtime_error() {
    let mut chunk = Chunk::new();
    constant(&mut chunk, 1.0, 1);
    assert_eq!(
        runtime_message(run_chunk(&chunk)),
        "Execution ran past the end of the code."
    );
    let empty = Chunk::<f64>::new();
    assert_eq!(
        runtime_message(run_chunk(&empty)),
        "Execution ran past the end of the code."
    );
}

#[test]
fn operand_faults_are_runtime_errors() {
    let mut missing = Chunk::<f64>::new();
    missing.write(OpCode::Constant.to_u8(), 1);
    assert_eq!(runtime_message(run_chunk(&missing)), "Instruction lacks its operand.");

    let mut bad = Chunk::new();
    bad.add_constant(1.0).unwrap();
    bad.write(OpCode::Constant.to_u8(), 1);
    bad.write(1, 1);
    assert_eq!(runtime_message(run_chunk(&bad)), "Constant 1 is not in the pool.");
}

#[test]
fn stack_underflow_is_a_runtime_error() {
    for op in [OpCode::Add, OpCode::Negate, OpCode::Return] {
        let mut chunk = Chunk::<f64>::new();
        chunk.write(op.to_u8(), 1);
        assert_eq!(runtime_message(run_chunk(&chunk)), "Stack underflow.");
    }
    // one value is not enough for a binary operation, and it stays where it is
    let mut chunk = Chunk::new();
    constant(&mut chunk, 3.0, 1);
    chunk.write(OpCode::Multiply.to_u8(), 1);
    let mut vm = VM::new(&chunk);
    vm.step().unwrap();
    assert!(vm.step().is_err());
    assert_eq!(vm.stack(), &vec![3.0]);
    assert_eq!(vm.ip(), 2);
    assert!(vm.pop_value().is_ok());
    match vm.pop_value() {
        Err(InterpretError::RuntimeError(message)) => assert_eq!(message, "Stack underflow."),
        other => panic!("expected a runtime error, got {:?}", other),
    }
}

#[test]
fn stack_overflow_is_a_runtime_error() {
    let mut chunk = Chunk::new();
    let index = chunk.add_constant(1.0).unwrap();
    for _ in 0..=STACK_MAX {
        chunk.write(OpCode::Constant.to_u8(), 1);
        chunk.write(index, 1);
    }
    let mut vm = VM::new(&chunk);
    for _ in 0..STACK_MAX {
        assert_eq!(vm.step().unwrap(), Step::Continue);
    }
    assert_eq!(vm.stack().len(), STACK_MAX);
    assert_eq!(STACK_MAX, 256);
    let before = vm.ip();
    match vm.step() {
        Err(InterpretError::RuntimeError(message)) => assert_eq!(message, "Stack overflow."),
        other => panic!("expected a runtime error, got {:?}", other),
    }
    assert_eq!(vm.ip(), before);
    assert_eq!(vm.stack().len(), STACK_MAX);
    assert!(vm.push_value(2.0).is_err());
    assert_eq!(vm.stack().len(), STACK_MAX);
}

#[test]
fn fault_messages() {
    assert_eq!(RuntimeFault::StackOverflow.message(), "Stack overflow.");
    assert_eq!(RuntimeFault::StackUnderflow.message(), "Stack underflow.");
    assert_eq!(
        RuntimeFault::Decode(DecodeFault::UnknownOpcode(0)).message(),
        "Instruction 0 not recognized!"
    );
    assert_eq!(
        RuntimeFault::Decode(DecodeFault::BadConstant(255)).message(),
        "Constant 255 is not in the pool."
    );
    match RuntimeFault::Decode(DecodeFault::UnknownOpcode(42)).into_error() {
        InterpretError::RuntimeError(message) => {
            assert_eq!(message, "Instruction 42 not recognized!")
        }
        other => panic!("expected a runtime error, got {:?}", other),
    }
}

#[test]
fn chunk_grows_by_writes() {
    let mut chunk = Chunk::<f64>::new();
    assert_eq!(chunk.len(), 0);
    assert_eq!(chunk.byte_at(0), None);
    chunk.write(6, 10);
    chunk.write(1, 11);
    assert_eq!(chunk.len(), 2);
    assert_eq!(chunk.byte_at(0), Some(6));
    assert_eq!(chunk.byte_at(1), Some(1));
    assert_eq!(chunk.byte_at(2), None);
    assert_eq!(chunk.line_at(0), Some(10));
    assert_eq!(chunk.line_at(1), Some(11));
    assert_eq!(chunk.line_at(2), None);
}

#[test]
fn constants_get_their_indices_in_order() {
    let mut chunk = Chunk::new();
    assert_eq!(chunk.add_constant(1.5).unwrap(), 0);
    assert_eq!(chunk.add_constant(2.5).unwrap(), 1);
    assert_eq!(chunk.add_constant(1.5).unwrap(), 2);
    assert_eq!(chunk.constant_at(0), Some(1.5));
    assert_eq!(chunk.constant_at(1), Some(2.5));
    assert_eq!(chunk.constant_at(2), Some(1.5));
    assert_eq!(chunk.constant_at(3), None);
    assert_eq!(chunk.len(), 0);
}

#[test]
fn the_pool_has_a_ceiling() {
    let mut chunk = Chunk::new();
    assert_eq!(MAX_CONSTANTS, 256);
    for i in 0..MAX_CONSTANTS {
        assert_eq!(chunk.add_constant(i as f64).unwrap() as usize, i);
    }
    match chunk.add_constant(0.5) {
        Err(InterpretError::CompileError(message)) => {
            assert_eq!(message, "Too many constants in one chunk.")
        }
        other => panic!("expected a compile error, got {:?}", other),
    }
    assert_eq!(chunk.constant_at(255), Some(255.0));
    assert!(chunk.add_constant(0.5).is_err());
}

#[test]
fn instructions_decode_or_say_why_not() {
    let mut chunk = Chunk::new();
    constant(&mut chunk, 9.5, 1);
    chunk.write(OpCode::Negate.to_u8(), 1);
    chunk.write(99, 1);
    chunk.write(OpCode::Constant.to_u8(), 1);
    chunk.write(7, 1);
    chunk.write(OpCode::Constant.to_u8(), 1);
    assert_eq!(
        chunk.instruction_at(0),
        Ok(Instruction { op: OpCode::Constant, operand: Some((0, 9.5)) })
    );
    assert_eq!(chunk.instruction_at(2), Ok(Instruction { op: OpCode::Negate, operand: None }));
    assert_eq!(chunk.instruction_at(3), Err(DecodeFault::UnknownOpcode(99)));
    assert_eq!(chunk.instruction_at(4), Err(DecodeFault::BadConstant(7)));
    assert_eq!(chunk.instruction_at(6), Err(DecodeFault::MissingOperand));
    assert_eq!(chunk.instruction_at(7), Err(DecodeFault::PastEnd));
    assert_eq!(chunk.instruction_at(usize::MAX), Err(DecodeFault::PastEnd));
}
