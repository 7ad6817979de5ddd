use rlox::chunk::{Chunk, OpCode};
use rlox::value::Value;
use rlox::vm::{BinaryOp, InterpretResult, ValueOps, VM};

/// IEEE 754 double arithmetic over the machine's opaque 64-bit values.
struct F64Ops;

impl ValueOps for F64Ops {
    fn binary(&self, op: BinaryOp, a: Value, b: Value) -> Value {
        let x = f64::from_bits(a.bits);
        let y = f64::from_bits(b.bits);
        let r = match op {
            BinaryOp::Add => x + y,
            BinaryOp::Subtract => x - y,
            BinaryOp::Multiply => x * y,
            BinaryOp::Divide => x / y,
        };
        Value::new(r.to_bits())
    }

    fn negate(&self, a: Value) -> Value {
        Value::new((-f64::from_bits(a.bits)).to_bits())
    }
}

fn number(x: f64) -> Value {
    Value::new(x.to_bits())
}

fn as_f64(v: Value) -> f64 {
    f64::from_bits(v.bits)
}

fn emit_constant(chunk: &mut Chunk, x: f64, line: i32) {
    let index = chunk.add_constant(number(x));
    chunk.write_chunk(OpCode::OpConstant.to_byte(), line);
    chunk.write_chunk(index, line);
}

#[test]
fn add_two_constants_and_return() {
    let mut chunk = Chunk::new();
    emit_constant(&mut chunk, 1.2, 1);
    emit_constant(&mut chunk, 3.4, 1);
    chunk.write_chunk(OpCode::OpAdd.to_byte(), 1);
    chunk.write_chunk(OpCode::OpReturn.to_byte(), 2);
    let mut vm = VM::new();
    let (result, value) = vm.interpret(&chunk, &F64Ops);
    assert_eq!(result, InterpretResult::InterpretOk);
    assert!((as_f64(value.unwrap()) - 4.6).abs() < 1e-9);
    assert_eq!(vm.stack.len(), 0);
}

#[test]
fn subtract_multiply_divide_negate() {
    // -((1.2 + 3.4) / 5.6) computed instruction by instruction.
    let mut chunk = Chunk::new();
    emit_constant(&mut chunk, 1.2, 1);
    emit_constant(&mut chunk, 3.4, 1);
    chunk.write_chunk(OpCode::OpAdd.to_byte(), 1);
    emit_constant(&mut chunk, 5.6, 1);
    chunk.write_chunk(OpCode::OpDivide.to_byte(), 1);
    chunk.write_chunk(OpCode::OpNegate.to_byte(), 1);
    chunk.write_chunk(OpCode::OpReturn.to_byte(), 1);
    let mut vm = VM::new();
    let (result, value) = vm.interpret(&chunk, &F64Ops);
    assert_eq!(result, InterpretResult::InterpretOk);
    assert!((as_f64(value.unwrap()) - (-((1.2 + 3.4) / 5.6))).abs() < 1e-9);

    let mut chunk = Chunk::new();
    emit_constant(&mut chunk, 7.0, 1);
    emit_constant(&mut chunk, 2.5, 1);
    chunk.write_chunk(OpCode::OpSubtract.to_byte(), 1);
    emit_constant(&mut chunk, 4.0, 1);
    chunk.write_chunk(OpCode::OpMultiply.to_byte(), 1);
    chunk.write_chunk(OpCode::OpReturn.to_byte(), 1);
    let (result, value) = vm.interpret(&chunk, &F64Ops);
    assert_eq!(result, InterpretResult::InterpretOk);
    assert!((as_f64(value.unwrap()) - 18.0).abs() < 1e-9);
}

#[test]
fn binary_operands_pop_in_reverse_push_order() {
    // push(a); push(b); subtract computes a - b, not b - a.
    let mut chunk = Chunk::new();
    emit_constant(&mut chunk, 10.0, 1);
    emit_constant(&mut chunk, 4.0, 1);
    chunk.write_chunk(OpCode::OpSubtract.to_byte(), 1);
    chunk.write_chunk(OpCode::OpReturn.to_byte(), 1);
    let mut vm = VM::new();
    let (result, value) = vm.interpret(&chunk, &F64Ops);
    assert_eq!(result, InterpretResult::InterpretOk);
    assert!((as_f64(value.unwrap()) - 6.0).abs() < 1e-9);
}

#[test]
fn division_by_zero_follows_ieee() {
    let mut chunk = Chunk::new();
    emit_constant(&mut chunk, 1.0, 1);
    emit_constant(&mut chunk, 0.0, 1);
    chunk.write_chunk(OpCode::OpDivide.to_byte(), 1);
    chunk.write_chunk(OpCode::OpReturn.to_byte(), 1);
    let mut vm = VM::new();
    let (result, value) = vm.interpret(&chunk, &F64Ops);
    assert_eq!(result, InterpretResult::InterpretOk);
    assert!(as_f64(value.unwrap()).is_infinite());
}

#[test]
fn return_reports_exactly_the_pushed_constant() {
    let mut chunk = Chunk::new();
    let index = chunk.add_constant(Value::new(0x4012_3456_789a_bcde));
    chunk.write_chunk(OpCode::OpConstant.to_byte(), 1);
    chunk.write_chunk(index, 1);
    chunk.write_chunk(OpCode::OpReturn.to_byte(), 1);
    let mut vm = VM::new();
    let (result, value) = vm.interpret(&chunk, &F64Ops);
    assert_eq!(result, InterpretResult::InterpretOk);
    assert_eq!(value, Some(Value::new(0x4012_3456_789a_bcde)));
    // The machine stopped right after the return instruction.
    assert_eq!(vm.ip, 3);
}

#[test]
fn unknown_opcode_terminates_with_compile_error() {
    let mut chunk = Chunk::new();
    chunk.write_chunk(99, 1);
    // Junk past the unknown byte is never executed.
    chunk.write_chunk(OpCode::OpReturn.to_byte(), 1);
    let mut vm = VM::new();
    let (result, value) = vm.interpret(&chunk, &F64Ops);
    assert_eq!(result, InterpretResult::InterpretCompileError);
    assert_eq!(value, None);
    assert_eq!(vm.stack.len(), 0);
    // Exactly the one unknown byte was fetched.
    assert_eq!(vm.ip, 1);
}

#[test]
fn empty_chunk_is_compile_error() {
    let chunk = Chunk::new();
    let mut vm = VM::new();
    let (result, value) = vm.interpret(&chunk, &F64Ops);
    assert_eq!(result, InterpretResult::InterpretCompileError);
    assert_eq!(value, None);
}

#[test]
fn truncated_constant_is_compile_error() {
    let mut chunk = Chunk::new();
    chunk.write_chunk(OpCode::OpConstant.to_byte(), 1);
    let mut vm = VM::new();
    let (result, _) = vm.interpret(&chunk, &F64Ops);
    assert_eq!(result, InterpretResult::InterpretCompileError);
}

#[test]
fn constant_index_outside_pool_is_compile_error() {
    let mut chunk = Chunk::new();
    chunk.write_chunk(OpCode::OpConstant.to_byte(), 1);
    chunk.write_chunk(3, 1);
    let mut vm = VM::new();
    let (result, _) = vm.interpret(&chunk, &F64Ops);
    assert_eq!(result, InterpretResult::InterpretCompileError);
}

#[test]
fn return_on_empty_stack_is_runtime_error() {
    let mut chunk = Chunk::new();
    chunk.write_chunk(OpCode::OpReturn.to_byte(), 1);
    let mut vm = VM::new();
    let (result, value) = vm.interpret(&chunk, &F64Ops);
    assert_eq!(result, InterpretResult::InterpretRuntimeError);
    assert_eq!(value, None);
}

#[test]
fn add_on_short_stack_is_runtime_error() {
    let mut chunk = Chunk::new();
    emit_constant(&mut chunk, 1.0, 1);
    chunk.write_chunk(OpCode::OpAdd.to_byte(), 1);
    let mut vm = VM::new();
    let (result, _) = vm.interpret(&chunk, &F64Ops);
    assert_eq!(result, InterpretResult::InterpretRuntimeError);
}

#[test]
fn pop_on_empty_stack_is_defined() {
    let mut vm = VM::new();
    assert_eq!(vm.pop(), None);
    assert!(vm.push(number(2.0)));
    assert_eq!(vm.pop(), Some(number(2.0)));
    assert_eq!(vm.pop(), None);
}

#[test]
fn push_past_capacity_is_refused() {
    let mut vm = VM::new();
    for _ in 0..256 {
        assert!(vm.push(number(0.0)));
    }
    assert!(!vm.push(number(0.0)));
    assert_eq!(vm.stack.len(), 256);
}

#[test]
fn stack_overflow_during_interpretation_is_runtime_error() {
    // 257 pushed constants overflow the 256-slot stack.
    let mut chunk = Chunk::new();
    let index = chunk.add_constant(number(1.0));
    for _ in 0..257 {
        chunk.write_chunk(OpCode::OpConstant.to_byte(), 1);
        chunk.write_chunk(index, 1);
    }
    chunk.write_chunk(OpCode::OpReturn.to_byte(), 1);
    let mut vm = VM::new();
    let (result, _) = vm.interpret(&chunk, &F64Ops);
    assert_eq!(result, InterpretResult::InterpretRuntimeError);
}
