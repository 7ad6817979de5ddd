use rlox::chunk::{Chunk, OpCode};
use rlox::debug::{disassemble_chunk, disassemble_instruction, Instr};
use rlox::value::Value;

fn sample_chunk() -> Chunk {
    let mut chunk = Chunk::new();
    let index = chunk.add_constant(Value::new(42));
    chunk.write_chunk(OpCode::OpConstant.to_byte(), 1);
    chunk.write_chunk(index, 1);
    chunk.write_chunk(OpCode::OpAdd.to_byte(), 1);
    chunk.write_chunk(OpCode::OpReturn.to_byte(), 2);
    chunk
}

#[test]
fn instruction_decoding_and_next_offset() {
    let chunk = sample_chunk();
    let (first, next) = disassemble_instruction(&chunk, 0);
    assert_eq!(first.offset, 0);
    assert_eq!(first.line, 1);
    assert_eq!(first.instr, Instr::Constant { index: 0, value: Some(Value::new(42)) });
    assert_eq!(next, 2);
    let (second, next) = disassemble_instruction(&chunk, next);
    assert_eq!(second.instr, Instr::Add);
    assert_eq!(next, 3);
    let (third, next) = disassemble_instruction(&chunk, next);
    assert_eq!(third.instr, Instr::Return);
    assert_eq!(third.line, 2);
    assert_eq!(next, 4);
}

#[test]
fn chunk_walk_partitions_the_code() {
    let chunk = sample_chunk();
    let listing = disassemble_chunk(&chunk);
    assert_eq!(listing.len(), 3);
    assert_eq!(listing[0].offset, 0);
    assert_eq!(listing[1].offset, 2);
    assert_eq!(listing[2].offset, 3);
    // Consecutive offsets abut: the walk consumes exactly the code length.
    let mut consumed = 0;
    for (i, entry) in listing.iter().enumerate() {
        assert_eq!(entry.offset, consumed);
        let width = if i + 1 < listing.len() {
            listing[i + 1].offset - entry.offset
        } else {
            chunk.chunk_len() - entry.offset
        };
        consumed += width;
    }
    assert_eq!(consumed, chunk.chunk_len());
}

#[test]
fn unknown_opcode_renders_fail_soft() {
    let mut chunk = Chunk::new();
    chunk.write_chunk(250, 9);
    chunk.write_chunk(OpCode::OpReturn.to_byte(), 9);
    let listing = disassemble_chunk(&chunk);
    assert_eq!(listing.len(), 2);
    assert_eq!(listing[0].instr, Instr::Unknown { byte: 250 });
    assert_eq!(listing[0].line, 9);
    assert_eq!(listing[1].instr, Instr::Return);
}

#[test]
fn truncated_constant_renders_fail_soft() {
    let mut chunk = Chunk::new();
    chunk.write_chunk(OpCode::OpConstant.to_byte(), 1);
    let listing = disassemble_chunk(&chunk);
    assert_eq!(listing.len(), 1);
    assert_eq!(listing[0].instr, Instr::TruncatedConstant);
}

#[test]
fn constant_index_outside_pool_has_no_value() {
    let mut chunk = Chunk::new();
    chunk.write_chunk(OpCode::OpConstant.to_byte(), 1);
    chunk.write_chunk(7, 1);
    let listing = disassemble_chunk(&chunk);
    assert_eq!(listing.len(), 1);
    assert_eq!(listing[0].instr, Instr::Constant { index: 7, value: None });
}

#[test]
fn empty_chunk_disassembles_to_nothing() {
    let chunk = Chunk::new();
    assert!(disassemble_chunk(&chunk).is_empty());
}
