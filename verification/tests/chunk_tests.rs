use rlox::chunk::{Chunk, LineEncoding, OpCode};
use rlox::value::Value;

#[test]
fn line_encoding_new_starts_a_run_of_one() {
    let e = LineEncoding::new(7);
    assert_eq!(e.line_number, 7);
    assert_eq!(e.repetition_count, 1);
}

#[test]
fn consecutive_equal_lines_collapse_to_one_entry() {
    let mut chunk = Chunk::new();
    for _ in 0..5 {
        chunk.write_chunk(0, 3);
    }
    // Five writes on one line: one run-length entry, not five.
    assert_eq!(chunk.lines.len(), 1);
    assert_eq!(chunk.lines[0].line_number, 3);
    assert_eq!(chunk.lines[0].repetition_count, 5);
    assert_eq!(chunk.chunk_len(), 5);
}

#[test]
fn distinct_lines_open_new_entries() {
    let mut chunk = Chunk::new();
    chunk.write_chunk(1, 1);
    chunk.write_chunk(2, 1);
    chunk.write_chunk(3, 2);
    chunk.write_chunk(4, 2);
    chunk.write_chunk(5, 1);
    assert_eq!(chunk.lines.len(), 3);
    assert!(chunk.lines.len() <= chunk.chunk_len());
}

#[test]
fn get_line_resolves_each_offset() {
    let mut chunk = Chunk::new();
    chunk.write_chunk(10, 1);
    chunk.write_chunk(11, 1);
    chunk.write_chunk(12, 2);
    assert_eq!(chunk.get_line(0), 1);
    assert_eq!(chunk.get_line(1), 1);
    assert_eq!(chunk.get_line(2), 2);
    // Past the end: the explicit unknown-line sentinel.
    assert_eq!(chunk.get_line(3), 0);
    assert_eq!(chunk.get_line(100), 0);
}

#[test]
fn get_line_on_empty_chunk_is_sentinel() {
    let chunk = Chunk::new();
    assert_eq!(chunk.get_line(0), 0);
}

#[test]
fn add_constant_returns_new_index() {
    let mut chunk = Chunk::new();
    let first = chunk.add_constant(Value::new(1));
    let second = chunk.add_constant(Value::new(2));
    assert_eq!(first, 0);
    assert_eq!(second, 1);
    assert_eq!(chunk.constants.len(), 2);
    assert_eq!(chunk.constants.values[1], Value::new(2));
}

#[test]
fn opcode_bytes_round_trip() {
    let all = [
        OpCode::OpConstant,
        OpCode::OpAdd,
        OpCode::OpSubtract,
        OpCode::OpMultiply,
        OpCode::OpDivide,
        OpCode::OpNegate,
        OpCode::OpReturn,
    ];
    for (i, op) in all.iter().enumerate() {
        let byte = op.to_byte();
        assert_eq!(byte as usize, i);
        assert_eq!(OpCode::from_u8(byte), Some(*op));
    }
    assert_eq!(OpCode::from_u8(7), None);
    assert_eq!(OpCode::from_u8(255), None);
}
