use vstd::prelude::*;

use crate::chunk::{spec_opcode_of, Chunk, OpCode};
use crate::value::Value;

verus! {

/// One decoded instruction, ready for rendering. Malformed bytecode is a
/// representable outcome, never a failure: an unknown opcode byte and a
/// constant instruction cut off by the end of the code each become their
/// own variant, and a constant index outside the pool resolves to no
/// value.
#[derive(Clone, Copy, PartialEq, Debug)]
pub enum Instr {
    Constant { index: u8, value: Option<Value> },
    Add,
    Subtract,
    Multiply,
    Divide,
    Negate,
    Return,
    Unknown { byte: u8 },
    TruncatedConstant,
}

/// One entry of a disassembly listing: an instruction's byte offset, its
/// resolved source line (0 when unknown), and the decoded instruction.
#[derive(Clone, Copy, PartialEq, Debug)]
pub struct InstrLine {
    pub offset: usize,
    pub line: i32,
    pub instr: Instr,
}

/// How many code bytes the instruction at `off` covers: two for a constant
/// instruction with its operand byte present, one for everything else —
/// including unknown bytes and a truncated constant, so that walking the
/// code always makes progress.
pub open spec fn spec_instr_size(code: Seq<u8>, off: int) -> int {
    if spec_opcode_of(code[off]) == Some(OpCode::OpConstant) && off + 1 < code.len() {
        2
    } else {
        1
    }
}

/// The decoding of the instruction at `off`.
pub open spec fn spec_instr_at(code: Seq<u8>, consts: Seq<Value>, off: int) -> Instr {
    match spec_opcode_of(code[off]) {
        Some(OpCode::OpConstant) => {
            if off + 1 >= code.len() {
                Instr::TruncatedConstant
            } else {
                let index = code[off + 1];
                Instr::Constant {
                    index,
                    value: if index < consts.len() {
                        Some(consts[index as int])
                    } else {
                        None
                    },
                }
            }
        },
        Some(OpCode::OpAdd) => Instr::Add,
        Some(OpCode::OpSubtract) => Instr::Subtract,
        Some(OpCode::OpMultiply) => Instr::Multiply,
        Some(OpCode::OpDivide) => Instr::Divide,
        Some(OpCode::OpNegate) => Instr::Negate,
        Some(OpCode::OpReturn) => Instr::Return,
        None => Instr::Unknown { byte: code[off] },
    }
}

/// The byte offsets of all instructions from `off` to the end of the code.
pub open spec fn spec_instr_offsets(code: Seq<u8>, off: int) -> Seq<int>
    decreases code.len() - off,
{
    if off < 0 || off >= code.len() {
        Seq::empty()
    } else {
        seq![off] + spec_instr_offsets(code, off + spec_instr_size(code, off))
    }
}

/// Round trip of the instruction walk: the offsets partition the code with
/// no gaps and no overlaps. They start at zero, each instruction ends where
/// the next begins, and the last ends exactly at the code's length, so a
/// full disassembly consumes exactly `code.len()` bytes.
pub proof fn lemma_disassembly_partitions(code: Seq<u8>)
    ensures
        ({
            let offs = spec_instr_offsets(code, 0);
            &&& (offs.len() == 0 <==> code.len() == 0)
            &&& (offs.len() > 0 ==> offs[0] == 0)
            &&& (forall|i: int| 0 <= i < offs.len() ==> 0 <= #[trigger] offs[i] < code.len())
            &&& (forall|i: int|
                0 <= i < offs.len() - 1 ==> #[trigger] offs[i + 1] == offs[i] + spec_instr_size(
                    code,
                    offs[i],
                ))
            &&& (offs.len() > 0 ==> offs.last() + spec_instr_size(code, offs.last())
                == code.len())
        }),
{
    if code.len() > 0 {
        lemma_partition_from(code, 0);
    }
}

/// The partition facts for a walk that starts at any valid offset.
pub proof fn lemma_partition_from(code: Seq<u8>, off: int)
    requires
        0 <= off < code.len(),
    ensures
        ({
            let offs = spec_instr_offsets(code, off);
            &&& offs.len() > 0
            &&& offs[0] == off
            &&& (forall|i: int| 0 <= i < offs.len() ==> off <= #[trigger] offs[i] < code.len())
            &&& (forall|i: int|
                0 <= i < offs.len() - 1 ==> #[trigger] offs[i + 1] == offs[i] + spec_instr_size(
                    code,
                    offs[i],
                ))
            &&& offs.last() + spec_instr_size(code, offs.last()) == code.len()
        }),
    decreases code.len() - off,
{
    let size = spec_instr_size(code, off);
    let next = off + size;
    assert(1 <= size <= 2);
    assert(next <= code.len());
    let offs = spec_instr_offsets(code, off);
    let rest = spec_instr_offsets(code, next);
    assert(offs == seq![off] + rest);
    if next < code.len() {
        lemma_partition_from(code, next);
        assert(forall|i: int| 0 <= i < rest.len() ==> offs[i + 1] == #[trigger] rest[i]);
        assert(offs.last() == rest.last());
    } else {
        assert(rest =~= Seq::<int>::empty());
        assert(offs.len() == 1);
    }
}

/// Decodes the one instruction at `offset` and returns it together with
/// the offset of the next instruction. Fail-soft on malformed bytecode:
/// the walk always advances and never gets stuck.
pub fn disassemble_instruction(chunk: &Chunk, offset: usize) -> (r: (InstrLine, usize))
    requires
        chunk.wf(),
        offset < chunk.code@.len(),
    ensures
        r.0.offset == offset,
        r.0.line == chunk.line_seq()[offset as int],
        r.0.instr == spec_instr_at(chunk.code@, chunk.constants.values@, offset as int),
        r.1 == offset + spec_instr_size(chunk.code@, offset as int),
        offset < r.1 <= chunk.code@.len(),
{
    let clen = chunk.code.len();
    let line = chunk.get_line(offset);
    let byte = chunk.code[offset];
    match OpCode::from_u8(byte) {
        Some(OpCode::OpConstant) => {
            if offset + 1 >= clen {
                (InstrLine { offset, line, instr: Instr::TruncatedConstant }, offset + 1)
            } else {
                let index = chunk.code[offset + 1];
                let value = if (index as usize) < chunk.constants.len() {
                    Some(chunk.constants.values[index as usize])
                } else {
                    None
                };
                (InstrLine { offset, line, instr: Instr::Constant { index, value } }, offset + 2)
            }
        },
        Some(OpCode::OpAdd) => (InstrLine { offset, line, instr: Instr::Add }, offset + 1),
        Some(OpCode::OpSubtract) => (
            InstrLine { offset, line, instr: Instr::Subtract },
            offset + 1,
        ),
        Some(OpCode::OpMultiply) => (
            InstrLine { offset, line, instr: Instr::Multiply },
            offset + 1,
        ),
        Some(OpCode::OpDivide) => (InstrLine { offset, line, instr: Instr::Divide }, offset + 1),
        Some(OpCode::OpNegate) => (InstrLine { offset, line, instr: Instr::Negate }, offset + 1),
        Some(OpCode::OpReturn) => (InstrLine { offset, line, instr: Instr::Return }, offset + 1),
        None => (InstrLine { offset, line, instr: Instr::Unknown { byte } }, offset + 1),
    }
}

/// Walks the whole chunk and decodes every instruction, in offset order:
/// one listing entry per instruction offset of the partition.
pub fn disassemble_chunk(chunk: &Chunk) -> (r: Vec<InstrLine>)
    requires
        chunk.wf(),
    ensures
        ({
            let offs = spec_instr_offsets(chunk.code@, 0);
            &&& r@.len() == offs.len()
            &&& (forall|i: int|
                0 <= i < offs.len() ==> (#[trigger] r@[i]).offset == offs[i] && r@[i].instr
                    == spec_instr_at(chunk.code@, chunk.constants.values@, offs[i]) && r@[i].line
                    == chunk.line_seq()[offs[i]])
        }),
{
    let ghost code = chunk.code@;
    let clen = chunk.code.len();
    let mut r: Vec<InstrLine> = Vec::new();
    let mut offset: usize = 0;
    while offset < clen
        invariant
            chunk.wf(),
            chunk.code@ == code,
            clen == code.len(),
            offset <= code.len(),
            spec_instr_offsets(code, 0) =~= r@.map_values(|il: InstrLine| il.offset as int)
                + spec_instr_offsets(code, offset as int),
            forall|i: int|
                0 <= i < r@.len() ==> (#[trigger] r@[i]).instr == spec_instr_at(
                    code,
                    chunk.constants.values@,
                    r@[i].offset as int,
                ) && r@[i].line == chunk.line_seq()[r@[i].offset as int],
        decreases code.len() - offset,
    {
        let ghost r_before = r@;
        let (il, next) = disassemble_instruction(chunk, offset);
        r.push(il);
        proof {
            assert(spec_instr_offsets(code, offset as int) == seq![offset as int]
                + spec_instr_offsets(code, next as int));
            assert(r@.map_values(|x: InstrLine| x.offset as int) =~= r_before.map_values(
                |x: InstrLine| x.offset as int,
            ).push(offset as int));
            assert(r_before.map_values(|x: InstrLine| x.offset as int).push(offset as int)
                + spec_instr_offsets(code, next as int) =~= r_before.map_values(
                |x: InstrLine| x.offset as int,
            ) + spec_instr_offsets(code, offset as int));
        }
        offset = next;
    }
    proof {
        assert(spec_instr_offsets(code, offset as int) =~= Seq::<int>::empty());
        let offs = spec_instr_offsets(code, 0);
        assert(offs =~= r@.map_values(|il: InstrLine| il.offset as int));
        assert(forall|i: int|
            0 <= i < offs.len() ==> offs[i] == (#[trigger] r@[i]).offset as int);
    }
    r
}

} // verus!
