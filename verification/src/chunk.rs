use vstd::prelude::*;

use crate::value::{Value, ValueArray};

verus! {

/// The closed instruction set of the virtual machine. `OpConstant` carries
/// one operand byte (a constant-pool index); every other opcode carries none.
#[derive(Clone, Copy, PartialEq, Eq, Structural, Debug)]
pub enum OpCode {
    OpConstant,
    OpAdd,
    OpSubtract,
    OpMultiply,
    OpDivide,
    OpNegate,
    OpReturn,
}

/// The meaning of a raw instruction byte: `None` for a byte outside the
/// instruction set.
pub open spec fn spec_opcode_of(b: u8) -> Option<OpCode> {
    if b == 0 {
        Some(OpCode::OpConstant)
    } else if b == 1 {
        Some(OpCode::OpAdd)
    } else if b == 2 {
        Some(OpCode::OpSubtract)
    } else if b == 3 {
        Some(OpCode::OpMultiply)
    } else if b == 4 {
        Some(OpCode::OpDivide)
    } else if b == 5 {
        Some(OpCode::OpNegate)
    } else if b == 6 {
        Some(OpCode::OpReturn)
    } else {
        None
    }
}

impl OpCode {
    /// Decodes a raw byte against the closed opcode table; unknown byte
    /// values are a representable outcome, not an unchecked cast.
    pub fn from_u8(b: u8) -> (r: Option<OpCode>)
        ensures
            r == spec_opcode_of(b),
    {
        match b {
            0 => Some(OpCode::OpConstant),
            1 => Some(OpCode::OpAdd),
            2 => Some(OpCode::OpSubtract),
            3 => Some(OpCode::OpMultiply),
            4 => Some(OpCode::OpDivide),
            5 => Some(OpCode::OpNegate),
            6 => Some(OpCode::OpReturn),
            _ => None,
        }
    }

    /// The instruction byte that decodes back to this opcode.
    pub fn to_byte(self) -> (b: u8)
        ensures
            spec_opcode_of(b) == Some(self),
    {
        match self {
            OpCode::OpConstant => 0,
            OpCode::OpAdd => 1,
            OpCode::OpSubtract => 2,
            OpCode::OpMultiply => 3,
            OpCode::OpDivide => 4,
            OpCode::OpNegate => 5,
            OpCode::OpReturn => 6,
        }
    }
}

/// One run of the source-line map: `repetition_count` consecutive code bytes
/// were all written for source line `line_number`.
#[derive(Clone, Copy, PartialEq, Eq, Structural, Debug)]
pub struct LineEncoding {
    pub line_number: i32,
    pub repetition_count: usize,
}

impl LineEncoding {
    pub fn new(line: i32) -> (r: Self)
        ensures
            r.line_number == line,
            r.repetition_count == 1,
    {
        Self { line_number: line, repetition_count: 1 }
    }
}

/// The run-length-encoded line map, decompressed: one line number per code
/// byte, in write order.
pub open spec fn expand_lines(s: Seq<LineEncoding>) -> Seq<i32>
    decreases s.len(),
{
    if s.len() == 0 {
        Seq::empty()
    } else {
        Seq::new(s[0].repetition_count as nat, |j: int| s[0].line_number) + expand_lines(
            s.drop_first(),
        )
    }
}

/// Decompression distributes over concatenation of run lists.
pub proof fn lemma_expand_concat(a: Seq<LineEncoding>, b: Seq<LineEncoding>)
    ensures
        expand_lines(a + b) == expand_lines(a) + expand_lines(b),
    decreases a.len(),
{
    if a.len() == 0 {
        assert(a + b =~= b);
        assert(expand_lines(a) + expand_lines(b) =~= expand_lines(b));
    } else {
        assert((a + b).drop_first() =~= a.drop_first() + b);
        assert((a + b)[0] == a[0]);
        lemma_expand_concat(a.drop_first(), b);
        assert(expand_lines(a + b) =~= expand_lines(a) + expand_lines(b));
    }
}

/// Decompressing a single run gives that line repeated `count` times.
pub proof fn lemma_expand_singleton(e: LineEncoding)
    ensures
        expand_lines(seq![e]) == Seq::new(e.repetition_count as nat, |j: int| e.line_number),
{
    assert(seq![e].drop_first() =~= Seq::<LineEncoding>::empty());
    assert(expand_lines(Seq::<LineEncoding>::empty()) =~= Seq::<i32>::empty());
    assert(expand_lines(seq![e]) == Seq::new(e.repetition_count as nat, |j: int| e.line_number)
        + Seq::<i32>::empty());
    assert(Seq::new(e.repetition_count as nat, |j: int| e.line_number) + Seq::<i32>::empty()
        =~= Seq::new(e.repetition_count as nat, |j: int| e.line_number));
}

/// An append-only unit of bytecode: the instruction bytes, the constant
/// pool they index into, and the run-length-encoded line map. It is built
/// once by `write_chunk`/`add_constant` and then read by the interpreter
/// and the disassembler.
pub struct Chunk {
    pub code: Vec<u8>,
    pub constants: ValueArray,
    pub lines: Vec<LineEncoding>,
}

/// The line-map update that recording one more byte for `line` performs:
/// extend the last run when it is for the same line, else open a new run.
pub open spec fn spec_write_lines(lines: Seq<LineEncoding>, line: i32) -> Seq<LineEncoding> {
    if lines.len() > 0 && lines.last().line_number == line {
        lines.update(
            lines.len() - 1,
            LineEncoding {
                line_number: line,
                repetition_count: (lines.last().repetition_count + 1) as usize,
            },
        )
    } else {
        lines.push(LineEncoding { line_number: line, repetition_count: 1 })
    }
}

impl Chunk {
    /// The line map with its compression undone: element `o` is the source
    /// line that was active when code byte `o` was written.
    pub open spec fn line_seq(self) -> Seq<i32> {
        expand_lines(self.lines@)
    }

    /// Structural validity: the decompressed line map covers the code
    /// byte for byte, every run is non-empty, and no two adjacent runs
    /// are for the same line (the map is properly coalesced).
    pub open spec fn wf(self) -> bool {
        &&& self.line_seq().len() == self.code@.len()
        &&& forall|i: int|
            0 <= i < self.lines@.len() ==> (#[trigger] self.lines@[i]).repetition_count >= 1
        &&& forall|i: int|
            0 <= i < self.lines@.len() - 1 ==> (#[trigger] self.lines@[i]).line_number
                != self.lines@[i + 1].line_number
    }

    pub fn new() -> (r: Self)
        ensures
            r.wf(),
            r.code@ =~= Seq::<u8>::empty(),
            r.constants.values@ =~= Seq::<Value>::empty(),
            r.lines@ =~= Seq::<LineEncoding>::empty(),
    {
        Self { code: Vec::new(), constants: ValueArray::new(), lines: Vec::new() }
    }

    /// Appends one byte for source line `line`. The code grows by that
    /// byte, the decompressed line map grows by that line, and the run
    /// list grows by one entry only when the line differs from the last
    /// run's (the run-length invariant).
    pub fn write_chunk(&mut self, byte: u8, line: i32)
        requires
            old(self).wf(),
        ensures
            final(self).wf(),
            final(self).code@ == old(self).code@.push(byte),
            final(self).constants == old(self).constants,
            final(self).lines@ == spec_write_lines(old(self).lines@, line),
            final(self).line_seq() == old(self).line_seq().push(line),
            final(self).lines@.len() == old(self).lines@.len() + (
            if old(self).lines@.len() > 0 && old(self).lines@.last().line_number == line {
                0int
            } else {
                1int
            }),
    {
        let ghost old_lines = self.lines@;
        self.code.push(byte);
        let new_code_len = self.code.len();
        let n = self.lines.len();
        if n > 0 && self.lines[n - 1].line_number == line {
            let c = self.lines[n - 1].repetition_count;
            proof {
                // The last run is no longer than the whole decompressed map,
                // which equals the old code length; one more fits in usize.
                assert(old_lines =~= old_lines.take(n - 1) + seq![old_lines.last()]);
                lemma_expand_concat(old_lines.take(n - 1), seq![old_lines.last()]);
                lemma_expand_singleton(old_lines.last());
                assert(c <= expand_lines(old_lines).len());
                assert(expand_lines(old_lines).len() + 1 == new_code_len);
            }
            self.lines[n - 1] = LineEncoding { line_number: line, repetition_count: c + 1 };
            proof {
                let new_lines = self.lines@;
                assert(new_lines =~= old_lines.take(n - 1) + seq![new_lines.last()]);
                lemma_expand_concat(old_lines.take(n - 1), seq![new_lines.last()]);
                lemma_expand_singleton(new_lines.last());
                assert(Seq::new((c + 1) as nat, |j: int| line) =~= Seq::new(
                    c as nat,
                    |j: int| line,
                ).push(line));
                assert(expand_lines(new_lines) =~= expand_lines(old_lines).push(line));
            }
        } else {
            self.lines.push(LineEncoding::new(line));
            proof {
                let new_lines = self.lines@;
                assert(new_lines =~= old_lines + seq![new_lines.last()]);
                lemma_expand_concat(old_lines, seq![new_lines.last()]);
                lemma_expand_singleton(new_lines.last());
                assert(Seq::new(1nat, |j: int| line) =~= seq![line]);
                assert(expand_lines(new_lines) =~= expand_lines(old_lines).push(line));
            }
        }
    }

    /// Resolves a code offset to the source line it was written for, by
    /// accumulating run lengths; `0` is the explicit "no line information"
    /// sentinel for offsets past the end of the code.
    pub fn get_line(&self, code_index: usize) -> (line: i32)
        requires
            self.wf(),
        ensures
            line == if code_index < self.line_seq().len() {
                self.line_seq()[code_index as int]
            } else {
                0
            },
    {
        let code_len = self.code.len();
        let mut total: usize = 0;
        let mut i: usize = 0;
        while i < self.lines.len()
            invariant
                self.wf(),
                code_len == self.code@.len(),
                i <= self.lines@.len(),
                total == expand_lines(self.lines@.take(i as int)).len(),
                code_index >= total,
            decreases self.lines@.len() - i,
        {
            let c = self.lines[i].repetition_count;
            proof {
                assert(self.lines@.take(i + 1) =~= self.lines@.take(i as int).push(
                    self.lines@[i as int],
                ));
                assert(self.lines@.take(i as int).push(self.lines@[i as int]) =~= self.lines@.take(
                    i as int,
                ) + seq![self.lines@[i as int]]);
                lemma_expand_concat(self.lines@.take(i as int), seq![self.lines@[i as int]]);
                lemma_expand_singleton(self.lines@[i as int]);
                assert(expand_lines(self.lines@.take(i + 1)).len() == total + c);
                assert(self.lines@ =~= self.lines@.take(i + 1) + self.lines@.skip(i + 1));
                lemma_expand_concat(self.lines@.take(i + 1), self.lines@.skip(i + 1));
                assert(total + c <= self.line_seq().len());
            }
            if code_index < total + c {
                proof {
                    assert(self.line_seq() == expand_lines(self.lines@.take(i + 1)) + expand_lines(
                        self.lines@.skip(i + 1),
                    ));
                    assert(expand_lines(self.lines@.take(i + 1)) == expand_lines(
                        self.lines@.take(i as int),
                    ) + expand_lines(seq![self.lines@[i as int]]));
                    assert(self.line_seq()[code_index as int] == self.lines@[i as int].line_number);
                }
                return self.lines[i].line_number;
            }
            total = total + c;
            i = i + 1;
        }
        proof {
            assert(self.lines@.take(self.lines@.len() as int) =~= self.lines@);
            assert(code_index >= self.line_seq().len());
        }
        0
    }

    /// Appends a constant and returns its pool index. The pool is indexed
    /// by one unsigned byte, so a chunk holds at most 256 constants; the
    /// caller is responsible for staying under that design limit.
    pub fn add_constant(&mut self, value: Value) -> (index: u8)
        requires
            old(self).constants.values@.len() < 256,
        ensures
            final(self).constants.values@ == old(self).constants.values@.push(value),
            final(self).code@ == old(self).code@,
            final(self).lines@ == old(self).lines@,
            index as int == old(self).constants.values@.len(),
            old(self).wf() ==> final(self).wf(),
    {
        self.constants.write_value_array(value);
        let n = self.constants.len();
        (n - 1) as u8
    }

    pub fn chunk_len(&self) -> (n: usize)
        ensures
            n == self.code@.len(),
    {
        self.code.len()
    }
}

/// Applying the line-map update `k` times with one and the same line.
pub open spec fn spec_write_lines_k(lines: Seq<LineEncoding>, line: i32, k: nat) -> Seq<
    LineEncoding,
>
    decreases k,
{
    if k == 0 {
        lines
    } else {
        spec_write_lines(spec_write_lines_k(lines, line, (k - 1) as nat), line)
    }
}

/// Run-length law: a sequence of `k >= 1` consecutive writes with one and
/// the same line grows the line map by exactly one entry in all — not one
/// entry per write — and by none at all when the map already ends in a run
/// for that line.
pub proof fn lemma_rle_single_entry(lines: Seq<LineEncoding>, line: i32, k: nat)
    requires
        k >= 1,
    ensures
        spec_write_lines_k(lines, line, k).len() == lines.len() + (
        if lines.len() > 0 && lines.last().line_number == line {
            0int
        } else {
            1int
        }),
        spec_write_lines_k(lines, line, k).len() > 0,
        spec_write_lines_k(lines, line, k).last().line_number == line,
    decreases k,
{
    if k == 1 {
        let w = spec_write_lines(lines, line);
        if lines.len() > 0 && lines.last().line_number == line {
            assert(w.last().line_number == line);
        } else {
            assert(w.last().line_number == line);
        }
    } else {
        lemma_rle_single_entry(lines, line, (k - 1) as nat);
        let prev = spec_write_lines_k(lines, line, (k - 1) as nat);
        assert(prev.len() > 0 && prev.last().line_number == line);
        assert(spec_write_lines(prev, line).len() == prev.len());
    }
}

/// The line map never outgrows the code: with every run non-empty, the
/// number of runs is at most the number of code bytes.
pub proof fn lemma_lines_bounded(c: Chunk)
    requires
        c.wf(),
    ensures
        c.lines@.len() <= c.code@.len(),
{
    lemma_expand_at_least_len(c.lines@);
}

/// Decompressing a run list with non-empty runs yields at least one line
/// number per run.
pub proof fn lemma_expand_at_least_len(s: Seq<LineEncoding>)
    requires
        forall|i: int| 0 <= i < s.len() ==> (#[trigger] s[i]).repetition_count >= 1,
    ensures
        expand_lines(s).len() >= s.len(),
    decreases s.len(),
{
    if s.len() > 0 {
        lemma_expand_at_least_len(s.drop_first());
    }
}

} // verus!
