use vstd::prelude::*;

use crate::chunk::{spec_opcode_of, Chunk, OpCode};
use crate::value::Value;

verus! {

/// The fixed capacity of the operand stack.
pub const STACK_MAX: usize = 256;

/// The three outcomes of interpreting a chunk: success, a failure of the
/// compile-time class (malformed bytecode, unknown opcode, bad constant
/// reference), or a failure of the runtime class (stack underflow or
/// overflow).
#[derive(Clone, Copy, PartialEq, Eq, Structural, Debug)]
pub enum InterpretResult {
    InterpretOk,
    InterpretCompileError,
    InterpretRuntimeError,
}

/// The four binary arithmetic operators, as one tag for the single generic
/// "apply a binary operator" routine.
#[derive(Clone, Copy, PartialEq, Eq, Structural, Debug)]
pub enum BinaryOp {
    Add,
    Subtract,
    Multiply,
    Divide,
}

/// The arithmetic on runtime values. The core carries values opaquely as
/// 64-bit patterns and never computes with them, so the embedder supplies
/// the numeric operations; the machine's control flow, stack discipline
/// and outcome never depend on what they return.
pub trait ValueOps {
    /// `a op b`, where `a` was pushed before `b`.
    fn binary(&self, op: BinaryOp, a: Value, b: Value) -> Value;

    /// The additive inverse of `a`.
    fn negate(&self, a: Value) -> Value;
}

/// The machine's halted state. The stack is modelled one entry per held
/// value: `Some(v)` where the bytecode alone determines the value (a
/// pushed constant), `None` where it is a result of the embedder's
/// arithmetic. `reported` is `Some` exactly on success and carries the
/// model of the value that the return instruction popped.
pub struct Halt {
    pub result: InterpretResult,
    pub reported: Option<Option<Value>>,
    pub stack: Seq<Option<Value>>,
    pub ip: int,
}

/// What executing `code` from instruction pointer `ip` over the model
/// stack `stack` ends in: the outcome, the reported value, the stack left
/// behind, and where the instruction pointer stops. The outcome never
/// depends on the values themselves:
///
/// - running past the end of the code, a truncated constant operand, a
///   constant index outside the pool and an unknown opcode byte end in the
///   compile-error class at once, the stack untouched;
/// - pushing at capacity and popping below the operands an instruction
///   needs end in the runtime-error class at once, the stack untouched;
/// - a constant instruction pushes exactly the indexed pool value;
/// - a binary operator pops the two topmost values and pushes one
///   arithmetic result; a negation replaces the topmost value by one;
/// - a return instruction pops and reports the top value, with success.
pub open spec fn spec_run(
    code: Seq<u8>,
    consts: Seq<Value>,
    cap: int,
    ip: int,
    stack: Seq<Option<Value>>,
) -> Halt
    decreases code.len() - ip,
{
    if ip < 0 || ip >= code.len() {
        Halt { result: InterpretResult::InterpretCompileError, reported: None, stack, ip }
    } else {
        match spec_opcode_of(code[ip]) {
            Some(OpCode::OpConstant) => {
                if ip + 1 >= code.len() {
                    Halt {
                        result: InterpretResult::InterpretCompileError,
                        reported: None,
                        stack,
                        ip: ip + 1,
                    }
                } else if code[ip + 1] >= consts.len() {
                    Halt {
                        result: InterpretResult::InterpretCompileError,
                        reported: None,
                        stack,
                        ip: ip + 2,
                    }
                } else if stack.len() >= cap {
                    Halt {
                        result: InterpretResult::InterpretRuntimeError,
                        reported: None,
                        stack,
                        ip: ip + 2,
                    }
                } else {
                    spec_run(code, consts, cap, ip + 2, stack.push(Some(consts[code[ip + 1] as int])))
                }
            },
            Some(OpCode::OpAdd) | Some(OpCode::OpSubtract) | Some(OpCode::OpMultiply) | Some(
                OpCode::OpDivide,
            ) => {
                if stack.len() < 2 {
                    Halt {
                        result: InterpretResult::InterpretRuntimeError,
                        reported: None,
                        stack,
                        ip: ip + 1,
                    }
                } else {
                    spec_run(code, consts, cap, ip + 1, stack.drop_last().drop_last().push(None))
                }
            },
            Some(OpCode::OpNegate) => {
                if stack.len() < 1 {
                    Halt {
                        result: InterpretResult::InterpretRuntimeError,
                        reported: None,
                        stack,
                        ip: ip + 1,
                    }
                } else {
                    spec_run(code, consts, cap, ip + 1, stack.drop_last().push(None))
                }
            },
            Some(OpCode::OpReturn) => {
                if stack.len() < 1 {
                    Halt {
                        result: InterpretResult::InterpretRuntimeError,
                        reported: None,
                        stack,
                        ip: ip + 1,
                    }
                } else {
                    Halt {
                        result: InterpretResult::InterpretOk,
                        reported: Some(stack.last()),
                        stack: stack.drop_last(),
                        ip: ip + 1,
                    }
                }
            },
            None => Halt {
                result: InterpretResult::InterpretCompileError,
                reported: None,
                stack,
                ip: ip + 1,
            },
        }
    }
}

/// The live stack agrees with its model: same depth, and equal to the
/// model wherever the model determines a value.
pub open spec fn stack_models(stack: Seq<Value>, model: Seq<Option<Value>>) -> bool {
    &&& stack.len() == model.len()
    &&& forall|i: int|
        0 <= i < model.len() && (#[trigger] model[i]) is Some ==> stack[i] == model[i]->0
}

/// After a binary operator consumed its two operands and pushed one
/// result, the live stack still agrees with the model that replaces the
/// two topmost entries by one undetermined one.
proof fn lemma_binary_model(s0: Seq<Value>, s1: Seq<Value>, m0: Seq<Option<Value>>)
    requires
        stack_models(s0, m0),
        s0.len() >= 2,
        s1.len() == s0.len() - 1,
        s1.drop_last() == s0.drop_last().drop_last(),
    ensures
        stack_models(s1, m0.drop_last().drop_last().push(None)),
{
    let m1 = m0.drop_last().drop_last().push(None);
    assert forall|i: int|
        0 <= i < m1.len() && (#[trigger] m1[i]) is Some implies s1[i] == m1[i]->0 by {
        if i < m1.len() - 1 {
            assert(m1[i] == m0[i]);
            assert(s1[i] == s1.drop_last()[i]);
            assert(s1.drop_last()[i] == s0.drop_last().drop_last()[i]);
            assert(s0.drop_last().drop_last()[i] == s0[i]);
        } else {
            assert(m1[i] is None);
        }
    }
}

/// A chunk whose first byte is no opcode halts interpretation at once with
/// the compile-error outcome: exactly the one byte is fetched, no later
/// byte is executed, and the stack is left as it was.
pub proof fn lemma_unknown_opcode_halts(
    code: Seq<u8>,
    consts: Seq<Value>,
    cap: int,
    stack: Seq<Option<Value>>,
)
    requires
        code.len() > 0,
        spec_opcode_of(code[0]) is None,
    ensures
        spec_run(code, consts, cap, 0, stack) == (Halt {
            result: InterpretResult::InterpretCompileError,
            reported: None,
            stack,
            ip: 1,
        }),
{
}

/// An instruction that pops finds the empty stack empty: with no value on
/// the stack, a leading return, negate or binary-operator instruction ends
/// in the runtime-error outcome, not in an out-of-bounds read.
pub proof fn lemma_pop_empty_runtime_error(code: Seq<u8>, consts: Seq<Value>, cap: int)
    requires
        code.len() > 0,
        spec_opcode_of(code[0]) is Some,
        spec_opcode_of(code[0]) != Some(OpCode::OpConstant),
    ensures
        spec_run(code, consts, cap, 0, Seq::empty()) == (Halt {
            result: InterpretResult::InterpretRuntimeError,
            reported: None,
            stack: Seq::<Option<Value>>::empty(),
            ip: 1,
        }),
{
}

/// The virtual machine: an instruction pointer and a bounded operand
/// stack. It borrows each chunk read-only for the duration of one
/// interpretation.
pub struct VM {
    pub ip: usize,
    pub stack: Vec<Value>,
}

impl VM {
    pub fn new() -> (r: Self)
        ensures
            r.ip == 0,
            r.stack@ =~= Seq::<Value>::empty(),
    {
        Self { ip: 0, stack: Vec::new() }
    }

    /// Checked push: refuses to grow the stack past its capacity, the
    /// distinct stack-overflow outcome instead of an out-of-bounds write.
    pub fn push(&mut self, value: Value) -> (ok: bool)
        ensures
            final(self).ip == old(self).ip,
            ok == (old(self).stack@.len() < STACK_MAX),
            final(self).stack@ == if ok {
                old(self).stack@.push(value)
            } else {
                old(self).stack@
            },
    {
        if self.stack.len() < STACK_MAX {
            self.stack.push(value);
            true
        } else {
            false
        }
    }

    /// Checked pop: the empty stack yields `None`, the distinct
    /// stack-underflow outcome instead of an out-of-bounds read.
    pub fn pop(&mut self) -> (r: Option<Value>)
        ensures
            final(self).ip == old(self).ip,
            old(self).stack@.len() == 0 ==> (r is None) && final(self).stack@ == old(self).stack@,
            old(self).stack@.len() > 0 ==> r == Some(old(self).stack@.last())
                && final(self).stack@ == old(self).stack@.drop_last(),
    {
        self.stack.pop()
    }

    fn reset_stack(&mut self)
        ensures
            final(self).ip == old(self).ip,
            final(self).stack@ =~= Seq::<Value>::empty(),
    {
        self.stack.clear();
    }

    /// Pops the two operands in reverse push order — the right-hand one
    /// first — applies `op`, and pushes the result, so that
    /// `push(a); push(b); op` computes `a op b`. With fewer than two
    /// values on the stack it does nothing and reports the underflow.
    fn binary_op<A: ValueOps>(&mut self, op: BinaryOp, ops: &A) -> (ok: bool)
        ensures
            final(self).ip == old(self).ip,
            ok == (old(self).stack@.len() >= 2),
            ok ==> final(self).stack@.len() == old(self).stack@.len() - 1,
            ok ==> final(self).stack@.drop_last() == old(self).stack@.drop_last().drop_last(),
            !ok ==> final(self).stack@ == old(self).stack@,
    {
        if self.stack.len() < 2 {
            return false;
        }
        let b = self.pop().unwrap();
        let a = self.pop().unwrap();
        self.stack.push(ops.binary(op, a, b));
        true
    }

    /// Resets the machine and executes the chunk's bytecode to completion:
    /// fetch, decode against the closed opcode table, execute. Outcome,
    /// final instruction pointer, final stack and the reported value are
    /// exactly the `spec_run` halt of the chunk; the reported value and
    /// every stack slot are pinned wherever the model determines them —
    /// only the embedder's arithmetic results are left open.
    pub fn interpret<A: ValueOps>(&mut self, chunk: &Chunk, ops: &A) -> (r: (
        InterpretResult,
        Option<Value>,
    ))
        ensures
            ({
                let h = spec_run(
                    chunk.code@,
                    chunk.constants.values@,
                    STACK_MAX as int,
                    0,
                    Seq::<Option<Value>>::empty(),
                );
                &&& r.0 == h.result
                &&& (r.1 is Some <==> r.0 == InterpretResult::InterpretOk)
                &&& final(self).ip == h.ip
                &&& stack_models(final(self).stack@, h.stack)
                &&& (match h.reported {
                    Some(mv) => (r.1 is Some) && (mv matches Some(v) ==> r.1 == Some(v)),
                    None => r.1 is None,
                })
            }),
    {
        self.ip = 0;
        self.reset_stack();
        self.run(chunk, ops)
    }

    fn run<A: ValueOps>(&mut self, chunk: &Chunk, ops: &A) -> (r: (InterpretResult, Option<Value>))
        requires
            old(self).ip == 0,
            old(self).stack@.len() == 0,
        ensures
            ({
                let h = spec_run(
                    chunk.code@,
                    chunk.constants.values@,
                    STACK_MAX as int,
                    0,
                    Seq::<Option<Value>>::empty(),
                );
                &&& r.0 == h.result
                &&& (r.1 is Some <==> r.0 == InterpretResult::InterpretOk)
                &&& final(self).ip == h.ip
                &&& stack_models(final(self).stack@, h.stack)
                &&& (match h.reported {
                    Some(mv) => (r.1 is Some) && (mv matches Some(v) ==> r.1 == Some(v)),
                    None => r.1 is None,
                })
            }),
    {
        let ghost code = chunk.code@;
        let ghost consts = chunk.constants.values@;
        let ghost cap = STACK_MAX as int;
        let ghost mut mstack: Seq<Option<Value>> = Seq::empty();
        let clen = chunk.code.len();
        let nconsts = chunk.constants.len();
        loop
            invariant
                chunk.code@ == code,
                chunk.constants.values@ == consts,
                clen == code.len(),
                nconsts == consts.len(),
                self.ip <= code.len(),
                self.stack@.len() <= STACK_MAX,
                stack_models(self.stack@, mstack),
                spec_run(code, consts, cap, self.ip as int, mstack) == spec_run(
                    code,
                    consts,
                    cap,
                    0,
                    Seq::<Option<Value>>::empty(),
                ),
                cap == STACK_MAX as int,
            decreases code.len() - self.ip,
        {
            let ghost ip0 = self.ip as int;
            let ghost m0 = mstack;
            let ghost s0 = self.stack@;
            if self.ip >= clen {
                proof {
                    assert(spec_run(code, consts, cap, ip0, m0) == (Halt {
                        result: InterpretResult::InterpretCompileError,
                        reported: None,
                        stack: m0,
                        ip: ip0,
                    }));
                }
                return (InterpretResult::InterpretCompileError, None);
            }
            let byte = chunk.code[self.ip];
            self.ip = self.ip + 1;
            let instruction = OpCode::from_u8(byte);
            match instruction {
                Some(OpCode::OpConstant) => {
                    if self.ip >= clen {
                        proof {
                            assert(spec_run(code, consts, cap, ip0, m0) == (Halt {
                                result: InterpretResult::InterpretCompileError,
                                reported: None,
                                stack: m0,
                                ip: ip0 + 1,
                            }));
                        }
                        return (InterpretResult::InterpretCompileError, None);
                    }
                    let index = chunk.code[self.ip];
                    self.ip = self.ip + 1;
                    if index as usize >= nconsts {
                        proof {
                            assert(spec_run(code, consts, cap, ip0, m0) == (Halt {
                                result: InterpretResult::InterpretCompileError,
                                reported: None,
                                stack: m0,
                                ip: ip0 + 2,
                            }));
                        }
                        return (InterpretResult::InterpretCompileError, None);
                    }
                    let constant = chunk.constants.values[index as usize];
                    if !self.push(constant) {
                        proof {
                            assert(spec_run(code, consts, cap, ip0, m0) == (Halt {
                                result: InterpretResult::InterpretRuntimeError,
                                reported: None,
                                stack: m0,
                                ip: ip0 + 2,
                            }));
                        }
                        return (InterpretResult::InterpretRuntimeError, None);
                    }
                    proof {
                        mstack = m0.push(Some(constant));
                        assert(stack_models(self.stack@, mstack));
                        assert(spec_run(code, consts, cap, ip0, m0) == spec_run(
                            code,
                            consts,
                            cap,
                            ip0 + 2,
                            mstack,
                        ));
                    }
                },
                Some(OpCode::OpAdd) => {
                    if !self.binary_op(BinaryOp::Add, ops) {
                        proof {
                            assert(spec_run(code, consts, cap, ip0, m0) == (Halt {
                                result: InterpretResult::InterpretRuntimeError,
                                reported: None,
                                stack: m0,
                                ip: ip0 + 1,
                            }));
                        }
                        return (InterpretResult::InterpretRuntimeError, None);
                    }
                    proof {
                        lemma_binary_model(s0, self.stack@, m0);
                        mstack = m0.drop_last().drop_last().push(None);
                        assert(stack_models(self.stack@, mstack));
                        assert(spec_run(code, consts, cap, ip0, m0) == spec_run(
                            code,
                            consts,
                            cap,
                            ip0 + 1,
                            mstack,
                        ));
                    }
                },
                Some(OpCode::OpSubtract) => {
                    if !self.binary_op(BinaryOp::Subtract, ops) {
                        proof {
                            assert(spec_run(code, consts, cap, ip0, m0) == (Halt {
                                result: InterpretResult::InterpretRuntimeError,
                                reported: None,
                                stack: m0,
                                ip: ip0 + 1,
                            }));
                        }
                        return (InterpretResult::InterpretRuntimeError, None);
                    }
                    proof {
                        lemma_binary_model(s0, self.stack@, m0);
                        mstack = m0.drop_last().drop_last().push(None);
                        assert(stack_models(self.stack@, mstack));
                        assert(spec_run(code, consts, cap, ip0, m0) == spec_run(
                            code,
                            consts,
                            cap,
                            ip0 + 1,
                            mstack,
                        ));
                    }
                },
                Some(OpCode::OpMultiply) => {
                    if !self.binary_op(BinaryOp::Multiply, ops) {
                        proof {
                            assert(spec_run(code, consts, cap, ip0, m0) == (Halt {
                                result: InterpretResult::InterpretRuntimeError,
                                reported: None,
                                stack: m0,
                                ip: ip0 + 1,
                            }));
                        }
                        return (InterpretResult::InterpretRuntimeError, None);
                    }
                    proof {
                        lemma_binary_model(s0, self.stack@, m0);
                        mstack = m0.drop_last().drop_last().push(None);
                        assert(stack_models(self.stack@, mstack));
                        assert(spec_run(code, consts, cap, ip0, m0) == spec_run(
                            code,
                            consts,
                            cap,
                            ip0 + 1,
                            mstack,
                        ));
                    }
                },
                Some(OpCode::OpDivide) => {
                    if !self.binary_op(BinaryOp::Divide, ops) {
                        proof {
                            assert(spec_run(code, consts, cap, ip0, m0) == (Halt {
                                result: InterpretResult::InterpretRuntimeError,
                                reported: None,
                                stack: m0,
                                ip: ip0 + 1,
                            }));
                        }
                        return (InterpretResult::InterpretRuntimeError, None);
                    }
                    proof {
                        lemma_binary_model(s0, self.stack@, m0);
                        mstack = m0.drop_last().drop_last().push(None);
                        assert(stack_models(self.stack@, mstack));
                        assert(spec_run(code, consts, cap, ip0, m0) == spec_run(
                            code,
                            consts,
                            cap,
                            ip0 + 1,
                            mstack,
                        ));
                    }
                },
                Some(OpCode::OpNegate) => {
                    match self.pop() {
                        Some(v) => {
                            let pushed = self.push(ops.negate(v));
                            proof {
                                assert(pushed);
                                mstack = m0.drop_last().push(None);
                                assert(stack_models(self.stack@, mstack));
                                assert(spec_run(code, consts, cap, ip0, m0) == spec_run(
                                    code,
                                    consts,
                                    cap,
                                    ip0 + 1,
                                    mstack,
                                ));
                            }
                        },
                        None => {
                            proof {
                                assert(spec_run(code, consts, cap, ip0, m0) == (Halt {
                                    result: InterpretResult::InterpretRuntimeError,
                                    reported: None,
                                    stack: m0,
                                    ip: ip0 + 1,
                                }));
                            }
                            return (InterpretResult::InterpretRuntimeError, None);
                        },
                    }
                },
                Some(OpCode::OpReturn) => {
                    match self.pop() {
                        Some(v) => {
                            proof {
                                assert(spec_run(code, consts, cap, ip0, m0) == (Halt {
                                    result: InterpretResult::InterpretOk,
                                    reported: Some(m0.last()),
                                    stack: m0.drop_last(),
                                    ip: ip0 + 1,
                                }));
                                mstack = m0.drop_last();
                                assert(stack_models(self.stack@, mstack));
                                if m0.last() is Some {
                                    assert(v == m0[m0.len() - 1]->0);
                                }
                            }
                            return (InterpretResult::InterpretOk, Some(v));
                        },
                        None => {
                            proof {
                                assert(spec_run(code, consts, cap, ip0, m0) == (Halt {
                                    result: InterpretResult::InterpretRuntimeError,
                                    reported: None,
                                    stack: m0,
                                    ip: ip0 + 1,
                                }));
                            }
                            return (InterpretResult::InterpretRuntimeError, None);
                        },
                    }
                },
                None => {
                    proof {
                        assert(spec_run(code, consts, cap, ip0, m0) == (Halt {
                            result: InterpretResult::InterpretCompileError,
                            reported: None,
                            stack: m0,
                            ip: ip0 + 1,
                        }));
                    }
                    return (InterpretResult::InterpretCompileError, None);
                },
            }
        }
    }
}

} // verus!
