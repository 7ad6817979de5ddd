use vstd::prelude::*;

verus! {

/// A runtime value of the virtual machine.
///
/// The language's only runtime type is a 64-bit IEEE 754 number. The core
/// never computes with such numbers itself: it carries each one opaquely as
/// its raw 64-bit pattern. The embedder converts to and from its numeric
/// type at the boundary and supplies the arithmetic (see `vm::ValueOps`).
#[derive(Clone, Copy, PartialEq, Eq, Structural, Debug)]
pub struct Value {
    pub bits: u64,
}

impl Value {
    pub fn new(bits: u64) -> (v: Value)
        ensures
            v.bits == bits,
    {
        Value { bits }
    }
}

/// The constant pool: an append-only sequence of `Value`s.
pub struct ValueArray {
    pub values: Vec<Value>,
}

impl ValueArray {
    pub fn new() -> (r: Self)
        ensures
            r.values@ =~= Seq::<Value>::empty(),
    {
        Self { values: Vec::new() }
    }

    pub fn write_value_array(&mut self, value: Value)
        ensures
            final(self).values@ == old(self).values@.push(value),
    {
        self.values.push(value);
    }

    pub fn len(&self) -> (n: usize)
        ensures
            n == self.values@.len(),
    {
        self.values.len()
    }
}

} // verus!
