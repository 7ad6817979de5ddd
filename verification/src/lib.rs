//! A small stack-based bytecode virtual machine for a dynamically-typed
//! scripting language: a lexical scanner, an append-only bytecode container
//! (the chunk) with a constant pool and a run-length-encoded source-line map,
//! a read-only disassembler, and an interpreter loop over a bounded operand
//! stack.

pub mod chunk;
pub mod compiler;
pub mod debug;
pub mod scanner;
pub mod value;
pub mod vm;
