//! Arithmetic expressions over named inputs, evaluated either by walking the
//! tree or by lowering it to a flat, slot-addressed instruction sequence.

pub mod ast;
pub mod bindings;
pub mod interpreter;
pub mod jit;
pub mod laws;
pub mod ownership;
