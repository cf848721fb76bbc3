//! Bytecode: the instruction set, code objects, and the compiler that emits them.

pub mod balance;
pub mod breaks;
pub mod closed;
pub mod depths;
pub mod compiler;
pub mod constants;
pub mod lowering;
pub mod program;
pub mod support;
pub mod tables;
pub mod tidy;
