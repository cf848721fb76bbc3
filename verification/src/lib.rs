//! A small dynamically-typed scripting language: a compiler from a Python-like
//! syntax tree to stack bytecode, and the object model the bytecode runs on.

pub mod ast;
pub mod builtin_types;
pub mod bytecode;
pub mod lexer;
pub mod parser;
pub mod runtime;
pub mod text;
