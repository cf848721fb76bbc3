//! The object model and the machine that runs compiled code on it.

pub mod attributes;
pub mod calls;
pub mod course;
pub mod datamodel;
pub mod frames;
pub mod interpreter;
pub mod invoking;
pub mod loader;
pub mod names;
pub mod natives;
pub mod opcodes;
pub mod vm;
