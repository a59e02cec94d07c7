//! The x86-64 target.

pub mod assembler;
