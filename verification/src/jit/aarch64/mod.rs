//! The aarch64 target.

pub mod assembler;
