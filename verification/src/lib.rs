//! A compiler and executor for the eight-symbol tape-machine language.
//!
//! The front end condenses a raw byte program into an instruction list and
//! matches its loop brackets (`program`).  The reference semantics of that
//! instruction list is a small-step machine over a 65536-cell tape
//! (`semantics`), realized by the verified executor (`interpreter`).  The
//! `jit` modules translate the instruction list into native x86-64 machine
//! code; the application harness maps those bytes as executable and invokes
//! them with the tape base pointer.

use vstd::prelude::*;

pub mod interpreter;
pub mod jit;
pub mod program;
pub mod semantics;

verus! {

/// The failures the library reports: the two bracket-structure errors, found
/// before any code is emitted, and a failed byte transfer, reported by the
/// native harness at run time.
#[derive(Clone, Copy, Debug, PartialEq, Eq, Structural)]
pub enum Error {
    /// A loop start with no matching loop end, detected at end of program.
    UnmatchedLeft,
    /// A loop end with no open loop start, detected immediately.
    UnmatchedRight,
    /// The input or output channel refused a byte transfer.
    Io,
}

} // verus!
