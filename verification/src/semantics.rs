//! The reference semantics of the instruction list: a small-step machine over
//! a fixed tape of 65536 byte cells, a wrapping tape pointer, an input
//! channel read one byte at a time, and an output channel appended one byte
//! at a time.  Every engine's observable behaviour is stated against this
//! machine.

use vstd::prelude::*;

use vstd::arithmetic::div_mod::lemma_add_mod_noop;
use vstd::arithmetic::div_mod::lemma_add_mod_noop_right;
use vstd::arithmetic::div_mod::lemma_small_mod;

use crate::program::Ins;

verus! {

/// Number of cells on the tape; the pointer wraps at this length.
pub const TAPE_LEN: usize = 65536;

/// The abstract machine state.
pub struct Machine {
    /// The 65536 byte cells.
    pub tape: Seq<u8>,
    /// The current cell index, always below the tape length.
    pub ptr: nat,
    /// The index of the next instruction.
    pub pc: nat,
    /// The bytes not yet read from the input channel.
    pub input: Seq<u8>,
    /// The bytes written to the output channel so far.
    pub output: Seq<u8>,
}

/// A cell value after adding `a`, modulo 256.
pub open spec fn byte_add(c: u8, a: u8) -> u8 {
    ((c + a) % 256) as u8
}

/// A cell value after subtracting `a`, modulo 256.
pub open spec fn byte_sub(c: u8, a: u8) -> u8 {
    ((c + 256 - a) % 256) as u8
}

/// The pointer after moving forward by `a`, wrapping at the tape length.
pub open spec fn ptr_add(p: nat, a: u16) -> nat {
    ((p + a) % (TAPE_LEN as int)) as nat
}

/// The pointer after moving backward by `a`, wrapping at the tape length.
pub open spec fn ptr_sub(p: nat, a: u16) -> nat {
    ((p + TAPE_LEN - a) % (TAPE_LEN as int)) as nat
}

/// The machine at the start of an execution: a zeroed tape, the pointer and
/// program counter at zero, the whole input pending and no output yet.
pub open spec fn init_state(input: Seq<u8>) -> Machine {
    Machine {
        tape: Seq::new(TAPE_LEN as nat, |i: int| 0u8),
        ptr: 0,
        pc: 0,
        input,
        output: Seq::empty(),
    }
}

/// The machine has stopped: the program counter reached the stop instruction
/// (or left the code, which well-formed code rules out).
pub open spec fn halted(code: Seq<Ins>, m: Machine) -> bool {
    m.pc >= code.len() || code[m.pc as int] is End
}

/// One step of the machine.  A halted machine stays as it is.  Reading from
/// an exhausted input channel stores zero in the current cell.
pub open spec fn step(code: Seq<Ins>, m: Machine) -> Machine {
    if m.pc >= code.len() {
        m
    } else {
        match code[m.pc as int] {
            Ins::IncPtr { amount } => Machine { ptr: ptr_add(m.ptr, amount), pc: m.pc + 1, ..m },
            Ins::DecPtr { amount } => Machine { ptr: ptr_sub(m.ptr, amount), pc: m.pc + 1, ..m },
            Ins::IncCell { amount } => Machine {
                tape: m.tape.update(m.ptr as int, byte_add(m.tape[m.ptr as int], amount)),
                pc: m.pc + 1,
                ..m
            },
            Ins::DecCell { amount } => Machine {
                tape: m.tape.update(m.ptr as int, byte_sub(m.tape[m.ptr as int], amount)),
                pc: m.pc + 1,
                ..m
            },
            Ins::Output => Machine {
                output: m.output.push(m.tape[m.ptr as int]),
                pc: m.pc + 1,
                ..m
            },
            Ins::Input => Machine {
                tape: m.tape.update(
                    m.ptr as int,
                    if m.input.len() == 0 {
                        0u8
                    } else {
                        m.input[0]
                    },
                ),
                input: if m.input.len() == 0 {
                    m.input
                } else {
                    m.input.subrange(1, m.input.len() as int)
                },
                pc: m.pc + 1,
                ..m
            },
            Ins::JmpFwd { to } => Machine {
                pc: if m.tape[m.ptr as int] == 0 {
                    to as nat
                } else {
                    m.pc + 1
                },
                ..m
            },
            Ins::JmpBwd { to } => Machine {
                pc: if m.tape[m.ptr as int] != 0 {
                    to as nat
                } else {
                    m.pc + 1
                },
                ..m
            },
            Ins::End => m,
        }
    }
}

/// The machine after `n` steps.
pub open spec fn steps(code: Seq<Ins>, m: Machine, n: nat) -> Machine
    decreases n,
{
    if n == 0 {
        m
    } else {
        step(code, steps(code, m, (n - 1) as nat))
    }
}

/// The state facts every step preserves: tape length and pointer range.
pub open spec fn state_inv(m: Machine) -> bool {
    m.tape.len() == TAPE_LEN && m.ptr < TAPE_LEN
}

/// One step out of a well-formed, not-yet-halted state keeps the program
/// counter inside the code and preserves the state facts.
pub proof fn lemma_step_preserves(code: Seq<Ins>, m: Machine)
    requires
        crate::program::wf(code),
        state_inv(m),
        m.pc < code.len(),
    ensures
        state_inv(step(code, m)),
        step(code, m).pc < code.len(),
{
    assert(crate::program::jumps_ok_at(code, m.pc as int, code.len() as int));
    if !(code[m.pc as int] is End) {
        assert(m.pc != code.len() - 1);
    }
}

/// Stepping distributes over addition: running `a + b` steps is running `a`
/// steps and then `b` more.
pub proof fn lemma_steps_add(code: Seq<Ins>, m: Machine, a: nat, b: nat)
    ensures
        steps(code, m, a + b) == steps(code, steps(code, m, a), b),
    decreases b,
{
    if b > 0 {
        lemma_steps_add(code, m, a, (b - 1) as nat);
    }
}

/// A halted machine never changes again, no matter how many steps pass.
pub proof fn lemma_halted_stays(code: Seq<Ins>, m: Machine, n: nat)
    requires
        halted(code, m),
    ensures
        steps(code, m, n) == m,
    decreases n,
{
    if n > 0 {
        lemma_halted_stays(code, m, (n - 1) as nat);
    }
}

/// Iterating single-cell increments: the cell after `n` increments by one.
pub open spec fn inc_iter(c: u8, n: nat) -> u8
    decreases n,
{
    if n == 0 {
        c
    } else {
        inc_iter(byte_add(c, 1), (n - 1) as nat)
    }
}

/// Iterating single pointer moves: the pointer after `n` forward moves by one.
pub open spec fn ptr_iter(p: nat, n: nat) -> nat
    decreases n,
{
    if n == 0 {
        p
    } else {
        ptr_iter(ptr_add(p, 1), (n - 1) as nat)
    }
}

/// `n` single increments land on the sum modulo 256.
pub proof fn lemma_inc_iter_value(c: u8, n: nat)
    ensures
        inc_iter(c, n) == ((c + n) % 256) as u8,
    decreases n,
{
    if n == 0 {
        lemma_small_mod(c as nat, 256);
    } else {
        lemma_inc_iter_value(byte_add(c, 1), (n - 1) as nat);
        lemma_add_mod_noop_right((n - 1) as int, (c + 1) as int, 256);
    }
}

/// `n` single forward moves land on the sum modulo the tape length.
pub proof fn lemma_ptr_iter_value(p: nat, n: nat)
    requires
        p < TAPE_LEN,
    ensures
        ptr_iter(p, n) == ((p + n) % (TAPE_LEN as nat)) as nat,
    decreases n,
{
    if n == 0 {
        lemma_small_mod(p, TAPE_LEN as nat);
    } else {
        lemma_ptr_iter_value(ptr_add(p, 1), (n - 1) as nat);
        lemma_add_mod_noop_right((n - 1) as int, (p + 1) as int, TAPE_LEN as int);
    }
}

/// The machine after `i` unit increments out of a program of `n` of them:
/// the current cell has grown by `i` modulo 256 and nothing else changed.
proof fn lemma_unit_incs(m: Machine, n: nat, i: nat)
    requires
        state_inv(m),
        m.pc == 0,
        i <= n,
    ensures
        ({
            let singles = Seq::new(n, |k: int| Ins::IncCell { amount: 1u8 }).push(Ins::End);
            let s = steps(singles, m, i);
            &&& s.ptr == m.ptr
            &&& s.input == m.input
            &&& s.output == m.output
            &&& s.pc == i
            &&& s.tape == if i == 0 {
                m.tape
            } else {
                m.tape.update(m.ptr as int, ((m.tape[m.ptr as int] + i) % 256) as u8)
            }
        }),
    decreases i,
{
    let singles = Seq::new(n, |k: int| Ins::IncCell { amount: 1u8 }).push(Ins::End);
    if i > 0 {
        lemma_unit_incs(m, n, (i - 1) as nat);
        let s0 = steps(singles, m, (i - 1) as nat);
        assert(singles[(i - 1) as int] == (Ins::IncCell { amount: 1u8 }));
        assert(steps(singles, m, i) == step(singles, s0));
        let c = m.tape[m.ptr as int];
        if i == 1 {
            assert(step(singles, s0).tape == m.tape.update(m.ptr as int, byte_add(c, 1)));
        } else {
            lemma_add_mod_noop_right(1, (c + (i - 1)) as int, 256);
            assert(s0.tape[m.ptr as int] == ((c + (i - 1)) % 256) as u8);
            assert(byte_add(s0.tape[m.ptr as int], 1) == ((c + i) % 256) as u8);
            assert(s0.tape.update(m.ptr as int, ((c + i) % 256) as u8) =~= m.tape.update(
                m.ptr as int,
                ((c + i) % 256) as u8,
            ));
        }
    }
}

/// A run-length-folded sequence of `n` identical increment symbols has the
/// same observable effect as `n` single increment instructions: starting
/// from any state, the one-instruction program carrying amount `n` and the
/// program of `n` unit increments both halt, with identical tape, pointer,
/// input and output.
pub proof fn lemma_run_length_fold(m: Machine, n: nat)
    requires
        state_inv(m),
        m.pc == 0,
        1 <= n <= 255,
    ensures
        ({
            let folded = seq![Ins::IncCell { amount: n as u8 }, Ins::End];
            let singles = Seq::new(n, |k: int| Ins::IncCell { amount: 1u8 }).push(Ins::End);
            let a = steps(folded, m, 1);
            let b = steps(singles, m, n);
            &&& halted(folded, a)
            &&& halted(singles, b)
            &&& a.tape == b.tape
            &&& a.ptr == b.ptr
            &&& a.input == b.input
            &&& a.output == b.output
        }),
{
    let folded = seq![Ins::IncCell { amount: n as u8 }, Ins::End];
    let singles = Seq::new(n, |k: int| Ins::IncCell { amount: 1u8 }).push(Ins::End);
    lemma_unit_incs(m, n, n);
    assert(steps(folded, m, 0) == m);
    assert(steps(folded, m, 1) == step(folded, m));
    assert(folded[0] == (Ins::IncCell { amount: n as u8 }));
    assert(singles[n as int] is End);
}

/// Cell values round-trip modulo 256: incrementing a cell 256 times returns
/// it to its original value.
pub proof fn lemma_cell_round_trip(c: u8)
    ensures
        inc_iter(c, 256) == c,
{
    lemma_inc_iter_value(c, 256);
    assert((c + 256) % 256 == c) by {
        lemma_add_mod_noop(c as int, 256, 256);
        lemma_small_mod(c as nat, 256);
    }
}

/// Pointer movement round-trips modulo the tape length: moving forward by
/// the tape length returns to the original cell.
pub proof fn lemma_ptr_round_trip(p: nat)
    requires
        p < TAPE_LEN,
    ensures
        ptr_iter(p, TAPE_LEN as nat) == p,
{
    lemma_ptr_iter_value(p, TAPE_LEN as nat);
    assert((p + TAPE_LEN) % (TAPE_LEN as int) == p) by {
        lemma_add_mod_noop(p as int, TAPE_LEN as int, TAPE_LEN as int);
        lemma_small_mod(p, TAPE_LEN as nat);
    }
}

} // verus!
