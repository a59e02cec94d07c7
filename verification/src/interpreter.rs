//! The pure-interpretation engine: the front end's instruction list executed
//! directly against the reference machine.  The executor is proved to follow
//! the small-step semantics exactly, one machine step per iteration, and in
//! particular its program counter never leaves the instruction list.

use vstd::prelude::*;

use crate::program;
use crate::program::Ins;
use crate::semantics;
use crate::semantics::TAPE_LEN;

verus! {

/// A fresh tape of 65536 zeroed cells.
fn new_tape() -> (r: Vec<u8>)
    ensures
        r@ == Seq::new(TAPE_LEN as nat, |i: int| 0u8),
{
    let mut t: Vec<u8> = Vec::new();
    while t.len() < TAPE_LEN
        invariant
            t@.len() <= TAPE_LEN,
            forall|i: int| 0 <= i < t@.len() ==> t@[i] == 0u8,
        decreases TAPE_LEN - t@.len(),
    {
        t.push(0u8);
    }
    proof {
        assert(t@ =~= Seq::new(TAPE_LEN as nat, |i: int| 0u8));
    }
    t
}

/// Whether the instruction at `i` is the stop instruction.
fn is_end_at(code: &Vec<Ins>, i: usize) -> (r: bool)
    requires
        i < code@.len(),
    ensures
        r == (code@[i as int] is End),
{
    match code[i] {
        Ins::End => true,
        _ => false,
    }
}

/// Runs the instruction list against a fresh machine for at most `fuel`
/// steps, reading from `input` and collecting the output.  The result is
/// exactly what the reference machine reaches after `fuel` steps: the
/// machine's output if it has halted by then, nothing if it has not.
pub fn execute(code: &Vec<Ins>, input: &[u8], fuel: u64) -> (r: Option<Vec<u8>>)
    requires
        program::wf(code@),
    ensures
        ({
            let fin = semantics::steps(code@, semantics::init_state(input@), fuel as nat);
            match r {
                Some(out) => semantics::halted(code@, fin) && out@ == fin.output,
                None => !semantics::halted(code@, fin),
            }
        }),
{
    let ghost init = semantics::init_state(input@);
    let cl: usize = code.len();
    let mut tape = new_tape();
    let mut ptr: u16 = 0;
    let mut pc: usize = 0;
    let mut pos: usize = 0;
    let mut out: Vec<u8> = Vec::new();
    let mut left: u64 = fuel;
    proof {
        assert(input@.skip(0) =~= input@);
    }
    while left > 0 && !is_end_at(code, pc)
        invariant
            program::wf(code@),
            code@.len() == cl,
            tape@.len() == TAPE_LEN,
            pc < code@.len(),
            pos <= input@.len(),
            left <= fuel,
            ({
                let cur = semantics::steps(code@, init, (fuel - left) as nat);
                &&& cur.tape == tape@
                &&& cur.ptr == ptr as nat
                &&& cur.pc == pc as nat
                &&& cur.input == input@.skip(pos as int)
                &&& cur.output == out@
            }),
            init == semantics::init_state(input@),
        decreases left,
    {
        let ghost pre = semantics::steps(code@, init, (fuel - left) as nat);
        proof {
            assert(semantics::steps(code@, init, (fuel - left + 1) as nat) == semantics::step(
                code@,
                pre,
            ));
            semantics::lemma_step_preserves(code@, pre);
        }
        match code[pc] {
            Ins::IncPtr { amount } => {
                ptr = ((ptr as u32 + amount as u32) % 65536) as u16;
                pc = pc + 1;
            },
            Ins::DecPtr { amount } => {
                ptr = ((ptr as u32 + 65536 - amount as u32) % 65536) as u16;
                pc = pc + 1;
            },
            Ins::IncCell { amount } => {
                let c = tape[ptr as usize];
                tape.set(ptr as usize, ((c as u16 + amount as u16) % 256) as u8);
                pc = pc + 1;
            },
            Ins::DecCell { amount } => {
                let c = tape[ptr as usize];
                tape.set(ptr as usize, ((c as u16 + 256 - amount as u16) % 256) as u8);
                pc = pc + 1;
            },
            Ins::Output => {
                out.push(tape[ptr as usize]);
                pc = pc + 1;
            },
            Ins::Input => {
                if pos < input.len() {
                    tape.set(ptr as usize, input[pos]);
                    pos = pos + 1;
                    proof {
                        assert(pre.input.subrange(1, pre.input.len() as int) =~= input@.skip(
                            pos as int,
                        ));
                    }
                } else {
                    tape.set(ptr as usize, 0u8);
                    proof {
                        assert(pre.input.len() == 0);
                    }
                }
                pc = pc + 1;
            },
            Ins::JmpFwd { to } => {
                if tape[ptr as usize] == 0 {
                    pc = to;
                } else {
                    pc = pc + 1;
                }
            },
            Ins::JmpBwd { to } => {
                if tape[ptr as usize] != 0 {
                    pc = to;
                } else {
                    pc = pc + 1;
                }
            },
            Ins::End => {
            },
        }
        left = left - 1;
    }
    let ghost cur = semantics::steps(code@, init, (fuel - left) as nat);
    if is_end_at(code, pc) {
        proof {
            semantics::lemma_steps_add(code@, init, (fuel - left) as nat, left as nat);
            semantics::lemma_halted_stays(code@, cur, left as nat);
        }
        Some(out)
    } else {
        None
    }
}

/// The interpreter's whole pipeline: condense and bracket-match the program,
/// then execute it against the reference machine for at most `fuel` steps.
/// Bracket errors are reported before anything runs and produce no output;
/// on a balanced program the result is the machine's output once it halts,
/// or `Ok(None)` if it has not halted within `fuel` steps.
pub fn run(program_bytes: &[u8], input: &[u8], fuel: u64) -> (r: Result<Option<Vec<u8>>, crate::Error>)
    ensures
        ({
            let cr = program::compile_spec(program_bytes@);
            match r {
                Ok(opt) => cr is Ok && ({
                    let fin = semantics::steps(
                        cr->Ok_0,
                        semantics::init_state(input@),
                        fuel as nat,
                    );
                    match opt {
                        Some(out) => semantics::halted(cr->Ok_0, fin) && out@ == fin.output,
                        None => !semantics::halted(cr->Ok_0, fin),
                    }
                }),
                Err(e) => cr == Err::<Seq<Ins>, crate::Error>(e),
            }
        }),
{
    let n = program_bytes.len();
    proof {
        assert(program_bytes@.len() == n);
        program::lemma_compile_spec_wf(program_bytes@);
    }
    let code = match program::compile(program_bytes) {
        Ok(c) => c,
        Err(e) => {
            return Err(e);
        },
    };
    Ok(execute(&code, input, fuel))
}

} // verus!
