//! The assembler-backed x86-64 engine: the front end's instruction list
//! assembled through `dynasmrt`'s dynamic labels, and the engine's
//! observable behaviour, given by the reference machine.

use vstd::prelude::*;

use crate::interpreter;
use crate::jit::dynasm;
use crate::jit::encoding;
use crate::jit::machine::MAX_PROGRAM_LEN;
use crate::program;
use crate::program::Ins;
use crate::semantics;
use crate::Error;

verus! {

/// Translates a program into an executable buffer holding its machine
/// code, with the two transfer routines' addresses baked into the call
/// sites.  Bracket errors abort before the assembler is created; `Io`
/// reports an assembler or buffer the operating system refused.  On
/// success the buffer holds exactly the image of the program's
/// instruction list.
pub fn compile(program_bytes: &[u8], putchar_addr: u64, getchar_addr: u64) -> (r: Result<
    dynasmrt::ExecutableBuffer,
    Error,
>)
    requires
        program_bytes@.len() <= MAX_PROGRAM_LEN,
    ensures
        ({
            let cr = program::compile_spec(program_bytes@);
            match r {
                Ok(b) => cr is Ok && dynasm::ebuf_bytes(&b) == encoding::machine_code(
                    cr->Ok_0,
                    putchar_addr,
                    getchar_addr,
                ),
                Err(e) => if e is Io {
                    cr is Ok
                } else {
                    cr == Err::<Seq<Ins>, Error>(e)
                },
            }
        }),
{
    proof {
        program::lemma_compile_spec_wf(program_bytes@);
    }
    let code = match program::compile(program_bytes) {
        Ok(c) => c,
        Err(e) => {
            proof {
                program::lemma_compile_classifies(program_bytes@);
            }
            return Err(e);
        },
    };
    match dynasm::assemble(&code, putchar_addr, getchar_addr) {
        Some(b) => Ok(b),
        None => Err(Error::Io),
    }
}

/// The engine's observable behaviour: condense and match the program, then
/// run its instruction list against the reference machine for at most
/// `fuel` steps — precisely the semantics the assembled buffer implements
/// against a real tape.  The native invocation of a compiled buffer lives
/// in the application harness.
pub fn run(program_bytes: &[u8], input: &[u8], fuel: u64) -> (r: Result<Option<Vec<u8>>, Error>)
    ensures
        ({
            let cr = program::compile_spec(program_bytes@);
            match r {
                Ok(opt) => cr is Ok && ({
                    let fin = semantics::steps(
                        cr->Ok_0,
                        semantics::init_state(input@),
                        fuel as nat,
                    );
                    match opt {
                        Some(out) => semantics::halted(cr->Ok_0, fin) && out@ == fin.output,
                        None => !semantics::halted(cr->Ok_0, fin),
                    }
                }),
                Err(e) => cr == Err::<Seq<Ins>, Error>(e),
            }
        }),
{
    let n = program_bytes.len();
    proof {
        assert(program_bytes@.len() == n);
        program::lemma_compile_spec_wf(program_bytes@);
    }
    let code = match program::compile(program_bytes) {
        Ok(c) => c,
        Err(e) => {
            return Err(e);
        },
    };
    Ok(interpreter::execute(&code, input, fuel))
}

} // verus!
