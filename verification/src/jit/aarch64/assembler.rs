//! The aarch64 target's engine.  The library carries no native emitter for
//! this instruction set; `run` states and realizes the observable
//! behaviour any such emitter must implement, through the shared front end
//! and the reference machine.

use vstd::prelude::*;

use crate::interpreter;
use crate::program;
use crate::program::Ins;
use crate::semantics;
use crate::Error;

verus! {

/// The engine's observable behaviour: condense and match the program, then
/// run its instruction list against the reference machine for at most
/// `fuel` steps.
pub fn run(program_bytes: &[u8], input: &[u8], fuel: u64) -> (r: Result<Option<Vec<u8>>, Error>)
    ensures
        ({
            let cr = program::compile_spec(program_bytes@);
            match r {
                Ok(opt) => cr is Ok && ({
                    let fin = semantics::steps(
                        cr->Ok_0,
                        semantics::init_state(input@),
                        fuel as nat,
                    );
                    match opt {
                        Some(out) => semantics::halted(cr->Ok_0, fin) && out@ == fin.output,
                        None => !semantics::halted(cr->Ok_0, fin),
                    }
                }),
                Err(e) => cr == Err::<Seq<Ins>, Error>(e),
            }
        }),
{
    let n = program_bytes.len();
    proof {
        assert(program_bytes@.len() == n);
        program::lemma_compile_spec_wf(program_bytes@);
    }
    let code = match program::compile(program_bytes) {
        Ok(c) => c,
        Err(e) => {
            return Err(e);
        },
    };
    Ok(interpreter::execute(&code, input, fuel))
}

} // verus!
