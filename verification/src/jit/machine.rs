//! The raw-byte x86-64 engine.  A first pass lays out the byte offset of
//! every instruction; a second pass appends each instruction's encoding with
//! its branch displacements computed from that table, so every relocation is
//! resolved the moment both of its endpoints are known.  The emitted image
//! is proved equal, byte for byte, to the encoding specification.

use vstd::prelude::*;

use crate::interpreter;
use crate::jit;
use crate::jit::encoding;
use crate::program;
use crate::program::Ins;
use crate::semantics;
use crate::Error;

verus! {

/// Longest program the emitter accepts; it keeps the whole image, and with
/// it every branch displacement, within the signed 32-bit range that the
/// conditional-jump encodings can express.
pub const MAX_PROGRAM_LEN: usize = 0x0400_0000;

/// Appends the routine prologue.
fn push_prologue(out: &mut Vec<u8>)
    ensures
        final(out)@ == old(out)@ + encoding::prologue(),
{
    out.push(0x55);
    out.push(0x48);
    out.push(0x89);
    out.push(0xe5);
    out.push(0x53);
    out.push(0x41);
    out.push(0x54);
    out.push(0x48);
    out.push(0x89);
    out.push(0xfb);
    out.push(0x4d);
    out.push(0x31);
    out.push(0xe4);
    out.push(0x48);
    out.push(0xc7);
    out.push(0xc0);
    out.push(0x01);
    out.push(0x00);
    out.push(0x00);
    out.push(0x00);
    proof {
        assert(out@ =~= old(out)@ + encoding::prologue());
    }
}

/// Appends the routine epilogue.
fn push_epilogue(out: &mut Vec<u8>)
    ensures
        final(out)@ == old(out)@ + encoding::epilogue(),
{
    out.push(0x41);
    out.push(0x5c);
    out.push(0x5b);
    out.push(0x48);
    out.push(0x89);
    out.push(0xec);
    out.push(0x5d);
    out.push(0xc3);
    proof {
        assert(out@ =~= old(out)@ + encoding::epilogue());
    }
}

/// Appends the cell test followed by a two-byte conditional-jump opcode.
fn push_test_jcc(out: &mut Vec<u8>, opcode: u8)
    ensures
        final(out)@ == old(out)@ + encoding::enc_test_cell() + seq![0x0fu8, opcode],
{
    out.push(0x42);
    out.push(0x80);
    out.push(0x3c);
    out.push(0x23);
    out.push(0x00);
    out.push(0x0f);
    out.push(opcode);
    proof {
        assert(out@ =~= old(out)@ + encoding::enc_test_cell() + seq![0x0fu8, opcode]);
    }
}

/// Appends a transfer call to the routine at `addr`, up to and including
/// the `jz` opcode whose displacement the caller appends next.
fn push_io_call(out: &mut Vec<u8>, addr: u64)
    ensures
        final(out)@ == old(out)@ + encoding::enc_io_call(addr),
{
    out.push(0x4a);
    out.push(0x8d);
    out.push(0x3c);
    out.push(0x23);
    out.push(0x48);
    out.push(0xb8);
    encoding::push_u64_le(out, addr);
    out.push(0xff);
    out.push(0xd0);
    out.push(0x3c);
    out.push(0x00);
    out.push(0x0f);
    out.push(0x84);
    proof {
        assert(out@ =~= old(out)@ + encoding::enc_io_call(addr));
    }
}

/// Emits the machine-code image of a well-formed instruction list, with the
/// two transfer routines' addresses baked into the call sites: exactly the
/// bytes of `encoding::machine_code`.
pub fn emit(code: &Vec<Ins>, putchar_addr: u64, getchar_addr: u64) -> (r: Vec<u8>)
    requires
        program::wf(code@),
        code@.len() <= MAX_PROGRAM_LEN + 1,
    ensures
        r@ == encoding::machine_code(code@, putchar_addr, getchar_addr),
{
    let n = code.len();
    let offs = encoding::layout(code);
    let mut out: Vec<u8> = Vec::new();
    push_prologue(&mut out);
    proof {
        assert(out@ =~= encoding::bytes_upto(code@, 0, putchar_addr, getchar_addr));
    }
    let mut i: usize = 0;
    while i < n
        invariant
            n == code@.len(),
            n <= MAX_PROGRAM_LEN + 1,
            program::wf(code@),
            i <= n,
            offs@.len() == n + 1,
            forall|k: int| 0 <= k <= n ==> #[trigger] offs@[k] as nat == encoding::offset_of(
                code@,
                k,
            ),
            forall|k: int| 0 <= k <= n ==> #[trigger] offs@[k] < 0x80000000,
            forall|k: int| 0 <= k <= n ==> #[trigger] offs@[k] <= offs@[n as int],
            out@ == encoding::bytes_upto(code@, i as int, putchar_addr, getchar_addr),
        decreases n - i,
    {
        let ghost pre = out@;
        proof {
            assert(program::jumps_ok_at(code@, i as int, code@.len() as int));
            assert(encoding::offset_of(code@, i as int + 1) == encoding::offset_of(code@, i as int)
                + encoding::ins_size(code@[i as int]));
            assert(offs@[i as int + 1] <= offs@[n as int]);
        }
        let ins = code[i];
        match ins {
            Ins::IncPtr { amount } => {
                out.push(0x41);
                out.push(0x81);
                out.push(0xc4);
                encoding::push_u32_le(&mut out, amount as u32);
                out.push(0x45);
                out.push(0x0f);
                out.push(0xb7);
                out.push(0xe4);
            },
            Ins::DecPtr { amount } => {
                out.push(0x41);
                out.push(0x81);
                out.push(0xec);
                encoding::push_u32_le(&mut out, amount as u32);
                out.push(0x45);
                out.push(0x0f);
                out.push(0xb7);
                out.push(0xe4);
            },
            Ins::IncCell { amount } => {
                out.push(0x42);
                out.push(0x80);
                out.push(0x04);
                out.push(0x23);
                out.push(amount);
            },
            Ins::DecCell { amount } => {
                out.push(0x42);
                out.push(0x80);
                out.push(0x2c);
                out.push(0x23);
                out.push(amount);
            },
            Ins::Output => {
                push_io_call(&mut out, putchar_addr);
                encoding::push_disp32(&mut out, offs[n - 1], offs[i] + 24);
            },
            Ins::Input => {
                push_io_call(&mut out, getchar_addr);
                encoding::push_disp32(&mut out, offs[n - 1], offs[i] + 24);
            },
            Ins::JmpFwd { to } => {
                push_test_jcc(&mut out, 0x84);
                encoding::push_disp32(&mut out, offs[to], offs[i] + 11);
            },
            Ins::JmpBwd { to } => {
                push_test_jcc(&mut out, 0x85);
                encoding::push_disp32(&mut out, offs[to + 1], offs[i] + 11);
            },
            Ins::End => {
                push_epilogue(&mut out);
            },
        }
        proof {
            assert(out@ =~= encoding::bytes_upto(code@, i as int + 1, putchar_addr, getchar_addr));
        }
        i = i + 1;
    }
    out
}

/// Translates a program into an executable memory mapping holding its
/// machine code.  Bracket errors abort compilation before any memory is
/// mapped; `Io` reports an allocation or protection change the operating
/// system refused.  On success the mapping holds exactly the image of the
/// program's instruction list.
pub fn compile(program_bytes: &[u8], putchar_addr: u64, getchar_addr: u64) -> (r: Result<
    memmap2::Mmap,
    Error,
>)
    requires
        program_bytes@.len() <= MAX_PROGRAM_LEN,
    ensures
        ({
            let cr = program::compile_spec(program_bytes@);
            match r {
                Ok(m) => cr is Ok && jit::mmap_bytes(&m) == encoding::machine_code(
                    cr->Ok_0,
                    putchar_addr,
                    getchar_addr,
                ),
                Err(e) => if e is Io {
                    cr is Ok
                } else {
                    cr == Err::<Seq<Ins>, Error>(e)
                },
            }
        }),
{
    proof {
        program::lemma_compile_spec_wf(program_bytes@);
    }
    let code = match program::compile(program_bytes) {
        Ok(c) => c,
        Err(e) => {
            proof {
                program::lemma_compile_classifies(program_bytes@);
            }
            return Err(e);
        },
    };
    let image = emit(&code, putchar_addr, getchar_addr);
    let mut m = match jit::map_anon(image.len()) {
        Some(m) => m,
        None => {
            return Err(Error::Io);
        },
    };
    jit::fill(&mut m, &image);
    match jit::make_exec(m) {
        Some(e) => Ok(e),
        None => Err(Error::Io),
    }
}

/// The machine-code engine's observable behaviour: condense and match the
/// program, then run its instruction list against the reference machine for
/// at most `fuel` steps — precisely the semantics the emitted image
/// implements against a real tape.  The native invocation of a compiled
/// image lives in the application harness, which pairs `compile` with the
/// actual transfer routines.
pub fn run(program_bytes: &[u8], input: &[u8], fuel: u64) -> (r: Result<
    Option<Vec<u8>>,
    Error,
>)
    ensures
        ({
            let cr = program::compile_spec(program_bytes@);
            match r {
                Ok(opt) => cr is Ok && ({
                    let fin = semantics::steps(
                        cr->Ok_0,
                        semantics::init_state(input@),
                        fuel as nat,
                    );
                    match opt {
                        Some(out) => semantics::halted(cr->Ok_0, fin) && out@ == fin.output,
                        None => !semantics::halted(cr->Ok_0, fin),
                    }
                }),
                Err(e) => cr == Err::<Seq<Ins>, Error>(e),
            }
        }),
{
    let n = program_bytes.len();
    proof {
        assert(program_bytes@.len() == n);
        program::lemma_compile_spec_wf(program_bytes@);
    }
    let code = match program::compile(program_bytes) {
        Ok(c) => c,
        Err(e) => {
            return Err(e);
        },
    };
    Ok(interpreter::execute(&code, input, fuel))
}

} // verus!
