//! The instruction builder: the x86-64 byte encoding of each condensed
//! instruction, as specification functions, and the executable helpers that
//! append those bytes.  The compiled routine keeps the tape base in `rbx`
//! and the tape index in `r12`, which is truncated to 16 bits after every
//! move so the index wraps at the tape length; the scalar result travels in
//! `rax` (nonzero means no transfer failed).
//!
//! Branch displacements are 32-bit two's-complement values relative to the
//! end of the displacement field, as the conditional-jump encodings require.

use vstd::prelude::*;

use crate::program::Ins;

verus! {

/// Little-endian bytes of the low 32 bits of `v`.
pub open spec fn le32(v: nat) -> Seq<u8> {
    seq![
        (v % 256) as u8,
        ((v / 256) % 256) as u8,
        ((v / 65536) % 256) as u8,
        ((v / 16777216) % 256) as u8,
    ]
}

/// Little-endian bytes of the 64-bit value `v`.
pub open spec fn le64(v: nat) -> Seq<u8> {
    seq![
        (v % 256) as u8,
        ((v / 256) % 256) as u8,
        ((v / 65536) % 256) as u8,
        ((v / 16777216) % 256) as u8,
        ((v / 4294967296) % 256) as u8,
        ((v / 1099511627776) % 256) as u8,
        ((v / 281474976710656) % 256) as u8,
        ((v / 72057594037927936) % 256) as u8,
    ]
}

/// The four bytes of a relative branch displacement: the distance from the
/// end of the displacement field at `from` to `target`, two's complement.
/// Meaningful when the distance fits a signed 32-bit value.
pub open spec fn disp32(target: nat, from: nat) -> Seq<u8> {
    if target >= from {
        le32((target - from) as nat)
    } else {
        le32((0x100000000 - (from - target)) as nat)
    }
}

/// The routine prologue: save `rbp`, `rbx` and `r12` per the calling
/// convention, move the tape base argument from `rdi` into `rbx`, zero the
/// tape index `r12`, and set the result register `rax` to one.
pub open spec fn prologue() -> Seq<u8> {
    seq![
        0x55u8,
        0x48u8,
        0x89u8,
        0xe5u8,
        0x53u8,
        0x41u8,
        0x54u8,
        0x48u8,
        0x89u8,
        0xfbu8,
        0x4du8,
        0x31u8,
        0xe4u8,
        0x48u8,
        0xc7u8,
        0xc0u8,
        0x01u8,
        0x00u8,
        0x00u8,
        0x00u8,
    ]
}

/// The routine epilogue: restore the saved registers and return, leaving
/// the last transfer's result in `rax`.
pub open spec fn epilogue() -> Seq<u8> {
    seq![0x41u8, 0x5cu8, 0x5bu8, 0x48u8, 0x89u8, 0xecu8, 0x5du8, 0xc3u8]
}

/// `movzx r12d, r12w`: truncate the tape index to 16 bits.
pub open spec fn enc_truncate_index() -> Seq<u8> {
    seq![0x45u8, 0x0fu8, 0xb7u8, 0xe4u8]
}

/// `cmp BYTE [rbx + r12], 0`: test the current cell.
pub open spec fn enc_test_cell() -> Seq<u8> {
    seq![0x42u8, 0x80u8, 0x3cu8, 0x23u8, 0x00u8]
}

/// The transfer call: `lea rdi, [rbx + r12]`, `mov rax, addr`, `call rax`,
/// `cmp al, 0`, and the opcode of a `jz` to the failure epilogue, whose
/// displacement follows.
pub open spec fn enc_io_call(addr: u64) -> Seq<u8> {
    seq![0x4au8, 0x8du8, 0x3cu8, 0x23u8, 0x48u8, 0xb8u8] + le64(addr as nat) + seq![
        0xffu8,
        0xd0u8,
        0x3cu8,
        0x00u8,
        0x0fu8,
        0x84u8,
    ]
}

/// Emitted size of one instruction, in bytes.
pub open spec fn ins_size(ins: Ins) -> nat {
    match ins {
        Ins::IncPtr { .. } => 11,
        Ins::DecPtr { .. } => 11,
        Ins::IncCell { .. } => 5,
        Ins::DecCell { .. } => 5,
        Ins::Output => 24,
        Ins::Input => 24,
        Ins::JmpFwd { .. } => 11,
        Ins::JmpBwd { .. } => 11,
        Ins::End => 8,
    }
}

/// Byte offset of instruction `i` in the emitted image, prologue included.
pub open spec fn offset_of(code: Seq<Ins>, i: int) -> nat
    decreases i,
{
    if i <= 0 {
        prologue().len()
    } else {
        offset_of(code, i - 1) + ins_size(code[i - 1])
    }
}

/// The bytes of instruction `i`: `add`/`sub` on the index register with the
/// truncation that realizes wraparound, `add`/`sub` on the tape-indexed
/// byte, a transfer call whose failure branches to the epilogue, a
/// conditional branch for each loop bracket, or the epilogue itself.
pub open spec fn enc_at(code: Seq<Ins>, i: int, putchar_addr: u64, getchar_addr: u64) -> Seq<u8> {
    match code[i] {
        Ins::IncPtr { amount } => seq![0x41u8, 0x81u8, 0xc4u8] + le32(amount as nat)
            + enc_truncate_index(),
        Ins::DecPtr { amount } => seq![0x41u8, 0x81u8, 0xecu8] + le32(amount as nat)
            + enc_truncate_index(),
        Ins::IncCell { amount } => seq![0x42u8, 0x80u8, 0x04u8, 0x23u8, amount],
        Ins::DecCell { amount } => seq![0x42u8, 0x80u8, 0x2cu8, 0x23u8, amount],
        Ins::Output => enc_io_call(putchar_addr) + disp32(
            offset_of(code, code.len() - 1),
            offset_of(code, i) + 24,
        ),
        Ins::Input => enc_io_call(getchar_addr) + disp32(
            offset_of(code, code.len() - 1),
            offset_of(code, i) + 24,
        ),
        Ins::JmpFwd { to } => enc_test_cell() + seq![0x0fu8, 0x84u8] + disp32(
            offset_of(code, to as int),
            offset_of(code, i) + 11,
        ),
        Ins::JmpBwd { to } => enc_test_cell() + seq![0x0fu8, 0x85u8] + disp32(
            offset_of(code, to as int + 1),
            offset_of(code, i) + 11,
        ),
        Ins::End => epilogue(),
    }
}

/// The image up to (excluding) instruction `i`: the prologue followed by
/// each instruction's bytes.
pub open spec fn bytes_upto(code: Seq<Ins>, i: int, putchar_addr: u64, getchar_addr: u64) -> Seq<
    u8,
>
    decreases i,
{
    if i <= 0 {
        prologue()
    } else {
        bytes_upto(code, i - 1, putchar_addr, getchar_addr) + enc_at(
            code,
            i - 1,
            putchar_addr,
            getchar_addr,
        )
    }
}

/// The whole machine-code image of an instruction list.
pub open spec fn machine_code(code: Seq<Ins>, putchar_addr: u64, getchar_addr: u64) -> Seq<u8> {
    bytes_upto(code, code.len() as int, putchar_addr, getchar_addr)
}

/// Each instruction's encoding has its declared size.
pub proof fn lemma_enc_size(code: Seq<Ins>, i: int, putchar_addr: u64, getchar_addr: u64)
    requires
        0 <= i < code.len(),
    ensures
        enc_at(code, i, putchar_addr, getchar_addr).len() == ins_size(code[i]),
{
}

/// The image up to instruction `i` ends exactly at that instruction's offset.
pub proof fn lemma_bytes_upto_len(code: Seq<Ins>, i: int, putchar_addr: u64, getchar_addr: u64)
    requires
        0 <= i <= code.len(),
    ensures
        bytes_upto(code, i, putchar_addr, getchar_addr).len() == offset_of(code, i),
    decreases i,
{
    if i > 0 {
        lemma_bytes_upto_len(code, i - 1, putchar_addr, getchar_addr);
        lemma_enc_size(code, i - 1, putchar_addr, getchar_addr);
    }
}

/// Offsets grow with the instruction index.
pub proof fn lemma_offset_mono(code: Seq<Ins>, a: int, b: int)
    requires
        0 <= a <= b,
    ensures
        offset_of(code, a) <= offset_of(code, b),
    decreases b - a,
{
    if a < b {
        lemma_offset_mono(code, a, b - 1);
    }
}

/// Emitted size of one instruction.
pub(crate) fn ins_size_of(ins: &Ins) -> (r: usize)
    ensures
        r as nat == ins_size(*ins),
{
    match ins {
        Ins::IncPtr { .. } => 11,
        Ins::DecPtr { .. } => 11,
        Ins::IncCell { .. } => 5,
        Ins::DecCell { .. } => 5,
        Ins::Output => 24,
        Ins::Input => 24,
        Ins::JmpFwd { .. } => 11,
        Ins::JmpBwd { .. } => 11,
        Ins::End => 8,
    }
}

/// The layout pass: the byte offset of every instruction, with the image's
/// total size as the final entry.  All of them fit the signed 32-bit range
/// the branch encodings need, and none passes the total.
pub(crate) fn layout(code: &Vec<Ins>) -> (r: Vec<usize>)
    requires
        code@.len() <= 0x0400_0001,
    ensures
        r@.len() == code@.len() + 1,
        forall|k: int| 0 <= k <= code@.len() ==> #[trigger] r@[k] as nat == offset_of(code@, k),
        forall|k: int| 0 <= k <= code@.len() ==> #[trigger] r@[k] < 0x80000000,
        forall|k: int| 0 <= k <= code@.len() ==> #[trigger] r@[k] <= r@[code@.len() as int],
{
    let n = code.len();
    let mut offs: Vec<usize> = Vec::new();
    let mut cur: usize = 20;
    let mut i: usize = 0;
    proof {
        assert(prologue().len() == 20);
    }
    while i < n
        invariant
            n == code@.len(),
            n <= 0x0400_0001,
            i <= n,
            offs@.len() == i,
            cur as nat == offset_of(code@, i as int),
            cur <= 20 + 24 * i,
            forall|k: int| 0 <= k < i ==> #[trigger] offs@[k] as nat == offset_of(code@, k),
        decreases n - i,
    {
        offs.push(cur);
        let s = ins_size_of(&code[i]);
        proof {
            assert(offset_of(code@, i as int + 1) == offset_of(code@, i as int) + ins_size(
                code@[i as int],
            ));
        }
        cur = cur + s;
        i = i + 1;
    }
    offs.push(cur);
    proof {
        assert forall|k: int| 0 <= k <= code@.len() implies #[trigger] offs@[k] as nat
            <= offset_of(code@, n as int) by {
            lemma_offset_mono(code@, k, n as int);
        }
    }
    offs
}

/// Appends the little-endian bytes of `v`.
pub(crate) fn push_u32_le(out: &mut Vec<u8>, v: u32)
    ensures
        final(out)@ == old(out)@ + le32(v as nat),
{
    out.push((v % 256) as u8);
    out.push(((v / 256) % 256) as u8);
    out.push(((v / 65536) % 256) as u8);
    out.push(((v / 16777216) % 256) as u8);
    proof {
        assert(out@ =~= old(out)@ + le32(v as nat));
    }
}

/// Appends the little-endian bytes of `v`.
pub(crate) fn push_u64_le(out: &mut Vec<u8>, v: u64)
    ensures
        final(out)@ == old(out)@ + le64(v as nat),
{
    out.push((v % 256) as u8);
    out.push(((v / 256) % 256) as u8);
    out.push(((v / 65536) % 256) as u8);
    out.push(((v / 16777216) % 256) as u8);
    out.push(((v / 4294967296) % 256) as u8);
    out.push(((v / 1099511627776) % 256) as u8);
    out.push(((v / 281474976710656) % 256) as u8);
    out.push(((v / 72057594037927936) % 256) as u8);
    proof {
        assert(out@ =~= old(out)@ + le64(v as nat));
    }
}

/// Appends a branch displacement: the two's-complement distance from the
/// end of the displacement field at `from` to `target`.
pub(crate) fn push_disp32(out: &mut Vec<u8>, target: usize, from: usize)
    requires
        target >= from ==> target - from < 0x80000000,
        from >= target ==> from - target <= 0x80000000,
    ensures
        final(out)@ == old(out)@ + disp32(target as nat, from as nat),
{
    if target >= from {
        push_u32_le(out, (target - from) as u32);
    } else {
        let d: usize = from - target;
        push_u32_le(out, (0x100000000u64 - d as u64) as u32);
    }
}

} // verus!
