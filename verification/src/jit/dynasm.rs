//! The assembler-backed emission path, built on `dynasmrt`'s x64
//! `Assembler`.  The assembler is modelled by four quantities: the byte
//! stream pushed so far, the number of dynamic labels created, the binding
//! of label ids to byte offsets, and the list of registered branch
//! relocations (each the end offset of its four-byte field and the label it
//! targets).  `finalize` resolves every relocation by writing the
//! two's-complement distance from field end to label binding — the
//! `patched` function below — and returns the executable buffer.
//!
//! The emitter here pushes each branch displacement it already knows and
//! registers the matching relocation, so the assembler's own resolution is
//! proved to rewrite each field with the value it already holds; the final
//! image equals `encoding::machine_code` byte for byte.

use vstd::prelude::*;

use dynasmrt::relocations::Relocation;
use dynasmrt::DynasmApi;
use dynasmrt::DynasmLabelApi;

use crate::jit::encoding;
use crate::program;
use crate::program::Ins;

verus! {

/// The x64 assembler.  Its generic `Relocation` bound keeps the type from
/// being declared to the verifier directly, so it lives in a hidden field.
#[verifier::external_body]
pub struct X64Assembler {
    inner: dynasmrt::x64::Assembler,
}

#[verifier::external_type_specification]
#[verifier::external_body]
pub struct ExDynamicLabel(dynasmrt::DynamicLabel);

#[verifier::external_type_specification]
#[verifier::external_body]
pub struct ExExecutableBuffer(dynasmrt::ExecutableBuffer);

/// The bytes pushed into the assembler so far.
pub uninterp spec fn asm_code(a: &X64Assembler) -> Seq<u8>;

/// How many dynamic labels the assembler has created.
pub uninterp spec fn asm_labels(a: &X64Assembler) -> nat;

/// Which byte offset each dynamic label id is bound to.
pub uninterp spec fn asm_bindings(a: &X64Assembler) -> Map<nat, nat>;

/// The registered relocations: the end offset of each four-byte branch
/// field, and the id of the label it targets, in registration order.
pub uninterp spec fn asm_relocs(a: &X64Assembler) -> Seq<(nat, nat)>;

/// The id of a dynamic label.
pub uninterp spec fn label_id(l: dynasmrt::DynamicLabel) -> nat;

/// The bytes an executable buffer holds.
pub uninterp spec fn ebuf_bytes(b: &dynasmrt::ExecutableBuffer) -> Seq<u8>;

/// `bytes` with the four bytes ending at `site` replaced by `four`.
pub open spec fn write4_at(bytes: Seq<u8>, site: int, four: Seq<u8>) -> Seq<u8> {
    bytes.update(site - 4, four[0]).update(site - 3, four[1]).update(site - 2, four[2]).update(
        site - 1,
        four[3],
    )
}

/// Every relocation's field rewritten with the distance from the field end
/// to the offset its label is bound to.
pub open spec fn patched(bytes: Seq<u8>, bind: Map<nat, nat>, relocs: Seq<(nat, nat)>) -> Seq<u8>
    decreases relocs.len(),
{
    if relocs.len() == 0 {
        bytes
    } else {
        let e = relocs.last();
        write4_at(
            patched(bytes, bind, relocs.drop_last()),
            e.0 as int,
            encoding::disp32(bind[e.1], e.0),
        )
    }
}

/// A just-created assembler's model: nothing pushed, no labels, nothing
/// bound, no relocations.
pub open spec fn fresh_assembler(a: &X64Assembler) -> bool {
    &&& asm_code(a) == Seq::<u8>::empty()
    &&& asm_labels(a) == 0
    &&& asm_bindings(a) == Map::<nat, nat>::empty()
    &&& asm_relocs(a) == Seq::<(nat, nat)>::empty()
}

/// Relies on dynasmrt::Assembler::new: a fresh assembler with nothing
/// pushed, no labels and no relocations, or `None` when the initial
/// executable allocation fails.
#[verifier::external_body]
pub(crate) fn asm_new() -> (r: Option<X64Assembler>)
    ensures
        r matches Some(a) ==> fresh_assembler(&a),
{
    Some(X64Assembler { inner: dynasmrt::x64::Assembler::new().ok()? })
}

/// Relies on DynasmApi::push: appends one byte to the assembling buffer and
/// touches nothing else.
#[verifier::external_body]
pub(crate) fn asm_push(a: &mut X64Assembler, b: u8)
    ensures
        asm_code(final(a)) == asm_code(old(a)).push(b),
        asm_labels(final(a)) == asm_labels(old(a)),
        asm_bindings(final(a)) == asm_bindings(old(a)),
        asm_relocs(final(a)) == asm_relocs(old(a)),
{
    a.inner.push(b);
}

/// Relies on Assembler::new_dynamic_label: label ids are handed out
/// consecutively from zero, and creating one changes nothing else.
#[verifier::external_body]
pub(crate) fn asm_new_label(a: &mut X64Assembler) -> (r: dynasmrt::DynamicLabel)
    ensures
        label_id(r) == asm_labels(old(a)),
        asm_labels(final(a)) == asm_labels(old(a)) + 1,
        asm_code(final(a)) == asm_code(old(a)),
        asm_bindings(final(a)) == asm_bindings(old(a)),
        asm_relocs(final(a)) == asm_relocs(old(a)),
{
    a.inner.new_dynamic_label()
}

/// Relies on DynasmLabelApi::dynamic_label: binds a created, not yet bound
/// label to the current offset; under those conditions it records no error.
#[verifier::external_body]
pub(crate) fn asm_bind_label(a: &mut X64Assembler, l: &dynasmrt::DynamicLabel)
    requires
        label_id(*l) < asm_labels(old(a)),
        !asm_bindings(old(a)).contains_key(label_id(*l)),
    ensures
        asm_bindings(final(a)) == asm_bindings(old(a)).insert(
            label_id(*l),
            asm_code(old(a)).len(),
        ),
        asm_code(final(a)) == asm_code(old(a)),
        asm_labels(final(a)) == asm_labels(old(a)),
        asm_relocs(final(a)) == asm_relocs(old(a)),
{
    a.inner.dynamic_label(*l);
}

/// Relies on DynasmLabelApi::dynamic_relocation: registers a four-byte
/// pc-relative relocation whose field is the four bytes just pushed and
/// whose reference point is the field's end, the current offset.
#[verifier::external_body]
pub(crate) fn asm_branch_reloc(a: &mut X64Assembler, l: &dynasmrt::DynamicLabel)
    requires
        asm_code(old(a)).len() >= 4,
    ensures
        asm_relocs(final(a)) == asm_relocs(old(a)).push(
            (asm_code(old(a)).len(), label_id(*l)),
        ),
        asm_code(final(a)) == asm_code(old(a)),
        asm_labels(final(a)) == asm_labels(old(a)),
        asm_bindings(final(a)) == asm_bindings(old(a)),
{
    a.inner.dynamic_relocation(
        *l,
        0,
        4,
        0,
        dynasmrt::x64::X64Relocation::from_size(
            dynasmrt::relocations::RelocationKind::Relative,
            dynasmrt::relocations::RelocationSize::DWord,
        ),
    );
}

/// Relies on Assembler::finalize (committing first): every registered
/// relocation targets a bound label, every field lies inside the buffer at
/// increasing, non-overlapping sites, and every distance fits the signed
/// 32-bit field, so resolution succeeds and writes `patched`; the returned
/// buffer holds exactly those bytes.  `None` reports that the buffer was
/// still shared.  An allocation the operating system refuses while the
/// bytes move into executable memory aborts, as failed allocations do
/// elsewhere.
#[verifier::external_body]
pub(crate) fn asm_finalize(a: X64Assembler) -> (r: Option<
    dynasmrt::ExecutableBuffer,
>)
    requires
        asm_code(&a).len() < 0x80000000,
        forall|j: int|
            0 <= j < asm_relocs(&a).len() ==> {
                let e = #[trigger] asm_relocs(&a)[j];
                &&& 4 <= e.0 <= asm_code(&a).len()
                &&& asm_bindings(&a).contains_key(e.1)
                &&& asm_bindings(&a)[e.1] <= asm_code(&a).len()
            },
        forall|j1: int, j2: int|
            0 <= j1 < j2 < asm_relocs(&a).len() ==> #[trigger] asm_relocs(&a)[j1].0 + 4
                <= #[trigger] asm_relocs(&a)[j2].0,
    ensures
        r matches Some(b) ==> ebuf_bytes(&b) == patched(
            asm_code(&a),
            asm_bindings(&a),
            asm_relocs(&a),
        ),
{
    a.inner.finalize().ok()
}

/// Relies on ExecutableBuffer's Deref to `[u8]` and `<[u8]>::to_vec`: a
/// copy of the buffer's bytes, for callers that inspect the image.
#[verifier::external_body]
pub fn buffer_bytes(b: &dynasmrt::ExecutableBuffer) -> (r: Vec<u8>)
    ensures
        r@ == ebuf_bytes(b),
{
    b.to_vec()
}

/// The relocation entries emission registers for instruction `i`: each
/// branch's field ends where the instruction's displacement does, and
/// targets the label of the instruction the branch goes to.
pub open spec fn reloc_entries_at(code: Seq<Ins>, i: int) -> Seq<(nat, nat)> {
    match code[i] {
        Ins::JmpFwd { to } => seq![(encoding::offset_of(code, i) + 11, to as nat)],
        Ins::JmpBwd { to } => seq![(encoding::offset_of(code, i) + 11, (to + 1) as nat)],
        Ins::Output => seq![(encoding::offset_of(code, i) + 24, (code.len() - 1) as nat)],
        Ins::Input => seq![(encoding::offset_of(code, i) + 24, (code.len() - 1) as nat)],
        _ => Seq::empty(),
    }
}

/// All relocation entries registered for the first `i` instructions.
pub open spec fn relocs_upto(code: Seq<Ins>, i: int) -> Seq<(nat, nat)>
    decreases i,
{
    if i <= 0 {
        Seq::empty()
    } else {
        relocs_upto(code, i - 1) + reloc_entries_at(code, i - 1)
    }
}

/// The label bindings after the first `i` instructions: each instruction's
/// label bound to its byte offset.
pub open spec fn bindings_upto(code: Seq<Ins>, i: int) -> Map<nat, nat> {
    Map::new(|k: nat| k < i, |k: nat| encoding::offset_of(code, k as int))
}

/// A relocation entry is coherent with the byte stream: its field lies
/// inside the stream and already holds the displacement from the field's
/// end to the offset of the instruction its label marks.
pub open spec fn reloc_ok(code: Seq<Ins>, bytes: Seq<u8>, e: (nat, nat)) -> bool {
    &&& 4 <= e.0 <= bytes.len()
    &&& e.1 < code.len()
    &&& bytes.subrange(e.0 as int - 4, e.0 as int) == encoding::disp32(
        encoding::offset_of(code, e.1 as int),
        e.0,
    )
}

/// A coherent relocation stays coherent when bytes are appended.
proof fn lemma_reloc_ok_extend(code: Seq<Ins>, bytes: Seq<u8>, ext: Seq<u8>, e: (nat, nat))
    requires
        reloc_ok(code, bytes, e),
    ensures
        reloc_ok(code, bytes + ext, e),
{
    assert((bytes + ext).subrange(e.0 as int - 4, e.0 as int) =~= bytes.subrange(
        e.0 as int - 4,
        e.0 as int,
    ));
}

/// Resolving coherent relocations rewrites every field with the value it
/// already holds: the patched stream is the stream itself.
proof fn lemma_patched_identity(
    code: Seq<Ins>,
    bytes: Seq<u8>,
    bind: Map<nat, nat>,
    relocs: Seq<(nat, nat)>,
)
    requires
        forall|j: int| 0 <= j < relocs.len() ==> #[trigger] reloc_ok(code, bytes, relocs[j]),
        forall|j: int|
            0 <= j < relocs.len() ==> bind.contains_key((#[trigger] relocs[j]).1)
                && bind[relocs[j].1] == encoding::offset_of(code, relocs[j].1 as int),
    ensures
        patched(bytes, bind, relocs) == bytes,
    decreases relocs.len(),
{
    if relocs.len() > 0 {
        assert(forall|j: int|
            0 <= j < relocs.len() - 1 ==> #[trigger] relocs.drop_last()[j] == relocs[j]);
        lemma_patched_identity(code, bytes, bind, relocs.drop_last());
        let e = relocs.last();
        assert(reloc_ok(code, bytes, e));
        let four = encoding::disp32(bind[e.1], e.0);
        assert forall|m: int| 0 <= m < 4 implies four[m] == bytes[e.0 - 4 + m] by {
            assert(bytes.subrange(e.0 as int - 4, e.0 as int)[m] == bytes[e.0 - 4 + m]);
        }
        assert(write4_at(bytes, e.0 as int, four) =~= bytes);
    }
}

/// The label bookkeeping two assembler states share.
pub open spec fn same_labels(a1: &X64Assembler, a2: &X64Assembler) -> bool {
    &&& asm_labels(a2) == asm_labels(a1)
    &&& asm_bindings(a2) == asm_bindings(a1)
    &&& asm_relocs(a2) == asm_relocs(a1)
}

/// Pushes the little-endian bytes of `v`.
fn a_append_u32(a: &mut X64Assembler, v: u32)
    ensures
        asm_code(final(a)) == asm_code(old(a)) + encoding::le32(v as nat),
        same_labels(old(a), final(a)),
{
    asm_push(a, (v % 256) as u8);
    asm_push(a, ((v / 256) % 256) as u8);
    asm_push(a, ((v / 65536) % 256) as u8);
    asm_push(a, ((v / 16777216) % 256) as u8);
    proof {
        assert(asm_code(a) =~= asm_code(old(a)) + encoding::le32(v as nat));
    }
}

/// Pushes the little-endian bytes of `v`.
fn a_append_u64(a: &mut X64Assembler, v: u64)
    ensures
        asm_code(final(a)) == asm_code(old(a)) + encoding::le64(v as nat),
        same_labels(old(a), final(a)),
{
    asm_push(a, (v % 256) as u8);
    asm_push(a, ((v / 256) % 256) as u8);
    asm_push(a, ((v / 65536) % 256) as u8);
    asm_push(a, ((v / 16777216) % 256) as u8);
    asm_push(a, ((v / 4294967296) % 256) as u8);
    asm_push(a, ((v / 1099511627776) % 256) as u8);
    asm_push(a, ((v / 281474976710656) % 256) as u8);
    asm_push(a, ((v / 72057594037927936) % 256) as u8);
    proof {
        assert(asm_code(a) =~= asm_code(old(a)) + encoding::le64(v as nat));
    }
}

/// Pushes a branch displacement, as the raw-byte emitter computes it.
fn a_append_disp32(a: &mut X64Assembler, target: usize, from: usize)
    requires
        target >= from ==> target - from < 0x80000000,
        from >= target ==> from - target <= 0x80000000,
    ensures
        asm_code(final(a)) == asm_code(old(a)) + encoding::disp32(target as nat, from as nat),
        same_labels(old(a), final(a)),
{
    if target >= from {
        a_append_u32(a, (target - from) as u32);
    } else {
        let d: usize = from - target;
        a_append_u32(a, (0x100000000u64 - d as u64) as u32);
    }
}

/// Pushes the routine prologue.
fn a_push_prologue(a: &mut X64Assembler)
    ensures
        asm_code(final(a)) == asm_code(old(a)) + encoding::prologue(),
        same_labels(old(a), final(a)),
{
    asm_push(a, 0x55);
    asm_push(a, 0x48);
    asm_push(a, 0x89);
    asm_push(a, 0xe5);
    asm_push(a, 0x53);
    asm_push(a, 0x41);
    asm_push(a, 0x54);
    asm_push(a, 0x48);
    asm_push(a, 0x89);
    asm_push(a, 0xfb);
    asm_push(a, 0x4d);
    asm_push(a, 0x31);
    asm_push(a, 0xe4);
    asm_push(a, 0x48);
    asm_push(a, 0xc7);
    asm_push(a, 0xc0);
    asm_push(a, 0x01);
    asm_push(a, 0x00);
    asm_push(a, 0x00);
    asm_push(a, 0x00);
    proof {
        assert(asm_code(a) =~= asm_code(old(a)) + encoding::prologue());
    }
}

/// Pushes the routine epilogue.
fn a_push_epilogue(a: &mut X64Assembler)
    ensures
        asm_code(final(a)) == asm_code(old(a)) + encoding::epilogue(),
        same_labels(old(a), final(a)),
{
    asm_push(a, 0x41);
    asm_push(a, 0x5c);
    asm_push(a, 0x5b);
    asm_push(a, 0x48);
    asm_push(a, 0x89);
    asm_push(a, 0xec);
    asm_push(a, 0x5d);
    asm_push(a, 0xc3);
    proof {
        assert(asm_code(a) =~= asm_code(old(a)) + encoding::epilogue());
    }
}

/// Pushes the cell test and a two-byte conditional-jump opcode.
fn a_push_test_jcc(a: &mut X64Assembler, opcode: u8)
    ensures
        asm_code(final(a)) == asm_code(old(a)) + encoding::enc_test_cell() + seq![0x0fu8, opcode],
        same_labels(old(a), final(a)),
{
    asm_push(a, 0x42);
    asm_push(a, 0x80);
    asm_push(a, 0x3c);
    asm_push(a, 0x23);
    asm_push(a, 0x00);
    asm_push(a, 0x0f);
    asm_push(a, opcode);
    proof {
        assert(asm_code(a) =~= asm_code(old(a)) + encoding::enc_test_cell() + seq![
            0x0fu8,
            opcode,
        ]);
    }
}

/// Pushes a transfer call up to and including the `jz` opcode.
fn a_push_io(a: &mut X64Assembler, addr: u64)
    ensures
        asm_code(final(a)) == asm_code(old(a)) + encoding::enc_io_call(addr),
        same_labels(old(a), final(a)),
{
    asm_push(a, 0x4a);
    asm_push(a, 0x8d);
    asm_push(a, 0x3c);
    asm_push(a, 0x23);
    asm_push(a, 0x48);
    asm_push(a, 0xb8);
    a_append_u64(a, addr);
    asm_push(a, 0xff);
    asm_push(a, 0xd0);
    asm_push(a, 0x3c);
    asm_push(a, 0x00);
    asm_push(a, 0x0f);
    asm_push(a, 0x84);
    proof {
        assert(asm_code(a) =~= asm_code(old(a)) + encoding::enc_io_call(addr));
    }
}

/// Assembles the image of a well-formed instruction list through the
/// dynamic-label assembler: one label per instruction, bound at that
/// instruction's offset, one relocation per branch, resolved at finalize
/// time.  On success the buffer holds exactly `encoding::machine_code`;
/// `None` reports an assembler the operating system refused.
#[verifier::rlimit(100)]
pub(crate) fn assemble(code: &Vec<Ins>, putchar_addr: u64, getchar_addr: u64) -> (r: Option<
    dynasmrt::ExecutableBuffer,
>)
    requires
        program::wf(code@),
        code@.len() <= 0x0400_0001,
    ensures
        r matches Some(b) ==> ebuf_bytes(&b) == encoding::machine_code(
            code@,
            putchar_addr,
            getchar_addr,
        ),
{
    let n = code.len();
    let offs = encoding::layout(code);
    let mut a = match asm_new() {
        Some(a) => a,
        None => {
            return None;
        },
    };
    let mut labels: Vec<dynasmrt::DynamicLabel> = Vec::new();
    let mut k: usize = 0;
    while k < n
        invariant
            n == code@.len(),
            k <= n,
            labels@.len() == k,
            asm_labels(&a) == k as nat,
            asm_code(&a) == Seq::<u8>::empty(),
            asm_bindings(&a) == bindings_upto(code@, 0),
            asm_relocs(&a) == relocs_upto(code@, 0),
            forall|j: int| 0 <= j < k ==> label_id(#[trigger] labels@[j]) == j,
        decreases n - k,
    {
        let l = asm_new_label(&mut a);
        labels.push(l);
        k = k + 1;
    }
    proof {
        assert(bindings_upto(code@, 0) =~= Map::<nat, nat>::empty());
    }
    a_push_prologue(&mut a);
    proof {
        assert(asm_code(&a) =~= encoding::bytes_upto(code@, 0, putchar_addr, getchar_addr));
    }
    let mut i: usize = 0;
    while i < n
        invariant
            n == code@.len(),
            n <= 0x0400_0001,
            program::wf(code@),
            i <= n,
            offs@.len() == n + 1,
            forall|kk: int| 0 <= kk <= n ==> #[trigger] offs@[kk] as nat == encoding::offset_of(
                code@,
                kk,
            ),
            forall|kk: int| 0 <= kk <= n ==> #[trigger] offs@[kk] < 0x80000000,
            forall|kk: int| 0 <= kk <= n ==> #[trigger] offs@[kk] <= offs@[n as int],
            labels@.len() == n,
            asm_labels(&a) == n as nat,
            forall|j: int| 0 <= j < n ==> label_id(#[trigger] labels@[j]) == j,
            asm_code(&a) == encoding::bytes_upto(code@, i as int, putchar_addr, getchar_addr),
            asm_bindings(&a) == bindings_upto(code@, i as int),
            asm_relocs(&a) == relocs_upto(code@, i as int),
            forall|j: int|
                0 <= j < asm_relocs(&a).len() ==> #[trigger] reloc_ok(
                    code@,
                    asm_code(&a),
                    asm_relocs(&a)[j],
                ),
            forall|j1: int, j2: int|
                0 <= j1 < j2 < asm_relocs(&a).len() ==> #[trigger] asm_relocs(&a)[j1].0 + 4
                    <= #[trigger] asm_relocs(&a)[j2].0,
            forall|j: int|
                0 <= j < asm_relocs(&a).len() ==> (#[trigger] asm_relocs(&a)[j]).0
                    <= encoding::offset_of(code@, i as int),
        decreases n - i,
    {
        let ghost pre_code = asm_code(&a);
        let ghost pre_relocs = asm_relocs(&a);
        proof {
            assert(program::jumps_ok_at(code@, i as int, code@.len() as int));
            assert(encoding::offset_of(code@, i as int + 1) == encoding::offset_of(code@, i as int)
                + encoding::ins_size(code@[i as int]));
            assert(offs@[i as int + 1] <= offs@[n as int]);
            encoding::lemma_bytes_upto_len(code@, i as int, putchar_addr, getchar_addr);
        }
        asm_bind_label(&mut a, &labels[i]);
        proof {
            assert(asm_bindings(&a) =~= bindings_upto(code@, i as int + 1));
        }
        let ins = code[i];
        match ins {
            Ins::IncPtr { amount } => {
                asm_push(&mut a, 0x41);
                asm_push(&mut a, 0x81);
                asm_push(&mut a, 0xc4);
                a_append_u32(&mut a, amount as u32);
                asm_push(&mut a, 0x45);
                asm_push(&mut a, 0x0f);
                asm_push(&mut a, 0xb7);
                asm_push(&mut a, 0xe4);
            },
            Ins::DecPtr { amount } => {
                asm_push(&mut a, 0x41);
                asm_push(&mut a, 0x81);
                asm_push(&mut a, 0xec);
                a_append_u32(&mut a, amount as u32);
                asm_push(&mut a, 0x45);
                asm_push(&mut a, 0x0f);
                asm_push(&mut a, 0xb7);
                asm_push(&mut a, 0xe4);
            },
            Ins::IncCell { amount } => {
                asm_push(&mut a, 0x42);
                asm_push(&mut a, 0x80);
                asm_push(&mut a, 0x04);
                asm_push(&mut a, 0x23);
                asm_push(&mut a, amount);
            },
            Ins::DecCell { amount } => {
                asm_push(&mut a, 0x42);
                asm_push(&mut a, 0x80);
                asm_push(&mut a, 0x2c);
                asm_push(&mut a, 0x23);
                asm_push(&mut a, amount);
            },
            Ins::Output => {
                a_push_io(&mut a, putchar_addr);
                a_append_disp32(&mut a, offs[n - 1], offs[i] + 24);
                asm_branch_reloc(&mut a, &labels[n - 1]);
            },
            Ins::Input => {
                a_push_io(&mut a, getchar_addr);
                a_append_disp32(&mut a, offs[n - 1], offs[i] + 24);
                asm_branch_reloc(&mut a, &labels[n - 1]);
            },
            Ins::JmpFwd { to } => {
                a_push_test_jcc(&mut a, 0x84);
                a_append_disp32(&mut a, offs[to], offs[i] + 11);
                asm_branch_reloc(&mut a, &labels[to]);
            },
            Ins::JmpBwd { to } => {
                a_push_test_jcc(&mut a, 0x85);
                a_append_disp32(&mut a, offs[to + 1], offs[i] + 11);
                asm_branch_reloc(&mut a, &labels[to + 1]);
            },
            Ins::End => {
                a_push_epilogue(&mut a);
            },
        }
        proof {
            assert(asm_code(&a) =~= encoding::bytes_upto(
                code@,
                i as int + 1,
                putchar_addr,
                getchar_addr,
            ));
            assert(asm_relocs(&a) =~= relocs_upto(code@, i as int + 1));
            assert forall|j: int|
                0 <= j < asm_relocs(&a).len() implies #[trigger] reloc_ok(
                code@,
                asm_code(&a),
                asm_relocs(&a)[j],
            ) by {
                if j < pre_relocs.len() {
                    assert(reloc_ok(code@, pre_code, pre_relocs[j]));
                    lemma_reloc_ok_extend(
                        code@,
                        pre_code,
                        encoding::enc_at(code@, i as int, putchar_addr, getchar_addr),
                        pre_relocs[j],
                    );
                } else {
                    let e = asm_relocs(&a)[j];
                    assert(asm_code(&a).subrange(e.0 as int - 4, e.0 as int) =~= encoding::disp32(
                        encoding::offset_of(code@, e.1 as int),
                        e.0,
                    ));
                }
            }
        }
        i = i + 1;
    }
    proof {
        encoding::lemma_bytes_upto_len(code@, n as int, putchar_addr, getchar_addr);
        assert(offs@[n as int] as nat == encoding::offset_of(code@, n as int));
        assert(asm_code(&a).len() == encoding::offset_of(code@, n as int));
        assert(asm_code(&a).len() < 0x80000000);
        assert forall|j: int| 0 <= j < asm_relocs(&a).len() implies {
            let e = #[trigger] asm_relocs(&a)[j];
            &&& 4 <= e.0 <= asm_code(&a).len()
            &&& asm_bindings(&a).contains_key(e.1)
            &&& asm_bindings(&a)[e.1] <= asm_code(&a).len()
            &&& asm_bindings(&a)[e.1] == encoding::offset_of(code@, e.1 as int)
        } by {
            let e = asm_relocs(&a)[j];
            assert(reloc_ok(code@, asm_code(&a), e));
            encoding::lemma_offset_mono(code@, e.1 as int, n as int);
        }
        lemma_patched_identity(code@, asm_code(&a), asm_bindings(&a), asm_relocs(&a));
    }
    asm_finalize(a)
}

} // verus!
