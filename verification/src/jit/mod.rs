//! The just-in-time engines: translation of the instruction list into native
//! x86-64 machine code, either by emitting raw bytes with a relocation side
//! table (`machine`) or through the `dynasmrt` assembler with dynamic labels
//! (`assembler`).  The finished image lives in an executable memory mapping;
//! the application harness invokes it with the tape base pointer.

use vstd::prelude::*;

pub mod aarch64;
pub mod assembler;
pub mod dynasm;
pub mod encoding;
pub mod machine;
pub mod x86_64;

verus! {

#[verifier::external_type_specification]
#[verifier::external_body]
pub struct ExMmap(memmap2::Mmap);

#[verifier::external_type_specification]
#[verifier::external_body]
pub struct ExMmapMut(memmap2::MmapMut);

/// The bytes a writable anonymous mapping holds.
pub uninterp spec fn mmap_mut_bytes(m: &memmap2::MmapMut) -> Seq<u8>;

/// The bytes an executable mapping holds.
pub uninterp spec fn mmap_bytes(m: &memmap2::Mmap) -> Seq<u8>;

/// Relies on memmap2::MmapMut::map_anon: a private anonymous mapping of
/// exactly `len` readable and writable bytes, or `None` when the operating
/// system refuses the allocation.
#[verifier::external_body]
pub(crate) fn map_anon(len: usize) -> (r: Option<memmap2::MmapMut>)
    ensures
        r matches Some(m) ==> mmap_mut_bytes(&m).len() == len,
{
    memmap2::MmapMut::map_anon(len).ok()
}

/// Relies on `<[u8]>::copy_from_slice`, reached through MmapMut's DerefMut:
/// the mapping afterwards holds exactly the bytes of `data`.
#[verifier::external_body]
pub(crate) fn fill(m: &mut memmap2::MmapMut, data: &Vec<u8>)
    requires
        mmap_mut_bytes(old(m)).len() == data@.len(),
    ensures
        mmap_mut_bytes(final(m)) == data@,
{
    m.copy_from_slice(data.as_slice());
}

/// Relies on memmap2::MmapMut::make_exec: the same mapping with the same
/// bytes, its access rights changed from writable to executable, or `None`
/// when the operating system refuses the change.
#[verifier::external_body]
pub(crate) fn make_exec(m: memmap2::MmapMut) -> (r: Option<memmap2::Mmap>)
    ensures
        r matches Some(e) ==> mmap_bytes(&e) == mmap_mut_bytes(&m),
{
    m.make_exec().ok()
}

/// Relies on Mmap's Deref to `[u8]` and `<[u8]>::to_vec`: a copy of the
/// bytes the executable mapping holds, for callers that inspect the
/// compiled image rather than invoke it.
#[verifier::external_body]
pub fn mapped_bytes(m: &memmap2::Mmap) -> (r: Vec<u8>)
    ensures
        r@ == mmap_bytes(m),
{
    m.to_vec()
}

} // verus!
