use vstd::prelude::*;
use tinywasm::{MemoryRef, MemoryRefMut, MemoryStringExt};

verus! {

#[verifier::external_type_specification]
#[verifier::external_body]
pub struct ExMemoryRefMut<'a>(MemoryRefMut<'a>);

#[verifier::external_type_specification]
#[verifier::external_body]
pub struct ExMemoryRef<'a>(MemoryRef<'a>);

#[verifier::external_type_specification]
#[verifier::external_body]
pub struct ExError(tinywasm::Error);

/// The bytes of a guest's linear memory, seen through a writable handle.
pub uninterp spec fn memory_bytes(memory: MemoryRefMut<'_>) -> Seq<u8>;

/// The bytes of a guest's linear memory, seen through a read-only handle.
pub uninterp spec fn memory_ref_bytes(memory: MemoryRef<'_>) -> Seq<u8>;

/// The memory after `data` was written at `offset` over as many bytes.
pub open spec fn overwrite(bytes: Seq<u8>, offset: int, data: Seq<u8>) -> Seq<u8> {
    bytes.take(offset) + data + bytes.skip(offset + data.len())
}

/// tinywasm's `MemoryRefMut::load_vec`: copies `len` bytes starting at
/// `offset`; fails when the range does not lie inside the memory (also when
/// `offset + len` overflows).
#[verifier::external_body]
pub(crate) fn load(memory: &MemoryRefMut, offset: usize, len: usize) -> (r: Result<Vec<u8>, tinywasm::Error>)
    ensures
        r is Ok <==> offset + len <= memory_bytes(*memory).len(),
        r matches Ok(v) ==> v@ == memory_bytes(*memory).subrange(offset as int, offset + len),
{
    memory.load_vec(offset, len)
}

/// tinywasm's `MemoryRefMut::store`: writes `data` over the `len` bytes at
/// `offset`; fails and writes nothing when the range does not lie inside the
/// memory. (Inside the memory, `data` must be `len` bytes long, or the copy
/// panics.)
#[verifier::external_body]
pub(crate) fn store(memory: &mut MemoryRefMut, offset: usize, len: usize, data: &[u8]) -> (r: Result<(), tinywasm::Error>)
    requires
        offset + len <= memory_bytes(*old(memory)).len() ==> data@.len() == len,
    ensures
        r is Ok <==> offset + len <= memory_bytes(*old(memory)).len(),
        r is Ok ==> memory_bytes(*final(memory)) == overwrite(memory_bytes(*old(memory)), offset as int, data@),
        r is Err ==> memory_bytes(*final(memory)) == memory_bytes(*old(memory)),
{
    memory.store(offset, len, data)
}

/// tinywasm's `MemoryRef::load_vec`: as `load`, through a read-only handle.
#[verifier::external_body]
pub(crate) fn load_ref(memory: &MemoryRef, offset: usize, len: usize) -> (r: Result<Vec<u8>, tinywasm::Error>)
    ensures
        r is Ok <==> offset + len <= memory_ref_bytes(*memory).len(),
        r matches Ok(v) ==> v@ == memory_ref_bytes(*memory).subrange(offset as int, offset + len),
{
    memory.load_vec(offset, len)
}

/// `bytes` is a C string read from `region`: the bytes of the region up to
/// its first nul, which the region holds.
pub open spec fn c_string_in(region: Seq<u8>, bytes: Seq<u8>) -> bool {
    &&& bytes.len() < region.len()
    &&& region[bytes.len() as int] == 0
    &&& bytes == region.take(bytes.len() as int)
    &&& forall|k: int| 0 <= k < bytes.len() ==> bytes[k] != 0
}

/// The `len` bytes at `offset` lie inside `bytes` and one of them is nul.
pub open spec fn nul_within(bytes: Seq<u8>, offset: int, len: int) -> bool {
    offset + len <= bytes.len() && bytes.subrange(offset, offset + len).contains(0u8)
}

/// tinywasm's `load_cstring_until_nul` (with the string's bytes taken out of
/// the `CString`): loads `max_len` bytes at `offset` and gives the bytes
/// before the first nul among them; fails when that range does not lie
/// inside the memory or holds no nul.
#[verifier::external_body]
pub(crate) fn load_cstring(memory: &MemoryRef, offset: usize, max_len: usize) -> (r: Result<Vec<u8>, tinywasm::Error>)
    ensures
        r is Ok <==> nul_within(memory_ref_bytes(*memory), offset as int, max_len as int),
        r matches Ok(v) ==> c_string_in(memory_ref_bytes(*memory).subrange(offset as int, offset + max_len), v@),
{
    match memory.load_cstring_until_nul(offset, max_len) {
        Ok(string) => Ok(string.into_bytes()),
        Err(err) => Err(err),
    }
}

} // verus!
