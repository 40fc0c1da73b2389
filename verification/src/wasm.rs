use vstd::prelude::*;
use tinywasm::{MemoryRef, MemoryRefMut};
use vstd::string::StringSliceAdditionalSpecFns;
use crate::guest_memory::{load, load_cstring, load_ref, memory_bytes, memory_ref_bytes, nul_within, overwrite, store};
use crate::inode::{get_inode, lookup, Inode, InodeType, InodeView};
use crate::seq_facts::{lemma_filter_take_step, lemma_filter_twice};

verus! {

/// A block of guest memory handed out by the allocator: it starts at `ptr`
/// and is `size` bytes long.
#[derive(Debug, Clone, Copy, PartialEq, Eq, Structural)]
pub struct Allocation {
    pub ptr: usize,
    pub size: usize,
}

/// The allocation list after an allocation, and the address handed out.
pub struct AllocCommandReturn(pub Vec<Allocation>, pub usize);

/// The first address after a block.
pub open spec fn end_of(a: Allocation) -> int {
    a.ptr + a.size
}

/// No block of the list reaches past the largest address.
pub open spec fn ends_fit(allocations: Seq<Allocation>) -> bool {
    forall|i: int| 0 <= i < allocations.len() ==> end_of(#[trigger] allocations[i]) <= usize::MAX
}

/// The largest end of the blocks of a non-empty list.
pub open spec fn max_end(allocations: Seq<Allocation>) -> int
    decreases allocations.len(),
{
    if allocations.len() <= 1 {
        if allocations.len() == 0 {
            0
        } else {
            end_of(allocations[0])
        }
    } else {
        let rest = max_end(allocations.drop_last());
        let last = end_of(allocations.last());
        if last >= rest {
            last
        } else {
            rest
        }
    }
}

/// Where the bump allocator places the next block: right after the block
/// that ends highest, or at address 1 when nothing is allocated (0 would be
/// the null pointer).
pub open spec fn bump_ptr(allocations: Seq<Allocation>) -> int {
    if allocations.len() == 0 {
        1
    } else {
        max_end(allocations)
    }
}

/// The largest end is the end of some block and no block ends past it.
proof fn lemma_max_end(allocations: Seq<Allocation>)
    requires
        allocations.len() > 0,
    ensures
        forall|i: int| 0 <= i < allocations.len() ==> end_of(#[trigger] allocations[i]) <= max_end(allocations),
        exists|i: int| 0 <= i < allocations.len() && end_of(#[trigger] allocations[i]) == max_end(allocations),
    decreases allocations.len(),
{
    if allocations.len() > 1 {
        let rest = allocations.drop_last();
        lemma_max_end(rest);
        let j = choose|j: int| 0 <= j < rest.len() && end_of(#[trigger] rest[j]) == max_end(rest);
        assert(allocations[j] == rest[j]);
        assert forall|i: int| 0 <= i < allocations.len() implies end_of(#[trigger] allocations[i]) <= max_end(allocations) by {
            if i < allocations.len() - 1 {
                assert(allocations[i] == rest[i]);
            }
        }
    } else {
        assert(end_of(allocations[0]) == max_end(allocations));
    }
}

/// Whether no block of the list reaches past the largest address, which the
/// allocators need to compute block ends (see `ends_fit`).
pub fn blocks_fit(allocations: &Vec<Allocation>) -> (ok: bool)
    ensures
        ok == ends_fit(allocations@),
{
    let n = allocations.len();
    let mut i: usize = 0;
    while i < n
        invariant
            n == allocations@.len(),
            i <= n,
            forall|k: int| 0 <= k < i ==> end_of(#[trigger] allocations@[k]) <= usize::MAX,
        decreases n - i,
    {
        let a = allocations[i];
        if a.ptr > usize::MAX - a.size {
            assert(end_of(allocations@[i as int]) > usize::MAX);
            return false;
        }
        i = i + 1;
    }
    true
}

/// Allocates `size` bytes with the bump allocator: the new block starts at
/// `bump_ptr` and is added at the end of the list. Always succeeds.
pub fn malloc(allocations: Vec<Allocation>, size: usize) -> (r: Result<AllocCommandReturn, String>)
    requires
        ends_fit(allocations@),
    ensures
        r matches Ok(AllocCommandReturn(list, ptr)) && ptr == bump_ptr(allocations@)
            && list@ == allocations@.push(Allocation { ptr, size }),
{
    let n = allocations.len();
    let mut ptr: usize = 1;
    let mut i: usize = 0;
    while i < n
        invariant
            n == allocations@.len(),
            ends_fit(allocations@),
            i <= n,
            ptr == (if i == 0 { 1 } else { max_end(allocations@.take(i as int)) }),
        decreases n - i,
    {
        let a = allocations[i];
        proof {
            assert(allocations@.take(i + 1).drop_last() =~= allocations@.take(i as int));
            assert(allocations@.take(i + 1).last() == a);
            assert(end_of(allocations@[i as int]) <= usize::MAX);
        }
        let end = a.ptr + a.size;
        if i == 0 || end >= ptr {
            ptr = end;
        }
        i = i + 1;
    }
    proof {
        assert(allocations@.take(n as int) =~= allocations@);
    }
    let mut new_allocations = allocations;
    new_allocations.push(Allocation { ptr, size });
    Ok(AllocCommandReturn(new_allocations, ptr))
}

/// The list without the blocks that start at `ptr`, in the same order.
pub open spec fn without_block(allocations: Seq<Allocation>, ptr: usize) -> Seq<Allocation> {
    allocations.filter(|a: Allocation| a.ptr != ptr)
}

/// Frees every block that starts at `ptr`; the others stay, in order.
/// Always succeeds; an address that starts no block changes nothing.
pub fn free(allocations: Vec<Allocation>, ptr: usize) -> (r: Result<Vec<Allocation>, String>)
    ensures
        r matches Ok(list) && list@ == without_block(allocations@, ptr),
{
    let ghost keep = |a: Allocation| a.ptr != ptr;
    let mut new_allocations: Vec<Allocation> = Vec::new();
    let n = allocations.len();
    proof {
        assert(allocations@.take(0) =~= Seq::<Allocation>::empty());
    }
    for i in 0..n
        invariant
            n == allocations@.len(),
            keep == (|a: Allocation| a.ptr != ptr),
            new_allocations@ == allocations@.take(i as int).filter(keep),
    {
        proof {
            lemma_filter_take_step(allocations@, keep, i as int);
        }
        let allocation = allocations[i];
        if allocation.ptr != ptr {
            new_allocations.push(allocation);
        }
    }
    proof {
        assert(allocations@.take(n as int) =~= allocations@);
    }
    Ok(new_allocations)
}


/// The block the bump allocator hands out lies after every block already
/// allocated, so it overlaps none of them.
pub proof fn law_malloc_disjoint(allocations: Seq<Allocation>, size: usize)
    ensures
        forall|i: int| 0 <= i < allocations.len() ==> end_of(#[trigger] allocations[i]) <= bump_ptr(allocations),
{
    if allocations.len() > 0 {
        lemma_max_end(allocations);
    }
}

/// The bump allocator never hands out the null address, as long as no block
/// in the list starts there (which holds of every list it built).
pub proof fn law_malloc_not_null(allocations: Seq<Allocation>)
    requires
        forall|i: int| 0 <= i < allocations.len() ==> (#[trigger] allocations[i]).ptr != 0,
    ensures
        bump_ptr(allocations) >= 1,
{
    if allocations.len() > 0 {
        lemma_max_end(allocations);
        assert(end_of(allocations[0]) >= 1);
    }
}

/// Freeing the block just allocated gives back the list as it was, unless
/// another block already started at that address (a block of size zero at
/// the top), which the free removes too.
pub proof fn law_free_undoes_malloc(allocations: Seq<Allocation>, size: usize)
    requires
        bump_ptr(allocations) <= usize::MAX,
        forall|i: int| 0 <= i < allocations.len() ==> (#[trigger] allocations[i]).ptr != bump_ptr(allocations),
    ensures
        without_block(allocations.push(Allocation { ptr: bump_ptr(allocations) as usize, size }), bump_ptr(allocations) as usize)
            == allocations,
    decreases allocations.len(),
{
    let p = bump_ptr(allocations) as usize;
    let keep = |a: Allocation| a.ptr != p;
    lemma_filter_all(allocations, keep);
    reveal_with_fuel(Seq::<_>::filter, 1);
    assert(allocations.push(Allocation { ptr: p, size }).drop_last() =~= allocations);
}

/// Filtering by a predicate that every element meets keeps everything.
proof fn lemma_filter_all<A>(s: Seq<A>, keep: spec_fn(A) -> bool)
    requires
        forall|i: int| 0 <= i < s.len() ==> keep(#[trigger] s[i]),
    ensures
        s.filter(keep) == s,
    decreases s.len(),
{
    reveal_with_fuel(Seq::<_>::filter, 1);
    if s.len() > 0 {
        assert forall|i: int| 0 <= i < s.drop_last().len() implies keep(#[trigger] s.drop_last()[i]) by {
            assert(s.drop_last()[i] == s[i]);
        }
        lemma_filter_all(s.drop_last(), keep);
        assert(s.drop_last().push(s.last()) =~= s);
    }
}

/// After a free, no block starts at the freed address, every other block is
/// still there, and freeing the same address again changes nothing.
pub proof fn law_free_removes(allocations: Seq<Allocation>, ptr: usize)
    ensures
        forall|i: int| 0 <= i < without_block(allocations, ptr).len()
            ==> (#[trigger] without_block(allocations, ptr)[i]).ptr != ptr,
        forall|i: int| 0 <= i < allocations.len() && (#[trigger] allocations[i]).ptr != ptr
            ==> without_block(allocations, ptr).contains(allocations[i]),
        without_block(without_block(allocations, ptr), ptr) == without_block(allocations, ptr),
{
    let keep = |a: Allocation| a.ptr != ptr;
    assert forall|i: int| 0 <= i < without_block(allocations, ptr).len()
        implies (#[trigger] without_block(allocations, ptr)[i]).ptr != ptr by {
        allocations.lemma_filter_pred(keep, i);
    }
    assert forall|i: int| 0 <= i < allocations.len() && (#[trigger] allocations[i]).ptr != ptr
        implies without_block(allocations, ptr).contains(allocations[i]) by {
        allocations.lemma_filter_contains(keep, i);
    }
    lemma_filter_twice(allocations, keep);
}

/// Takes the list out of `allocations`, leaving an empty one.
pub(crate) fn take_list(allocations: &mut Vec<Allocation>) -> (list: Vec<Allocation>)
    ensures
        list@ == old(allocations)@,
        final(allocations)@ == Seq::<Allocation>::empty(),
{
    let mut list: Vec<Allocation> = Vec::new();
    core::mem::swap(&mut list, allocations);
    list
}

/// The guest's `malloc`: allocates `size` bytes (the size is taken as an
/// unsigned number, so a negative one is very large) with the bump
/// allocator, records the block and returns its address as a guest `i32`.
pub fn guest_malloc(allocations: &mut Vec<Allocation>, size: i32) -> (ptr: i32)
    requires
        ends_fit(old(allocations)@),
    ensures
        final(allocations)@ == old(allocations)@.push(
            Allocation { ptr: bump_ptr(old(allocations)@) as usize, size: size as usize },
        ),
        ptr == (bump_ptr(old(allocations)@) as usize) as i32,
{
    let list = take_list(allocations);
    match malloc(list, size as usize) {
        Ok(ret) => {
            *allocations = ret.0;
            ret.1 as i32
        },
        Err(_) => -1,
    }
}

/// The guest's `free`: frees every block that starts at `ptr` (taken as an
/// unsigned address).
pub fn guest_free(allocations: &mut Vec<Allocation>, ptr: i32)
    ensures
        final(allocations)@ == without_block(old(allocations)@, ptr as usize),
{
    let list = take_list(allocations);
    match free(list, ptr as usize) {
        Ok(list) => {
            *allocations = list;
        },
        Err(_) => {},
    }
}

/// How a program's run ends: whatever happened, the guest's blocks are all
/// forgotten, and the outcome of the run is passed on.
pub fn finish_run(allocations: &mut Vec<Allocation>, step: Result<(), String>) -> (r: Result<(), String>)
    ensures
        final(allocations)@ == Seq::<Allocation>::empty(),
        r == step,
{
    *allocations = Vec::new();
    step
}

/// The node at a device path, if it is an input device, accepts any data.
pub open spec fn accepts_any_input<I: Fn(Vec<u8>), O>(node: Option<InodeView<I, O>>) -> bool {
    match node {
        Some(InodeView::InputReciever { on_input, .. }) => forall|d: Vec<u8>| call_requires(on_input, (d,)),
        _ => true,
    }
}

/// What writing the character `v` to the node at a device path did: for an
/// input device, its handler was called with the one byte `v as u8`; for
/// anything else, or no node, nothing was written.
pub open spec fn wrote_byte<I: Fn(Vec<u8>), O>(node: Option<InodeView<I, O>>, v: i32, written: bool) -> bool {
    match node {
        Some(InodeView::InputReciever { on_input, .. }) => written && exists|d: Vec<u8>|
            d@ == seq![v as u8] && call_ensures(on_input, (d,), ()),
        _ => !written,
    }
}

/// The guest's `putchar` and `s_putchar`: the low byte of `v` is written to
/// the input device at `device` (`/dev/stdout` or `/dev/serial0`), when
/// there is one. Returns whether it was written.
pub fn guest_putchar<I: Copy + Fn(Vec<u8>), O: Copy>(root: &Inode<I, O>, device: &str, v: i32) -> (written: bool)
    requires
        accepts_any_input(lookup(root@, device@)),
    ensures
        wrote_byte(lookup(root@, device@), v, written),
{
    match get_inode(root, device) {
        Some(inode) => {
            let mut data: Vec<u8> = Vec::new();
            data.push(v as u8);
            let ghost sent = data;
            if inode.get_type() == InodeType::InputReciever {
                inode.write_inputreciever(data);
                proof {
                    assert(sent@ =~= seq![v as u8]);
                }
                true
            } else {
                false
            }
        },
        None => false,
    }
}

/// The size of the first block that starts at `ptr`, if any.
pub open spec fn block_size(allocations: Seq<Allocation>, ptr: usize) -> Option<usize>
    decreases allocations.len(),
{
    if allocations.len() == 0 {
        None
    } else if allocations[0].ptr == ptr {
        Some(allocations[0].size)
    } else {
        block_size(allocations.drop_first(), ptr)
    }
}

/// The guest's `ptrsize`: the size of the block that starts at `ptr`, as a
/// guest `i32` (the first such block when there are several), or -1 when
/// no block starts there.
pub fn guest_ptrsize(allocations: &Vec<Allocation>, ptr: i32) -> (size: i32)
    ensures
        size == match block_size(allocations@, ptr as usize) {
            Some(s) => s as i32,
            None => -1i32,
        },
{
    let target = ptr as usize;
    let n = allocations.len();
    let mut i: usize = 0;
    proof {
        assert(allocations@.skip(0) =~= allocations@);
    }
    while i < n
        invariant
            n == allocations@.len(),
            target == ptr as usize,
            i <= n,
            block_size(allocations@, target) == block_size(allocations@.skip(i as int), target),
        decreases n - i,
    {
        let allocation = allocations[i];
        proof {
            assert(allocations@.skip(i as int)[0] == allocation);
            assert(allocations@.skip(i as int).drop_first() =~= allocations@.skip(i + 1));
        }
        if allocation.ptr == target {
            return allocation.size as i32;
        }
        i = i + 1;
    }
    -1
}

/// The `len` bytes at `offset` lie inside a memory of `size` bytes.
pub open spec fn in_memory(size: nat, offset: usize, len: usize) -> bool {
    offset + len <= size
}

/// The memory after `memmove`: the two ranges swapped, the source range
/// written first.
pub open spec fn swapped(bytes: Seq<u8>, src: usize, dest: usize, size: usize) -> Seq<u8> {
    let src_data = bytes.subrange(src as int, src + size);
    let dest_data = bytes.subrange(dest as int, dest + size);
    overwrite(overwrite(bytes, src as int, dest_data), dest as int, src_data)
}

/// The guest's `memmove(src, dest, size)` (arguments taken as unsigned):
/// when both ranges lie inside the memory, the bytes at `src` and at `dest`
/// are exchanged (the `dest` bytes are written at `src` first, then the
/// former `src` bytes at `dest`) and 0 is returned; otherwise nothing is
/// written and -1 is returned.
pub fn guest_memmove(memory: &mut MemoryRefMut, data: (i32, i32, i32)) -> (status: i32)
    ensures
        ({
            let (src, dest, size) = (data.0 as usize, data.1 as usize, data.2 as usize);
            let bytes = memory_bytes(*old(memory));
            if in_memory(bytes.len(), src, size) && in_memory(bytes.len(), dest, size) {
                status == 0 && memory_bytes(*final(memory)) == swapped(bytes, src, dest, size)
            } else {
                status == -1 && memory_bytes(*final(memory)) == bytes
            }
        }),
{
    let src = data.0 as usize;
    let dest = data.1 as usize;
    let size = data.2 as usize;
    let src_data = match load(memory, src, size) {
        Ok(d) => d,
        Err(_) => return -1,
    };
    let dest_data = match load(memory, dest, size) {
        Ok(d) => d,
        Err(_) => return -1,
    };
    match store(memory, src, size, dest_data.as_slice()) {
        Ok(_) => {},
        Err(_) => return -1,
    }
    match store(memory, dest, size, src_data.as_slice()) {
        Ok(_) => {},
        Err(_) => return -1,
    }
    0
}

/// The guest's `memset(dest, size, value)`: when the `size` bytes at `dest`
/// lie inside the memory they are all set to the low byte of `value` and 0
/// is returned; otherwise nothing is written and -1 is returned. A negative
/// size cannot be met (the buffer of that many bytes cannot be built).
pub fn guest_memset(memory: &mut MemoryRefMut, data: (i32, i32, i32)) -> (status: i32)
    requires
        data.1 >= 0,
    ensures
        ({
            let (dest, size, value) = (data.0 as usize, data.1 as usize, data.2 as u8);
            let bytes = memory_bytes(*old(memory));
            if in_memory(bytes.len(), dest, size) {
                status == 0 && memory_bytes(*final(memory)) == overwrite(
                    bytes,
                    dest as int,
                    Seq::new(size as nat, |i: int| value),
                )
            } else {
                status == -1 && memory_bytes(*final(memory)) == bytes
            }
        }),
{
    let dest = data.0 as usize;
    let size = data.1 as usize;
    let value = data.2 as u8;
    let fill = vec![value; size];
    proof {
        assert(fill@ =~= Seq::new(size as nat, |i: int| value));
    }
    match store(memory, dest, size, fill.as_slice()) {
        Ok(_) => 0,
        Err(_) => -1,
    }
}

/// The guest's `memcpy(src, dest, size)`: when both ranges lie inside the
/// memory, the bytes at `src` are copied over those at `dest` and 0 is
/// returned; otherwise nothing is written and -1 is returned.
pub fn guest_memcpy(memory: &mut MemoryRefMut, data: (i32, i32, i32)) -> (status: i32)
    ensures
        ({
            let (src, dest, size) = (data.0 as usize, data.1 as usize, data.2 as usize);
            let bytes = memory_bytes(*old(memory));
            if in_memory(bytes.len(), src, size) && in_memory(bytes.len(), dest, size) {
                status == 0 && memory_bytes(*final(memory)) == overwrite(
                    bytes,
                    dest as int,
                    bytes.subrange(src as int, src + size),
                )
            } else {
                status == -1 && memory_bytes(*final(memory)) == bytes
            }
        }),
{
    let src = data.0 as usize;
    let dest = data.1 as usize;
    let size = data.2 as usize;
    let copied = match load(memory, src, size) {
        Ok(d) => d,
        Err(_) => return -1,
    };
    match store(memory, dest, size, copied.as_slice()) {
        Ok(_) => 0,
        Err(_) => -1,
    }
}

/// The argument block handed to a guest: the command line's UTF-8 bytes
/// with every space turned into a nul (so each argument ends with a nul),
/// followed by two more nuls.
pub open spec fn args_block(bytes: Seq<u8>) -> Seq<u8> {
    bytes.map_values(|b: u8| if b == 32 { 0u8 } else { b }) + seq![0u8, 0u8]
}

/// The argument block for the command line `args` (see `args_block`).
pub fn args_buffer(args: &str) -> (block: Vec<u8>)
    ensures
        block@ == args_block(args.spec_bytes()),
{
    let bytes = args.as_bytes();
    let n = bytes.len();
    let mut block: Vec<u8> = Vec::new();
    for i in 0..n
        invariant
            n == bytes@.len(),
            block@ == bytes@.take(i as int).map_values(|b: u8| if b == 32 { 0u8 } else { b }),
    {
        let b = bytes[i];
        block.push(if b == 32 { 0u8 } else { b });
        proof {
            assert(bytes@.take(i + 1).map_values(|b: u8| if b == 32 { 0u8 } else { b }) =~= bytes@.take(
                i as int,
            ).map_values(|b: u8| if b == 32 { 0u8 } else { b }).push(if b == 32 { 0u8 } else { b }));
        }
    }
    block.push(0u8);
    block.push(0u8);
    proof {
        assert(bytes@.take(n as int) =~= bytes@);
        assert(block@ =~= args_block(args.spec_bytes()));
    }
    block
}

/// The guest's `getargs`: builds the argument block of `args`, allocates a
/// block of its size with the bump allocator (recorded even if the write
/// then fails), and writes the argument block there. Returns the block's
/// address as a guest `i32`, or -1 when it does not fit in the memory.
pub fn guest_getargs(memory: &mut MemoryRefMut, allocations: &mut Vec<Allocation>, args: &str) -> (status: i32)
    requires
        ends_fit(old(allocations)@),
    ensures
        ({
            let block = args_block(args.spec_bytes());
            let ptr = bump_ptr(old(allocations)@) as usize;
            let bytes = memory_bytes(*old(memory));
            &&& final(allocations)@ == old(allocations)@.push(Allocation { ptr, size: block.len() as usize })
            &&& if in_memory(bytes.len(), ptr, block.len() as usize) {
                status == ptr as i32 && memory_bytes(*final(memory)) == overwrite(bytes, ptr as int, block)
            } else {
                status == -1 && memory_bytes(*final(memory)) == bytes
            }
        }),
{
    let block = args_buffer(args);
    let len = block.len();
    let list = take_list(allocations);
    let offset = match malloc(list, len) {
        Ok(ret) => {
            *allocations = ret.0;
            ret.1
        },
        Err(_) => return -1,
    };
    match store(memory, offset, len, block.as_slice()) {
        Ok(_) => offset as i32,
        Err(_) => -1,
    }
}

/// The number that little-endian `bytes` stand for.
pub open spec fn le_value(bytes: Seq<u8>) -> nat
    decreases bytes.len(),
{
    if bytes.len() == 0 {
        0
    } else {
        (bytes[0] + 256 * le_value(bytes.drop_first())) as nat
    }
}

/// 256 to the power `n`.
pub open spec fn pow256(n: nat) -> nat
    decreases n,
{
    if n == 0 {
        1
    } else {
        256 * pow256((n - 1) as nat)
    }
}

/// A little-endian number of `n` bytes is below 256 to the power `n`.
proof fn lemma_le_value_bound(bytes: Seq<u8>)
    ensures
        le_value(bytes) < pow256(bytes.len()),
    decreases bytes.len(),
{
    if bytes.len() > 0 {
        lemma_le_value_bound(bytes.drop_first());
        let rest = le_value(bytes.drop_first());
        let p = pow256(bytes.drop_first().len());
        assert(bytes[0] + 256 * rest < 256 * p) by (nonlinear_arith)
            requires
                rest < p,
                bytes[0] < 256,
        ;
    }
}

/// The seed that eight bytes of guest memory stand for, read as a
/// little-endian `u64`; `None` unless there are exactly eight.
pub fn seed_from_bytes(bytes: &[u8]) -> (seed: Option<u64>)
    ensures
        match seed {
            Some(v) => bytes@.len() == 8 && v == le_value(bytes@),
            None => bytes@.len() != 8,
        },
{
    if bytes.len() != 8 {
        return None;
    }
    proof {
        reveal_with_fuel(pow256, 9);
        assert(pow256(8) == 0x1_0000_0000_0000_0000);
        assert(bytes@.skip(8) =~= Seq::<u8>::empty());
    }
    let mut value: u64 = 0;
    let mut i: usize = 8;
    while i > 0
        invariant
            bytes@.len() == 8,
            i <= 8,
            value == le_value(bytes@.skip(i as int)),
            pow256(8) == 0x1_0000_0000_0000_0000,
        decreases i,
    {
        i = i - 1;
        proof {
            assert(bytes@.skip(i as int).drop_first() =~= bytes@.skip(i + 1));
            lemma_le_value_bound(bytes@.skip(i as int));
            lemma_pow256_mono((8 - i) as nat, 8);
        }
        value = value * 256 + bytes[i] as u64;
    }
    proof {
        assert(bytes@.skip(0) =~= bytes@);
    }
    Some(value)
}

/// Powers of 256 grow with the exponent.
proof fn lemma_pow256_mono(m: nat, n: nat)
    requires
        m <= n,
    ensures
        pow256(m) <= pow256(n),
    decreases n,
{
    if m < n {
        lemma_pow256_mono(m, (n - 1) as nat);
    }
}

/// The seed the guest's `seedrng(ptr)` asks for: the eight bytes at `ptr`
/// (taken as an unsigned address) read as a little-endian `u64`, or `None`
/// when they do not lie inside the memory.
pub fn guest_seed(memory: &MemoryRef, ptr: i32) -> (seed: Option<u64>)
    ensures
        match seed {
            Some(v) => in_memory(memory_ref_bytes(*memory).len(), ptr as usize, 8)
                && v == le_value(memory_ref_bytes(*memory).subrange(ptr as usize as int, ptr as usize + 8)),
            None => !in_memory(memory_ref_bytes(*memory).len(), ptr as usize, 8),
        },
{
    // the length of a u64
    let size: usize = 8;
    match load_ref(memory, ptr as usize, size) {
        Ok(bytes) => seed_from_bytes(bytes.as_slice()),
        Err(_) => None,
    }
}

/// The guest's `getchar`, given what reading `/dev/stdin` gave: its first
/// byte, or -1 when there was no such device to read.
pub fn stdin_code(data: Option<Vec<u8>>) -> (code: i32)
    requires
        data matches Some(d) ==> d@.len() > 0,
    ensures
        code == match data {
            Some(d) => d@[0] as i32,
            None => -1i32,
        },
{
    match data {
        Some(data) => data[0] as i32,
        None => -1,
    }
}

/// The guest's `timesinceboot` and `cputime`: a count of timer interrupts
/// times 50 000, truncated to a guest `i32`.
pub fn timer_micros(ticks: u64) -> (time: i32)
    requires
        ticks * 50_000 <= u64::MAX,
    ensures
        time == ((ticks * 50_000) as u64) as i32,
{
    // timer interrupt occurs 200 times per second
    let time = ticks * 50_000;
    time as i32
}

/// The name of the command at `pointer` for the guest's `runapp`: the bytes
/// before the first nul among the 100 bytes there, or -1 when those bytes
/// do not lie inside the memory or hold no nul.
pub fn guest_command(memory: &MemoryRef, pointer: i32) -> (command: Result<Vec<u8>, i32>)
    ensures
        command is Ok <==> nul_within(memory_ref_bytes(*memory), pointer as usize as int, 100),
        command matches Ok(v) ==> crate::guest_memory::c_string_in(
            memory_ref_bytes(*memory).subrange(pointer as usize as int, pointer as usize + 100),
            v@,
        ),
        command matches Err(e) ==> e == -1,
{
    match load_cstring(memory, pointer as usize, 100) {
        Ok(name) => Ok(name),
        Err(_) => Err(-1),
    }
}

/// The argument block has two more bytes than the command line, no space
/// is left in it, and it ends with two nuls.
pub proof fn law_args_block(bytes: Seq<u8>)
    ensures
        args_block(bytes).len() == bytes.len() + 2,
        forall|k: int| 0 <= k < args_block(bytes).len() ==> #[trigger] args_block(bytes)[k] != 32,
        args_block(bytes)[bytes.len() as int] == 0,
        args_block(bytes)[bytes.len() + 1int] == 0,
        forall|k: int| 0 <= k < bytes.len() && bytes[k] != 32 ==> #[trigger] args_block(bytes)[k] == bytes[k],
{
}

/// A read of guest memory gives back what a write just put there, and the
/// bytes outside the written range are untouched.
pub proof fn law_read_after_store(bytes: Seq<u8>, offset: int, data: Seq<u8>)
    requires
        0 <= offset,
        offset + data.len() <= bytes.len(),
    ensures
        overwrite(bytes, offset, data).len() == bytes.len(),
        overwrite(bytes, offset, data).subrange(offset, offset + data.len()) == data,
        forall|k: int| 0 <= k < bytes.len() && !(offset <= k < offset + data.len())
            ==> #[trigger] overwrite(bytes, offset, data)[k] == bytes[k],
{
    assert(overwrite(bytes, offset, data).subrange(offset, offset + data.len()) =~= data);
}

/// What `memmove` leaves, byte by byte: the range at `dest` holds the former
/// bytes at `src`; the rest of the range at `src` holds the former bytes at
/// `dest` (all of it when the ranges do not overlap, so that they are
/// exchanged); every other byte is unchanged.
pub proof fn law_memmove_bytes(bytes: Seq<u8>, src: usize, dest: usize, size: usize)
    requires
        src + size <= bytes.len(),
        dest + size <= bytes.len(),
    ensures
        swapped(bytes, src, dest, size).len() == bytes.len(),
        forall|k: int| dest <= k < dest + size ==> #[trigger] swapped(bytes, src, dest, size)[k] == bytes[src + (k - dest)],
        forall|k: int| src <= k < src + size && !(dest <= k < dest + size)
            ==> #[trigger] swapped(bytes, src, dest, size)[k] == bytes[dest + (k - src)],
        forall|k: int| 0 <= k < bytes.len() && !(src <= k < src + size) && !(dest <= k < dest + size)
            ==> #[trigger] swapped(bytes, src, dest, size)[k] == bytes[k],
        src + size <= dest || dest + size <= src ==> swapped(bytes, src, dest, size).subrange(dest as int, dest + size)
            == bytes.subrange(src as int, src + size) && swapped(bytes, src, dest, size).subrange(src as int, src + size)
            == bytes.subrange(dest as int, dest + size),
{
    let a = bytes.subrange(src as int, src + size);
    let b = bytes.subrange(dest as int, dest + size);
    let step = overwrite(bytes, src as int, b);
    let out = swapped(bytes, src, dest, size);
    law_read_after_store(bytes, src as int, b);
    law_read_after_store(step, dest as int, a);
    assert forall|k: int| dest <= k < dest + size implies #[trigger] out[k] == bytes[src + (k - dest)] by {
        assert(out.subrange(dest as int, dest + size)[k - dest] == a[k - dest]);
    }
    assert forall|k: int| src <= k < src + size && !(dest <= k < dest + size) implies #[trigger] out[k] == bytes[dest + (k - src)] by {
        assert(step.subrange(src as int, src + size)[k - src] == b[k - src]);
    }
    if src + size <= dest || dest + size <= src {
        assert(out.subrange(dest as int, dest + size) =~= a);
        assert(out.subrange(src as int, src + size) =~= b);
    }
}

/// Exchanging two ranges that do not overlap, twice, gives back the memory
/// as it was.
pub proof fn law_memmove_twice(bytes: Seq<u8>, src: usize, dest: usize, size: usize)
    requires
        src + size <= bytes.len(),
        dest + size <= bytes.len(),
        src + size <= dest || dest + size <= src,
    ensures
        swapped(swapped(bytes, src, dest, size), src, dest, size) == bytes,
{
    let once = swapped(bytes, src, dest, size);
    let a = bytes.subrange(src as int, src + size);
    let b = bytes.subrange(dest as int, dest + size);
    let step = overwrite(bytes, src as int, b);
    law_read_after_store(bytes, src as int, b);
    law_read_after_store(step, dest as int, a);
    assert(once.subrange(src as int, src + size) =~= b);
    assert(once.subrange(dest as int, dest + size) =~= a);
    let step2 = overwrite(once, src as int, a);
    law_read_after_store(once, src as int, a);
    law_read_after_store(step2, dest as int, b);
    assert(swapped(once, src, dest, size) =~= bytes);
}

/// The first block at `p` in a list with a block added at the end: the
/// earlier one if there is one, else the added block if it starts at `p`.
proof fn lemma_block_size_push(allocations: Seq<Allocation>, x: Allocation, p: usize)
    ensures
        block_size(allocations.push(x), p) == match block_size(allocations, p) {
            Some(v) => Some(v),
            None => if x.ptr == p {
                Some(x.size)
            } else {
                None::<usize>
            },
        },
    decreases allocations.len(),
{
    if allocations.len() > 0 {
        assert(allocations.push(x)[0] == allocations[0]);
        assert(allocations.push(x).drop_first() =~= allocations.drop_first().push(x));
        lemma_block_size_push(allocations.drop_first(), x, p);
    } else {
        assert(allocations.push(x)[0] == x);
        assert(allocations.push(x).drop_first() =~= Seq::<Allocation>::empty());
        assert(block_size(Seq::<Allocation>::empty(), p) is None);
    }
}

/// A list is its prefix with its last block added.
proof fn lemma_block_size_last(allocations: Seq<Allocation>, p: usize)
    requires
        allocations.len() > 0,
    ensures
        block_size(allocations, p) == block_size(allocations.drop_last().push(allocations.last()), p),
{
    assert(allocations.drop_last().push(allocations.last()) =~= allocations);
}

/// Freeing the blocks at `q` does not change what `ptrsize` gives for
/// another address `p`, and gives nothing for `q` itself.
proof fn lemma_block_size_free(allocations: Seq<Allocation>, q: usize, p: usize)
    ensures
        p != q ==> block_size(without_block(allocations, q), p) == block_size(allocations, p),
        block_size(without_block(allocations, q), q) is None,
    decreases allocations.len(),
{
    reveal_with_fuel(Seq::<_>::filter, 1);
    if allocations.len() > 0 {
        let rest = allocations.drop_last();
        let last = allocations.last();
        lemma_block_size_free(rest, q, p);
        lemma_block_size_last(allocations, p);
        lemma_block_size_last(allocations, q);
        lemma_block_size_push(rest, last, p);
        lemma_block_size_push(rest, last, q);
        let kept = without_block(rest, q);
        lemma_block_size_push(kept, last, p);
        lemma_block_size_push(kept, last, q);
    }
}

/// No block of the list starts where the bump allocator places the next
/// one, when every block has a size.
proof fn lemma_no_block_at_bump(allocations: Seq<Allocation>)
    requires
        forall|i: int| 0 <= i < allocations.len() ==> (#[trigger] allocations[i]).size > 0,
    ensures
        forall|i: int| 0 <= i < allocations.len() ==> (#[trigger] allocations[i]).ptr < bump_ptr(allocations),
{
    if allocations.len() > 0 {
        lemma_max_end(allocations);
    }
}

/// No block of the list starts at `p`, so `ptrsize` gives nothing there.
proof fn lemma_block_size_none(allocations: Seq<Allocation>, p: usize)
    requires
        forall|i: int| 0 <= i < allocations.len() ==> (#[trigger] allocations[i]).ptr != p,
    ensures
        block_size(allocations, p) is None,
    decreases allocations.len(),
{
    if allocations.len() > 0 {
        assert forall|i: int| 0 <= i < allocations.drop_first().len() implies (#[trigger] allocations.drop_first()[i]).ptr != p by {
            assert(allocations.drop_first()[i] == allocations[i + 1]);
        }
        lemma_block_size_none(allocations.drop_first(), p);
    }
}

/// While every block has a size (no guest asked for zero bytes), `ptrsize`
/// of the address `malloc(n)` returned gives `n`; it keeps giving `n` while
/// other blocks are allocated or freed, and gives nothing once the address
/// is freed.
pub proof fn law_ptrsize_of_allocation(allocations: Seq<Allocation>, size: usize, later: Allocation, other: usize)
    requires
        forall|i: int| 0 <= i < allocations.len() ==> (#[trigger] allocations[i]).size > 0,
        bump_ptr(allocations) <= usize::MAX,
        other != bump_ptr(allocations),
    ensures
        ({
            let p = bump_ptr(allocations) as usize;
            let after = allocations.push(Allocation { ptr: p, size });
            &&& block_size(after, p) == Some(size)
            &&& block_size(after.push(later), p) == Some(size)
            &&& block_size(without_block(after, other), p) == Some(size)
            &&& block_size(without_block(after, p), p) is None
        }),
{
    let p = bump_ptr(allocations) as usize;
    let after = allocations.push(Allocation { ptr: p, size });
    lemma_no_block_at_bump(allocations);
    lemma_block_size_none(allocations, p);
    lemma_block_size_push(allocations, Allocation { ptr: p, size }, p);
    lemma_block_size_push(after, later, p);
    lemma_block_size_free(after, other, p);
    lemma_block_size_free(after, p, p);
}

/// One call of the guest's allocator: `malloc` of a size, or `free` of an
/// address.
pub enum AllocOp {
    Malloc(usize),
    Free(usize),
}

/// The list after one call of the allocator.
pub open spec fn apply_op(allocations: Seq<Allocation>, op: AllocOp) -> Seq<Allocation> {
    match op {
        AllocOp::Malloc(size) => allocations.push(Allocation { ptr: bump_ptr(allocations) as usize, size }),
        AllocOp::Free(ptr) => without_block(allocations, ptr),
    }
}

/// The list after a sequence of calls of the allocator, in order.
pub open spec fn apply_ops(allocations: Seq<Allocation>, ops: Seq<AllocOp>) -> Seq<Allocation>
    decreases ops.len(),
{
    if ops.len() == 0 {
        allocations
    } else {
        apply_op(apply_ops(allocations, ops.drop_last()), ops.last())
    }
}

/// A first block at `p` is a block of the list.
proof fn lemma_block_size_some(allocations: Seq<Allocation>, p: usize, v: usize)
    requires
        block_size(allocations, p) == Some(v),
    ensures
        exists|i: int| 0 <= i < allocations.len() && allocations[i] == (Allocation { ptr: p, size: v }),
    decreases allocations.len(),
{
    if allocations[0].ptr != p {
        lemma_block_size_some(allocations.drop_first(), p, v);
        let i = choose|i: int| 0 <= i < allocations.drop_first().len() && allocations.drop_first()[i] == (Allocation { ptr: p, size: v });
        assert(allocations[i + 1] == allocations.drop_first()[i]);
    } else {
        assert(allocations[0] == (Allocation { ptr: p, size: v }));
    }
}

/// Through any sequence of allocator calls that does not free it, the block
/// `malloc(n)` handed out (n > 0, every earlier block with a size) keeps
/// its size by `ptrsize`; once it is freed, `ptrsize` gives nothing there.
pub proof fn law_ptrsize_through_run(allocations: Seq<Allocation>, size: usize, ops: Seq<AllocOp>)
    requires
        forall|i: int| 0 <= i < allocations.len() ==> (#[trigger] allocations[i]).size > 0,
        size > 0,
        bump_ptr(allocations) <= usize::MAX,
        forall|k: int| 0 <= k < ops.len() ==> (#[trigger] ops[k]) != AllocOp::Free(bump_ptr(allocations) as usize),
        forall|k: int| 0 <= k < ops.len() && ops[k] is Malloc ==> bump_ptr(
            #[trigger] apply_ops(apply_op(allocations, AllocOp::Malloc(size)), ops.take(k)),
        ) <= usize::MAX,
    ensures
        ({
            let p = bump_ptr(allocations) as usize;
            let run = apply_ops(apply_op(allocations, AllocOp::Malloc(size)), ops);
            &&& block_size(run, p) == Some(size)
            &&& block_size(without_block(run, p), p) is None
        }),
    decreases ops.len(),
{
    let p = bump_ptr(allocations) as usize;
    let after = apply_op(allocations, AllocOp::Malloc(size));
    let run = apply_ops(after, ops);
    if ops.len() == 0 {
        lemma_no_block_at_bump(allocations);
        lemma_block_size_none(allocations, p);
        lemma_block_size_push(allocations, Allocation { ptr: p, size }, p);
        assert(run == after);
        lemma_block_size_free(run, p, p);
    } else {
        let rest = ops.drop_last();
        assert forall|k: int| 0 <= k < rest.len() implies (#[trigger] rest[k]) != AllocOp::Free(p) by {
            assert(rest[k] == ops[k]);
        }
        assert forall|k: int| 0 <= k < rest.len() && rest[k] is Malloc implies bump_ptr(
            #[trigger] apply_ops(after, rest.take(k)),
        ) <= usize::MAX by {
            assert(rest[k] == ops[k]);
            assert(rest.take(k) =~= ops.take(k));
        }
        law_ptrsize_through_run(allocations, size, rest);
        let before = apply_ops(after, rest);
        assert(ops.take(ops.len() - 1) =~= rest);
        lemma_block_size_some(before, p, size);
        let i = choose|i: int| 0 <= i < before.len() && before[i] == (Allocation { ptr: p, size });
        match ops.last() {
            AllocOp::Malloc(m) => {
                assert(ops[ops.len() - 1] is Malloc);
                assert(bump_ptr(before) <= usize::MAX);
                lemma_max_end(before);
                assert(end_of(before[i]) <= bump_ptr(before));
                let q = bump_ptr(before) as usize;
                lemma_block_size_push(before, Allocation { ptr: q, size: m }, p);
            },
            AllocOp::Free(q) => {
                assert(ops[ops.len() - 1] != AllocOp::Free(p));
                lemma_block_size_free(before, q, p);
            },
        }
        lemma_block_size_free(run, p, p);
    }
}
} // verus!
