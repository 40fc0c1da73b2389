use vstd::prelude::*;
use vstd::string::StringSliceAdditionalSpecFns;
use tinywasm::MemoryRefMut;
use crate::guest_memory::{memory_bytes, overwrite, store};
use crate::wasm::{args_block, args_buffer, end_of, in_memory, take_list, without_block, AllocCommandReturn, Allocation};

verus! {

/// Where the first-fit scan stops, starting at `ptr`: each block, in list
/// order, either leaves room for `size` bytes between `ptr` and its start
/// (the scan stops there) or moves `ptr` to its end.
pub open spec fn scan_fit(allocations: Seq<Allocation>, size: usize, ptr: int) -> int
    decreases allocations.len(),
{
    if allocations.len() == 0 {
        ptr
    } else if allocations[0].ptr - ptr >= size {
        ptr
    } else {
        scan_fit(allocations.drop_first(), size, end_of(allocations[0]))
    }
}

/// The scan from `ptr` never meets a block that starts before the current
/// address (the unsigned subtraction would fail) and never moves past the
/// largest address.
pub open spec fn scan_ok(allocations: Seq<Allocation>, size: usize, ptr: int) -> bool
    decreases allocations.len(),
{
    if allocations.len() == 0 {
        true
    } else if allocations[0].ptr < ptr {
        false
    } else if allocations[0].ptr - ptr >= size {
        true
    } else {
        end_of(allocations[0]) <= usize::MAX && scan_ok(allocations.drop_first(), size, end_of(allocations[0]))
    }
}

/// Where the first-fit allocator places `size` bytes: where the scan from
/// address 0 stops; but when that is address 0 and blocks exist, right after
/// the last block of the list instead.
pub open spec fn first_fit_ptr(allocations: Seq<Allocation>, size: usize) -> int {
    let p = scan_fit(allocations, size, 0);
    if p == 0 && allocations.len() > 0 {
        end_of(allocations.last())
    } else {
        p
    }
}

/// The first-fit allocator can run on this list without an arithmetic
/// fault.
pub open spec fn first_fit_ok(allocations: Seq<Allocation>, size: usize) -> bool {
    &&& scan_ok(allocations, size, 0)
    &&& (scan_fit(allocations, size, 0) == 0 && allocations.len() > 0 ==> end_of(allocations.last()) <= usize::MAX)
}

/// Allocates `size` bytes first-fit (see `first_fit_ptr`); the new block is
/// added at the end of the list. Always succeeds.
pub fn malloc(allocations: Vec<Allocation>, size: usize) -> (r: Result<AllocCommandReturn, String>)
    requires
        first_fit_ok(allocations@, size),
    ensures
        r matches Ok(AllocCommandReturn(list, ptr)) && ptr == first_fit_ptr(allocations@, size)
            && list@ == allocations@.push(Allocation { ptr, size }),
{
    // try and find room
    let mut ptr: usize = 0;
    let n = allocations.len();
    let mut i: usize = 0;
    let mut found = false;
    proof {
        assert(allocations@.skip(0) =~= allocations@);
    }
    while i < n && !found
        invariant
            n == allocations@.len(),
            i <= n,
            found ==> scan_fit(allocations@, size, 0) == ptr,
            !found ==> scan_fit(allocations@, size, 0) == scan_fit(allocations@.skip(i as int), size, ptr as int),
            !found ==> scan_ok(allocations@.skip(i as int), size, ptr as int),
        decreases n - i, (if found { 0int } else { 1int }),
    {
        let allocation = allocations[i];
        proof {
            assert(allocations@.skip(i as int)[0] == allocation);
            assert(allocations@.skip(i as int).drop_first() =~= allocations@.skip(i + 1));
        }
        if allocation.ptr - ptr >= size {
            found = true;
        } else {
            ptr = allocation.ptr + allocation.size;
            i = i + 1;
        }
    }
    proof {
        if !found {
            assert(allocations@.skip(i as int) =~= Seq::<Allocation>::empty());
        }
    }
    // if we didn't find room, allocate at the end
    if ptr == 0 {
        if n > 0 {
            let last = allocations[n - 1];
            ptr = last.ptr + last.size;
        }
    }
    let mut new_allocations = allocations;
    new_allocations.push(Allocation { ptr, size });
    Ok(AllocCommandReturn(new_allocations, ptr))
}

/// Whether the first-fit allocator can run on this list for `size` bytes
/// (see `first_fit_ok`).
pub fn first_fit_fits(allocations: &Vec<Allocation>, size: usize) -> (ok: bool)
    ensures
        ok == first_fit_ok(allocations@, size),
{
    let n = allocations.len();
    let mut ptr: usize = 0;
    let mut i: usize = 0;
    let mut found = false;
    proof {
        assert(allocations@.skip(0) =~= allocations@);
    }
    while i < n && !found
        invariant
            n == allocations@.len(),
            i <= n,
            found ==> scan_fit(allocations@, size, 0) == ptr && scan_ok(allocations@, size, 0),
            !found ==> scan_fit(allocations@, size, 0) == scan_fit(allocations@.skip(i as int), size, ptr as int),
            !found ==> scan_ok(allocations@, size, 0) == scan_ok(allocations@.skip(i as int), size, ptr as int),
        decreases n - i, (if found { 0int } else { 1int }),
    {
        let a = allocations[i];
        proof {
            assert(allocations@.skip(i as int)[0] == a);
            assert(allocations@.skip(i as int).drop_first() =~= allocations@.skip(i + 1));
        }
        if a.ptr < ptr {
            return false;
        }
        if a.ptr - ptr >= size {
            found = true;
        } else {
            if a.ptr > usize::MAX - a.size {
                return false;
            }
            ptr = a.ptr + a.size;
            i = i + 1;
        }
    }
    proof {
        if !found {
            assert(allocations@.skip(i as int) =~= Seq::<Allocation>::empty());
        }
    }
    if ptr == 0 && n > 0 {
        let last = allocations[n - 1];
        last.ptr <= usize::MAX - last.size
    } else {
        true
    }
}

/// The guest's `malloc` with the first-fit allocator: allocates `size`
/// bytes (taken as unsigned), records the block and returns its address as
/// a guest `i32`.
pub fn guest_malloc(allocations: &mut Vec<Allocation>, size: i32) -> (ptr: i32)
    requires
        first_fit_ok(old(allocations)@, size as usize),
    ensures
        final(allocations)@ == old(allocations)@.push(
            Allocation { ptr: first_fit_ptr(old(allocations)@, size as usize) as usize, size: size as usize },
        ),
        ptr == (first_fit_ptr(old(allocations)@, size as usize) as usize) as i32,
{
    let list = take_list(allocations);
    match malloc(list, size as usize) {
        Ok(ret) => {
            *allocations = ret.0;
            ret.1 as i32
        },
        Err(_) => -1,
    }
}

/// The guest's `getargs` with the first-fit allocator: as
/// `crate::wasm::guest_getargs`, but the block is placed first-fit.
pub fn guest_getargs(memory: &mut MemoryRefMut, allocations: &mut Vec<Allocation>, args: &str) -> (status: i32)
    requires
        first_fit_ok(old(allocations)@, args_block(args.spec_bytes()).len() as usize),
    ensures
        ({
            let block = args_block(args.spec_bytes());
            let ptr = first_fit_ptr(old(allocations)@, block.len() as usize) as usize;
            let bytes = memory_bytes(*old(memory));
            &&& final(allocations)@ == old(allocations)@.push(Allocation { ptr, size: block.len() as usize })
            &&& if in_memory(bytes.len(), ptr, block.len() as usize) {
                status == ptr as i32 && memory_bytes(*final(memory)) == overwrite(bytes, ptr as int, block)
            } else {
                status == -1 && memory_bytes(*final(memory)) == bytes
            }
        }),
{
    let block = args_buffer(args);
    let len = block.len();
    let list = take_list(allocations);
    let offset = match malloc(list, len) {
        Ok(ret) => {
            *allocations = ret.0;
            ret.1
        },
        Err(_) => return -1,
    };
    match store(memory, offset, len, block.as_slice()) {
        Ok(_) => offset as i32,
        Err(_) => -1,
    }
}

/// Frees every block that starts at `ptr`, as the bump allocator's `free`
/// does.
pub fn free(allocations: Vec<Allocation>, ptr: usize) -> (r: Result<Vec<Allocation>, String>)
    ensures
        r matches Ok(list) && list@ == without_block(allocations@, ptr),
{
    crate::wasm::free(allocations, ptr)
}

/// The blocks lie in increasing address order without overlapping.
pub open spec fn sorted_disjoint(allocations: Seq<Allocation>) -> bool {
    forall|i: int, j: int| 0 <= i < j < allocations.len() ==> end_of(#[trigger] allocations[i]) <= #[trigger] allocations[j].ptr
}

/// The new block overlaps none of the blocks of the list.
pub open spec fn overlaps_none(allocations: Seq<Allocation>, ptr: int, size: usize) -> bool {
    forall|k: int| 0 <= k < allocations.len() ==> end_of(#[trigger] allocations[k]) <= ptr || ptr + size <= allocations[k].ptr
}

/// The scan over a sorted list of disjoint blocks stops at an address from
/// which `size` bytes overlap no block, and it can run without a fault.
proof fn lemma_scan_sorted(allocations: Seq<Allocation>, size: usize, ptr: int)
    requires
        sorted_disjoint(allocations),
        crate::wasm::ends_fit(allocations),
        0 <= ptr,
        allocations.len() > 0 ==> ptr <= allocations[0].ptr,
    ensures
        scan_ok(allocations, size, ptr),
        scan_fit(allocations, size, ptr) >= ptr,
        overlaps_none(allocations, scan_fit(allocations, size, ptr), size),
    decreases allocations.len(),
{
    if allocations.len() > 0 {
        let first = allocations[0];
        assert(end_of(first) <= usize::MAX);
        assert(first.ptr <= end_of(first));
        if first.ptr - ptr >= size {
            assert forall|k: int| 0 <= k < allocations.len() implies end_of(#[trigger] allocations[k]) <= ptr
                || ptr + size <= allocations[k].ptr by {
                if k > 0 {
                    assert(end_of(allocations[0]) <= allocations[k].ptr);
                }
            }
        } else {
            let rest = allocations.drop_first();
            assert forall|i: int, j: int| 0 <= i < j < rest.len() implies end_of(#[trigger] rest[i]) <= #[trigger] rest[j].ptr by {
                assert(rest[i] == allocations[i + 1]);
                assert(rest[j] == allocations[j + 1]);
            }
            if rest.len() > 0 {
                assert(rest[0] == allocations[1]);
            }
            lemma_scan_sorted(rest, size, end_of(first));
            let q = scan_fit(rest, size, end_of(first));
            assert forall|k: int| 0 <= k < allocations.len() implies end_of(#[trigger] allocations[k]) <= q
                || q + size <= allocations[k].ptr by {
                if k > 0 {
                    assert(allocations[k] == rest[k - 1]);
                }
            }
        }
    }
}

/// On a list of blocks in increasing order that do not overlap (which the
/// first-fit allocator does not itself keep, since it appends the new
/// block at the end), it can run, and the block it hands out overlaps none
/// of them.
pub proof fn law_first_fit_disjoint(allocations: Seq<Allocation>, size: usize)
    requires
        sorted_disjoint(allocations),
        crate::wasm::ends_fit(allocations),
    ensures
        first_fit_ok(allocations, size),
        overlaps_none(allocations, first_fit_ptr(allocations, size), size),
{
    lemma_scan_sorted(allocations, size, 0);
    if scan_fit(allocations, size, 0) == 0 && allocations.len() > 0 {
        let last = allocations.last();
        assert(end_of(last) <= usize::MAX);
        assert forall|k: int| 0 <= k < allocations.len() implies end_of(#[trigger] allocations[k])
            <= end_of(last) by {
            if k < allocations.len() - 1 {
                assert(end_of(allocations[k]) <= allocations[allocations.len() - 1].ptr);
            }
        }
    }
}

/// Where the `k`-th gap of the list starts: address 0 for the first, the
/// end of the block before it for the others.
pub open spec fn gap_start(allocations: Seq<Allocation>, k: int) -> int {
    if k == 0 {
        0
    } else {
        end_of(allocations[k - 1])
    }
}

/// The scan over the whole list stops where the scan over the blocks from
/// the `i`-th on, started at the `i`-th gap, stops, while no earlier gap
/// holds `size` bytes.
proof fn lemma_scan_skip(allocations: Seq<Allocation>, size: usize, i: int)
    requires
        0 <= i <= allocations.len(),
        forall|j: int| 0 <= j < i ==> (#[trigger] allocations[j]).ptr < gap_start(allocations, j) + size,
    ensures
        scan_fit(allocations, size, 0) == scan_fit(allocations.skip(i), size, gap_start(allocations, i)),
    decreases i,
{
    if i == 0 {
        assert(allocations.skip(0) =~= allocations);
    } else {
        lemma_scan_skip(allocations, size, i - 1);
        let tail = allocations.skip(i - 1);
        assert(tail[0] == allocations[i - 1]);
        assert(tail.drop_first() =~= allocations.skip(i));
    }
}

/// First fit: when the `k`-th gap is the first that holds `size` bytes
/// (an exact fit included), the block is placed at its start, unless that
/// start is address 0, which the allocator takes for "no room found" and
/// so places the block after the last one of the list.
pub proof fn law_first_fit_first_gap(allocations: Seq<Allocation>, size: usize, k: int)
    requires
        0 <= k < allocations.len(),
        forall|j: int| 0 <= j < k ==> (#[trigger] allocations[j]).ptr < gap_start(allocations, j) + size,
        allocations[k].ptr >= gap_start(allocations, k) + size,
    ensures
        gap_start(allocations, k) != 0 ==> first_fit_ptr(allocations, size) == gap_start(allocations, k),
        gap_start(allocations, k) == 0 ==> first_fit_ptr(allocations, size) == end_of(allocations.last()),
{
    lemma_scan_skip(allocations, size, k);
    assert(allocations.skip(k)[0] == allocations[k]);
}

/// When no gap holds `size` bytes, the block is placed after the last block
/// of the list (at address 0 for an empty list).
pub proof fn law_first_fit_no_gap(allocations: Seq<Allocation>, size: usize)
    requires
        forall|j: int| 0 <= j < allocations.len() ==> (#[trigger] allocations[j]).ptr < gap_start(allocations, j) + size,
    ensures
        allocations.len() == 0 ==> first_fit_ptr(allocations, size) == 0,
        allocations.len() > 0 ==> first_fit_ptr(allocations, size) == end_of(allocations.last()),
{
    lemma_scan_skip(allocations, size, allocations.len() as int);
    assert(allocations.skip(allocations.len() as int) =~= Seq::<Allocation>::empty());
}

} // verus!
