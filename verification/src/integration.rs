//! A heap behind the operations that a language runtime asks of its
//! allocator: allocate, deallocate, reallocate, and the size that can be
//! used of a block.  The heap is handed in by whoever owns it.

use vstd::prelude::*;
use crate::blocks::{
    apart, has_block, lemma_first_free, lemma_order_size_monotone, lemma_unused_within, unused,
};
use crate::heap::Heap;
use crate::region::with_bytes;

verus! {

/// The smaller of two sizes.
pub open spec fn smaller(a: usize, b: usize) -> int {
    if a < b {
        a as int
    } else {
        b as int
    }
}

/// Allocates a block of `size` bytes aligned on `align` from `heap`, as
/// `Heap::allocate` does.
pub fn allocate(heap: &mut Heap, size: usize, align: usize) -> (r: Option<usize>)
    requires
        old(heap).wf(),
    ensures
        final(heap).wf(),
        final(heap).same_geometry(old(heap)),
        r == old(heap).spec_allocate(size, align),
        final(heap).free_lists() == old(heap).free_lists_after_allocate(size, align),
        final(heap).memory() == old(heap).memory_after_allocate(size, align),
        r matches Some(block) ==> final(heap).holds_apart(
            block as int,
            old(heap).spec_allocation_order(size, align)->0 as int,
        ),
        r matches Some(block) ==> block % align == 0,
        r is None ==> *final(heap) == *old(heap),
        forall|p: int|
            0 <= p < old(heap).heap_size() && unused(
                old(heap).min_block_size(),
                old(heap).free_lists(),
                old(heap).heap_base() + p,
                1,
            ) ==> #[trigger] final(heap).memory()[p] == old(heap).memory()[p],
{
    heap.allocate(size, align)
}

/// Gives a block back to `heap`, as `Heap::deallocate` does: the heap
/// stays as it is.
pub fn deallocate(heap: &mut Heap, ptr: usize, old_size: usize, align: usize)
    ensures
        *final(heap) == *old(heap),
{
    heap.deallocate(ptr, old_size, align)
}

/// Moves the block of `old_size` bytes at `ptr` to a new block of `size`
/// bytes aligned on `align`, and returns the new block's address.  The new
/// block is allocated first; where that fails, nothing is returned and
/// nothing has changed.  Else as many bytes as both blocks hold are copied
/// to the new block, and the old one is given back.  A block is never
/// resized in place.
pub fn reallocate(heap: &mut Heap, ptr: usize, old_size: usize, size: usize, align: usize) -> (r:
    Option<usize>)
    requires
        old(heap).wf(),
        old(heap).in_heap(ptr as int, old_size as int),
        unused(old(heap).min_block_size(), old(heap).free_lists(), ptr as int, old_size as int),
    ensures
        final(heap).wf(),
        final(heap).same_geometry(old(heap)),
        r == old(heap).spec_allocate(size, align),
        final(heap).free_lists() == old(heap).free_lists_after_allocate(size, align),
        r is None ==> *final(heap) == *old(heap),
        r matches Some(block) ==> final(heap).memory() == with_bytes(
            old(heap).memory_after_allocate(size, align),
            block - old(heap).heap_base(),
            old(heap).memory().subrange(
                ptr - old(heap).heap_base(),
                ptr - old(heap).heap_base() + smaller(size, old_size),
            ),
        ),
        r matches Some(block) ==> final(heap).holds_apart(
            block as int,
            old(heap).spec_allocation_order(size, align)->0 as int,
        ),
        r matches Some(block) ==> block % align == 0,
{
    let new_ptr = heap.allocate(size, align);
    match new_ptr {
        None => None,
        Some(block) => {
            let count: usize = if size < old_size { size } else { old_size };
            let ghost base = heap.heap_base();
            let ghost min = heap.min_block_size();
            let ghost allocated = *heap;
            let ghost needed = old(heap).spec_allocation_order(size, align)->0 as int;
            let ghost found = old(heap).spec_found_order(size, align)->0;
            let ghost source = old(heap).memory().subrange(ptr - base, ptr - base + count);
            proof {
                old(heap).lemma_allocation_order(size, align);
                lemma_first_free(old(heap).free_lists(), needed);
                lemma_order_size_monotone(min, needed, found);
                assert(has_block(old(heap).free_lists(), found, 0));
                assert(apart(
                    ptr as int,
                    old_size as int,
                    block as int,
                    old(heap).block_size(found),
                ));
                assert(heap.memory() =~= with_bytes(
                    allocated.memory(),
                    block - base,
                    source.take(0),
                ));
                assert forall|j: int| 0 <= j < count implies allocated.memory()[ptr - base + j]
                    == source[j] by {
                    lemma_unused_within(
                        min,
                        old(heap).free_lists(),
                        ptr as int,
                        old_size as int,
                        ptr + j,
                        1,
                    );
                }
            }
            let mut i: usize = 0;
            while i < count
                invariant
                    i <= count <= old_size,
                    heap.wf(),
                    heap.same_geometry(old(heap)),
                    base == heap.heap_base(),
                    min == heap.min_block_size(),
                    heap.free_lists() == allocated.free_lists(),
                    allocated.memory().len() == heap.heap_size(),
                    source.len() == count,
                    heap.memory() == with_bytes(allocated.memory(), block - base, source.take(i as int)),
                    heap.in_heap(ptr as int, old_size as int),
                    heap.in_heap(block as int, count as int),
                    count > 0 ==> unused(min, heap.free_lists(), block as int, count as int),
                    apart(ptr as int, old_size as int, block as int, count as int),
                    forall|j: int| 0 <= j < count ==> allocated.memory()[ptr - base + j] == source[j],
                decreases count - i,
            {
                proof {
                    lemma_unused_within(
                        min,
                        heap.free_lists(),
                        block as int,
                        count as int,
                        block + i,
                        1,
                    );
                }
                let ghost before = heap.memory();
                let byte: u8 = heap.read_byte(ptr + i);
                heap.write_byte(block + i, byte);
                i = i + 1;
                assert(heap.memory() =~= with_bytes(
                    allocated.memory(),
                    block - base,
                    source.take(i as int),
                ));
            }
            assert(source.take(count as int) =~= source);
            heap.deallocate(ptr, old_size, align);
            Some(block)
        },
    }
}

/// The size that a block has after an attempt to resize it in place: its
/// old size, since no block is resized in place.
pub fn reallocate_inplace(ptr: usize, old_size: usize, size: usize, align: usize) -> (r: usize)
    ensures
        r == old_size,
{
    old_size
}

/// The number of bytes that can be used of a block asked for with `size`
/// and `align`: `size`, whatever the block's real size.
pub fn usable_size(size: usize, align: usize) -> (r: usize)
    ensures
        r == size,
{
    size
}

} // verus!
