//! A buddy-system heap over one contiguous region of memory.
//!
//! The heap size is a power of two, and the heap starts out as one free
//! block.  A request is rounded up to a power of two and served from the
//! smallest free block that is large enough; a block that is too large is
//! halved until it fits, and the upper halves go back to the free lists.
//! There is one free list per block size, threaded through the free blocks
//! themselves.

use vstd::prelude::*;
use vstd::arithmetic::div_mod::{lemma_basic_div, lemma_div_by_multiple};
use vstd::arithmetic::logarithm::{lemma_log_is_ordered, log};
use vstd::arithmetic::power2::{
    is_pow2, lemma2_to64, lemma2_to64_rest, lemma_pow2_adds, lemma_pow2_pos, pow2,
};
use vstd::bits::{lemma_usize_shl_is_mul, lemma_usize_shr_is_div};
use crate::blocks::{
    apart, first_free, free_bytes, has_block, head_of, lemma_first_free, lemma_halves_placed,
    lemma_lists_kept, lemma_requests_bounded, lemma_split_free_bytes, lists_after_requests,
    lemma_memory_after_split_agrees, lemma_order_size_double, lemma_order_size_monotone,
    lemma_split_frame,
    lemma_order_size_least, lemma_pop, lemma_push, lists_after_split, lists_wf,
    memory_after_split, order_size, placed, unused,
};
use crate::math::{
    is_next_power_of_2, lemma_is_pow2_log, lemma_multiple_of_multiple, lemma_next_power_of_2,
    lemma_next_power_of_2_monotone,
    lemma_pow2_divides, lemma_pow2_fits, lemma_pow2_is_pow2, lemma_pow2_order,
    lemma_sum_of_multiples, log2, spec_next_power_of_2, PowersOf2,
};
use crate::region::{lemma_header_written, with_header, Region, HEADER_SIZE};

verus! {

/// The boundary on which the base of a heap must lie, and the largest
/// alignment that can be asked for.
pub const MIN_HEAP_ALIGN: usize = 4096;

/// The header at the start of every free block.  It holds no size: there is
/// one free list per block size.
#[derive(Clone, Copy, Debug)]
pub struct FreeBlock {
    /// The address of the next block in the free list, if there is one.
    pub next: Option<usize>,
}

impl FreeBlock {
    /// A header for a block that is followed by the block at `next`.
    pub fn head(next: Option<usize>) -> (r: FreeBlock)
        ensures
            r.next == next,
    {
        FreeBlock { next }
    }

    /// The header of the last block of a free list.
    pub fn tail() -> (r: FreeBlock)
        ensures
            r.next is None,
    {
        FreeBlock { next: None }
    }
}

/// The smallest block size of a heap of `size` bytes with `slots` free
/// lists: the size halved once per free list but the last.
pub open spec fn derived_min_block_size(size: int, slots: int) -> int {
    size / (pow2((slots - 1) as nat) as int)
}

/// A heap can be made of `size` bytes at `base` with `slots` free lists: the
/// base is not null and lies on a `MIN_HEAP_ALIGN` boundary, there is a
/// free list, the size is a power of two, the heap ends within the address
/// space, the smallest block can hold a header, and there is one free list
/// for each block size from the smallest up to the heap itself.
pub open spec fn valid_parameters(base: int, size: int, slots: int) -> bool {
    &&& base > 0
    &&& slots > 0
    &&& base % (MIN_HEAP_ALIGN as int) == 0
    &&& is_pow2(size)
    &&& base + size <= usize::MAX
    &&& size >= derived_min_block_size(size, slots)
    &&& derived_min_block_size(size, slots) >= HEADER_SIZE
    &&& derived_min_block_size(size, slots) * pow2((slots - 1) as nat) == size
}

/// With valid parameters, block sizes are the powers of two from the
/// smallest block up to the heap itself.
pub proof fn lemma_geometry(size: int, slots: int)
    requires
        slots > 0,
        is_pow2(size),
        size <= usize::MAX,
        size / (pow2((slots - 1) as nat) as int) >= HEADER_SIZE,
    ensures
        ({
            let min = size / (pow2((slots - 1) as nat) as int);
            let low = log(2, min);
            &&& is_pow2(min)
            &&& 3 <= low
            &&& low + slots - 1 == log(2, size)
            &&& low + slots - 1 < usize::BITS
            &&& min == pow2(low as nat)
            &&& order_size(min, slots - 1) == size
            &&& min <= size
            &&& forall|k: int| 0 <= k ==> #[trigger] order_size(min, k) == pow2((low + k) as nat)
        }),
{
    let top = log(2, size);
    let cut = (slots - 1) as nat;
    let min = size / (pow2(cut) as int);
    lemma_pow2_fits(size);
    lemma_is_pow2_log(size);
    lemma_pow2_pos(cut);
    if top < cut {
        lemma_pow2_order(cut, top as nat);
        lemma_basic_div(size, pow2(cut) as int);
    }
    let low = (top - cut) as nat;
    lemma_pow2_adds(low, cut);
    lemma_div_by_multiple(pow2(low) as int, pow2(cut) as int);
    lemma_pow2_is_pow2(low);
    vstd::arithmetic::logarithm::lemma_log_pow(2, low);
    vstd::arithmetic::power2::lemma_pow2(low);
    lemma2_to64();
    lemma_pow2_order(3, low);
    lemma_order_size_least(min, slots - 1);
    assert forall|k: int| 0 <= k implies #[trigger] order_size(min, k) == pow2((low + k) as nat) by {
        lemma_pow2_adds(low, k as nat);
    }
}

/// The interface to a heap: where it lies, how it is divided, and the heads
/// of its free lists.  Every byte of the region it manages can be handed
/// out, so nothing but the free blocks' own headers is kept there.
pub struct Heap {
    /// The base address of the heap, on a `MIN_HEAP_ALIGN` boundary.
    heap_base: usize,
    /// The space in the heap, a power of two.
    heap_size: usize,
    /// The heads of the free lists.  The list at index 0 holds blocks of the
    /// smallest size; the last one holds at most one block, the whole heap.
    free_lists: Vec<Option<usize>>,
    /// The smallest block size, large enough for a header.
    min_block_size: usize,
    /// The binary logarithm of the smallest block size.
    min_block_size_log2: u8,
    /// The memory that is managed.
    region: Region,
    /// The blocks of each free list, the head first.
    chains: Ghost<Seq<Seq<usize>>>,
}

impl Heap {
    /// The base address of the heap.
    pub closed spec fn heap_base(&self) -> int {
        self.heap_base as int
    }

    /// The number of bytes in the heap.
    pub closed spec fn heap_size(&self) -> int {
        self.heap_size as int
    }

    /// The size of the smallest block.
    pub closed spec fn min_block_size(&self) -> int {
        self.min_block_size as int
    }

    /// The addresses of the free blocks: one list per order, the head first.
    pub closed spec fn free_lists(&self) -> Seq<Seq<usize>> {
        self.chains@
    }

    /// The bytes of the heap, the one at the base address first.
    pub closed spec fn memory(&self) -> Seq<u8> {
        self.region@
    }

    /// The number of orders, which is the number of free lists.
    pub open spec fn num_orders(&self) -> int {
        self.free_lists().len() as int
    }

    /// The size in bytes of a block of order `order`.
    pub open spec fn block_size(&self, order: int) -> int {
        order_size(self.min_block_size(), order)
    }

    /// The fields agree with each other and with what they stand for.
    pub closed spec fn inv(&self) -> bool {
        &&& self.region.base() == self.heap_base
        &&& self.region@.len() == self.heap_size
        &&& self.chains@.len() == self.free_lists@.len()
        &&& forall|k: int|
            0 <= k < self.free_lists@.len() ==> self.free_lists@[k] == head_of(
                #[trigger] self.chains@[k],
            )
        &&& self.min_block_size_log2 == log(2, self.min_block_size as int)
    }

    /// The heap is well formed: its parameters are valid, the smallest block
    /// size follows from them, and the free lists are laid out well in its
    /// memory.
    pub open spec fn wf(&self) -> bool {
        &&& self.inv()
        &&& valid_parameters(self.heap_base(), self.heap_size(), self.num_orders())
        &&& self.min_block_size() == derived_min_block_size(self.heap_size(), self.num_orders())
        &&& self.memory().len() == self.heap_size()
        &&& lists_wf(
            self.heap_base(),
            self.heap_size(),
            self.min_block_size(),
            self.free_lists(),
            self.memory(),
        )
    }

    /// Two heaps lie at the same place and are divided alike.
    pub open spec fn same_geometry(&self, other: &Heap) -> bool {
        &&& self.heap_base() == other.heap_base()
        &&& self.heap_size() == other.heap_size()
        &&& self.min_block_size() == other.min_block_size()
        &&& self.num_orders() == other.num_orders()
    }

    /// The larger of the size asked for, the alignment asked for and the
    /// smallest block size.
    pub open spec fn wanted_size(&self, size: usize, align: usize) -> int {
        let most = if align > size { align as int } else { size as int };
        if self.min_block_size() > most { self.min_block_size() } else { most }
    }

    /// The block size that serves a request: the smallest power of two that
    /// holds the request, unless the alignment is not a power of two or lies
    /// beyond `MIN_HEAP_ALIGN`, or the block would be larger than the heap.
    pub open spec fn spec_allocation_size(&self, size: usize, align: usize) -> Option<usize> {
        let rounded = spec_next_power_of_2(self.wanted_size(size, align));
        if is_pow2(align as int) && align <= MIN_HEAP_ALIGN && rounded <= self.heap_size() {
            Some(rounded as usize)
        } else {
            None
        }
    }

    /// The order of the block that serves a request: how often the smallest
    /// block size is doubled to reach `spec_allocation_size`.
    pub open spec fn spec_allocation_order(&self, size: usize, align: usize) -> Option<usize> {
        match self.spec_allocation_size(size, align) {
            None => None,
            Some(s) => Some((log(2, s as int) - log(2, self.min_block_size())) as usize),
        }
    }

    /// The order of the free list that serves a request: the lowest one, from
    /// the order of the request up, that holds a block.
    pub open spec fn spec_found_order(&self, size: usize, align: usize) -> Option<int> {
        match self.spec_allocation_order(size, align) {
            None => None,
            Some(needed) => first_free(self.free_lists(), needed as int),
        }
    }

    /// The address that a request is given: the head of the free list that
    /// serves it, or nothing where no list does.
    pub open spec fn spec_allocate(&self, size: usize, align: usize) -> Option<usize> {
        match self.spec_found_order(size, align) {
            None => None,
            Some(found) => Some(self.free_lists()[found][0]),
        }
    }

    /// The free lists after a request: unchanged where it fails; else the
    /// serving list has lost its head, and each order between the request's
    /// and the serving list's has gained an upper half of that block.
    pub open spec fn free_lists_after_allocate(&self, size: usize, align: usize) -> Seq<
        Seq<usize>,
    > {
        match self.spec_found_order(size, align) {
            None => self.free_lists(),
            Some(found) => lists_after_split(
                self.free_lists(),
                self.min_block_size(),
                self.free_lists()[found][0] as int,
                self.spec_allocation_order(size, align)->0 as int,
                found,
            ),
        }
    }

    /// The memory after a request: unchanged where it fails; else changed
    /// only by the headers of the upper halves that went to the free lists.
    pub open spec fn memory_after_allocate(&self, size: usize, align: usize) -> Seq<u8> {
        match self.spec_found_order(size, align) {
            None => self.memory(),
            Some(found) => memory_after_split(
                self.memory(),
                self.free_lists(),
                self.heap_base(),
                self.min_block_size(),
                self.free_lists()[found][0] as int,
                self.spec_allocation_order(size, align)->0 as int,
                found,
            ),
        }
    }

    /// The heap is well formed, and the block of order `order` at `block` is
    /// placed and shares no byte with a free block.
    pub open spec fn holds_apart(&self, block: int, order: int) -> bool {
        &&& self.wf()
        &&& 0 <= order < self.num_orders()
        &&& placed(self.heap_base(), self.heap_size(), self.min_block_size(), order, block)
        &&& unused(self.min_block_size(), self.free_lists(), block, self.block_size(order))
    }

    /// The `len` bytes at `addr` lie in the heap.
    pub open spec fn in_heap(&self, addr: int, len: int) -> bool {
        &&& self.heap_base() <= addr
        &&& 0 <= len
        &&& addr + len <= self.heap_base() + self.heap_size()
    }

    /// The order of a request is one of the heap's orders, and a block of
    /// that order has the size that serves the request: a power of two that
    /// holds the size and the alignment asked for.
    pub proof fn lemma_allocation_order(&self, size: usize, align: usize)
        requires
            self.wf(),
            self.spec_allocation_order(size, align) is Some,
        ensures
            ({
                let k = self.spec_allocation_order(size, align)->0 as int;
                let s = self.spec_allocation_size(size, align)->0 as int;
                &&& 0 <= k < self.num_orders()
                &&& k == log(2, s) - log(2, self.min_block_size())
                &&& self.block_size(k) == s
                &&& is_next_power_of_2(self.wanted_size(size, align), s)
                &&& size <= s
                &&& align <= s
                &&& self.min_block_size() <= s <= self.heap_size()
            }),
    {
        let s = self.spec_allocation_size(size, align)->0 as int;
        lemma_next_power_of_2(self.wanted_size(size, align));
        lemma_geometry(self.heap_size(), self.num_orders());
        lemma_pow2_fits(self.heap_size());
        lemma_is_pow2_log(s);
        lemma_pow2_fits(s);
        lemma_log_is_ordered(2, self.min_block_size(), s);
        lemma_log_is_ordered(2, s, self.heap_size());
    }

    /// A larger request never takes a block of a lower order: where the
    /// larger of two requests with one alignment has an order, the smaller
    /// has one too, and it is no higher.
    pub proof fn lemma_allocation_order_monotone(&self, size1: usize, size2: usize, align: usize)
        requires
            self.wf(),
            size1 <= size2,
        ensures
            self.spec_allocation_order(size2, align) is Some ==> {
                &&& self.spec_allocation_order(size1, align) is Some
                &&& self.spec_allocation_order(size1, align)->0 <= self.spec_allocation_order(
                    size2,
                    align,
                )->0
            },
    {
        if self.spec_allocation_order(size2, align) is Some {
            lemma_next_power_of_2_monotone(
                self.wanted_size(size1, align),
                self.wanted_size(size2, align),
            );
            lemma_next_power_of_2(self.wanted_size(size1, align));
            self.lemma_allocation_order(size2, align);
            self.lemma_allocation_order(size1, align);
            lemma_log_is_ordered(
                2,
                self.spec_allocation_size(size1, align)->0 as int,
                self.spec_allocation_size(size2, align)->0 as int,
            );
        }
    }

    /// The order of a request depends on the request and on how the heap is
    /// divided, not on what has been allocated: the order found when a block
    /// is given back is the one found when it was handed out.
    pub proof fn lemma_allocation_order_stable(&self, other: &Heap, size: usize, align: usize)
        requires
            self.same_geometry(other),
        ensures
            self.spec_allocation_size(size, align) == other.spec_allocation_size(size, align),
            self.spec_allocation_order(size, align) == other.spec_allocation_order(size, align),
    {
    }

    /// Bytes that lie in no free block before a request lie in none after
    /// it, and share no byte with the block that the request is given: a
    /// block that was handed out is not handed out again, nor any part of
    /// it.
    pub proof fn lemma_allocate_keeps_unused(&self, size: usize, align: usize, addr: int, len: int)
        requires
            self.wf(),
            unused(self.min_block_size(), self.free_lists(), addr, len),
        ensures
            unused(self.min_block_size(), self.free_lists_after_allocate(size, align), addr, len),
            self.spec_allocate(size, align) matches Some(block) ==> apart(
                addr,
                len,
                block as int,
                self.block_size(self.spec_allocation_order(size, align)->0 as int),
            ),
    {
        if self.spec_allocate(size, align) is Some {
            let min = self.min_block_size();
            let free = self.free_lists();
            let needed = self.spec_allocation_order(size, align)->0 as int;
            lemma_first_free(free, needed);
            let found = first_free(free, needed)->0;
            let block = free[found][0] as int;
            let after = self.free_lists_after_allocate(size, align);
            lemma_geometry(self.heap_size(), self.num_orders());
            assert(has_block(free, found, 0));
            assert(apart(addr, len, block, order_size(min, found)));
            lemma_order_size_monotone(min, needed, found);
            assert forall|k: int, i: int| #[trigger] has_block(after, k, i) implies apart(
                addr,
                len,
                after[k][i] as int,
                order_size(min, k),
            ) by {
                if k == found {
                    assert(has_block(free, k, i + 1));
                } else if needed <= k < found {
                    if i == 0 {
                        lemma_order_size_double(min, k);
                        lemma_order_size_monotone(min, k + 1, found);
                        lemma_order_size_least(min, k);
                        assert(placed(
                            self.heap_base(),
                            self.heap_size(),
                            min,
                            found,
                            block,
                        ));
                    } else {
                        assert(has_block(free, k, i - 1));
                    }
                } else {
                    assert(has_block(free, k, i));
                }
            }
        }
    }

    /// The number of bytes in the free blocks.
    pub open spec fn free_space(&self) -> int {
        free_bytes(self.min_block_size(), self.free_lists(), self.num_orders())
    }

    /// A request fails exactly where its size or alignment cannot be served
    /// at all, or the free list of its order and those of all higher orders
    /// are empty.
    pub proof fn lemma_allocate_fails(&self, size: usize, align: usize)
        requires
            self.wf(),
        ensures
            self.spec_allocate(size, align) is None <==> {
                ||| self.spec_allocation_order(size, align) is None
                ||| forall|j: int|
                    self.spec_allocation_order(size, align)->0 <= j < self.num_orders() ==> (
                    #[trigger] self.free_lists()[j]).len() == 0
            },
    {
        if self.spec_allocation_order(size, align) is Some {
            lemma_first_free(
                self.free_lists(),
                self.spec_allocation_order(size, align)->0 as int,
            );
        }
    }

    /// A request that is served takes the bytes of one block of its order
    /// from the free lists.
    pub proof fn lemma_allocate_consumes(&self, size: usize, align: usize)
        requires
            self.wf(),
            self.spec_allocate(size, align) is Some,
        ensures
            free_bytes(
                self.min_block_size(),
                self.free_lists_after_allocate(size, align),
                self.num_orders(),
            ) == self.free_space() - self.block_size(
                self.spec_allocation_order(size, align)->0 as int,
            ),
    {
        let needed = self.spec_allocation_order(size, align)->0 as int;
        lemma_first_free(self.free_lists(), needed);
        let found = first_free(self.free_lists(), needed)->0;
        lemma_split_free_bytes(
            self.free_lists(),
            self.min_block_size(),
            self.free_lists()[found][0] as int,
            needed,
            found,
            self.num_orders(),
        );
    }

    /// Requests of one size and alignment in a row, with nothing given back
    /// in between, cannot all be served once their blocks together would
    /// take more bytes than are free: one of them fails.
    pub proof fn lemma_exhaustion(&self, size: usize, align: usize, count: nat)
        requires
            self.wf(),
            self.spec_allocation_order(size, align) is Some,
            count * self.block_size(self.spec_allocation_order(size, align)->0 as int)
                > self.free_space(),
        ensures
            lists_after_requests(
                self.free_lists(),
                self.min_block_size(),
                self.spec_allocation_order(size, align)->0 as int,
                count,
            ) is None,
    {
        let needed = self.spec_allocation_order(size, align)->0 as int;
        if lists_after_requests(self.free_lists(), self.min_block_size(), needed, count) is Some {
            lemma_geometry(self.heap_size(), self.num_orders());
            lemma_requests_bounded(self.free_lists(), self.min_block_size(), needed, count);
        }
    }

    /// A block of the order that a request is given lies on the alignment
    /// that the request asks for.
    pub proof fn lemma_block_aligned(&self, size: usize, align: usize, block: int)
        requires
            self.wf(),
            self.spec_allocation_order(size, align) matches Some(k) && placed(
                self.heap_base(),
                self.heap_size(),
                self.min_block_size(),
                k as int,
                block,
            ),
        ensures
            block % (align as int) == 0,
    {
        let s = self.spec_allocation_size(size, align)->0 as int;
        self.lemma_allocation_order(size, align);
        lemma_pow2_divides(align as int, s);
        lemma_multiple_of_multiple(block - self.heap_base(), s, align as int);
        lemma2_to64();
        lemma_pow2_is_pow2(12);
        lemma_pow2_divides(align as int, 4096);
        lemma_multiple_of_multiple(self.heap_base(), 4096, align as int);
        lemma_sum_of_multiples(self.heap_base(), block - self.heap_base(), align as int);
    }

    /// Whether a heap can be made of `heap_size` bytes at `heap_base` with
    /// `slots` free lists.
    pub fn check_parameters(heap_base: usize, heap_size: usize, slots: usize) -> (r: bool)
        ensures
            r == valid_parameters(heap_base as int, heap_size as int, slots as int),
    {
        if heap_base == 0 || slots == 0 {
            return false;
        }
        assert(heap_base & 4095 == 0 <==> heap_base % 4096 == 0) by (bit_vector);
        if heap_base & (MIN_HEAP_ALIGN - 1) != 0 {
            return false;
        }
        if !heap_size.is_power_of_2() {
            return false;
        }
        if heap_size > usize::MAX - heap_base {
            return false;
        }
        let ghost cut = (slots - 1) as nat;
        proof {
            lemma_pow2_pos(cut);
            lemma_pow2_fits(heap_size as int);
        }
        if slots - 1 >= usize::BITS as usize {
            proof {
                lemma2_to64();
                lemma2_to64_rest();
                lemma_pow2_order(usize::BITS as nat, cut);
                lemma_basic_div(heap_size as int, pow2(cut) as int);
            }
            return false;
        }
        let min_block_size: usize = heap_size >> (slots - 1);
        proof {
            lemma_usize_shr_is_div(heap_size, (slots - 1) as usize);
        }
        if min_block_size < HEADER_SIZE {
            return false;
        }
        proof {
            lemma_geometry(heap_size as int, slots as int);
        }
        true
    }

    /// Makes a heap of `region`, with one free list for each slot of
    /// `free_lists`: every list is empty but the last, which holds the whole
    /// region as one free block.  Of the region only the header of that
    /// block is written.
    pub fn new(region: Region, free_lists: Vec<Option<usize>>) -> (heap: Heap)
        requires
            region.wf(),
            valid_parameters(region.base(), region.size(), free_lists@.len() as int),
        ensures
            heap.wf(),
            heap.heap_base() == region.base(),
            heap.heap_size() == region.size(),
            heap.num_orders() == free_lists@.len(),
            heap.free_lists() == Seq::new(
                free_lists@.len(),
                |k: int|
                    if k == free_lists@.len() - 1 {
                        seq![region.base() as usize]
                    } else {
                        Seq::<usize>::empty()
                    },
            ),
            heap.memory() == with_header(region@, 0, None),
    {
        let heap_base: usize = region.base_address();
        let heap_size: usize = region.len();
        let slots: usize = free_lists.len();
        let ghost cut = (slots - 1) as nat;
        proof {
            lemma_geometry(heap_size as int, slots as int);
            lemma_usize_shr_is_div(heap_size, (slots - 1) as usize);
        }
        let min_block_size: usize = heap_size >> (slots - 1);

        let mut free_lists = free_lists;
        let mut i: usize = 0;
        while i < slots
            invariant
                i <= slots,
                free_lists@.len() == slots,
                forall|k: int| 0 <= k < i ==> free_lists@[k] is None,
            decreases slots - i,
        {
            free_lists.set(i, None);
            i = i + 1;
        }

        let mut region = region;
        let ghost before = region@;
        region.write_header(heap_base, FreeBlock::tail());
        free_lists.set(slots - 1, Some(heap_base));

        let ghost chains = Seq::new(
            slots as nat,
            |k: int|
                if k == slots - 1 {
                    seq![heap_base]
                } else {
                    Seq::<usize>::empty()
                },
        );
        let heap = Heap {
            heap_base,
            heap_size,
            free_lists,
            min_block_size,
            min_block_size_log2: log2(min_block_size),
            region,
            chains: Ghost(chains),
        };
        proof {
            lemma_header_written(before, 0, None);
            assert forall|k: int, i: int| #[trigger] has_block(chains, k, i) implies k == slots - 1
                && i == 0 && chains[k][i] == heap_base by {}
        }
        heap
    }

    /// The size of the block that serves a request for `size` bytes aligned
    /// on `align`.  It depends on the request alone, not on what has been
    /// allocated.
    pub fn allocation_size(&self, size: usize, align: usize) -> (r: Option<usize>)
        requires
            self.wf(),
        ensures
            r == self.spec_allocation_size(size, align),
            r matches Some(s) ==> s <= self.heap_size() && is_next_power_of_2(
                self.wanted_size(size, align),
                s as int,
            ),
            r is Some <==> is_pow2(align as int) && align <= MIN_HEAP_ALIGN && self.wanted_size(
                size,
                align,
            ) <= self.heap_size(),
    {
        let mut size = size;
        proof {
            lemma_next_power_of_2(self.wanted_size(size, align));
            lemma_pow2_fits(self.heap_size as int);
        }
        // Only powers of two are alignments.
        if !align.is_power_of_2() {
            return None;
        }
        // No block is aligned beyond the heap's own base.
        if align > MIN_HEAP_ALIGN {
            return None;
        }
        // A block is aligned on its size, so a larger alignment takes a
        // larger block.
        if align > size {
            size = align;
        }
        // No block is smaller than the smallest.
        if self.min_block_size > size {
            size = self.min_block_size;
        }
        // What exceeds the heap exceeds it after rounding too.
        if size > self.heap_size {
            return None;
        }
        size = size.next_power_of_2();

        // No block is larger than the heap.
        if size > self.heap_size {
            return None;
        }
        Some(size)
    }

    /// The order of the block that serves a request: how many times the
    /// smallest block size is doubled to get a block large enough, which is
    /// also the index of that size's free list.
    pub fn allocation_order(&self, size: usize, align: usize) -> (r: Option<usize>)
        requires
            self.wf(),
        ensures
            r == self.spec_allocation_order(size, align),
            r is Some <==> self.spec_allocation_size(size, align) is Some,
            r matches Some(k) ==> k < self.num_orders() && self.block_size(k as int)
                == self.spec_allocation_size(size, align)->0,
    {
        match self.allocation_size(size, align) {
            None => None,
            Some(s) => {
                proof {
                    self.lemma_allocation_order(size, align);
                }
                Some((log2(s) - self.min_block_size_log2) as usize)
            },
        }
    }

    /// The size of the blocks of order `order`.
    pub fn order_size(&self, order: usize) -> (r: usize)
        requires
            self.wf(),
            order < self.num_orders(),
        ensures
            r == self.block_size(order as int),
            HEADER_SIZE <= r <= self.heap_size(),
    {
        proof {
            lemma_geometry(self.heap_size as int, self.num_orders());
            let low = log(2, self.min_block_size as int);
            lemma_pow2_order((low + order) as nat, (low + self.num_orders() - 1) as nat);
            lemma_usize_shl_is_mul(1usize, (low + order) as usize);
            lemma_order_size_least(self.min_block_size as int, order as int);
        }
        1usize << (self.min_block_size_log2 as usize + order)
    }

    /// Splits the block of order `order` at `block` down to a block of order
    /// `order_needed`, putting the upper half cut off at each step on the
    /// free list of its order.  The block keeps its address.
    fn split_free_block(&mut self, block: usize, order: usize, order_needed: usize)
        requires
            old(self).holds_apart(block as int, order as int),
            order_needed <= order,
        ensures
            final(self).holds_apart(block as int, order_needed as int),
            final(self).same_geometry(old(self)),
            final(self).free_lists() == Seq::new(
                old(self).free_lists().len(),
                |j: int|
                    if order_needed <= j < order {
                        seq![(block + old(self).block_size(j)) as usize] + old(self).free_lists()[j]
                    } else {
                        old(self).free_lists()[j]
                    },
            ),
            final(self).memory() == memory_after_split(
                old(self).memory(),
                old(self).free_lists(),
                old(self).heap_base(),
                old(self).min_block_size(),
                block as int,
                order_needed as int,
                order as int,
            ),
    {
        let ghost whole = order;
        let mut order = order;
        let mut size_to_split: usize = self.order_size(order);
        while order > order_needed
            invariant
                self.holds_apart(block as int, order as int),
                order_needed <= order <= whole,
                size_to_split == self.block_size(order as int),
                self.same_geometry(old(self)),
                self.free_lists() == Seq::new(
                    old(self).free_lists().len(),
                    |j: int|
                        if order <= j < whole {
                            seq![(block + old(self).block_size(j)) as usize] + old(
                                self,
                            ).free_lists()[j]
                        } else {
                            old(self).free_lists()[j]
                        },
                ),
                memory_after_split(
                    self.memory(),
                    old(self).free_lists(),
                    old(self).heap_base(),
                    old(self).min_block_size(),
                    block as int,
                    order_needed as int,
                    order as int,
                ) == memory_after_split(
                    old(self).memory(),
                    old(self).free_lists(),
                    old(self).heap_base(),
                    old(self).min_block_size(),
                    block as int,
                    order_needed as int,
                    whole as int,
                ),
            decreases order,
        {
            let ghost before = *self;
            let ghost base = self.heap_base();
            let ghost min = self.min_block_size();
            proof {
                lemma_order_size_double(min, order - 1);
                lemma_halves_placed(base, self.heap_size(), min, order - 1, block as int);
                lemma_order_size_least(min, order - 1);
            }
            assert(size_to_split >> 1 == size_to_split / 2) by (bit_vector);
            // The block is now half the size.
            size_to_split = size_to_split >> 1;
            order = order - 1;

            // The upper half goes to the free list.
            let split: usize = block + size_to_split;
            self.region.write_header(split, FreeBlock::head(self.free_lists[order]));
            self.free_lists.set(order, Some(split));
            proof {
                let free = before.free_lists();
                assert(unused(min, free, split as int, size_to_split as int)) by {
                    assert forall|k: int, i: int| #[trigger] has_block(free, k, i) implies apart(
                        split as int,
                        size_to_split as int,
                        free[k][i] as int,
                        order_size(min, k),
                    ) by {
                        assert(apart(
                            block as int,
                            2 * size_to_split,
                            free[k][i] as int,
                            order_size(min, k),
                        ));
                    }
                }
                lemma_push(
                    base,
                    self.heap_size(),
                    min,
                    free,
                    before.memory(),
                    order as int,
                    split,
                );
                self.chains = Ghost(free.update(order as int, seq![split] + free[order as int]));
                let more = self.free_lists();
                assert forall|k: int, i: int| #[trigger] has_block(more, k, i) implies apart(
                    block as int,
                    size_to_split as int,
                    more[k][i] as int,
                    order_size(min, k),
                ) by {
                    if k == order && i == 0 {
                    } else {
                        let j = if k == order { i - 1 } else { i };
                        assert(has_block(free, k, j));
                        assert(apart(
                            block as int,
                            2 * size_to_split,
                            free[k][j] as int,
                            order_size(min, k),
                        ));
                    }
                }
                assert(self.free_lists() =~= Seq::new(
                    old(self).free_lists().len(),
                    |j: int|
                        if order <= j < whole {
                            seq![(block + old(self).block_size(j)) as usize] + old(
                                self,
                            ).free_lists()[j]
                        } else {
                            old(self).free_lists()[j]
                        },
                ));
            }
        }
    }

    /// Allocates a block that holds `size` bytes and is aligned on `align`,
    /// and returns its address: the head of the first free list, from the
    /// request's order up, that holds a block, cut down to the request's
    /// order.  Returns nothing if `align` is not a power of two or lies
    /// beyond `MIN_HEAP_ALIGN`, if the request exceeds the heap, or if no
    /// free block is large enough, however many smaller ones are free.
    pub fn allocate(&mut self, size: usize, align: usize) -> (r: Option<usize>)
        requires
            old(self).wf(),
        ensures
            final(self).wf(),
            final(self).same_geometry(old(self)),
            r == old(self).spec_allocate(size, align),
            final(self).free_lists() == old(self).free_lists_after_allocate(size, align),
            final(self).memory() == old(self).memory_after_allocate(size, align),
            r matches Some(block) ==> final(self).holds_apart(
                block as int,
                old(self).spec_allocation_order(size, align)->0 as int,
            ),
            r matches Some(block) ==> block % align == 0,
            r is None ==> *final(self) == *old(self),
            forall|p: int|
                0 <= p < old(self).heap_size() && unused(
                    old(self).min_block_size(),
                    old(self).free_lists(),
                    old(self).heap_base() + p,
                    1,
                ) ==> #[trigger] final(self).memory()[p] == old(self).memory()[p],
    {
        // The order of the block that is needed.
        match self.allocation_order(size, align) {
            None => None,
            Some(order_needed) => {
                let ghost free = self.free_lists();
                // From the smallest block size that will do, up to the heap
                // itself.
                let mut order: usize = order_needed;
                while order < self.free_lists.len()
                    invariant
                        *self == *old(self),
                        self.wf(),
                        free == self.free_lists(),
                        self.spec_allocation_order(size, align) == Some(order_needed),
                        order_needed <= order <= self.num_orders(),
                        first_free(free, order_needed as int) == first_free(free, order as int),
                    decreases self.num_orders() - order,
                {
                    match self.free_lists[order] {
                        Some(allocated) => {
                            assert(has_block(free, order as int, 0));
                            proof {
                                lemma_pop(
                                    self.heap_base(),
                                    self.heap_size(),
                                    self.min_block_size(),
                                    free,
                                    self.memory(),
                                    order as int,
                                );
                                lemma_order_size_least(self.min_block_size(), order as int);
                            }
                            // The block leaves its free list.
                            let header = self.region.read_header(allocated);
                            self.free_lists.set(order, header.next);
                            proof {
                                self.chains = Ghost(
                                    free.update(order as int, free[order as int].drop_first()),
                                );
                            }
                            let ghost rest = self.free_lists();
                            // A block that is too large is cut down.  Its
                            // address stays: the lower half is kept.
                            if order > order_needed {
                                self.split_free_block(allocated, order, order_needed);
                            }
                            proof {
                                lemma_memory_after_split_agrees(
                                    old(self).memory(),
                                    rest,
                                    free,
                                    self.heap_base(),
                                    self.min_block_size(),
                                    allocated as int,
                                    order_needed as int,
                                    order as int,
                                );
                                assert(self.free_lists() =~= lists_after_split(
                                    free,
                                    self.min_block_size(),
                                    allocated as int,
                                    order_needed as int,
                                    order as int,
                                ));
                                lemma_split_frame(
                                    old(self).memory(),
                                    free,
                                    self.heap_base(),
                                    self.min_block_size(),
                                    allocated as int,
                                    order_needed as int,
                                    order as int,
                                );
                                assert forall|p: int|
                                    0 <= p < old(self).heap_size() && unused(
                                        old(self).min_block_size(),
                                        free,
                                        old(self).heap_base() + p,
                                        1,
                                    ) implies #[trigger] self.memory()[p] == old(self).memory()[p] by {
                                    assert(has_block(free, order as int, 0));
                                }
                                old(self).lemma_block_aligned(size, align, allocated as int);
                            }
                            return Some(allocated);
                        },
                        None => {},
                    }
                    order = order + 1;
                }
                // No block is large enough.
                None
            },
        }
    }

    /// The addresses of the free blocks of order `order`, in the order in
    /// which they would be handed out.
    pub fn free_blocks(&self, order: usize) -> (r: Vec<usize>)
        requires
            self.wf(),
            order < self.num_orders(),
        ensures
            r@ == self.free_lists()[order as int],
    {
        let ghost chain = self.free_lists()[order as int];
        let mut blocks: Vec<usize> = Vec::new();
        let mut cursor: Option<usize> = self.free_lists[order];
        while cursor.is_some()
            invariant
                self.wf(),
                order < self.num_orders(),
                chain == self.free_lists()[order as int],
                blocks@.len() <= chain.len(),
                blocks@ == chain.take(blocks@.len() as int),
                cursor == if blocks@.len() < chain.len() {
                    Some(chain[blocks@.len() as int])
                } else {
                    None
                },
            decreases chain.len() - blocks@.len(),
        {
            let block: usize = cursor.unwrap();
            proof {
                assert(has_block(self.free_lists(), order as int, blocks@.len() as int));
                lemma_order_size_least(self.min_block_size(), order as int);
            }
            cursor = self.region.read_header(block).next;
            blocks.push(block);
            assert(blocks@ =~= chain.take(blocks@.len() as int));
        }
        assert(blocks@ =~= chain);
        blocks
    }

    /// Whether the `len` bytes at `addr` lie in the heap and in no free
    /// block, as the bytes of a block that was handed out do.
    pub fn is_unused(&self, addr: usize, len: usize) -> (r: bool)
        requires
            self.wf(),
        ensures
            r == (self.in_heap(addr as int, len as int) && unused(
                self.min_block_size(),
                self.free_lists(),
                addr as int,
                len as int,
            )),
    {
        if addr < self.heap_base || len > self.heap_size || addr - self.heap_base > self.heap_size
            - len {
            return false;
        }
        let ghost free = self.free_lists();
        let ghost min = self.min_block_size();
        let mut order: usize = 0;
        while order < self.free_lists.len()
            invariant
                self.wf(),
                free == self.free_lists(),
                min == self.min_block_size(),
                self.in_heap(addr as int, len as int),
                order <= self.num_orders(),
                forall|k: int, i: int|
                    #[trigger] has_block(free, k, i) && k < order ==> apart(
                        addr as int,
                        len as int,
                        free[k][i] as int,
                        order_size(min, k),
                    ),
            decreases self.num_orders() - order,
        {
            let size: usize = self.order_size(order);
            let ghost chain = free[order as int];
            let ghost mut seen: int = 0;
            let mut cursor: Option<usize> = self.free_lists[order];
            while cursor.is_some()
                invariant
                    self.wf(),
                    free == self.free_lists(),
                    min == self.min_block_size(),
                    self.in_heap(addr as int, len as int),
                    order < self.num_orders(),
                    chain == free[order as int],
                    size == order_size(min, order as int),
                    0 <= seen <= chain.len(),
                    cursor == if seen < chain.len() {
                        Some(chain[seen])
                    } else {
                        None
                    },
                    forall|i: int|
                        0 <= i < seen ==> apart(
                            addr as int,
                            len as int,
                            #[trigger] chain[i] as int,
                            order_size(min, order as int),
                        ),
                decreases chain.len() - seen,
            {
                let block: usize = cursor.unwrap();
                assert(has_block(free, order as int, seen));
                if !(addr + len <= block || block + size <= addr) {
                    return false;
                }
                proof {
                    lemma_order_size_least(min, order as int);
                }
                cursor = self.region.read_header(block).next;
                proof {
                    seen = seen + 1;
                }
            }
            order = order + 1;
        }
        true
    }

    /// The byte at `addr`.
    pub fn read_byte(&self, addr: usize) -> (r: u8)
        requires
            self.wf(),
            self.in_heap(addr as int, 1),
        ensures
            r == self.memory()[addr - self.heap_base()],
    {
        self.region.read(addr)
    }

    /// Puts `value` at `addr`, which lies in no free block.
    pub fn write_byte(&mut self, addr: usize, value: u8)
        requires
            old(self).wf(),
            old(self).in_heap(addr as int, 1),
            unused(old(self).min_block_size(), old(self).free_lists(), addr as int, 1),
        ensures
            final(self).wf(),
            final(self).same_geometry(old(self)),
            final(self).free_lists() == old(self).free_lists(),
            final(self).memory() == old(self).memory().update(
                addr - old(self).heap_base(),
                value,
            ),
    {
        self.region.write(addr, value);
        proof {
            let free = self.free_lists();
            let base = self.heap_base();
            assert forall|k: int, i: int| #[trigger] has_block(free, k, i) implies self.memory().subrange(
                free[k][i] - base,
                free[k][i] - base + HEADER_SIZE,
            ) == old(self).memory().subrange(free[k][i] - base, free[k][i] - base + HEADER_SIZE) by {
                lemma_order_size_least(self.min_block_size(), k);
                assert(self.memory().subrange(free[k][i] - base, free[k][i] - base + HEADER_SIZE)
                    =~= old(self).memory().subrange(
                    free[k][i] - base,
                    free[k][i] - base + HEADER_SIZE,
                ));
            }
            lemma_lists_kept(
                base,
                self.heap_size(),
                self.min_block_size(),
                free,
                old(self).memory(),
                self.memory(),
            );
        }
    }

    /// Gives back a block that `allocate` returned.  Nothing is done with
    /// it: the heap stays as it is, and the block is not handed out again.
    pub fn deallocate(&mut self, ptr: usize, old_size: usize, align: usize)
        ensures
            *final(self) == *old(self),
    {
    }
}

} // verus!
