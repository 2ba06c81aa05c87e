//! The free lists of a buddy heap as mathematics: one sequence of block
//! addresses per order, what it means for them to be laid out well in
//! memory, and how taking a block and splitting it changes them.

use vstd::prelude::*;
use vstd::arithmetic::div_mod::{
    lemma_fundamental_div_mod, lemma_mod_add_multiples_vanish, lemma_mod_multiples_basic,
};
use vstd::arithmetic::power2::{lemma_pow2_pos, lemma_pow2_unfold, pow2};
use vstd::bytes::lemma_auto_spec_u64_to_from_le_bytes;
use crate::region::{header_in, lemma_header_kept, lemma_header_written, with_header, HEADER_SIZE};

verus! {

/// The size in bytes of a block of order `order`.
pub open spec fn order_size(min_block_size: int, order: int) -> int {
    min_block_size * pow2(order as nat)
}

/// `free` has a list for order `k`, and that list has an entry `i`.
pub open spec fn has_block(free: Seq<Seq<usize>>, k: int, i: int) -> bool {
    0 <= k < free.len() && 0 <= i < free[k].len()
}

/// A block of order `k` at `addr` lies in the heap, at a multiple of its
/// size from the heap's base.
pub open spec fn placed(base: int, heap_size: int, min_block_size: int, k: int, addr: int) -> bool {
    &&& base <= addr
    &&& addr + order_size(min_block_size, k) <= base + heap_size
    &&& (addr - base) % order_size(min_block_size, k) == 0
}

/// The `la` bytes at `a` and the `lb` bytes at `b` share no byte.
pub open spec fn apart(a: int, la: int, b: int, lb: int) -> bool {
    a + la <= b || b + lb <= a
}

/// The first block of a list, if it has one.
pub open spec fn head_of(list: Seq<usize>) -> Option<usize> {
    if list.len() > 0 {
        Some(list[0])
    } else {
        None
    }
}

/// The block that follows entry `i` of a list, if one does.
pub open spec fn next_in(list: Seq<usize>, i: int) -> Option<usize> {
    if i + 1 < list.len() {
        Some(list[i + 1])
    } else {
        None
    }
}

/// No free block shares a byte with the `len` bytes at `addr`.
pub open spec fn unused(min_block_size: int, free: Seq<Seq<usize>>, addr: int, len: int) -> bool {
    forall|k: int, i: int| #[trigger]
        has_block(free, k, i) ==> apart(addr, len, free[k][i] as int, order_size(min_block_size, k))
}

/// The free lists are laid out well in `mem`: every free block is placed,
/// begins with a header that links to the next block of its list, and
/// shares no byte with another free block.
pub open spec fn lists_wf(
    base: int,
    heap_size: int,
    min_block_size: int,
    free: Seq<Seq<usize>>,
    mem: Seq<u8>,
) -> bool {
    &&& forall|k: int, i: int| #[trigger]
        has_block(free, k, i) ==> placed(base, heap_size, min_block_size, k, free[k][i] as int)
    &&& forall|k: int, i: int| #[trigger]
        has_block(free, k, i) ==> header_in(mem, free[k][i] - base) == next_in(free[k], i)
    &&& forall|k1: int, i1: int, k2: int, i2: int|
        #[trigger] has_block(free, k1, i1) && #[trigger] has_block(free, k2, i2) && (k1 != k2 || i1
            != i2) ==> apart(
            free[k1][i1] as int,
            order_size(min_block_size, k1),
            free[k2][i2] as int,
            order_size(min_block_size, k2),
        )
}

/// The lowest order from `from` up whose list holds a block.
pub open spec fn first_free(free: Seq<Seq<usize>>, from: int) -> Option<int>
    decreases free.len() - from,
{
    if from < 0 || from >= free.len() {
        None
    } else if free[from].len() > 0 {
        Some(from)
    } else {
        first_free(free, from + 1)
    }
}

/// The free lists once `block`, the head of the list of order `found`, has
/// been taken and split down to order `needed`: each order in between gains
/// the upper half that was cut off there, at the front of its list.
pub open spec fn lists_after_split(
    free: Seq<Seq<usize>>,
    min_block_size: int,
    block: int,
    needed: int,
    found: int,
) -> Seq<Seq<usize>> {
    Seq::new(
        free.len(),
        |j: int|
            if j == found {
                free[j].drop_first()
            } else if needed <= j < found {
                seq![(block + order_size(min_block_size, j)) as usize] + free[j]
            } else {
                free[j]
            },
    )
}

/// The memory once `block` of order `found` has been split down to order
/// `needed`: the upper half cut off at each order in between begins with a
/// header that links to the former head of that order's list.
pub open spec fn memory_after_split(
    mem: Seq<u8>,
    free: Seq<Seq<usize>>,
    base: int,
    min_block_size: int,
    block: int,
    needed: int,
    found: int,
) -> Seq<u8>
    decreases found - needed,
{
    if found <= needed {
        mem
    } else {
        memory_after_split(
            with_header(
                mem,
                block + order_size(min_block_size, found - 1) - base,
                head_of(free[found - 1]),
            ),
            free,
            base,
            min_block_size,
            block,
            needed,
            found - 1,
        )
    }
}

/// The bytes in the free blocks of the orders below `upto`.
pub open spec fn free_bytes(min_block_size: int, free: Seq<Seq<usize>>, upto: int) -> int
    decreases upto,
{
    if upto <= 0 {
        0
    } else {
        free_bytes(min_block_size, free, upto - 1) + free[upto - 1].len() * order_size(
            min_block_size,
            upto - 1,
        )
    }
}

/// The free lists after `count` requests of order `needed` in a row, each
/// served as `lists_after_split` says; nothing if one of them finds no
/// block.
pub open spec fn lists_after_requests(
    free: Seq<Seq<usize>>,
    min_block_size: int,
    needed: int,
    count: nat,
) -> Option<Seq<Seq<usize>>>
    decreases count,
{
    if count == 0 {
        Some(free)
    } else {
        match first_free(free, needed) {
            None => None,
            Some(found) => lists_after_requests(
                lists_after_split(free, min_block_size, free[found][0] as int, needed, found),
                min_block_size,
                needed,
                (count - 1) as nat,
            ),
        }
    }
}

/// `first_free` finds a list that holds a block, passes only empty lists on
/// its way, and finds nothing only where every list from `from` up is empty.
pub proof fn lemma_first_free(free: Seq<Seq<usize>>, from: int)
    requires
        0 <= from,
    ensures
        match first_free(free, from) {
            Some(k) => {
                &&& from <= k < free.len()
                &&& free[k].len() > 0
                &&& forall|j: int| from <= j < k ==> (#[trigger] free[j]).len() == 0
            },
            None => forall|j: int| from <= j < free.len() ==> (#[trigger] free[j]).len() == 0,
        },
    decreases free.len() - from,
{
    if from < free.len() && free[from].len() == 0 {
        lemma_first_free(free, from + 1);
    }
}

/// Bytes within unused bytes are unused.
pub proof fn lemma_unused_within(
    min_block_size: int,
    free: Seq<Seq<usize>>,
    addr: int,
    len: int,
    inner: int,
    inner_len: int,
)
    requires
        unused(min_block_size, free, addr, len),
        addr <= inner,
        0 < inner_len,
        inner + inner_len <= addr + len,
    ensures
        unused(min_block_size, free, inner, inner_len),
{
    assert forall|k: int, i: int| #[trigger] has_block(free, k, i) implies apart(
        inner,
        inner_len,
        free[k][i] as int,
        order_size(min_block_size, k),
    ) by {
        assert(apart(addr, len, free[k][i] as int, order_size(min_block_size, k)));
    }
}

/// A block of the next order is twice as large.
pub proof fn lemma_order_size_double(min_block_size: int, order: int)
    requires
        order >= 0,
    ensures
        order_size(min_block_size, order + 1) == 2 * order_size(min_block_size, order),
{
    lemma_pow2_unfold((order + 1) as nat);
    let p = pow2(order as nat) as int;
    assert(min_block_size * (2 * p) == 2 * (min_block_size * p)) by (nonlinear_arith);
}

/// No block is smaller than the smallest.
pub proof fn lemma_order_size_least(min_block_size: int, order: int)
    requires
        min_block_size >= 0,
        order >= 0,
    ensures
        order_size(min_block_size, order) >= min_block_size,
{
    lemma_pow2_pos(order as nat);
    let p = pow2(order as nat) as int;
    assert(min_block_size * p >= min_block_size) by (nonlinear_arith)
        requires
            p >= 1,
            min_block_size >= 0,
    ;
}

/// Blocks of a higher order are no smaller.
pub proof fn lemma_order_size_monotone(min_block_size: int, low: int, high: int)
    requires
        min_block_size >= 0,
        0 <= low <= high,
    ensures
        order_size(min_block_size, low) <= order_size(min_block_size, high),
    decreases high - low,
{
    if low < high {
        lemma_order_size_monotone(min_block_size, low, high - 1);
        lemma_order_size_double(min_block_size, high - 1);
        lemma_order_size_least(min_block_size, high - 1);
    }
}

/// Both halves of a placed block are placed blocks of the order below.
pub proof fn lemma_halves_placed(base: int, heap_size: int, min_block_size: int, k: int, addr: int)
    requires
        k >= 0,
        min_block_size > 0,
        placed(base, heap_size, min_block_size, k + 1, addr),
    ensures
        placed(base, heap_size, min_block_size, k, addr),
        placed(base, heap_size, min_block_size, k, addr + order_size(min_block_size, k)),
{
    lemma_order_size_double(min_block_size, k);
    lemma_order_size_least(min_block_size, k);
    let s = order_size(min_block_size, k);
    let x = addr - base;
    let q = x / (2 * s);
    lemma_fundamental_div_mod(x, 2 * s);
    assert(x == (2 * q) * s) by (nonlinear_arith)
        requires
            x == (2 * s) * q,
    ;
    lemma_mod_multiples_basic(2 * q, s);
    lemma_mod_add_multiples_vanish(x, s);
}

/// What a split writes depends on the free lists only through the lists of
/// the orders that it passes.
pub proof fn lemma_memory_after_split_agrees(
    mem: Seq<u8>,
    free: Seq<Seq<usize>>,
    other: Seq<Seq<usize>>,
    base: int,
    min_block_size: int,
    block: int,
    needed: int,
    found: int,
)
    requires
        forall|j: int| needed <= j < found ==> free[j] == other[j],
    ensures
        memory_after_split(mem, free, base, min_block_size, block, needed, found)
            == memory_after_split(mem, other, base, min_block_size, block, needed, found),
    decreases found - needed,
{
    if found > needed {
        lemma_memory_after_split_agrees(
            with_header(
                mem,
                block + order_size(min_block_size, found - 1) - base,
                head_of(free[found - 1]),
            ),
            free,
            other,
            base,
            min_block_size,
            block,
            needed,
            found - 1,
        );
    }
}

/// A split writes only into the block that is split, above the part of it
/// that is kept.
pub proof fn lemma_split_frame(
    mem: Seq<u8>,
    free: Seq<Seq<usize>>,
    base: int,
    min_block_size: int,
    block: int,
    needed: int,
    found: int,
)
    requires
        0 <= needed <= found,
        min_block_size >= HEADER_SIZE,
        base <= block,
        block - base + order_size(min_block_size, found) <= mem.len(),
    ensures
        memory_after_split(mem, free, base, min_block_size, block, needed, found).len()
            == mem.len(),
        forall|p: int|
            0 <= p < mem.len() && !(block - base + order_size(min_block_size, needed) <= p < block
                - base + order_size(min_block_size, found)) ==> memory_after_split(
                mem,
                free,
                base,
                min_block_size,
                block,
                needed,
                found,
            )[p] == mem[p],
    decreases found - needed,
{
    if found > needed {
        let first = with_header(
            mem,
            block + order_size(min_block_size, found - 1) - base,
            head_of(free[found - 1]),
        );
        lemma_order_size_double(min_block_size, found - 1);
        lemma_order_size_least(min_block_size, found - 1);
        lemma_order_size_monotone(min_block_size, needed, found - 1);
        lemma_split_frame(first, free, base, min_block_size, block, needed, found - 1);
        lemma_auto_spec_u64_to_from_le_bytes();
        let last = memory_after_split(mem, free, base, min_block_size, block, needed, found);
        assert forall|p: int|
            0 <= p < mem.len() && !(block - base + order_size(min_block_size, needed) <= p < block
                - base + order_size(min_block_size, found)) implies last[p] == mem[p] by {
            assert(last[p] == first[p]);
        }
    }
}

/// Memory that agrees on the header of every free block keeps the lists
/// laid out well.
pub proof fn lemma_lists_kept(
    base: int,
    heap_size: int,
    min_block_size: int,
    free: Seq<Seq<usize>>,
    mem: Seq<u8>,
    other: Seq<u8>,
)
    requires
        lists_wf(base, heap_size, min_block_size, free, mem),
        forall|k: int, i: int| #[trigger]
            has_block(free, k, i) ==> other.subrange(
                free[k][i] - base,
                free[k][i] - base + HEADER_SIZE,
            ) == mem.subrange(free[k][i] - base, free[k][i] - base + HEADER_SIZE),
    ensures
        lists_wf(base, heap_size, min_block_size, free, other),
{
}

/// The free lists never hold a negative number of bytes.
pub proof fn lemma_free_bytes_nonnegative(min_block_size: int, free: Seq<Seq<usize>>, upto: int)
    requires
        min_block_size >= 0,
    ensures
        free_bytes(min_block_size, free, upto) >= 0,
    decreases upto,
{
    if upto > 0 {
        lemma_free_bytes_nonnegative(min_block_size, free, upto - 1);
        lemma_order_size_least(min_block_size, upto - 1);
        let n = free[upto - 1].len() as int;
        let s = order_size(min_block_size, upto - 1);
        assert(n * s >= 0) by (nonlinear_arith)
            requires
                n >= 0,
                s >= 0,
        ;
    }
}

/// How a split changes the bytes in the free lists below `upto`: each order
/// that the split has passed holds one block more, and the order that
/// served holds one block less.
pub proof fn lemma_split_free_bytes(
    free: Seq<Seq<usize>>,
    min_block_size: int,
    block: int,
    needed: int,
    found: int,
    upto: int,
)
    requires
        0 <= needed <= found < free.len(),
        free[found].len() > 0,
        0 <= upto <= free.len(),
    ensures
        free_bytes(
            min_block_size,
            lists_after_split(free, min_block_size, block, needed, found),
            upto,
        ) == free_bytes(min_block_size, free, upto) + (if upto <= needed {
            0
        } else if upto <= found {
            order_size(min_block_size, upto) - order_size(min_block_size, needed)
        } else {
            -order_size(min_block_size, needed)
        }),
    decreases upto,
{
    if upto > 0 {
        let j = upto - 1;
        let after = lists_after_split(free, min_block_size, block, needed, found);
        lemma_split_free_bytes(free, min_block_size, block, needed, found, j);
        lemma_order_size_double(min_block_size, j);
        let n = free[j].len() as int;
        let s = order_size(min_block_size, j);
        if needed <= j < found {
            assert(after[j].len() == n + 1);
            assert((n + 1) * s == n * s + s) by (nonlinear_arith);
        } else if j == found {
            assert(after[j].len() == n - 1);
            assert((n - 1) * s == n * s - s) by (nonlinear_arith);
        } else {
            assert(after[j] == free[j]);
        }
    }
}

/// As long as requests of one order in a row are all served, the blocks
/// handed out fit into the bytes that were free at the start.
pub proof fn lemma_requests_bounded(
    free: Seq<Seq<usize>>,
    min_block_size: int,
    needed: int,
    count: nat,
)
    requires
        min_block_size >= 0,
        0 <= needed,
        lists_after_requests(free, min_block_size, needed, count) is Some,
    ensures
        count * order_size(min_block_size, needed) <= free_bytes(
            min_block_size,
            free,
            free.len() as int,
        ),
    decreases count,
{
    let s = order_size(min_block_size, needed);
    if count == 0 {
        lemma_free_bytes_nonnegative(min_block_size, free, free.len() as int);
        assert(0 * s == 0);
    } else {
        lemma_first_free(free, needed);
        let found = first_free(free, needed)->0;
        let after = lists_after_split(free, min_block_size, free[found][0] as int, needed, found);
        lemma_requests_bounded(after, min_block_size, needed, (count - 1) as nat);
        lemma_split_free_bytes(
            free,
            min_block_size,
            free[found][0] as int,
            needed,
            found,
            free.len() as int,
        );
        assert(count * s == (count - 1) * s + s) by (nonlinear_arith);
    }
}

/// Taking the head of a list leaves the lists laid out well, and the block
/// taken shares no byte with any block still free.
pub proof fn lemma_pop(
    base: int,
    heap_size: int,
    min_block_size: int,
    free: Seq<Seq<usize>>,
    mem: Seq<u8>,
    k: int,
)
    requires
        lists_wf(base, heap_size, min_block_size, free, mem),
        has_block(free, k, 0),
    ensures
        lists_wf(base, heap_size, min_block_size, free.update(k, free[k].drop_first()), mem),
        unused(
            min_block_size,
            free.update(k, free[k].drop_first()),
            free[k][0] as int,
            order_size(min_block_size, k),
        ),
        placed(base, heap_size, min_block_size, k, free[k][0] as int),
        header_in(mem, free[k][0] - base) == head_of(free[k].drop_first()),
{
    let rest = free.update(k, free[k].drop_first());
    assert forall|k2: int, i2: int| #[trigger] has_block(rest, k2, i2) implies {
        let j2 = if k2 == k { i2 + 1 } else { i2 };
        &&& has_block(free, k2, j2)
        &&& rest[k2][i2] == free[k2][j2]
        &&& next_in(rest[k2], i2) == next_in(free[k2], j2)
    } by {}
    assert forall|k2: int, i2: int| #[trigger] has_block(rest, k2, i2) implies placed(
        base,
        heap_size,
        min_block_size,
        k2,
        rest[k2][i2] as int,
    ) by {
        let j2 = if k2 == k { i2 + 1 } else { i2 };
        assert(has_block(free, k2, j2));
    }
    assert forall|k2: int, i2: int| #[trigger] has_block(rest, k2, i2) implies header_in(
        mem,
        rest[k2][i2] - base,
    ) == next_in(rest[k2], i2) by {
        let j2 = if k2 == k { i2 + 1 } else { i2 };
        assert(has_block(free, k2, j2));
    }
    assert forall|k1: int, i1: int, k2: int, i2: int|
        #[trigger] has_block(rest, k1, i1) && #[trigger] has_block(rest, k2, i2) && (k1 != k2 || i1
            != i2) implies apart(
        rest[k1][i1] as int,
        order_size(min_block_size, k1),
        rest[k2][i2] as int,
        order_size(min_block_size, k2),
    ) by {
        let j1 = if k1 == k { i1 + 1 } else { i1 };
        let j2 = if k2 == k { i2 + 1 } else { i2 };
        assert(has_block(free, k1, j1));
        assert(has_block(free, k2, j2));
    }
    assert forall|k2: int, i2: int| #[trigger] has_block(rest, k2, i2) implies apart(
        free[k][0] as int,
        order_size(min_block_size, k),
        rest[k2][i2] as int,
        order_size(min_block_size, k2),
    ) by {
        let j2 = if k2 == k { i2 + 1 } else { i2 };
        assert(has_block(free, k2, j2));
        assert(has_block(free, k, 0));
    }
}

/// Putting a placed block that shares no byte with a free one at the front
/// of its order's list, with a header that links to the former head, leaves
/// the lists laid out well.
pub proof fn lemma_push(
    base: int,
    heap_size: int,
    min_block_size: int,
    free: Seq<Seq<usize>>,
    mem: Seq<u8>,
    k: int,
    block: usize,
)
    requires
        lists_wf(base, heap_size, min_block_size, free, mem),
        base > 0,
        min_block_size >= HEADER_SIZE,
        mem.len() == heap_size,
        0 <= k < free.len(),
        placed(base, heap_size, min_block_size, k, block as int),
        unused(min_block_size, free, block as int, order_size(min_block_size, k)),
    ensures
        lists_wf(
            base,
            heap_size,
            min_block_size,
            free.update(k, seq![block] + free[k]),
            with_header(mem, block - base, head_of(free[k])),
        ),
{
    let more = free.update(k, seq![block] + free[k]);
    let after = with_header(mem, block - base, head_of(free[k]));
    lemma_order_size_least(min_block_size, k);
    if free[k].len() > 0 {
        assert(has_block(free, k, 0));
    }
    lemma_header_written(mem, block - base, head_of(free[k]));
    assert forall|k2: int, i2: int| #[trigger] has_block(more, k2, i2) implies placed(
        base,
        heap_size,
        min_block_size,
        k2,
        more[k2][i2] as int,
    ) by {
        if k2 == k && i2 > 0 {
            assert(has_block(free, k2, i2 - 1));
        } else if k2 != k {
            assert(has_block(free, k2, i2));
        }
    }
    assert forall|k2: int, i2: int| #[trigger] has_block(more, k2, i2) implies header_in(
        after,
        more[k2][i2] - base,
    ) == next_in(more[k2], i2) by {
        if k2 == k && i2 == 0 {
        } else {
            let j2 = if k2 == k { i2 - 1 } else { i2 };
            assert(has_block(free, k2, j2));
            lemma_order_size_least(min_block_size, k2);
            lemma_header_kept(mem, block - base, head_of(free[k]), free[k2][j2] - base);
        }
    }
    assert forall|k1: int, i1: int, k2: int, i2: int|
        #[trigger] has_block(more, k1, i1) && #[trigger] has_block(more, k2, i2) && (k1 != k2 || i1
            != i2) implies apart(
        more[k1][i1] as int,
        order_size(min_block_size, k1),
        more[k2][i2] as int,
        order_size(min_block_size, k2),
    ) by {
        let j1 = if k1 == k { i1 - 1 } else { i1 };
        let j2 = if k2 == k { i2 - 1 } else { i2 };
        if !(k1 == k && i1 == 0) {
            assert(has_block(free, k1, j1));
        }
        if !(k2 == k && i2 == 0) {
            assert(has_block(free, k2, j2));
        }
    }
}

} // verus!
