//! The memory that a heap manages: a run of bytes that stands at an
//! address.  Free-block headers are read and written through it, eight
//! bytes each, in little-endian order.

use vstd::prelude::*;
use vstd::bytes::{
    lemma_auto_spec_u64_to_from_le_bytes, spec_u64_from_le_bytes, spec_u64_to_le_bytes,
    spec_u64_to_le_bytes_to_open, u64_from_le_bytes,
};
use vstd::slice::slice_subrange;
use crate::heap::FreeBlock;

verus! {

/// The number of bytes that a free-block header takes in memory.
pub const HEADER_SIZE: usize = 8;

/// The word that stands in memory for a link: zero for the end of a list.
pub open spec fn encode_next(next: Option<usize>) -> u64 {
    match next {
        None => 0,
        Some(a) => a as u64,
    }
}

/// The link that a word in memory stands for.
pub open spec fn decode_next(word: u64) -> Option<usize> {
    if word == 0 {
        None
    } else {
        Some(word as usize)
    }
}

/// The link of the header that starts `off` bytes into `mem`.
pub open spec fn header_in(mem: Seq<u8>, off: int) -> Option<usize> {
    decode_next(spec_u64_from_le_bytes(mem.subrange(off, off + HEADER_SIZE)))
}

/// `mem` with `bytes` written over it from `off` on.
pub open spec fn with_bytes(mem: Seq<u8>, off: int, bytes: Seq<u8>) -> Seq<u8> {
    Seq::new(
        mem.len(),
        |i: int|
            if off <= i < off + bytes.len() {
                bytes[i - off]
            } else {
                mem[i]
            },
    )
}

/// `mem` with a header that links to `next` written `off` bytes into it.
pub open spec fn with_header(mem: Seq<u8>, off: int, next: Option<usize>) -> Seq<u8> {
    with_bytes(mem, off, spec_u64_to_le_bytes(encode_next(next)))
}

/// A header that was written is read back, as long as its link is not the
/// null address.
pub proof fn lemma_header_written(mem: Seq<u8>, off: int, next: Option<usize>)
    requires
        0 <= off,
        off + HEADER_SIZE <= mem.len(),
        next != Some(0usize),
    ensures
        header_in(with_header(mem, off, next), off) == next,
{
    lemma_auto_spec_u64_to_from_le_bytes();
    let word = encode_next(next);
    let after = with_header(mem, off, next);
    assert(after.subrange(off, off + HEADER_SIZE) =~= spec_u64_to_le_bytes(word));
}

/// Writing a header leaves every header that does not overlap it as it was.
pub proof fn lemma_header_kept(mem: Seq<u8>, off: int, next: Option<usize>, other: int)
    requires
        0 <= other,
        other + HEADER_SIZE <= mem.len(),
        other + HEADER_SIZE <= off || off + HEADER_SIZE <= other,
    ensures
        header_in(with_header(mem, off, next), other) == header_in(mem, other),
{
    lemma_auto_spec_u64_to_from_le_bytes();
    let after = with_header(mem, off, next);
    assert(after.subrange(other, other + HEADER_SIZE) =~= mem.subrange(other, other + HEADER_SIZE));
}

/// A run of bytes that stands at the address `base`.
pub struct Region {
    base: usize,
    bytes: Vec<u8>,
}

impl View for Region {
    type V = Seq<u8>;

    /// The bytes of the region, the one at the base address first.
    closed spec fn view(&self) -> Seq<u8> {
        self.bytes@
    }
}

impl Region {
    /// The address of the first byte.
    pub closed spec fn base(&self) -> int {
        self.base as int
    }

    /// The number of bytes.
    pub open spec fn size(&self) -> int {
        self@.len() as int
    }

    /// Every byte of the region has an address.
    pub open spec fn wf(&self) -> bool {
        self.base() + self.size() <= usize::MAX
    }

    /// The `len` bytes from `addr` on lie in the region.
    pub open spec fn contains(&self, addr: int, len: int) -> bool {
        self.base() <= addr && 0 <= len && addr + len <= self.base() + self.size()
    }

    /// The link of the header that stands at `addr`.
    pub open spec fn header_at(&self, addr: int) -> Option<usize> {
        header_in(self@, addr - self.base())
    }

    /// A region of `size` zero bytes at `base`.
    pub fn new(base: usize, size: usize) -> (r: Region)
        requires
            base + size <= usize::MAX,
        ensures
            r.wf(),
            r.base() == base,
            r@ == Seq::new(size as nat, |i: int| 0u8),
    {
        let bytes = vec![0u8; size];
        assert(bytes@ =~= Seq::new(size as nat, |i: int| 0u8));
        Region { base, bytes }
    }

    /// The region at `base` that holds `bytes`.
    pub fn from_bytes(base: usize, bytes: Vec<u8>) -> (r: Region)
        requires
            base + bytes@.len() <= usize::MAX,
        ensures
            r.wf(),
            r.base() == base,
            r@ == bytes@,
    {
        Region { base, bytes }
    }

    /// The address of the first byte.
    pub fn base_address(&self) -> (r: usize)
        ensures
            r == self.base(),
    {
        self.base
    }

    /// The number of bytes.
    pub fn len(&self) -> (r: usize)
        ensures
            r == self.size(),
    {
        self.bytes.len()
    }

    /// The byte at `addr`.
    pub fn read(&self, addr: usize) -> (r: u8)
        requires
            self.contains(addr as int, 1),
        ensures
            r == self@[addr - self.base()],
    {
        self.bytes[addr - self.base]
    }

    /// Puts `value` at `addr`.
    pub fn write(&mut self, addr: usize, value: u8)
        requires
            old(self).contains(addr as int, 1),
        ensures
            final(self).base() == old(self).base(),
            final(self)@ == old(self)@.update(addr - old(self).base(), value),
    {
        let off: usize = addr - self.base;
        self.bytes.set(off, value);
    }

    /// The header that stands at `addr`.
    pub fn read_header(&self, addr: usize) -> (r: FreeBlock)
        requires
            self.contains(addr as int, HEADER_SIZE as int),
        ensures
            r.next == self.header_at(addr as int),
    {
        let off: usize = addr - self.base;
        let size: usize = self.bytes.len();
        let word: u64 = u64_from_le_bytes(slice_subrange(self.bytes.as_slice(), off, off + 8));
        if word == 0 {
            FreeBlock::tail()
        } else {
            FreeBlock::head(Some(#[verifier::truncate] (word as usize)))
        }
    }

    /// Puts `header` at `addr`.
    pub fn write_header(&mut self, addr: usize, header: FreeBlock)
        requires
            old(self).contains(addr as int, HEADER_SIZE as int),
        ensures
            final(self).base() == old(self).base(),
            final(self)@ == with_header(old(self)@, addr - old(self).base(), header.next),
    {
        let word: u64 = match header.next {
            None => 0,
            Some(a) => a as u64,
        };
        let off: usize = addr - self.base;
        let size: usize = self.bytes.len();
        self.bytes.set(off, (word & 0xff) as u8);
        self.bytes.set(off + 1, ((word >> 8) & 0xff) as u8);
        self.bytes.set(off + 2, ((word >> 16) & 0xff) as u8);
        self.bytes.set(off + 3, ((word >> 24) & 0xff) as u8);
        self.bytes.set(off + 4, ((word >> 32) & 0xff) as u8);
        self.bytes.set(off + 5, ((word >> 40) & 0xff) as u8);
        self.bytes.set(off + 6, ((word >> 48) & 0xff) as u8);
        self.bytes.set(off + 7, ((word >> 56) & 0xff) as u8);
        proof {
            spec_u64_to_le_bytes_to_open(word);
            assert(self.bytes@ =~= with_bytes(old(self)@, off as int, spec_u64_to_le_bytes(word)));
        }
    }
}

} // verus!
