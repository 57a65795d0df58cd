//! Buffers whose size suits direct I/O: whole pages, zeroed.
use crate::align;
use vstd::prelude::*;

verus! {

/// Default alignment for DMA buffers: one page, required for direct I/O.
pub const DMA_ALIGNMENT: usize = 4096;

/// A zeroed buffer of whole pages. `len` bytes of it are in use. Its address
/// is wherever the allocator put it, and nothing is stated of that: who hands
/// the bytes to the kernel moves them to a page boundary.
pub struct DmaBuf {
    data: Vec<u8>,
    len: usize,
}

impl View for DmaBuf {
    type V = Seq<u8>;

    closed spec fn view(&self) -> Seq<u8> {
        self.data@.take(self.len as int)
    }
}

/// Rounds `val` up to the next multiple of `align`.
pub fn align_up(val: usize, align: usize) -> (r: usize)
    requires
        align > 0,
        align::round_up(val as int, align as int) <= usize::MAX,
    ensures
        r == align::round_up(val as int, align as int),
{
    let remainder: usize = val % align;
    if remainder == 0 {
        val
    } else {
        val + (align - remainder)
    }
}

impl DmaBuf {
    /// The allocated size.
    pub closed spec fn spec_capacity(&self) -> int {
        self.data@.len() as int
    }

    /// The used part lies in the allocation.
    pub closed spec fn wf(&self) -> bool {
        self.len <= self.data@.len()
    }

    /// Allocates a buffer of `size` bytes, its allocation rounded up to a
    /// multiple of `DMA_ALIGNMENT`.
    pub fn allocate(size: usize) -> (b: Self)
        requires
            0 < size,
            align::round_up(size as int, DMA_ALIGNMENT as int) <= isize::MAX,
        ensures
            b.wf(),
            b@ == Seq::new(size as nat, |i: int| 0u8),
            b.spec_capacity() == align::round_up(size as int, DMA_ALIGNMENT as int),
    {
        proof {
            align::round_up_is_least_multiple(size as int, DMA_ALIGNMENT as int);
        }
        let capacity: usize = align_up(size, DMA_ALIGNMENT);
        let data: Vec<u8> = vec![0u8; capacity];
        let b = DmaBuf { data, len: size };
        assert(b@ =~= Seq::new(size as nat, |i: int| 0u8));
        b
    }

    /// Allocates a zeroed buffer that can hold at least `size` bytes.
    pub fn zeroed(size: usize) -> (b: Self)
        requires
            0 < size,
            align::round_up(size as int, DMA_ALIGNMENT as int) <= isize::MAX,
        ensures
            b.wf(),
            b@ == Seq::new(size as nat, |i: int| 0u8),
            b.spec_capacity() == align::round_up(size as int, DMA_ALIGNMENT as int),
    {
        Self::allocate(size)
    }

    /// The usable length of this buffer.
    pub fn len(&self) -> (n: usize)
        requires
            self.wf(),
        ensures
            n == self@.len(),
    {
        self.len
    }

    /// Whether the buffer has zero length.
    pub fn is_empty(&self) -> (yes: bool)
        requires
            self.wf(),
        ensures
            yes == (self@.len() == 0),
    {
        self.len == 0
    }

    /// The allocated size: never below the length.
    pub fn capacity(&self) -> (n: usize)
        requires
            self.wf(),
        ensures
            n == self.spec_capacity(),
            n >= self@.len(),
    {
        self.data.len()
    }

    /// The bytes in use.
    pub fn as_slice(&self) -> (s: &[u8])
        requires
            self.wf(),
        ensures
            s@ == self@,
    {
        assert(self.data@.subrange(0, self.len as int) =~= self@);
        &self.data[0..self.len]
    }

    /// Writes one byte.
    pub fn set(&mut self, at: usize, byte: u8)
        requires
            old(self).wf(),
            at < old(self)@.len(),
        ensures
            final(self).wf(),
            final(self)@ == old(self)@.update(at as int, byte),
            final(self).spec_capacity() == old(self).spec_capacity(),
    {
        let ghost before = self@;
        self.data.set(at, byte);
        assert(self@ =~= before.update(at as int, byte));
    }
}

} // verus!
