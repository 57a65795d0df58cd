//! A slab's free-slot bitmap, with a summary so that finding the first free
//! slot does not scan the whole map.
//!
//! The bitmap is split into chunks of [`CHUNK`] slots with a free count each.
//! The first free slot is the first set bit of the first chunk whose count is
//! not zero: still first-fit, in O(slots / CHUNK + CHUNK / 64) instead of
//! O(slots).
use crate::bits;
use crate::bits::SlotBits;
use vstd::prelude::*;

verus! {

/// Slots per summary chunk.
pub const CHUNK: usize = 65536;

/// Which slots are free, one bit a slot, and how many of each chunk are.
pub struct FreeMap {
    bits: SlotBits,
    /// Free slots in each chunk of `CHUNK`.
    free_in: Vec<u32>,
}

/// The slots of chunk `c` in a map of `bits`.
spec fn chunk(bits: Seq<bool>, c: int) -> Seq<bool> {
    bits.subrange(c * CHUNK, chunk_end(bits.len(), c))
}

/// One past the last slot of chunk `c` in a map of `n` slots.
spec fn chunk_end(n: nat, c: int) -> int {
    if (c + 1) * CHUNK <= n {
        (c + 1) * CHUNK
    } else {
        n as int
    }
}

/// How many chunks `n` slots take.
spec fn chunks(n: nat) -> int {
    (n + CHUNK - 1) / CHUNK as int
}

impl View for FreeMap {
    type V = Seq<bool>;

    closed spec fn view(&self) -> Seq<bool> {
        bits::bits_of(self.bits)
    }
}

impl FreeMap {
    /// The summary counts what the bitmap says.
    pub closed spec fn wf(&self) -> bool {
        &&& self@.len() <= bits::max_bits()
        &&& self.free_in@.len() == chunks(self@.len())
        &&& forall|c: int|
            0 <= c < self.free_in@.len() ==> #[trigger] self.free_in@[c] == bits::count_set(
                chunk(self@, c),
            )
    }

    /// `n` slots, all free or all used.
    pub fn new(n: usize, free: bool) -> (m: Self)
        requires
            n <= bits::max_bits(),
        ensures
            m.wf(),
            m@ == Seq::new(n as nat, |i: int| free),
    {
        let bits = bits::bits_repeat(free, n);
        let mut m = FreeMap { bits, free_in: Vec::new() };
        m.recount();
        m
    }

    fn recount(&mut self)
        requires
            old(self)@.len() <= bits::max_bits(),
        ensures
            final(self).wf(),
            final(self)@ == old(self)@,
    {
        let n: usize = bits::bits_len(&self.bits);
        let mut counts: Vec<u32> = Vec::new();
        let mut start: usize = 0;
        while start < n
            invariant
                n == self@.len(),
                n <= bits::max_bits(),
                start == counts@.len() * CHUNK || (start == n && counts@.len() == chunks(n as nat)),
                start <= n,
                counts@.len() <= chunks(n as nat),
                self@ == old(self)@,
                forall|c: int|
                    0 <= c < counts@.len() ==> #[trigger] counts@[c] == bits::count_set(chunk(self@, c)),
            decreases n - start,
        {
            let end: usize = if n - start > CHUNK {
                start + CHUNK
            } else {
                n
            };
            let ghost c = counts@.len() as int;
            assert(end == chunk_end(n as nat, c));
            proof {
                bits::lemma_count_set_bound(chunk(self@, c));
            }
            let count: usize = bits::bits_count_ones(&self.bits, start, end);
            counts.push(count as u32);
            start = end;
        }
        self.free_in = counts;
    }

    /// How many slots the map covers.
    pub fn len(&self) -> (n: usize)
        ensures
            n == self@.len(),
    {
        bits::bits_len(&self.bits)
    }

    /// Whether the map covers no slot.
    pub fn is_empty(&self) -> (yes: bool)
        ensures
            yes == (self@.len() == 0),
    {
        bits::bits_len(&self.bits) == 0
    }

    /// Whether slot `i` is free. A slot past the end is not.
    pub fn is_free(&self, i: usize) -> (yes: bool)
        ensures
            yes == (i < self@.len() && self@[i as int]),
    {
        i < bits::bits_len(&self.bits) && bits::bits_get(&self.bits, i)
    }

    /// Marks slot `i` free or used. A no-op when it already is, and past the
    /// end.
    pub fn set(&mut self, i: usize, free: bool)
        requires
            old(self).wf(),
        ensures
            final(self).wf(),
            final(self)@ == if i < old(self)@.len() {
                old(self)@.update(i as int, free)
            } else {
                old(self)@
            },
    {
        if i >= bits::bits_len(&self.bits) {
            return;
        }
        if bits::bits_get(&self.bits, i) == free {
            assert(self@.update(i as int, free) =~= self@);
            return;
        }
        let ghost before = self@;
        let c: usize = i / CHUNK;
        proof {
            assert(c < self.free_in@.len());
            bits::lemma_count_set_bound(chunk(before, c as int));
            bits::lemma_count_set_update(chunk(before, c as int), i - c * CHUNK, free);
            bits::lemma_count_set_bound(chunk(before, c as int).update(i - c * CHUNK, free));
        }
        let count: u32 = self.free_in[c];
        let changed: u32 = if free {
            count + 1
        } else {
            count - 1
        };
        bits::bits_set(&mut self.bits, i, free);
        self.free_in.set(c, changed);
        proof {
            assert forall|d: int| 0 <= d < self.free_in@.len() implies #[trigger] self.free_in@[d]
                == bits::count_set(chunk(self@, d)) by {
                if d == c {
                    assert(chunk(self@, d) =~= chunk(before, d).update(i - c * CHUNK, free));
                } else {
                    assert(chunk(self@, d) =~= chunk(before, d));
                }
            }
        }
    }

    /// The first free slot.
    pub fn first_free(&self) -> (at: Option<usize>)
        requires
            self.wf(),
        ensures
            match at {
                Some(i) => i < self@.len() && self@[i as int] && forall|j: int|
                    0 <= j < i ==> !self@[j],
                None => forall|j: int| 0 <= j < self@.len() ==> !self@[j],
            },
    {
        let n: usize = bits::bits_len(&self.bits);
        let mut c: usize = 0;
        while c < self.free_in.len()
            invariant
                self.wf(),
                n == self@.len() <= bits::max_bits(),
                c <= self.free_in@.len(),
                forall|j: int| 0 <= j < c * CHUNK && j < n ==> !self@[j],
            decreases self.free_in@.len() - c,
        {
            assert(c * CHUNK < n);
            let start: usize = c * CHUNK;
            let ghost here = chunk(self@, c as int);
            proof {
                bits::lemma_count_set_zero(here);
            }
            if self.free_in[c] > 0 {
                let end: usize = if n - start > CHUNK {
                    start + CHUNK
                } else {
                    n
                };
                return match bits::bits_first_one(&self.bits, start, end) {
                    Some(i) => Some(start + i),
                    None => {
                        assert(forall|j: int| 0 <= j < here.len() ==> here[j] == self@[start + j]);
                        None
                    },
                };
            }
            assert forall|j: int| 0 <= j < (c + 1) * CHUNK && j < n implies !self@[j] by {
                if j >= start {
                    assert(!here[j - start]);
                }
            }
            c = c + 1;
        }
        None
    }

    /// Grows or shrinks the map to `n` slots; new slots take `free`.
    pub fn resize(&mut self, n: usize, free: bool)
        requires
            old(self).wf(),
            n <= bits::max_bits(),
        ensures
            final(self).wf(),
            final(self)@ == Seq::new(
                n as nat,
                |i: int|
                    if i < old(self)@.len() {
                        old(self)@[i]
                    } else {
                        free
                    },
            ),
    {
        bits::bits_resize(&mut self.bits, n, free);
        self.recount();
    }

    /// How many slots are free.
    pub fn count_free(&self) -> (n: usize)
        requires
            self.wf(),
        ensures
            n == bits::count_set(self@),
    {
        let len: usize = bits::bits_len(&self.bits);
        let mut sum: usize = 0;
        let mut c: usize = 0;
        let ghost mut done: int = 0;
        assert(self@.subrange(0, 0) =~= Seq::<bool>::empty());
        while c < self.free_in.len()
            invariant
                self.wf(),
                len == self@.len() <= bits::max_bits(),
                c <= self.free_in@.len(),
                done == if c * CHUNK <= len {
                    c * CHUNK
                } else {
                    len as int
                },
                sum == bits::count_set(self@.subrange(0, done)),
            decreases self.free_in@.len() - c,
        {
            proof {
                let here = chunk(self@, c as int);
                let next = chunk_end(len as nat, c as int);
                assert(self@.subrange(0, next) =~= self@.subrange(0, done) + here);
                bits::lemma_count_set_concat(self@.subrange(0, done), here);
                bits::lemma_count_set_bound(self@.subrange(0, next));
                done = next;
            }
            sum = sum + self.free_in[c] as usize;
            c = c + 1;
        }
        assert(self@.subrange(0, done) =~= self@);
        sum
    }
}

} // verus!
