//! The bit vectors of the `bitvec` crate, byte-stored and least significant
//! bit first, as sequences of booleans.
use bitvec::order::Lsb0;
use bitvec::vec::BitVec;
use vstd::prelude::*;

verus! {

/// A `bitvec::vec::BitVec`, byte-stored and least significant bit first.
/// Nothing is known of it but what `bits_of` and the functions below say.
#[verifier::external_body]
pub struct SlotBits {
    bits: BitVec<u8, Lsb0>,
}

/// The bits a bit vector holds, from index zero on.
pub uninterp spec fn bits_of(b: SlotBits) -> Seq<bool>;

/// The longest bit vector there can be, in bits.
pub open spec fn max_bits() -> int {
    usize::MAX as int / 8
}

/// How many of `s` are set.
pub open spec fn count_set(s: Seq<bool>) -> nat
    decreases s.len(),
{
    if s.len() == 0 {
        0
    } else {
        count_set(s.drop_last()) + if s.last() {
            1nat
        } else {
            0nat
        }
    }
}

/// `BitVec::repeat`: `len` bits, every one equal to `bit`. It panics past the
/// longest length a bit vector can have.
#[verifier::external_body]
pub(crate) fn bits_repeat(bit: bool, len: usize) -> (b: SlotBits)
    requires
        len <= max_bits(),
    ensures
        bits_of(b) == Seq::new(len as nat, |i: int| bit),
{
    SlotBits { bits: BitVec::repeat(bit, len) }
}

/// `BitVec::len`: the number of bits, which never passes the longest length.
#[verifier::external_body]
pub(crate) fn bits_len(b: &SlotBits) -> (n: usize)
    ensures
        n == bits_of(*b).len(),
        n <= max_bits(),
{
    b.bits.len()
}

/// Indexing of a bit vector: the bit at `i`. It panics out of range.
#[verifier::external_body]
pub(crate) fn bits_get(b: &SlotBits, i: usize) -> (bit: bool)
    requires
        i < bits_of(*b).len(),
    ensures
        bit == bits_of(*b)[i as int],
{
    b.bits[i]
}

/// `BitSlice::set`: the bit at `i` becomes `bit`, no other changes. It panics
/// out of range.
#[verifier::external_body]
pub(crate) fn bits_set(b: &mut SlotBits, i: usize, bit: bool)
    requires
        i < bits_of(*old(b)).len(),
    ensures
        bits_of(*final(b)) == bits_of(*old(b)).update(i as int, bit),
{
    b.bits.set(i, bit)
}

/// `BitVec::resize`: cuts the vector to `n` bits, or fills it up to `n` with
/// `bit`. It panics past the longest length a bit vector can have.
#[verifier::external_body]
pub(crate) fn bits_resize(b: &mut SlotBits, n: usize, bit: bool)
    requires
        n <= max_bits(),
    ensures
        bits_of(*final(b)) == Seq::new(
            n as nat,
            |i: int|
                if i < bits_of(*old(b)).len() {
                    bits_of(*old(b))[i]
                } else {
                    bit
                },
        ),
{
    b.bits.resize(n, bit)
}

/// `BitSlice::count_ones` on the bits `start..end`: how many are set. Taking
/// the range panics when it is not inside the vector.
#[verifier::external_body]
pub(crate) fn bits_count_ones(b: &SlotBits, start: usize, end: usize) -> (n: usize)
    requires
        start <= end <= bits_of(*b).len(),
    ensures
        n == count_set(bits_of(*b).subrange(start as int, end as int)),
{
    b.bits[start..end].count_ones()
}

/// `BitSlice::first_one` on the bits `start..end`: the least index, counted
/// from `start`, of a set bit, or nothing when none is set. Taking the range
/// panics when it is not inside the vector.
#[verifier::external_body]
pub(crate) fn bits_first_one(b: &SlotBits, start: usize, end: usize) -> (at: Option<usize>)
    requires
        start <= end <= bits_of(*b).len(),
    ensures
        match at {
            Some(i) => i < end - start && bits_of(*b)[start + i] && forall|j: int|
                start <= j < start + i ==> !bits_of(*b)[j],
            None => forall|j: int| start <= j < end ==> !bits_of(*b)[j],
        },
{
    b.bits[start..end].first_one()
}

/// No more bits are set than there are.
pub proof fn lemma_count_set_bound(s: Seq<bool>)
    ensures
        count_set(s) <= s.len(),
    decreases s.len(),
{
    if s.len() > 0 {
        lemma_count_set_bound(s.drop_last());
    }
}

/// Setting or clearing one bit changes the count by that bit alone.
pub proof fn lemma_count_set_update(s: Seq<bool>, i: int, bit: bool)
    requires
        0 <= i < s.len(),
    ensures
        count_set(s.update(i, bit)) + (if s[i] {
            1int
        } else {
            0
        }) == count_set(s) + (if bit {
            1int
        } else {
            0
        }),
    decreases s.len(),
{
    let t = s.update(i, bit);
    if i == s.len() - 1 {
        assert(t.drop_last() =~= s.drop_last());
    } else {
        assert(t.drop_last() =~= s.drop_last().update(i, bit));
        lemma_count_set_update(s.drop_last(), i, bit);
    }
}

/// The set bits of two pieces are the set bits of the whole.
pub proof fn lemma_count_set_concat(a: Seq<bool>, b: Seq<bool>)
    ensures
        count_set(a + b) == count_set(a) + count_set(b),
    decreases b.len(),
{
    if b.len() == 0 {
        assert(a + b =~= a);
    } else {
        assert((a + b).drop_last() =~= a + b.drop_last());
        lemma_count_set_concat(a, b.drop_last());
    }
}

/// The count is zero exactly when no bit is set.
pub proof fn lemma_count_set_zero(s: Seq<bool>)
    ensures
        count_set(s) == 0 <==> forall|i: int| 0 <= i < s.len() ==> !s[i],
    decreases s.len(),
{
    if s.len() > 0 {
        let t = s.drop_last();
        lemma_count_set_zero(t);
        if count_set(s) == 0 {
            assert forall|i: int| 0 <= i < s.len() implies !s[i] by {
                if i < t.len() {
                    assert(!t[i]);
                }
            }
        } else if forall|i: int| 0 <= i < s.len() ==> !s[i] {
            assert forall|i: int| 0 <= i < t.len() implies !t[i] by {
                assert(!s[i]);
            }
            assert(!s.last());
        }
    }
}

} // verus!
