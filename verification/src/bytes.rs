//! Integers as byte strings, in both byte orders.
//!
//! Every on-disk and on-wire structure of the crate is described with the two
//! pairs of functions below: a number of `n` bytes as a sequence, and a
//! sequence as a number.
use vstd::prelude::*;

verus! {

/// `256` to the power `n`: how many values `n` bytes can hold.
pub open spec fn radix(n: nat) -> nat
    decreases n,
{
    if n == 0 {
        1
    } else {
        256 * radix((n - 1) as nat)
    }
}

/// The low `n` bytes of `v`, least significant first.
pub open spec fn le_bytes(v: nat, n: nat) -> Seq<u8>
    decreases n,
{
    if n == 0 {
        Seq::empty()
    } else {
        seq![(v % 256) as u8] + le_bytes(v / 256, (n - 1) as nat)
    }
}

/// The number whose bytes, least significant first, are `s`.
pub open spec fn le_value(s: Seq<u8>) -> nat
    decreases s.len(),
{
    if s.len() == 0 {
        0
    } else {
        s[0] as nat + 256 * le_value(s.drop_first())
    }
}

/// The low `n` bytes of `v`, most significant first.
pub open spec fn be_bytes(v: nat, n: nat) -> Seq<u8>
    decreases n,
{
    if n == 0 {
        Seq::empty()
    } else {
        be_bytes(v / 256, (n - 1) as nat) + seq![(v % 256) as u8]
    }
}

/// The number whose bytes, most significant first, are `s`.
pub open spec fn be_value(s: Seq<u8>) -> nat
    decreases s.len(),
{
    if s.len() == 0 {
        0
    } else {
        256 * be_value(s.drop_last()) + s.last() as nat
    }
}

/// `n` zero bytes.
pub open spec fn zeros(n: nat) -> Seq<u8> {
    Seq::new(n, |i: int| 0u8)
}

/// `le_bytes` gives exactly `n` bytes.
pub broadcast proof fn lemma_le_bytes_len(v: nat, n: nat)
    ensures
        #[trigger] le_bytes(v, n).len() == n,
    decreases n,
{
    if n > 0 {
        lemma_le_bytes_len(v / 256, (n - 1) as nat);
    }
}

/// `be_bytes` gives exactly `n` bytes.
pub broadcast proof fn lemma_be_bytes_len(v: nat, n: nat)
    ensures
        #[trigger] be_bytes(v, n).len() == n,
    decreases n,
{
    if n > 0 {
        lemma_be_bytes_len(v / 256, (n - 1) as nat);
    }
}

/// A number that fits in `n` bytes is what its little-endian bytes say.
pub proof fn le_round_trip(v: nat, n: nat)
    requires
        v < radix(n),
    ensures
        le_value(le_bytes(v, n)) == v,
    decreases n,
{
    if n > 0 {
        let m = (n - 1) as nat;
        lemma_le_bytes_len(v / 256, m);
        assert(v / 256 < radix(m));
        le_round_trip(v / 256, m);
        assert(le_bytes(v, n).drop_first() =~= le_bytes(v / 256, m));
    }
}

/// A number that fits in `n` bytes is what its big-endian bytes say.
pub proof fn be_round_trip(v: nat, n: nat)
    requires
        v < radix(n),
    ensures
        be_value(be_bytes(v, n)) == v,
    decreases n,
{
    if n > 0 {
        let m = (n - 1) as nat;
        lemma_be_bytes_len(v / 256, m);
        assert(v / 256 < radix(m));
        be_round_trip(v / 256, m);
        assert(be_bytes(v, n).drop_last() =~= be_bytes(v / 256, m));
    }
}

/// Any byte string is the little-endian form of the number it stands for.
pub proof fn le_value_round_trip(s: Seq<u8>)
    ensures
        le_value(s) < radix(s.len()),
        le_bytes(le_value(s), s.len()) == s,
    decreases s.len(),
{
    if s.len() > 0 {
        le_value_round_trip(s.drop_first());
        assert(le_bytes(le_value(s), s.len()) =~= s);
    }
}

/// Any byte string is the big-endian form of the number it stands for.
pub proof fn be_value_round_trip(s: Seq<u8>)
    ensures
        be_value(s) < radix(s.len()),
        be_bytes(be_value(s), s.len()) == s,
    decreases s.len(),
{
    if s.len() > 0 {
        be_value_round_trip(s.drop_last());
        assert(be_bytes(be_value(s), s.len()) =~= s);
    }
}

/// The sizes of the machine integers, as `radix` values.
pub proof fn lemma_radix()
    ensures
        radix(1) == 0x100,
        radix(2) == 0x1_0000,
        radix(3) == 0x100_0000,
        radix(4) == 0x1_0000_0000,
        radix(8) == 0x1_0000_0000_0000_0000,
        radix(16) == 0x1_0000_0000_0000_0000_0000_0000_0000_0000,
{
    reveal_with_fuel(radix, 17);
}

proof fn lemma_radix_monotone(i: nat, n: nat)
    requires
        i <= n,
    ensures
        0 < radix(i) <= radix(n),
    decreases n,
{
    if i < n {
        lemma_radix_monotone(i, (n - 1) as nat);
    } else if n > 0 {
        lemma_radix_monotone((n - 1) as nat, (n - 1) as nat);
    }
}

/// Of two byte strings one behind the other, the second counts in units of what
/// the first can hold, least significant first. One byte counts as itself, and
/// no byte as nothing.
pub proof fn later_bytes_weigh_more(a: Seq<u8>, b: Seq<u8>, x: u8)
    ensures
        le_value(a + b) == le_value(a) + radix(a.len()) * le_value(b),
        le_value(seq![x]) == x,
        le_value(Seq::<u8>::empty()) == 0,
    decreases a.len(),
{
    reveal_with_fuel(le_value, 2);
    assert(seq![x].drop_first() =~= Seq::<u8>::empty());
    if a.len() == 0 {
        assert(a + b =~= b);
    } else {
        later_bytes_weigh_more(a.drop_first(), b, x);
        assert((a + b).drop_first() =~= a.drop_first() + b);
        let r = radix(a.drop_first().len());
        assert(radix(a.len()) == 256 * r);
        assert(256 * (r * le_value(b)) == (256 * r) * le_value(b)) by (nonlinear_arith);
    }
}

/// Of two byte strings one behind the other, the first counts in units of what
/// the second can hold, most significant first. One byte counts as itself, and
/// no byte as nothing.
pub proof fn earlier_bytes_weigh_more(a: Seq<u8>, b: Seq<u8>, x: u8)
    ensures
        be_value(a + b) == be_value(a) * radix(b.len()) + be_value(b),
        be_value(seq![x]) == x,
        be_value(Seq::<u8>::empty()) == 0,
    decreases b.len(),
{
    reveal_with_fuel(be_value, 2);
    assert(seq![x].drop_last() =~= Seq::<u8>::empty());
    if b.len() == 0 {
        assert(a + b =~= a);
    } else {
        earlier_bytes_weigh_more(a, b.drop_last(), x);
        assert((a + b).drop_last() =~= a + b.drop_last());
        let r = radix(b.drop_last().len());
        assert(radix(b.len()) == 256 * r);
        assert(256 * (be_value(a) * r) == be_value(a) * (256 * r)) by (nonlinear_arith);
    }
}

/// Zero bytes are zeros, and stand for the number zero in either order.
pub proof fn zeros_are_nothing(n: nat)
    ensures
        zeros(n).len() == n,
        forall|i: int| 0 <= i < n ==> #[trigger] zeros(n)[i] == 0,
        le_value(zeros(n)) == 0,
        be_value(zeros(n)) == 0,
    decreases n,
{
    if n > 0 {
        let m = (n - 1) as nat;
        zeros_are_nothing(m);
        assert(zeros(n).drop_first() =~= zeros(m));
        assert(zeros(n).drop_last() =~= zeros(m));
    }
}

/// Replaced bytes are there, and all others are as they were.
pub proof fn a_splice_changes_only_its_bytes(s: Seq<u8>, at: int, d: Seq<u8>, i: int)
    requires
        0 <= at,
        at + d.len() <= s.len(),
        0 <= i < s.len(),
    ensures
        splice(s, at, d).len() == s.len(),
        splice(s, at, d).subrange(at, at + d.len()) == d,
        at <= i < at + d.len() ==> splice(s, at, d)[i] == d[i - at],
        i < at || at + d.len() <= i ==> splice(s, at, d)[i] == s[i],
{
    assert(splice(s, at, d).subrange(at, at + d.len()) =~= d);
}

/// A number that stands in `n` bytes of a string, most significant first, is
/// read from there.
pub proof fn a_big_field_is_read(s: Seq<u8>, at: int, v: nat, n: nat)
    requires
        v < radix(n),
        0 <= at,
        at + n <= s.len(),
        s.subrange(at, at + n) == be_bytes(v, n),
    ensures
        be_value(s.subrange(at, at + n)) == v,
{
    be_round_trip(v, n);
}

/// A number that stands in `n` bytes of a string, least significant first, is
/// read from there.
pub proof fn a_little_field_is_read(s: Seq<u8>, at: int, v: nat, n: nat)
    requires
        v < radix(n),
        0 <= at,
        at + n <= s.len(),
        s.subrange(at, at + n) == le_bytes(v, n),
    ensures
        le_value(s.subrange(at, at + n)) == v,
{
    le_round_trip(v, n);
}

/// `s` with the bytes from `at` on replaced by `d`.
pub open spec fn splice(s: Seq<u8>, at: int, d: Seq<u8>) -> Seq<u8> {
    s.subrange(0, at) + d + s.subrange(at + d.len(), s.len() as int)
}

/// Appends the low `n` bytes of `v`, least significant first.
pub fn push_le(buf: &mut Vec<u8>, v: u64, n: usize)
    ensures
        final(buf)@ == old(buf)@ + le_bytes(v as nat, n as nat),
    decreases n,
{
    if n > 0 {
        buf.push((v % 256) as u8);
        push_le(buf, v / 256, n - 1);
    }
}

/// Appends the low `n` bytes of `v`, most significant first.
pub fn push_be(buf: &mut Vec<u8>, v: u128, n: usize)
    ensures
        final(buf)@ == old(buf)@ + be_bytes(v as nat, n as nat),
    decreases n,
{
    if n > 0 {
        push_be(buf, v / 256, n - 1);
        buf.push((v % 256) as u8);
    }
}

/// Appends `n` zero bytes.
pub fn push_zeros(buf: &mut Vec<u8>, n: usize)
    ensures
        final(buf)@ == old(buf)@ + zeros(n as nat),
{
    let mut i: usize = 0;
    let ghost before = buf@;
    assert(before + zeros(0) =~= before);
    while i < n
        invariant
            i <= n,
            buf@ == before + zeros(i as nat),
        decreases n - i,
    {
        buf.push(0);
        i = i + 1;
        assert(buf@ =~= before + zeros(i as nat));
    }
}

/// The `n` bytes at `at`, least significant first.
pub fn get_le(buf: &[u8], at: usize, n: usize) -> (v: u64)
    requires
        n <= 8,
        at + n <= buf@.len(),
    ensures
        v == le_value(buf@.subrange(at as int, at + n)),
        v < radix(n as nat),
{
    let total: usize = buf.len();
    let mut v: u64 = 0;
    let mut i: usize = n;
    let ghost end: int = at + n;
    assert(buf@.subrange(end, end) =~= Seq::<u8>::empty());
    while i > 0
        invariant
            i <= n <= 8,
            end == at + n,
            end <= total == buf@.len(),
            v == le_value(buf@.subrange(at + i, end)),
        decreases i,
    {
        i = i - 1;
        let ghost rest = buf@.subrange(at + i, end);
        proof {
            assert(rest.drop_first() =~= buf@.subrange(at + i + 1, end));
            le_value_round_trip(rest);
            lemma_radix_monotone(rest.len(), 8);
            lemma_radix();
        }
        v = buf[at + i] as u64 + 256 * v;
    }
    proof {
        le_value_round_trip(buf@.subrange(at as int, end));
    }
    v
}

/// The `n` bytes at `at`, most significant first.
pub fn get_be(buf: &[u8], at: usize, n: usize) -> (v: u128)
    requires
        n <= 16,
        at + n <= buf@.len(),
    ensures
        v == be_value(buf@.subrange(at as int, at + n)),
        v < radix(n as nat),
{
    let total: usize = buf.len();
    let mut v: u128 = 0;
    let mut i: usize = 0;
    assert(buf@.subrange(at as int, at as int) =~= Seq::<u8>::empty());
    while i < n
        invariant
            i <= n <= 16,
            at + n <= total == buf@.len(),
            v == be_value(buf@.subrange(at as int, at + i)),
        decreases n - i,
    {
        let ghost first = buf@.subrange(at as int, at + i + 1);
        proof {
            assert(first.drop_last() =~= buf@.subrange(at as int, at + i));
            be_value_round_trip(first);
            lemma_radix_monotone(first.len(), 16);
            lemma_radix();
        }
        v = 256 * v + buf[at + i] as u128;
        i = i + 1;
    }
    proof {
        be_value_round_trip(buf@.subrange(at as int, at + n));
    }
    v
}

/// Whether `buf` holds `want` at `at`.
pub fn matches_at(buf: &[u8], at: usize, want: &[u8]) -> (yes: bool)
    requires
        at + want@.len() <= buf@.len(),
    ensures
        yes == (buf@.subrange(at as int, at + want@.len()) == want@),
{
    let total: usize = buf.len();
    let mut i: usize = 0;
    while i < want.len()
        invariant
            i <= want@.len(),
            at + want@.len() <= total == buf@.len(),
            forall|j: int| 0 <= j < i ==> buf@[at + j] == want@[j],
        decreases want@.len() - i,
    {
        if buf[at + i] != want[i] {
            assert(buf@.subrange(at as int, at + want@.len())[i as int] != want@[i as int]);
            return false;
        }
        i = i + 1;
    }
    assert(buf@.subrange(at as int, at + want@.len()) =~= want@);
    true
}

/// Replaces the bytes of `buf` from `at` on by `data`.
pub fn write_at(buf: &mut Vec<u8>, at: usize, data: &[u8])
    requires
        at + data@.len() <= old(buf)@.len(),
    ensures
        final(buf)@ == splice(old(buf)@, at as int, data@),
        final(buf)@.len() == old(buf)@.len(),
{
    let total: usize = buf.len();
    let mut i: usize = 0;
    let ghost before = buf@;
    while i < data.len()
        invariant
            i <= data@.len(),
            buf@.len() == before.len() == total,
            at + data@.len() <= total,
            forall|j: int|
                0 <= j < before.len() ==> buf@[j] == (if at <= j < at + i {
                    data@[j - at]
                } else {
                    before[j]
                }),
        decreases data@.len() - i,
    {
        buf.set(at + i, data[i]);
        i = i + 1;
    }
    assert(buf@ =~= splice(before, at as int, data@));
}

} // verus!
