//! Rounding to a multiple.
use vstd::prelude::*;

verus! {

/// The least multiple of `alignment` that is not below `value`; `value`
/// itself when `alignment` is zero.
pub open spec fn round_up(value: int, alignment: int) -> int {
    if alignment == 0 || value % alignment == 0 {
        value
    } else {
        value + alignment - value % alignment
    }
}

/// Whether `m` is a multiple of `a`.
pub open spec fn is_multiple(m: int, a: int) -> bool {
    m % a == 0
}

/// Rounds `value` up to a multiple of `alignment`; an alignment of zero
/// changes nothing.
pub fn align_up(value: u64, alignment: u64) -> (r: u64)
    requires
        round_up(value as int, alignment as int) <= u64::MAX,
    ensures
        r == round_up(value as int, alignment as int),
{
    if alignment == 0 {
        return value;
    }
    let remainder: u64 = value % alignment;
    if remainder == 0 {
        value
    } else {
        value + (alignment - remainder)
    }
}

/// `a` divided by `b`, rounded up.
pub open spec fn div_up(a: int, b: int) -> int {
    if a % b == 0 {
        a / b
    } else {
        a / b + 1
    }
}

/// `a` divided by `b`, rounded up.
pub fn div_ceil(a: u64, b: u64) -> (q: u64)
    requires
        b > 0,
    ensures
        q == div_up(a as int, b as int),
{
    let q: u64 = a / b;
    if a % b == 0 {
        q
    } else {
        proof {
            vstd::arithmetic::div_mod::lemma_small_mod(0, b as nat);
            if b == 1 {
                assert(a % 1 == 0);
            } else {
                vstd::arithmetic::div_mod::lemma_div_decreases(a as int, b as int);
            }
        }
        q + 1
    }
}

/// Rounded up, a quotient is the least number whose multiple is not below.
pub proof fn div_up_is_least(a: int, b: int)
    requires
        0 <= a,
        0 < b,
    ensures
        a <= div_up(a, b) * b < a + b,
        0 <= div_up(a, b),
        forall|k: int| #![trigger k * b] k * b >= a ==> k >= div_up(a, b),
        forall|k: int| #![trigger k * b] 0 <= k < div_up(a, b) ==> k * b < a,
        a > 0 ==> div_up(a, b) > 0,
{
    vstd::arithmetic::div_mod::lemma_fundamental_div_mod(a, b);
    let q = a / b;
    let r = a % b;
    let d = div_up(a, b);
    assert(a <= d * b < a + b && 0 <= q) by (nonlinear_arith)
        requires
            a == b * q + r,
            0 <= r < b,
            0 <= a,
            d == (if r == 0 {
                q
            } else {
                q + 1
            }),
    ;
    assert forall|k: int| #![trigger k * b] k * b >= a implies k >= d by {
        assert(k >= d) by (nonlinear_arith)
            requires
                k * b >= a,
                d * b < a + b,
                b > 0,
        ;
    }
    assert forall|k: int| #![trigger k * b] 0 <= k < d implies k * b < a by {
        assert(k * b < a) by (nonlinear_arith)
            requires
                k + 1 <= d,
                d * b < a + b,
                b > 0,
        ;
    }
    if a > 0 {
        assert(d > 0) by (nonlinear_arith)
            requires
                a <= d * b,
                a > 0,
                b > 0,
        ;
    }
}

/// What rounding up promises: a multiple, not below the value, and the least
/// such.
pub proof fn round_up_is_least_multiple(value: int, alignment: int)
    requires
        0 <= value,
        0 < alignment,
    ensures
        is_multiple(round_up(value, alignment), alignment),
        value <= round_up(value, alignment) < value + alignment,
        forall|m: int| #[trigger]
            is_multiple(m, alignment) && m >= value ==> m >= round_up(value, alignment),
{
    let r = round_up(value, alignment);
    vstd::arithmetic::div_mod::lemma_fundamental_div_mod(value, alignment);
    if value % alignment != 0 {
        let q = value / alignment;
        assert(r == alignment * (q + 1)) by (nonlinear_arith)
            requires
                value == alignment * q + value % alignment,
                r == value + alignment - value % alignment,
        ;
        vstd::arithmetic::div_mod::lemma_mod_multiples_basic(q + 1, alignment);
        assert(r == (q + 1) * alignment) by (nonlinear_arith)
            requires
                r == alignment * (q + 1),
        ;
        assert forall|m: int| #[trigger] is_multiple(m, alignment) && m >= value implies m >= r by {
            vstd::arithmetic::div_mod::lemma_fundamental_div_mod(m, alignment);
            let k = m / alignment;
            assert(k >= q + 1) by (nonlinear_arith)
                requires
                    m == alignment * k,
                    m >= value,
                    value > alignment * q,
                    alignment > 0,
            ;
            assert(m >= r) by (nonlinear_arith)
                requires
                    m == alignment * k,
                    r == alignment * (q + 1),
                    k >= q + 1,
                    alignment > 0,
            ;
        }
    }
}

} // verus!
