//! Moving a range of bytes when each step may move less than it was asked to,
//! and making a range of bytes zero on a thin device.
use crate::align;
use vstd::prelude::*;

verus! {

/// The most that is zeroed with one write.
pub const ZERO_CHUNK: u64 = 1048576;

/// A range under way: `done` bytes of it are moved.
#[derive(Debug, Clone, Copy, PartialEq, Eq, Structural)]
pub struct Transfer {
    pub offset: u64,
    pub len: usize,
    pub done: usize,
}

impl Transfer {
    /// The range ends at a 64-bit offset, and no more than all of it is moved.
    pub open spec fn wf(self) -> bool {
        self.done <= self.len && self.offset + self.len <= u64::MAX
    }

    /// A range of which nothing is moved yet.
    pub fn new(offset: u64, len: usize) -> (t: Self)
        requires
            offset + len <= u64::MAX,
        ensures
            t.wf(),
            t == (Transfer { offset, len, done: 0 }),
    {
        Transfer { offset, len, done: 0 }
    }

    /// What is still to be moved: where it begins and how much it is; nothing
    /// when all is.
    pub fn rest(&self) -> (r: Option<(u64, usize)>)
        requires
            self.wf(),
        ensures
            r == (if self.done == self.len {
                None
            } else {
                Some(((self.offset + self.done) as u64, (self.len - self.done) as usize))
            }),
            r is None <==> self.done == self.len,
            r matches Some((at, n)) ==> at - self.offset == self.done && at + n == self.offset
                + self.len,
    {
        if self.done == self.len {
            None
        } else {
            Some((self.offset + self.done as u64, self.len - self.done))
        }
    }

    /// Takes note that `n` more bytes are moved. None at all is the end of
    /// what can be moved.
    pub fn moved(&mut self, n: usize) -> (ok: bool)
        requires
            old(self).wf(),
            n <= old(self).len - old(self).done,
        ensures
            final(self).wf(),
            *final(self) == (Transfer { done: (old(self).done + n) as usize, ..*old(self) }),
            final(self).done - old(self).done == n,
            final(self).offset == old(self).offset,
            final(self).len == old(self).len,
            ok == (n > 0),
    {
        self.done = self.done + n;
        n > 0
    }
}

/// How a range is made zero: the two ends are written, what is between them
/// is discarded. Each part is an offset and a length.
#[derive(Debug, Clone, Copy)]
pub struct ZeroPlan {
    pub head: (u64, u64),
    pub discard: Option<(u64, u64)>,
    pub tail: (u64, u64),
}

/// The whole discard units inside a range: where they begin and end.
pub open spec fn units_in(unit: int, offset: int, len: int) -> (int, int) {
    (align::div_up(offset, unit) * unit, (offset + len) / unit * unit)
}

/// The discard unit of a device, at least one byte.
pub open spec fn unit_of(granularity: u32) -> int {
    if granularity == 0 {
        1
    } else {
        granularity as int
    }
}

/// How a range is made zero. On a thin device whole units are discarded, and
/// read back as zeros; anything else is written.
pub open spec fn zero_plan(thin: bool, granularity: u32, offset: int, len: int) -> ZeroPlan {
    let (first, last) = units_in(unit_of(granularity), offset, len);
    if thin && len > 0 && first < last {
        ZeroPlan {
            head: (offset as u64, (first - offset) as u64),
            discard: Some((first as u64, (last - first) as u64)),
            tail: (last as u64, (offset + len - last) as u64),
        }
    } else {
        ZeroPlan {
            head: (offset as u64, len as u64),
            discard: None,
            tail: ((offset + len) as u64, 0),
        }
    }
}

/// Tells how a range is made zero.
pub fn plan_zeroes(thin: bool, granularity: u32, offset: u64, len: u64) -> (p: ZeroPlan)
    requires
        offset + len <= u64::MAX,
    ensures
        p == zero_plan(thin, granularity, offset as int, len as int),
{
    let unit: u64 = if granularity == 0 {
        1
    } else {
        granularity as u64
    };
    let end: u64 = offset + len;
    proof {
        lemma_units(unit as int, offset as int, len as int);
    }
    let rest: u64 = offset % unit;
    let first: u128 = if rest == 0 {
        offset as u128
    } else {
        offset as u128 - rest as u128 + unit as u128
    };
    let last: u64 = end - end % unit;
    if thin && len > 0 && first < last as u128 {
        let first: u64 = first as u64;
        ZeroPlan {
            head: (offset, first - offset),
            discard: Some((first, last - first)),
            tail: (last, end - last),
        }
    } else {
        ZeroPlan { head: (offset, len), discard: None, tail: (end, 0) }
    }
}

proof fn lemma_units(unit: int, offset: int, len: int)
    requires
        unit > 0,
        0 <= offset,
        0 <= len,
    ensures
        units_in(unit, offset, len).0 == (if offset % unit == 0 {
            offset
        } else {
            offset - offset % unit + unit
        }),
        units_in(unit, offset, len).1 == offset + len - (offset + len) % unit,
        0 <= (offset + len) % unit < unit,
        0 <= offset % unit < unit,
        (offset + len) % unit <= offset + len,
        offset % unit <= offset,
{
    let end = offset + len;
    vstd::arithmetic::div_mod::lemma_fundamental_div_mod(offset, unit);
    vstd::arithmetic::div_mod::lemma_fundamental_div_mod(end, unit);
    let q = offset / unit;
    let p = end / unit;
    let r = offset % unit;
    let s = end % unit;
    assert(q * unit == offset - r && (q + 1) * unit == offset - r + unit && p * unit == end - s)
        by (nonlinear_arith)
        requires
            offset == unit * q + r,
            end == unit * p + s,
    ;
    assert(0 <= unit * q && 0 <= unit * p) by (nonlinear_arith)
        requires
            unit > 0,
            offset == unit * q + r,
            end == unit * p + s,
            0 <= r < unit,
            0 <= s < unit,
            offset >= 0,
            end >= 0,
    ;
}

/// The parts of a plan follow one another and make up the range. Only a thin
/// device discards, only whole units, and less than a unit is written at
/// either end then.
pub proof fn a_zero_plan_covers_its_range(thin: bool, granularity: u32, offset: int, len: int)
    requires
        0 <= offset,
        0 <= len,
        offset + len <= u64::MAX,
    ensures
        ({
            let p = zero_plan(thin, granularity, offset, len);
            let unit = unit_of(granularity);
            &&& p.head.0 == offset
            &&& p.tail.0 + p.tail.1 == offset + len
            &&& match p.discard {
                Some((at, n)) => {
                    &&& thin
                    &&& p.head.0 + p.head.1 == at
                    &&& at + n == p.tail.0
                    &&& n > 0
                    &&& at as int % unit == 0
                    &&& n as int % unit == 0
                    &&& p.head.1 < unit
                    &&& p.tail.1 < unit
                },
                None => p.head.0 + p.head.1 == p.tail.0 && p.tail.1 == 0,
            }
        }),
{
    let unit = unit_of(granularity);
    lemma_units(unit, offset, len);
    let (first, last) = units_in(unit, offset, len);
    let a = align::div_up(offset, unit);
    let b = (offset + len) / unit;
    vstd::arithmetic::div_mod::lemma_mod_multiples_basic(a, unit);
    vstd::arithmetic::div_mod::lemma_mod_multiples_basic(b - a, unit);
    assert((b - a) * unit == last - first) by (nonlinear_arith)
        requires
            first == a * unit,
            last == b * unit,
    ;
}

/// The next piece to zero by writing, `done` bytes of the range being zeroed:
/// where it begins and how much it is; nothing when all is.
pub fn next_zero_chunk(offset: u64, len: u64, done: u64) -> (r: Option<(u64, u64)>)
    requires
        offset + len <= u64::MAX,
        done <= len,
    ensures
        r == (if done == len {
            None
        } else {
            Some(
                (
                    (offset + done) as u64,
                    if len - done < ZERO_CHUNK {
                        (len - done) as u64
                    } else {
                        ZERO_CHUNK
                    },
                ),
            )
        }),
        r matches Some((at, n)) ==> at - offset == done && 0 < n <= 1048576 && done + n <= len && (n
            < 1048576 ==> done + n == len),
{
    if done == len {
        return None;
    }
    let rest: u64 = len - done;
    Some(
        (
            offset + done,
            if rest < ZERO_CHUNK {
                rest
            } else {
                ZERO_CHUNK
            },
        ),
    )
}

} // verus!
