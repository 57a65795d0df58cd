//! Sorted lists of numbers.
use vstd::prelude::*;

verus! {

/// Whether each number is above the one before it.
pub open spec fn ascending(s: Seq<u32>) -> bool {
    forall|i: int, j: int| 0 <= i < j < s.len() ==> s[i] < s[j]
}

/// Whether `s` lists the members of `of`, each once, in ascending order.
pub open spec fn lists(s: Seq<u32>, of: Seq<u32>) -> bool {
    &&& ascending(s)
    &&& forall|x: u32| s.contains(x) <==> of.contains(x)
}

/// `<[u32]>::sort_unstable`: puts the numbers in ascending order and keeps
/// each as often as it was there.
#[verifier::external_body]
pub(crate) fn sort_numbers(v: &mut Vec<u32>)
    ensures
        forall|i: int, j: int| 0 <= i < j < final(v)@.len() ==> final(v)@[i] <= final(v)@[j],
        final(v)@.to_multiset() == old(v)@.to_multiset(),
{
    v.sort_unstable()
}

/// The members of `of`, each once, in ascending order.
pub fn sorted_distinct(of: &[u32]) -> (s: Vec<u32>)
    ensures
        lists(s@, of@),
{
    let mut v: Vec<u32> = Vec::new();
    v.extend_from_slice(of);
    assert(v@ =~= of@);
    sort_numbers(&mut v);
    proof {
        v@.to_multiset_ensures();
        of@.to_multiset_ensures();
        assert forall|x: u32| v@.contains(x) <==> of@.contains(x) by {
            assert(v@.contains(x) <==> v@.to_multiset().count(x) > 0);
            assert(of@.contains(x) <==> of@.to_multiset().count(x) > 0);
        }
    }
    let mut s: Vec<u32> = Vec::new();
    let mut i: usize = 0;
    while i < v.len()
        invariant
            i <= v@.len(),
            forall|a: int, b: int| 0 <= a < b < v@.len() ==> v@[a] <= v@[b],
            ascending(s@),
            s@.len() == 0 ==> i == 0,
            s@.len() > 0 ==> i > 0 && s@.last() == v@[i - 1],
            forall|x: u32| s@.contains(x) <==> v@.take(i as int).contains(x),
        decreases v@.len() - i,
    {
        let x: u32 = v[i];
        let ghost before = s@;
        assert(v@.take(i + 1) =~= v@.take(i as int).push(x));
        if s.len() == 0 || s[s.len() - 1] != x {
            s.push(x);
            assert(s@[before.len() as int] == x);
        }
        assert forall|y: u32| s@.contains(y) <==> v@.take(i + 1).contains(y) by {
            if s@.contains(y) && y != x {
                let k = s@.index_of(y);
                assert(before[k] == y);
                assert(before.contains(y));
                let m = v@.take(i as int).index_of(y);
                assert(v@.take(i + 1)[m] == y);
            }
            if s@.contains(y) && y == x {
                assert(v@.take(i + 1)[i as int] == y);
            }
            if v@.take(i + 1).contains(y) && y != x {
                let m = v@.take(i + 1).index_of(y);
                assert(v@.take(i as int)[m] == y);
                assert(before.contains(y));
                let k = before.index_of(y);
                assert(s@[k] == y);
            }
            if y == x {
                assert(s@.last() == x);
            }
        }
        i = i + 1;
    }
    assert(v@.take(v@.len() as int) =~= v@);
    s
}

/// Whether `runs`, first and last number of each, are the maximal runs of
/// consecutive numbers among `of`, in ascending order.
pub open spec fn are_runs(runs: Seq<(u32, u32)>, of: Seq<u32>) -> bool {
    &&& forall|i: int| 0 <= i < runs.len() ==> (#[trigger] runs[i]).0 <= runs[i].1
    &&& forall|i: int, j: int|
        0 <= i < j < runs.len() ==> (#[trigger] runs[i]).1 + 1 < (#[trigger] runs[j]).0
    &&& forall|x: u32|
        of.contains(x) <==> exists|i: int|
            0 <= i < runs.len() && (#[trigger] runs[i]).0 <= x <= runs[i].1
}

/// The maximal runs of consecutive numbers among `of`.
pub fn coalesce(of: &[u32]) -> (runs: Vec<(u32, u32)>)
    ensures
        are_runs(runs@, of@),
{
    let sorted = sorted_distinct(of);
    let mut runs: Vec<(u32, u32)> = Vec::new();
    let mut k: usize = 0;
    while k < sorted.len()
        invariant
            k <= sorted@.len(),
            ascending(sorted@),
            are_runs(runs@, sorted@.take(k as int)),
            k == 0 ==> runs@.len() == 0,
            k > 0 ==> runs@.len() > 0 && runs@.last().1 == sorted@[k - 1],
        decreases sorted@.len() - k,
    {
        let x: u32 = sorted[k];
        let ghost before = runs@;
        let ghost seen = sorted@.take(k as int);
        let ghost next = sorted@.take(k + 1);
        assert(next =~= seen.push(x));
        assert forall|y: u32| next.contains(y) <==> (seen.contains(y) || y == x) by {
            if seen.contains(y) {
                let m = seen.index_of(y);
                assert(next[m] == y);
            }
            if y == x {
                assert(next[k as int] == y);
            }
        }
        let n: usize = runs.len();
        if n > 0 && x - runs[n - 1].1 == 1 {
            let first: u32 = runs[n - 1].0;
            runs.set(n - 1, (first, x));
        } else {
            runs.push((x, x));
        }
        proof {
            let ghost_last = runs@.len() - 1;
            assert forall|y: u32|
                next.contains(y) <==> exists|i: int|
                    0 <= i < runs@.len() && (#[trigger] runs@[i]).0 <= y <= runs@[i].1 by {
                if seen.contains(y) {
                    let i = choose|i: int|
                        0 <= i < before.len() && (#[trigger] before[i]).0 <= y <= before[i].1;
                    assert(runs@[i].0 <= y <= runs@[i].1);
                }
                if y == x {
                    assert(runs@[ghost_last].0 <= y <= runs@[ghost_last].1);
                }
                if exists|i: int| 0 <= i < runs@.len() && (#[trigger] runs@[i]).0 <= y <= runs@[i].1 {
                    let i = choose|i: int|
                        0 <= i < runs@.len() && (#[trigger] runs@[i]).0 <= y <= runs@[i].1;
                    if y != x {
                        assert(i < before.len());
                        assert(before[i].0 <= y <= before[i].1);
                        assert(seen.contains(y));
                    }
                }
            }
        }
        k = k + 1;
    }
    assert(sorted@.take(sorted@.len() as int) =~= sorted@);
    runs
}

/// Whether `k` is the last place of the largest score. A score of zero does
/// not count.
pub open spec fn is_last_max(scores: Seq<u64>, k: int) -> bool {
    &&& 0 <= k < scores.len()
    &&& scores[k] > 0
    &&& forall|j: int|
        0 <= j < scores.len() ==> (#[trigger] scores[j]) <= scores[k] && (j > k ==> scores[j]
            < scores[k])
}

/// The last place of the largest score, or nothing where all are zero.
pub fn last_max(scores: &[u64]) -> (r: Option<usize>)
    ensures
        match r {
            Some(k) => is_last_max(scores@, k as int),
            None => forall|j: int| 0 <= j < scores@.len() ==> (#[trigger] scores@[j]) == 0,
        },
{
    let mut best: Option<usize> = None;
    let mut most: u64 = 0;
    let mut i: usize = 0;
    while i < scores.len()
        invariant
            i <= scores@.len(),
            match best {
                Some(k) => k < i && most == scores@[k as int] && is_last_max(
                    scores@.take(i as int),
                    k as int,
                ),
                None => most == 0 && forall|j: int|
                    0 <= j < i ==> (#[trigger] scores@[j]) == 0,
            },
        decreases scores@.len() - i,
    {
        let ghost before = scores@.take(i as int);
        let ghost now = scores@.take(i + 1);
        assert(forall|j: int| 0 <= j < i ==> #[trigger] now[j] == before[j]);
        let x: u64 = scores[i];
        if x > 0 && x >= most {
            best = Some(i);
            most = x;
            assert(now[i as int] == x);
            assert forall|j: int| 0 <= j < now.len() implies (#[trigger] now[j]) <= x by {
                if j < i {
                    assert(scores@[j] == before[j]);
                }
            }
        } else {
            proof {
                if best is Some {
                    let k = best->0 as int;
                    assert(now[k] == most);
                    assert(is_last_max(now, k));
                }
            }
        }
        i = i + 1;
    }
    assert(scores@.take(scores@.len() as int) =~= scores@);
    best
}

} // verus!
