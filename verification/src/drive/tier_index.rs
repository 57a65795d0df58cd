//! Which slabs are on which tier, in the order they were registered.
use crate::drive::slab::SlabId;
use crate::placement::StorageTier;
use vstd::prelude::*;

verus! {

/// A list of slabs for each tier.
pub struct TierIndex {
    hot: Vec<SlabId>,
    warm: Vec<SlabId>,
    cool: Vec<SlabId>,
    cold: Vec<SlabId>,
}

/// `s` without any `x`.
pub open spec fn without(s: Seq<SlabId>, x: SlabId) -> Seq<SlabId>
    decreases s.len(),
{
    if s.len() == 0 {
        s
    } else if s.last() == x {
        without(s.drop_last(), x)
    } else {
        without(s.drop_last(), x).push(s.last())
    }
}

/// Whether `ids` lists what is on tier `t`, each once, where `tiers` has the
/// tier of everything that is registered.
pub open spec fn lists(ids: Seq<SlabId>, t: StorageTier, tiers: Map<u128, StorageTier>) -> bool {
    &&& ids.no_duplicates()
    &&& forall|id: SlabId| #[trigger]
        ids.contains(id) <==> tiers.contains_key(id.0.bits) && tiers[id.0.bits] == t
}

/// The list of a tier stays right when something new is registered: at its end
/// where it is on that tier, and nowhere else.
pub proof fn a_list_follows_what_is_added(
    ids: Seq<SlabId>,
    t: StorageTier,
    tiers: Map<u128, StorageTier>,
    id: SlabId,
    tier: StorageTier,
)
    requires
        lists(ids, t, tiers),
        !tiers.contains_key(id.0.bits),
    ensures
        lists(
            if t == tier {
                ids.push(id)
            } else {
                ids
            },
            t,
            tiers.insert(id.0.bits, tier),
        ),
{
    assert(!ids.contains(id));
    let after = ids.push(id);
    assert forall|x: SlabId| #[trigger] after.contains(x) <==> (ids.contains(x) || x == id) by {
        if ids.contains(x) {
            assert(after[ids.index_of(x)] == x);
        }
        assert(after[ids.len() as int] == id);
    }
    assert forall|x: SlabId| x.0.bits == id.0.bits implies x == id by {}
}

/// The list of a tier stays right when something is taken out of the registry.
pub proof fn a_list_follows_what_is_removed(
    ids: Seq<SlabId>,
    t: StorageTier,
    tiers: Map<u128, StorageTier>,
    id: SlabId,
)
    requires
        lists(ids, t, tiers),
        tiers.contains_key(id.0.bits),
    ensures
        lists(
            if t == tiers[id.0.bits] {
                without(ids, id)
            } else {
                ids
            },
            t,
            tiers.remove(id.0.bits),
        ),
{
    lemma_without(ids, id);
    assert forall|x: SlabId| x.0.bits == id.0.bits implies x == id by {}
}

proof fn lemma_without(s: Seq<SlabId>, x: SlabId)
    ensures
        forall|y: SlabId| #[trigger] without(s, x).contains(y) <==> s.contains(y) && y != x,
        s.no_duplicates() ==> without(s, x).no_duplicates(),
    decreases s.len(),
{
    if s.len() > 0 {
        let front = s.drop_last();
        let rest = without(front, x);
        let all = without(s, x);
        lemma_without(front, x);
        assert forall|y: SlabId| #[trigger] all.contains(y) <==> s.contains(y) && y != x by {
            if rest.contains(y) {
                assert(all[rest.index_of(y)] == y);
                assert(s[front.index_of(y)] == y);
            }
            if s.contains(y) && y != x {
                let i = s.index_of(y);
                if i < front.len() {
                    assert(front[i] == y);
                } else {
                    assert(all.last() == y);
                }
            }
            if all.contains(y) && !rest.contains(y) {
                assert(all.last() == y);
                assert(s.last() == y);
            }
        }
        if s.no_duplicates() {
            assert(front.no_duplicates());
            if rest.contains(s.last()) {
                assert(s[front.index_of(s.last())] == s.last());
            }
        }
    }
}

fn drop_id(v: &Vec<SlabId>, x: SlabId) -> (r: Vec<SlabId>)
    ensures
        r@ == without(v@, x),
{
    let mut r: Vec<SlabId> = Vec::new();
    let mut i: usize = 0;
    assert(v@.take(0) =~= Seq::<SlabId>::empty());
    while i < v.len()
        invariant
            i <= v@.len(),
            r@ == without(v@.take(i as int), x),
        decreases v@.len() - i,
    {
        assert(v@.take(i + 1).drop_last() =~= v@.take(i as int));
        if v[i] != x {
            r.push(v[i]);
        }
        i = i + 1;
    }
    assert(v@.take(v@.len() as int) =~= v@);
    r
}

impl TierIndex {
    /// The slabs on a tier.
    pub closed spec fn on(&self, tier: StorageTier) -> Seq<SlabId> {
        match tier {
            StorageTier::Hot => self.hot@,
            StorageTier::Warm => self.warm@,
            StorageTier::Cool => self.cool@,
            StorageTier::Cold => self.cold@,
        }
    }

    /// No slab on any tier.
    pub fn new() -> (x: Self)
        ensures
            forall|t: StorageTier| (#[trigger] x.on(t)).len() == 0,
    {
        TierIndex { hot: Vec::new(), warm: Vec::new(), cool: Vec::new(), cold: Vec::new() }
    }

    /// Appends a slab to a tier.
    pub fn push(&mut self, tier: StorageTier, id: SlabId)
        ensures
            forall|t: StorageTier| #[trigger]
                final(self).on(t) == if t == tier {
                    old(self).on(t).push(id)
                } else {
                    old(self).on(t)
                },
    {
        match tier {
            StorageTier::Hot => self.hot.push(id),
            StorageTier::Warm => self.warm.push(id),
            StorageTier::Cool => self.cool.push(id),
            StorageTier::Cold => self.cold.push(id),
        }
    }

    /// Takes a slab off a tier, as often as it stands there.
    pub fn remove(&mut self, tier: StorageTier, id: SlabId)
        ensures
            forall|t: StorageTier| #[trigger]
                final(self).on(t) == if t == tier {
                    without(old(self).on(t), id)
                } else {
                    old(self).on(t)
                },
    {
        match tier {
            StorageTier::Hot => {
                let kept = drop_id(&self.hot, id);
                self.hot = kept;
            },
            StorageTier::Warm => {
                let kept = drop_id(&self.warm, id);
                self.warm = kept;
            },
            StorageTier::Cool => {
                let kept = drop_id(&self.cool, id);
                self.cool = kept;
            },
            StorageTier::Cold => {
                let kept = drop_id(&self.cold, id);
                self.cold = kept;
            },
        }
    }

    /// The slabs on a tier.
    pub fn get(&self, tier: StorageTier) -> (ids: &[SlabId])
        ensures
            ids@ == self.on(tier),
    {
        match tier {
            StorageTier::Hot => self.hot.as_slice(),
            StorageTier::Warm => self.warm.as_slice(),
            StorageTier::Cool => self.cool.as_slice(),
            StorageTier::Cold => self.cold.as_slice(),
        }
    }
}

} // verus!
