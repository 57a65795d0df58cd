//! A registry that tracks all containers by identity and tier.
//!
//! The registry is the entry point for finding containers to allocate from,
//! or to read and write existing slots. It indexes containers by storage tier
//! for placement-aware allocation.
use crate::drive::container::{Container, ContainerId};
use crate::drive::tier_index;
use crate::drive::tier_index::TierIndex;
use crate::ids::Uuid;
use crate::maps;
use crate::placement::StorageTier;
use std::collections::hash_map::Entry;
use std::collections::HashMap;
use vstd::prelude::*;

verus! {

/// Registry of all containers known to this node.
pub struct ContainerRegistry {
    containers: HashMap<u128, Container>,
    tiers: TierIndex,
}

/// Whether a container can take a slot.
pub open spec fn has_room(m: Map<u128, Container>, id: ContainerId) -> bool {
    m.contains_key(id.0.bits) && m[id.0.bits].spec_free() > 0
}

/// Whether `k` is the last of the places in `ids` whose container has room
/// and more free slots than none before it.
pub open spec fn is_best(m: Map<u128, Container>, ids: Seq<ContainerId>, k: int) -> bool {
    &&& 0 <= k < ids.len()
    &&& has_room(m, ids[k])
    &&& forall|j: int|
        0 <= j < ids.len() && has_room(m, #[trigger] ids[j]) ==> {
            &&& m[ids[j].0.bits].spec_free() <= m[ids[k].0.bits].spec_free()
            &&& j > k ==> m[ids[j].0.bits].spec_free() < m[ids[k].0.bits].spec_free()
        }
}

/// The free slots of the first `n` containers of `keys`.
pub open spec fn free_sum(m: Map<u128, Container>, keys: Seq<u128>, n: nat) -> int
    decreases n,
{
    if n == 0 {
        0
    } else {
        free_sum(m, keys, (n - 1) as nat) + m[keys[n - 1]].spec_free()
    }
}

/// The slots of the first `n` containers of `keys`.
pub open spec fn slot_sum(m: Map<u128, Container>, keys: Seq<u128>, n: nat) -> int
    decreases n,
{
    if n == 0 {
        0
    } else {
        slot_sum(m, keys, (n - 1) as nat) + m[keys[n - 1]].spec_total()
    }
}

proof fn lemma_sums_grow(m: Map<u128, Container>, keys: Seq<u128>, n: nat, k: nat)
    requires
        n <= k <= keys.len(),
    ensures
        0 <= free_sum(m, keys, n) <= free_sum(m, keys, k),
        0 <= slot_sum(m, keys, n) <= slot_sum(m, keys, k),
    decreases k,
{
    if n < k {
        lemma_sums_grow(m, keys, n, (k - 1) as nat);
    } else if n > 0 {
        lemma_sums_grow(m, keys, (n - 1) as nat, (k - 1) as nat);
    }
}

impl ContainerRegistry {
    /// The containers, by the number of their identity.
    pub closed spec fn map(&self) -> Map<u128, Container> {
        self.containers@
    }

    /// The identities on a tier, in the order they were registered.
    pub closed spec fn on_tier(&self, tier: StorageTier) -> Seq<ContainerId> {
        self.tiers.on(tier)
    }

    /// Every container is sound, and stands under its own identity.
    pub closed spec fn wf(&self) -> bool {
        forall|k: u128| #[trigger]
            self.containers@.contains_key(k) ==> self.containers@[k].wf()
                && self.containers@[k].spec_id().0.bits == k
    }

    /// An empty registry.
    pub fn new() -> (r: Self)
        ensures
            r.wf(),
            r.map() == Map::<u128, Container>::empty(),
            forall|t: StorageTier| (#[trigger] r.on_tier(t)).len() == 0,
    {
        broadcast use vstd::std_specs::hash::group_hash_axioms;

        ContainerRegistry { containers: HashMap::new(), tiers: TierIndex::new() }
    }

    /// Registers a container, in place of one with the same identity.
    pub fn add(&mut self, container: Container)
        requires
            old(self).wf(),
            container.wf(),
        ensures
            final(self).wf(),
            final(self).map() == old(self).map().insert(container.spec_id().0.bits, container),
            forall|t: StorageTier| #[trigger]
                final(self).on_tier(t) == if t == container.spec_tier() {
                    old(self).on_tier(t).push(container.spec_id())
                } else {
                    old(self).on_tier(t)
                },
    {
        broadcast use vstd::std_specs::hash::group_hash_axioms;

        let id: ContainerId = container.container_id();
        let tier: StorageTier = container.tier();
        self.tiers.push(tier, id);
        self.containers.insert(id.0.bits, container);
    }

    /// Removes a container by identity.
    pub fn remove(&mut self, id: &ContainerId) -> (r: Option<Container>)
        requires
            old(self).wf(),
        ensures
            final(self).wf(),
            match r {
                Some(c) => {
                    &&& old(self).map().contains_key(id.0.bits)
                    &&& c == old(self).map()[id.0.bits]
                    &&& final(self).map() == old(self).map().remove(id.0.bits)
                    &&& forall|t: StorageTier| #[trigger]
                        final(self).on_tier(t) == if t == c.spec_tier() {
                            tier_index::without(old(self).on_tier(t), *id)
                        } else {
                            old(self).on_tier(t)
                        }
                },
                None => {
                    &&& !old(self).map().contains_key(id.0.bits)
                    &&& final(self).map() == old(self).map()
                    &&& forall|t: StorageTier| #[trigger]
                        final(self).on_tier(t) == old(self).on_tier(t)
                },
            },
    {
        broadcast use vstd::std_specs::hash::group_hash_axioms;

        let ghost before = self.containers@;
        match self.containers.remove(&id.0.bits) {
            Some(container) => {
                let tier: StorageTier = container.tier();
                self.tiers.remove(tier, *id);
                Some(container)
            },
            None => {
                assert(self.containers@ =~= before);
                None
            },
        }
    }

    /// A container by identity.
    pub fn get(&self, id: &ContainerId) -> (r: Option<&Container>)
        requires
            self.wf(),
        ensures
            match r {
                Some(c) => self.map().contains_key(id.0.bits) && *c == self.map()[id.0.bits],
                None => !self.map().contains_key(id.0.bits),
            },
    {
        broadcast use vstd::std_specs::hash::group_hash_axioms;

        self.containers.get(&id.0.bits)
    }

    /// A container by identity, to be changed in place.
    pub fn get_mut(&mut self, id: &ContainerId) -> (r: Option<&mut Container>)
        requires
            old(self).wf(),
        ensures
            match r {
                Some(c) => {
                    &&& old(self).map().contains_key(id.0.bits)
                    &&& *c == old(self).map()[id.0.bits]
                    &&& final(self).map() == old(self).map().insert(id.0.bits, *final(c))
                    &&& final(c).wf() && final(c).spec_id().0.bits == id.0.bits
                        ==> final(self).wf()
                },
                None => {
                    &&& !old(self).map().contains_key(id.0.bits)
                    &&& final(self).map() == old(self).map()
                    &&& final(self).wf()
                },
            },
            forall|t: StorageTier| #[trigger] final(self).on_tier(t) == old(self).on_tier(t),
    {
        broadcast use vstd::std_specs::hash::group_hash_axioms;

        match self.containers.entry(id.0.bits) {
            Entry::Occupied(e) => Some(e.into_mut()),
            Entry::Vacant(_) => None,
        }
    }

    /// All identities on a tier.
    pub fn by_tier(&self, tier: StorageTier) -> (ids: &[ContainerId])
        ensures
            ids@ == self.on_tier(tier),
    {
        self.tiers.get(tier)
    }

    /// The container on the given tier with the most free slots; of several,
    /// the one registered last. Nothing if no container on that tier has
    /// space.
    pub fn best_container_for_tier(&self, tier: StorageTier) -> (r: Option<ContainerId>)
        requires
            self.wf(),
        ensures
            match r {
                Some(id) => exists|k: int| #[trigger]
                    is_best(self.map(), self.on_tier(tier), k) && id == self.on_tier(tier)[k],
                None => forall|j: int|
                    0 <= j < self.on_tier(tier).len() ==> !has_room(
                        self.map(),
                        #[trigger] self.on_tier(tier)[j],
                    ),
            },
    {
        let ids = self.tiers.get(tier);
        let ghost m = self.map();
        let ghost all = self.on_tier(tier);
        let mut best: Option<usize> = None;
        let mut most: u64 = 0;
        let mut i: usize = 0;
        while i < ids.len()
            invariant
                i <= ids@.len(),
                self.wf(),
                m == self.map(),
                all == ids@,
                match best {
                    Some(k) => {
                        &&& k < i
                        &&& is_best(m, all.take(i as int), k as int)
                        &&& most == m[all[k as int].0.bits].spec_free()
                    },
                    None => most == 0 && forall|j: int|
                        0 <= j < i ==> !has_room(m, #[trigger] all[j]),
                },
            decreases ids@.len() - i,
        {
            let ghost before = all.take(i as int);
            let ghost now = all.take(i + 1);
            let free: u64 = match self.get(&ids[i]) {
                Some(c) => c.free_slots(),
                None => 0,
            };
            assert(has_room(m, all[i as int]) <==> free > 0);
            assert(forall|j: int| 0 <= j < i ==> #[trigger] now[j] == before[j]);
            if free > 0 && free >= most {
                best = Some(i);
                most = free;
                proof {
                    assert(now[i as int] == all[i as int]);
                    assert forall|j: int| 0 <= j < now.len() && has_room(m, #[trigger] now[j]) implies
                        m[now[j].0.bits].spec_free() <= free by {
                        if j < i {
                            assert(before[j] == now[j]);
                            assert(all[j] == now[j]);
                        }
                    }
                    assert(is_best(m, now, i as int));
                }
            } else {
                proof {
                    if best is Some {
                        let k = best->0 as int;
                        assert forall|j: int|
                            0 <= j < now.len() && has_room(m, #[trigger] now[j]) implies m[now[j].0.bits].spec_free()
                            <= most && (j > k ==> m[now[j].0.bits].spec_free() < most) by {
                            if j < i {
                                assert(before[j] == now[j]);
                            }
                        }
                        assert(now[k] == all[k]);
                        assert(is_best(m, now, k));
                    }
                }
            }
            i = i + 1;
        }
        assert(all.take(all.len() as int) =~= all);
        match best {
            Some(k) => {
                assert(is_best(m, all, k as int));
                Some(ids[k])
            },
            None => None,
        }
    }

    /// The identities of all containers, in no particular order.
    pub fn iter(&self) -> (ids: Vec<ContainerId>)
        ensures
            maps::enumerates(ids@.map_values(|id: ContainerId| id.0.bits), self.map()),
    {
        let keys = maps::keys_of(&self.containers);
        let mut ids: Vec<ContainerId> = Vec::new();
        let mut i: usize = 0;
        while i < keys.len()
            invariant
                i <= keys@.len(),
                ids@.len() == i,
                forall|j: int| 0 <= j < i ==> (#[trigger] ids@[j]).0.bits == keys@[j],
            decreases keys@.len() - i,
        {
            ids.push(crate::drive::slab::SlabId(Uuid { bits: keys[i] }));
            i = i + 1;
        }
        assert(ids@.map_values(|id: ContainerId| id.0.bits) =~= keys@);
        ids
    }

    /// Any container with free space: the best one of the first tier of
    /// `tier_preference` that has one, or else any with the most free slots.
    pub fn best_container(&self, tier_preference: &[StorageTier]) -> (r: Option<ContainerId>)
        requires
            self.wf(),
        ensures
            ({
                let m = self.map();
                let pref = tier_preference@;
                match r {
                    None => forall|k: u128| #[trigger]
                        m.contains_key(k) ==> m[k].spec_free() == 0,
                    Some(id) => (exists|p: int, k: int|
                        0 <= p < pref.len() && #[trigger] is_best(m, self.on_tier(pref[p]), k)
                            && id == self.on_tier(pref[p])[k] && self.tiers_full(pref, p)) || (
                    self.tiers_full(pref, pref.len() as int) && has_room(m, id) && forall|k: u128|
                        #[trigger]
                        m.contains_key(k) ==> m[k].spec_free() <= m[id.0.bits].spec_free()),
                }
            }),
    {
        let ghost m = self.map();
        let ghost pref = tier_preference@;
        let mut p: usize = 0;
        while p < tier_preference.len()
            invariant
                p <= pref.len(),
                pref == tier_preference@,
                self.wf(),
                m == self.map(),
                self.tiers_full(pref, p as int),
            decreases pref.len() - p,
        {
            match self.best_container_for_tier(tier_preference[p]) {
                Some(id) => {
                    return Some(id);
                },
                None => {},
            }
            p = p + 1;
        }
        let ids = self.iter();
        let ghost keys = ids@.map_values(|id: ContainerId| id.0.bits);
        let mut best: Option<ContainerId> = None;
        let mut most: u64 = 0;
        let mut i: usize = 0;
        while i < ids.len()
            invariant
                i <= ids@.len(),
                self.wf(),
                m == self.map(),
                keys == ids@.map_values(|id: ContainerId| id.0.bits),
                maps::enumerates(keys, m),
                forall|j: int| 0 <= j < i ==> m[#[trigger] keys[j]].spec_free() <= most,
                match best {
                    Some(id) => has_room(m, id) && most == m[id.0.bits].spec_free(),
                    None => most == 0,
                },
            decreases ids@.len() - i,
        {
            assert(keys[i as int] == ids@[i as int].0.bits);
            assert(keys.contains(keys[i as int]));
            let free: u64 = match self.get(&ids[i]) {
                Some(c) => c.free_slots(),
                None => 0,
            };
            if free > most {
                best = Some(ids[i]);
                most = free;
            }
            i = i + 1;
        }
        assert forall|k: u128| #[trigger] m.contains_key(k) implies m[k].spec_free() <= most by {
            assert(keys.contains(k));
            let j = keys.index_of(k);
            assert(m[keys[j]].spec_free() <= most);
        }
        best
    }

    /// Whether none of the first `n` preferred tiers has a container with
    /// room.
    pub open spec fn tiers_full(&self, pref: Seq<StorageTier>, n: int) -> bool {
        forall|p: int, j: int|
            #![trigger self.on_tier(pref[p])[j]]
            0 <= p < n && 0 <= j < self.on_tier(pref[p]).len() ==> !has_room(
                self.map(),
                self.on_tier(pref[p])[j],
            )
    }

    /// Number of registered containers.
    pub fn len(&self) -> (n: usize)
        ensures
            n == self.map().dom().len(),
    {
        broadcast use vstd::std_specs::hash::group_hash_axioms;

        self.containers.len()
    }

    /// Whether the registry is empty.
    pub fn is_empty(&self) -> (yes: bool)
        ensures
            yes == (self.map().dom().len() == 0),
    {
        broadcast use vstd::std_specs::hash::group_hash_axioms;

        self.containers.len() == 0
    }

    /// Free slots across all containers.
    pub fn total_free_slots(&self) -> (n: u64)
        requires
            self.wf(),
            forall|keys: Seq<u128>| #[trigger]
                maps::enumerates(keys, self.map()) ==> free_sum(self.map(), keys, keys.len())
                    <= u64::MAX,
        ensures
            exists|keys: Seq<u128>| #[trigger]
                maps::enumerates(keys, self.map()) && n == free_sum(self.map(), keys, keys.len()),
    {
        let keys = maps::keys_of(&self.containers);
        let ghost m = self.map();
        let mut sum: u64 = 0;
        let mut i: usize = 0;
        while i < keys.len()
            invariant
                i <= keys@.len(),
                self.wf(),
                m == self.map(),
                maps::enumerates(keys@, m),
                free_sum(m, keys@, keys@.len()) <= u64::MAX,
                sum == free_sum(m, keys@, i as nat),
            decreases keys@.len() - i,
        {
            broadcast use vstd::std_specs::hash::group_hash_axioms;

            proof {
                assert(keys@.contains(keys@[i as int]));
                lemma_sums_grow(m, keys@, (i + 1) as nat, keys@.len());
            }
            match self.containers.get(&keys[i]) {
                Some(c) => {
                    sum = sum + c.free_slots();
                },
                None => {
                    assert(false);
                },
            }
            i = i + 1;
        }
        sum
    }

    /// Slots across all containers.
    pub fn total_slots(&self) -> (n: u64)
        requires
            self.wf(),
            forall|keys: Seq<u128>| #[trigger]
                maps::enumerates(keys, self.map()) ==> slot_sum(self.map(), keys, keys.len())
                    <= u64::MAX,
        ensures
            exists|keys: Seq<u128>| #[trigger]
                maps::enumerates(keys, self.map()) && n == slot_sum(self.map(), keys, keys.len()),
    {
        let keys = maps::keys_of(&self.containers);
        let ghost m = self.map();
        let mut sum: u64 = 0;
        let mut i: usize = 0;
        while i < keys.len()
            invariant
                i <= keys@.len(),
                self.wf(),
                m == self.map(),
                maps::enumerates(keys@, m),
                slot_sum(m, keys@, keys@.len()) <= u64::MAX,
                sum == slot_sum(m, keys@, i as nat),
            decreases keys@.len() - i,
        {
            broadcast use vstd::std_specs::hash::group_hash_axioms;

            proof {
                assert(keys@.contains(keys@[i as int]));
                lemma_sums_grow(m, keys@, (i + 1) as nat, keys@.len());
            }
            match self.containers.get(&keys[i]) {
                Some(c) => {
                    sum = sum + c.total_slots();
                },
                None => {
                    assert(false);
                },
            }
            i = i + 1;
        }
        sum
    }
}

impl Default for ContainerRegistry {
    fn default() -> (r: Self)
        ensures
            r.wf(),
            r.map() == Map::<u128, Container>::empty(),
            forall|t: StorageTier| (#[trigger] r.on_tier(t)).len() == 0,
    {
        Self::new()
    }
}

impl ContainerRegistry {
    /// The tier of each container that is registered.
    pub open spec fn tiers_of(&self) -> Map<u128, StorageTier> {
        self.map().map_values(|c: Container| c.spec_tier())
    }

    /// Whether the list of each tier names exactly what is registered on it,
    /// each once.
    pub open spec fn in_step(&self) -> bool {
        forall|t: StorageTier| tier_index::lists(#[trigger] self.on_tier(t), t, self.tiers_of())
    }
}

/// The tier lists of a new registry name exactly what is registered: nothing.
pub proof fn a_new_registry_is_in_step(r: ContainerRegistry)
    requires
        r.map() == Map::<u128, Container>::empty(),
        forall|t: StorageTier| (#[trigger] r.on_tier(t)).len() == 0,
    ensures
        r.in_step(),
{
}

/// Registering a container of a new identity keeps the tier lists in step with
/// what is registered.
pub proof fn adding_keeps_the_tiers_in_step(
    before: ContainerRegistry,
    after: ContainerRegistry,
    c: Container,
)
    requires
        before.in_step(),
        !before.map().contains_key(c.spec_id().0.bits),
        after.map() == before.map().insert(c.spec_id().0.bits, c),
        forall|t: StorageTier| #[trigger]
            after.on_tier(t) == if t == c.spec_tier() {
                before.on_tier(t).push(c.spec_id())
            } else {
                before.on_tier(t)
            },
    ensures
        after.in_step(),
{
    assert(after.tiers_of() =~= before.tiers_of().insert(c.spec_id().0.bits, c.spec_tier()));
    assert forall|t: StorageTier| tier_index::lists(
        #[trigger] after.on_tier(t),
        t,
        after.tiers_of(),
    ) by {
        let ids = before.on_tier(t);
        tier_index::a_list_follows_what_is_added(
            ids,
            t,
            before.tiers_of(),
            c.spec_id(),
            c.spec_tier(),
        );
    }
}

/// Removing a container keeps the tier lists in step with what is registered.
pub proof fn removing_keeps_the_tiers_in_step(
    before: ContainerRegistry,
    after: ContainerRegistry,
    id: ContainerId,
)
    requires
        before.in_step(),
        before.map().contains_key(id.0.bits),
        after.map() == before.map().remove(id.0.bits),
        forall|t: StorageTier| #[trigger]
            after.on_tier(t) == if t == before.map()[id.0.bits].spec_tier() {
                tier_index::without(before.on_tier(t), id)
            } else {
                before.on_tier(t)
            },
    ensures
        after.in_step(),
{
    assert(after.tiers_of() =~= before.tiers_of().remove(id.0.bits));
    assert forall|t: StorageTier| tier_index::lists(
        #[trigger] after.on_tier(t),
        t,
        after.tiers_of(),
    ) by {
        let ids = before.on_tier(t);
        tier_index::a_list_follows_what_is_removed(ids, t, before.tiers_of(), id);
    }
}

} // verus!
