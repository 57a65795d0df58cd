//! A registry that tracks all slabs by identity and tier.
//!
//! The registry is the entry point for finding slabs to allocate from, or to
//! read and write existing slots. It knows what each slab is for, what fails
//! together with it, and which slabs take no new data.
use crate::bits;
use crate::drive::slab;
use crate::drive::slab::{Slab, SlabId};
use crate::drive::tier_index;
use crate::drive::tier_index::TierIndex;
use crate::drive::DeviceId;
use crate::ids::Uuid;
use crate::maps;
use crate::order;
use crate::placement;
use crate::placement::{FailureDomain, LabelView, SlabRole, StorageTier};
use crate::text;
use std::collections::hash_map::Entry;
use std::collections::HashMap;
use vstd::prelude::*;

verus! {

/// A slab as the registry knows it.
pub struct SlabRecord {
    pub slab: Slab,
    /// What the slab is for.
    pub role: SlabRole,
    /// The device the slab lives on.
    pub device: DeviceId,
    /// What fails together with the slab.
    pub domain: FailureDomain,
    /// Whether the slab takes no new allocations: it is being drained, or its
    /// drive was reported failing.
    pub quarantined: bool,
}

impl SlabRecord {
    /// How many of the slab's slots are free.
    pub open spec fn free(self) -> int {
        bits::count_set(slab::free_flags(self.slab@.slots)) as int
    }
}

/// The labels a drive was registered with.
pub struct DeviceLabels {
    pub path: String,
    pub labels: FailureDomain,
}

/// Registry of all slabs known to this node.
pub struct SlabRegistry {
    slabs: HashMap<u128, SlabRecord>,
    tiers: TierIndex,
    /// Slots handed out but not yet recorded in the extent map. A slot in
    /// that state has nothing referencing it, which is indistinguishable from
    /// a leak; a reservation makes the difference explicit.
    in_flight: Vec<(SlabId, u32)>,
    device_labels: Vec<DeviceLabels>,
    node_labels: FailureDomain,
}

/// The labels of the device at `path` among the first `n` registered.
pub open spec fn labels_of(l: Seq<DeviceLabels>, path: Seq<char>, n: nat) -> Option<Seq<LabelView>>
    decreases n,
{
    if n == 0 {
        None
    } else if l[n - 1].path@ == path {
        Some(l[n - 1].labels@)
    } else {
        labels_of(l, path, (n - 1) as nat)
    }
}

/// The chain a slab sits in: its device's identity, under the device's labels,
/// under the node's.
pub open spec fn derived(
    device: DeviceId,
    labels: Option<Seq<LabelView>>,
    node: Seq<LabelView>,
) -> Seq<LabelView> {
    let own = placement::device_domain(device);
    let own = match labels {
        Some(outer) => placement::merged(own, outer, outer.len()),
        None => own,
    };
    placement::merged(own, node, node.len())
}

/// How many slots a slab has to give: none unless it is registered, not
/// quarantined and, where a role is asked for, of that role.
pub open spec fn room(m: Map<u128, SlabRecord>, id: SlabId, role: Option<SlabRole>) -> int {
    if m.contains_key(id.0.bits) && !m[id.0.bits].quarantined && (role is None || role == Some(
        m[id.0.bits].role,
    )) {
        m[id.0.bits].free()
    } else {
        0
    }
}

/// Whether a domain is the same at `rung` as one of the first `n` of `taken`.
/// A domain nothing is known of constrains nothing.
pub open spec fn collides_with(
    d: Seq<LabelView>,
    taken: Seq<FailureDomain>,
    rung: Seq<char>,
    n: nat,
) -> bool
    decreases n,
{
    n > 0 && (collides_with(d, taken, rung, (n - 1) as nat) || (taken[n - 1]@.len() > 0
        && placement::same_domain(d, taken[n - 1]@, rung)))
}

/// The room of each slab of a list.
pub open spec fn rooms(m: Map<u128, SlabRecord>, ids: Seq<SlabId>, role: Option<SlabRole>) -> Seq<
    u64,
> {
    Seq::new(ids.len(), |i: int| room(m, ids[i], role) as u64)
}

/// The room of each slab of a list whose domain at `rung` differs from all of
/// `taken`.
pub open spec fn rooms_apart(
    m: Map<u128, SlabRecord>,
    ids: Seq<SlabId>,
    role: SlabRole,
    taken: Seq<FailureDomain>,
    rung: Seq<char>,
) -> Seq<u64> {
    Seq::new(
        ids.len(),
        |i: int|
            if room(m, ids[i], Some(role)) > 0 && collides_with(
                m[ids[i].0.bits].domain@,
                taken,
                rung,
                taken.len(),
            ) {
                0
            } else {
                room(m, ids[i], Some(role)) as u64
            },
    )
}

/// One domain for each of the first `n` slabs of `keys` that have room and
/// whose domain at `rung` is not the same as an earlier one: of one role, or of
/// any.
spec fn domains_with_room(
    m: Map<u128, SlabRecord>,
    keys: Seq<u128>,
    rung: Seq<char>,
    role: Option<SlabRole>,
    n: nat,
) -> Seq<Seq<LabelView>>
    decreases n,
{
    if n == 0 {
        Seq::empty()
    } else {
        let before = domains_with_room(m, keys, rung, role, (n - 1) as nat);
        let d = m[keys[n - 1]].domain@;
        if room(m, SlabId(Uuid { bits: keys[n - 1] }), role) == 0 || exists|i: int|
            0 <= i < before.len() && placement::same_domain(#[trigger] before[i], d, rung) {
            before
        } else {
            before.push(d)
        }
    }
}

/// How many slots the slab of a key has to give, of one role or of any.
pub open spec fn room_at(m: Map<u128, SlabRecord>, k: u128, role: Option<SlabRole>) -> int {
    room(m, SlabId(Uuid { bits: k }), role)
}

/// What the domains of the slabs that have room are called at a rung.
pub open spec fn domain_values(
    m: Map<u128, SlabRecord>,
    rung: Seq<char>,
    role: Option<SlabRole>,
) -> Set<Seq<char>> {
    Set::new(
        |v: Seq<char>|
            exists|k: u128| #[trigger]
                m.contains_key(k) && room_at(m, k, role) > 0 && placement::value_at(
                    m[k].domain@,
                    rung,
                ) == Some(v),
    )
}

/// The slabs that have room and whose domain says nothing at a rung. Each is a
/// domain of its own.
pub open spec fn domains_unknown(
    m: Map<u128, SlabRecord>,
    rung: Seq<char>,
    role: Option<SlabRole>,
) -> Set<u128> {
    Set::new(
        |k: u128|
            m.contains_key(k) && room_at(m, k, role) > 0 && placement::value_at(
                m[k].domain@,
                rung,
            ) is None,
    )
}

/// How many distinct domains at a rung have a slab with room.
pub open spec fn distinct_domains(
    m: Map<u128, SlabRecord>,
    rung: Seq<char>,
    role: Option<SlabRole>,
) -> nat {
    domain_values(m, rung, role).len() + domains_unknown(m, rung, role).len()
}

/// The names that the first `n` slabs of `keys` add, and the slabs among them
/// whose domain says nothing.
spec fn told_by(
    m: Map<u128, SlabRecord>,
    keys: Seq<u128>,
    rung: Seq<char>,
    role: Option<SlabRole>,
    n: nat,
) -> (Set<Seq<char>>, Set<u128>)
    decreases n,
{
    if n == 0 {
        (Set::empty(), Set::empty())
    } else {
        let (v, u) = told_by(m, keys, rung, role, (n - 1) as nat);
        let k = keys[n - 1];
        if room_at(m, k, role) == 0 {
            (v, u)
        } else {
            match placement::value_at(m[k].domain@, rung) {
                Some(x) => (v.insert(x), u),
                None => (v, u.insert(k)),
            }
        }
    }
}

proof fn lemma_told_by(
    m: Map<u128, SlabRecord>,
    keys: Seq<u128>,
    rung: Seq<char>,
    role: Option<SlabRole>,
    n: nat,
)
    requires
        n <= keys.len(),
        keys.no_duplicates(),
    ensures
        ({
            let (v, u) = told_by(m, keys, rung, role, n);
            let d = domains_with_room(m, keys, rung, role, n);
            &&& v.finite() && u.finite()
            &&& d.len() == v.len() + u.len()
            &&& forall|x: Seq<char>| #[trigger]
                v.contains(x) <==> exists|i: int|
                    0 <= i < d.len() && placement::value_at(#[trigger] d[i], rung) == Some(x)
            &&& forall|x: Seq<char>| #[trigger]
                v.contains(x) <==> exists|j: int|
                    0 <= j < n && room_at(m, #[trigger] keys[j], role) > 0 && placement::value_at(
                        m[keys[j]].domain@,
                        rung,
                    ) == Some(x)
            &&& forall|k: u128| #[trigger]
                u.contains(k) <==> exists|j: int|
                    0 <= j < n && #[trigger] keys[j] == k && room_at(m, k, role) > 0
                        && placement::value_at(m[k].domain@, rung) is None
        }),
    decreases n,
{
    if n > 0 {
        let p = (n - 1) as nat;
        lemma_told_by(m, keys, rung, role, p);
        let (v0, u0) = told_by(m, keys, rung, role, p);
        let (v, u) = told_by(m, keys, rung, role, n);
        let d0 = domains_with_room(m, keys, rung, role, p);
        let d = domains_with_room(m, keys, rung, role, n);
        let k = keys[p as int];
        let dom = m[k].domain@;
        assert(room_at(m, k, role) >= 0);
        assert(!u0.contains(k));
        if room_at(m, k, role) > 0 {
            match placement::value_at(dom, rung) {
                None => {
                    assert(d == d0.push(dom));
                },
                Some(x) => {
                    if v0.contains(x) {
                        let i = choose|i: int|
                            0 <= i < d0.len() && placement::value_at(#[trigger] d0[i], rung) == Some(x);
                        assert(placement::same_domain(d0[i], dom, rung));
                        assert(d == d0);
                        assert(v =~= v0);
                    } else {
                        assert(d == d0.push(dom));
                        assert(d[d0.len() as int] == dom);
                    }
                },
            }
        }
        assert forall|x: Seq<char>| #[trigger] v.contains(x) <==> exists|i: int|
            0 <= i < d.len() && placement::value_at(#[trigger] d[i], rung) == Some(x) by {
            if v0.contains(x) {
                let i = choose|i: int|
                    0 <= i < d0.len() && placement::value_at(#[trigger] d0[i], rung) == Some(x);
                assert(d[i] == d0[i]);
            }
            if exists|i: int|
                0 <= i < d.len() && placement::value_at(#[trigger] d[i], rung) == Some(x) {
                let i = choose|i: int|
                    0 <= i < d.len() && placement::value_at(#[trigger] d[i], rung) == Some(x);
                if i < d0.len() {
                    assert(d0[i] == d[i]);
                }
            }
        }
        assert forall|x: Seq<char>| #[trigger] v.contains(x) <==> exists|j: int|
            0 <= j < n && room_at(m, #[trigger] keys[j], role) > 0 && placement::value_at(
                m[keys[j]].domain@,
                rung,
            ) == Some(x) by {
            if v0.contains(x) {
                let j = choose|j: int|
                    0 <= j < p && room_at(m, #[trigger] keys[j], role) > 0 && placement::value_at(
                        m[keys[j]].domain@,
                        rung,
                    ) == Some(x);
                assert(0 <= j < n);
            }
        }
        assert forall|q: u128| #[trigger] u.contains(q) <==> exists|j: int|
            0 <= j < n && #[trigger] keys[j] == q && room_at(m, q, role) > 0 && placement::value_at(
                m[q].domain@,
                rung,
            ) is None by {
            if u0.contains(q) {
                let j = choose|j: int| 0 <= j < p && #[trigger] keys[j] == q;
                assert(0 <= j < n);
            }
        }
    }
}

/// Counted in whatever order, there are as many distinct domains.
proof fn lemma_distinct_domains(
    m: Map<u128, SlabRecord>,
    keys: Seq<u128>,
    rung: Seq<char>,
    role: Option<SlabRole>,
)
    requires
        maps::enumerates(keys, m),
    ensures
        domains_with_room(m, keys, rung, role, keys.len()).len() == distinct_domains(m, rung, role),
{
    lemma_told_by(m, keys, rung, role, keys.len());
    let (v, u) = told_by(m, keys, rung, role, keys.len());
    assert forall|x: Seq<char>| #[trigger] v.contains(x) <==> domain_values(m, rung, role).contains(
        x,
    ) by {
        if v.contains(x) {
            let j = choose|j: int|
                0 <= j < keys.len() && room_at(m, #[trigger] keys[j], role) > 0
                    && placement::value_at(m[keys[j]].domain@, rung) == Some(x);
            assert(keys.contains(keys[j]));
            assert(m.contains_key(keys[j]));
        }
        if domain_values(m, rung, role).contains(x) {
            let k = choose|k: u128| #[trigger]
                m.contains_key(k) && room_at(m, k, role) > 0 && placement::value_at(
                    m[k].domain@,
                    rung,
                ) == Some(x);
            assert(keys.contains(k));
            let j = keys.index_of(k);
            assert(keys[j] == k);
        }
    }
    assert(v =~= domain_values(m, rung, role));
    assert forall|k: u128| #[trigger] u.contains(k) <==> domains_unknown(m, rung, role).contains(k) by {
        if u.contains(k) {
            let j = choose|j: int| 0 <= j < keys.len() && #[trigger] keys[j] == k;
            assert(keys.contains(k));
        }
        if domains_unknown(m, rung, role).contains(k) {
            assert(keys.contains(k));
            let j = keys.index_of(k);
            assert(keys[j] == k);
        }
    }
    assert(u =~= domains_unknown(m, rung, role));
}

/// The free slots of the first `n` slabs of `keys`.
pub open spec fn free_sum(m: Map<u128, SlabRecord>, keys: Seq<u128>, n: nat) -> int
    decreases n,
{
    if n == 0 {
        0
    } else {
        free_sum(m, keys, (n - 1) as nat) + m[keys[n - 1]].free()
    }
}

/// The slots of the first `n` slabs of `keys`.
pub open spec fn slot_sum(m: Map<u128, SlabRecord>, keys: Seq<u128>, n: nat) -> int
    decreases n,
{
    if n == 0 {
        0
    } else {
        slot_sum(m, keys, (n - 1) as nat) + m[keys[n - 1]].slab@.slots.len()
    }
}

proof fn lemma_sums_grow(m: Map<u128, SlabRecord>, keys: Seq<u128>, n: nat, k: nat)
    requires
        n <= k <= keys.len(),
    ensures
        0 <= free_sum(m, keys, n) <= free_sum(m, keys, k),
        0 <= slot_sum(m, keys, n) <= slot_sum(m, keys, k),
    decreases k,
{
    if n < k {
        lemma_sums_grow(m, keys, n, (k - 1) as nat);
    } else if n > 0 {
        lemma_sums_grow(m, keys, (n - 1) as nat, (k - 1) as nat);
    }
}

/// Whether `after` is `before` with its domain replaced by `d`.
pub open spec fn redomained(before: SlabRecord, after: SlabRecord, d: Seq<LabelView>) -> bool {
    &&& after.slab == before.slab
    &&& after.role == before.role
    &&& after.device == before.device
    &&& after.quarantined == before.quarantined
    &&& after.domain@ == d
}

impl SlabRegistry {
    /// The slabs, by the number of their identity.
    pub closed spec fn map(&self) -> Map<u128, SlabRecord> {
        self.slabs@
    }

    /// The identities on a tier, in the order they were registered.
    pub closed spec fn on_tier(&self, tier: StorageTier) -> Seq<SlabId> {
        self.tiers.on(tier)
    }

    /// The slots that are handed out but not yet mapped.
    pub closed spec fn reserved(&self) -> Set<(SlabId, u32)> {
        self.in_flight@.to_set()
    }

    /// The labels drives were registered with.
    pub closed spec fn labels(&self) -> Seq<DeviceLabels> {
        self.device_labels@
    }

    /// The node's own rungs.
    pub closed spec fn node(&self) -> Seq<LabelView> {
        self.node_labels@
    }

    /// The domain a slab on `device` has by what drives and node were
    /// labelled with.
    pub open spec fn domain_for(&self, device: DeviceId) -> Seq<LabelView> {
        derived(device, labels_of(self.labels(), device.path@, self.labels().len()), self.node())
    }

    /// Every slab is sound and stands under its own identity; no slot is
    /// reserved twice.
    pub closed spec fn wf(&self) -> bool {
        &&& forall|k: u128| #[trigger]
            self.slabs@.contains_key(k) ==> self.slabs@[k].slab.wf()
                && self.slabs@[k].slab.spec_id().0.bits == k
        &&& self.in_flight@.no_duplicates()
    }

    /// Whether everything but the map of slabs is as in `other`.
    pub open spec fn same_rest(&self, other: &SlabRegistry) -> bool {
        &&& forall|t: StorageTier| #[trigger] self.on_tier(t) == other.on_tier(t)
        &&& self.reserved() == other.reserved()
        &&& self.labels() == other.labels()
        &&& self.node() == other.node()
    }

    /// An empty registry.
    pub fn new() -> (r: Self)
        ensures
            r.wf(),
            r.map() == Map::<u128, SlabRecord>::empty(),
            forall|t: StorageTier| (#[trigger] r.on_tier(t)).len() == 0,
            r.reserved() == Set::<(SlabId, u32)>::empty(),
            r.labels().len() == 0,
            r.node().len() == 0,
    {
        broadcast use vstd::std_specs::hash::group_hash_axioms;

        SlabRegistry {
            slabs: HashMap::new(),
            tiers: TierIndex::new(),
            in_flight: Vec::new(),
            device_labels: Vec::new(),
            node_labels: FailureDomain::new(),
        }
    }

    /// Where the labels of a device stand.
    fn find_labels(&self, path: &str) -> (r: Option<usize>)
        ensures
            match r {
                Some(i) => i < self.labels().len() && self.labels()[i as int].path@ == path@
                    && labels_of(self.labels(), path@, self.labels().len()) == Some(
                    self.labels()[i as int].labels@,
                ),
                None => labels_of(self.labels(), path@, self.labels().len()) is None,
            },
    {
        let mut n: usize = self.device_labels.len();
        while n > 0
            invariant
                n <= self.device_labels@.len(),
                labels_of(self.labels(), path@, self.labels().len()) == labels_of(
                    self.labels(),
                    path@,
                    n as nat,
                ),
            decreases n,
        {
            if text::same_text(&self.device_labels[n - 1].path, path) {
                return Some(n - 1);
            }
            n = n - 1;
        }
        None
    }

    /// The chain a slab on `device` sits in.
    fn derive_domain(&self, device: &DeviceId) -> (d: FailureDomain)
        ensures
            d@ == self.domain_for(*device),
    {
        let own = FailureDomain::from_device(device);
        let own = match self.find_labels(&device.path) {
            Some(i) => own.merged_under(&self.device_labels[i].labels),
            None => own,
        };
        own.merged_under(&self.node_labels)
    }

    /// Gives the slab `key` a domain.
    fn put_domain(&mut self, key: u128, domain: FailureDomain)
        requires
            old(self).wf(),
            old(self).map().contains_key(key),
        ensures
            final(self).wf(),
            final(self).same_rest(old(self)),
            final(self).map().dom() == old(self).map().dom(),
            forall|k: u128| #[trigger]
                old(self).map().contains_key(k) ==> if k == key {
                    redomained(old(self).map()[k], final(self).map()[k], domain@)
                } else {
                    final(self).map()[k] == old(self).map()[k]
                },
    {
        broadcast use vstd::std_specs::hash::group_hash_axioms;

        let ghost before = self.slabs@;
        match self.slabs.remove(&key) {
            Some(r) => {
                let SlabRecord { slab, role, device, domain: _, quarantined } = r;
                self.slabs.insert(key, SlabRecord { slab, role, device, domain, quarantined });
            },
            None => {},
        }
        assert(self.slabs@.dom() =~= before.dom());
    }

    /// Sets the node's rungs under every slab, present and future.
    pub fn set_node_labels(&mut self, labels: FailureDomain)
        requires
            old(self).wf(),
        ensures
            final(self).wf(),
            final(self).node() == labels@,
            forall|t: StorageTier| #[trigger] final(self).on_tier(t) == old(self).on_tier(t),
            final(self).reserved() == old(self).reserved(),
            final(self).labels() == old(self).labels(),
            final(self).map().dom() == old(self).map().dom(),
            forall|k: u128| #[trigger]
                old(self).map().contains_key(k) ==> redomained(
                    old(self).map()[k],
                    final(self).map()[k],
                    final(self).domain_for(old(self).map()[k].device),
                ),
    {
        self.node_labels = labels;
        let ghost before = self.slabs@;
        let ghost mid = *self;
        let keys = maps::keys_of(&self.slabs);
        let mut i: usize = 0;
        while i < keys.len()
            invariant
                i <= keys@.len(),
                maps::enumerates(keys@, before),
                self.wf(),
                self.same_rest(&mid),
                self.map().dom() == before.dom(),
                forall|k: u128| #[trigger]
                    before.contains_key(k) ==> if keys@.take(i as int).contains(k) {
                        redomained(before[k], self.map()[k], mid.domain_for(before[k].device))
                    } else {
                        self.map()[k] == before[k]
                    },
            decreases keys@.len() - i,
        {
            broadcast use vstd::std_specs::hash::group_hash_axioms;

            let key: u128 = keys[i];
            proof {
                assert(keys@.contains(key));
                lemma_next_key(keys@, i as int);
                assert(before.contains_key(key));
            }
            let domain = match self.slabs.get(&key) {
                Some(r) => self.derive_domain(&r.device),
                None => FailureDomain::new(),
            };
            self.put_domain(key, domain);
            i = i + 1;
        }
        assert(keys@.take(keys@.len() as int) =~= keys@);
    }

    /// The node's rungs.
    pub fn node_labels(&self) -> (d: &FailureDomain)
        ensures
            d@ == self.node(),
    {
        &self.node_labels
    }

    /// Stops, or resumes, handing out slots from a slab. Everything on it
    /// stays readable and writable in place; only new placement avoids it.
    /// False for a slab that is not registered.
    pub fn set_quarantined(&mut self, id: SlabId, quarantined: bool) -> (known: bool)
        requires
            old(self).wf(),
        ensures
            final(self).wf(),
            final(self).same_rest(old(self)),
            known == old(self).map().contains_key(id.0.bits),
            final(self).map() == if known {
                old(self).map().insert(
                    id.0.bits,
                    SlabRecord { quarantined, ..old(self).map()[id.0.bits] },
                )
            } else {
                old(self).map()
            },
    {
        broadcast use vstd::std_specs::hash::group_hash_axioms;

        let ghost before = self.slabs@;
        match self.slabs.remove(&id.0.bits) {
            Some(r) => {
                let SlabRecord { slab, role, device, domain, quarantined: _ } = r;
                self.slabs.insert(
                    id.0.bits,
                    SlabRecord { slab, role, device, domain, quarantined },
                );
                assert(self.slabs@ =~= before.insert(
                    id.0.bits,
                    SlabRecord { quarantined, ..before[id.0.bits] },
                ));
                true
            },
            None => {
                assert(self.slabs@ =~= before);
                false
            },
        }
    }

    /// Whether a slab takes no new allocations.
    pub fn is_quarantined(&self, id: &SlabId) -> (yes: bool)
        requires
            self.wf(),
        ensures
            yes == (self.map().contains_key(id.0.bits) && self.map()[id.0.bits].quarantined),
    {
        broadcast use vstd::std_specs::hash::group_hash_axioms;

        match self.slabs.get(&id.0.bits) {
            Some(r) => r.quarantined,
            None => false,
        }
    }

    /// The quarantined slabs, in the order of their identities.
    pub fn quarantined(&self) -> (ids: Vec<SlabId>)
        requires
            self.wf(),
        ensures
            forall|i: int, j: int|
                0 <= i < j < ids@.len() ==> (#[trigger] ids@[i]).0.bits < (
                #[trigger] ids@[j]).0.bits,
            forall|id: SlabId| #[trigger]
                ids@.contains(id) <==> self.map().contains_key(id.0.bits)
                    && self.map()[id.0.bits].quarantined,
    {
        let keys = maps::keys_of(&self.slabs);
        let mut ids: Vec<SlabId> = Vec::new();
        let mut i: usize = 0;
        while i < keys.len()
            invariant
                i <= keys@.len(),
                maps::enumerates(keys@, self.map()),
                self.wf(),
                forall|a: int, b: int|
                    0 <= a < b < ids@.len() ==> (#[trigger] ids@[a]).0.bits < (
                    #[trigger] ids@[b]).0.bits,
                forall|id: SlabId| #[trigger]
                    ids@.contains(id) <==> keys@.take(i as int).contains(id.0.bits)
                        && self.map()[id.0.bits].quarantined,
            decreases keys@.len() - i,
        {
            let id = SlabId(Uuid { bits: keys[i] });
            proof {
                assert(keys@.contains(keys@[i as int]));
                lemma_next_key(keys@, i as int);
            }
            if self.is_quarantined(&id) {
                let mut at: usize = ids.len();
                while at > 0 && ids[at - 1].0.bits > id.0.bits
                    invariant
                        at <= ids@.len(),
                        forall|a: int, b: int|
                            0 <= a < b < ids@.len() ==> (#[trigger] ids@[a]).0.bits < (
                            #[trigger] ids@[b]).0.bits,
                        forall|k: int|
                            at <= k < ids@.len() ==> (#[trigger] ids@[k]).0.bits > id.0.bits,
                    decreases at,
                {
                    at = at - 1;
                }
                let ghost before = ids@;
                proof {
                    assert(!before.contains(id));
                    assert forall|k: int| 0 <= k < at implies (#[trigger] before[k]).0.bits
                        < id.0.bits by {
                        assert(before.contains(before[k]));
                        assert(before[k] != id);
                        if k < at - 1 {
                            assert(before[k].0.bits < before[at - 1].0.bits);
                        }
                        assert(before[at - 1].0.bits <= id.0.bits);
                    }
                }
                ids.insert(at, id);
                proof {
                    assert forall|x: SlabId| #[trigger] ids@.contains(x) <==> (before.contains(x)
                        || x == id) by {
                        if before.contains(x) {
                            let m = before.index_of(x);
                            if m < at {
                                assert(ids@[m] == x);
                            } else {
                                assert(ids@[m + 1] == x);
                            }
                        }
                        if x == id {
                            assert(ids@[at as int] == x);
                        }
                        if ids@.contains(x) && x != id {
                            let m = ids@.index_of(x);
                            if m < at {
                                assert(before[m] == x);
                            } else {
                                assert(before[m - 1] == x);
                            }
                        }
                    }
                }
            }
            i = i + 1;
        }
        assert(keys@.take(keys@.len() as int) =~= keys@);
        ids
    }
}

impl SlabRegistry {
    /// The identities of all slabs, in no particular order.
    pub fn iter(&self) -> (ids: Vec<SlabId>)
        ensures
            maps::enumerates(ids@.map_values(|id: SlabId| id.0.bits), self.map()),
    {
        let keys = maps::keys_of(&self.slabs);
        let mut ids: Vec<SlabId> = Vec::new();
        let mut i: usize = 0;
        while i < keys.len()
            invariant
                i <= keys@.len(),
                ids@.len() == i,
                forall|j: int| 0 <= j < i ==> (#[trigger] ids@[j]).0.bits == keys@[j],
            decreases keys@.len() - i,
        {
            ids.push(SlabId(Uuid { bits: keys[i] }));
            i = i + 1;
        }
        assert(ids@.map_values(|id: SlabId| id.0.bits) =~= keys@);
        ids
    }

    /// Slabs whose device is at `device_path`.
    pub fn slabs_on_device(&self, device_path: &str) -> (ids: Vec<SlabId>)
        requires
            self.wf(),
        ensures
            ids@.no_duplicates(),
            forall|id: SlabId| #[trigger]
                ids@.contains(id) <==> self.map().contains_key(id.0.bits)
                    && self.map()[id.0.bits].device.path@ == device_path@,
    {
        let keys = maps::keys_of(&self.slabs);
        let mut ids: Vec<SlabId> = Vec::new();
        let mut i: usize = 0;
        while i < keys.len()
            invariant
                i <= keys@.len(),
                maps::enumerates(keys@, self.map()),
                self.wf(),
                ids@.no_duplicates(),
                forall|id: SlabId| #[trigger]
                    ids@.contains(id) <==> keys@.take(i as int).contains(id.0.bits)
                        && self.map()[id.0.bits].device.path@ == device_path@,
            decreases keys@.len() - i,
        {
            broadcast use vstd::std_specs::hash::group_hash_axioms;

            let id = SlabId(Uuid { bits: keys[i] });
            let ghost before = ids@;
            proof {
                lemma_next_key(keys@, i as int);
                assert(keys@.contains(keys@[i as int]));
            }
            let here: bool = match self.slabs.get(&keys[i]) {
                Some(r) => text::same_text(&r.device.path, device_path),
                None => false,
            };
            if here {
                assert(!before.contains(id));
                ids.push(id);
                proof {
                    assert forall|x: SlabId| #[trigger] ids@.contains(x) <==> (before.contains(x)
                        || x == id) by {
                        if before.contains(x) {
                            let m = before.index_of(x);
                            assert(ids@[m] == x);
                        }
                        if x == id {
                            assert(ids@[before.len() as int] == x);
                        }
                    }
                }
            }
            i = i + 1;
        }
        assert(keys@.take(keys@.len() as int) =~= keys@);
        ids
    }

    /// Says where a device is, so that every slab on it is placed by that.
    /// Slabs already on the device are relabelled; slabs added later inherit
    /// it.
    pub fn label_device(&mut self, device_path: &str, labels: FailureDomain)
        requires
            old(self).wf(),
        ensures
            final(self).wf(),
            final(self).node() == old(self).node(),
            forall|t: StorageTier| #[trigger] final(self).on_tier(t) == old(self).on_tier(t),
            final(self).reserved() == old(self).reserved(),
            labels_of(final(self).labels(), device_path@, final(self).labels().len()) == Some(
                labels@,
            ),
            forall|path: Seq<char>|
                path != device_path@ ==> #[trigger] labels_of(
                    final(self).labels(),
                    path,
                    final(self).labels().len(),
                ) == labels_of(old(self).labels(), path, old(self).labels().len()),
            final(self).map().dom() == old(self).map().dom(),
            forall|k: u128| #[trigger]
                old(self).map().contains_key(k) ==> if old(self).map()[k].device.path@
                    == device_path@ {
                    redomained(
                        old(self).map()[k],
                        final(self).map()[k],
                        final(self).domain_for(old(self).map()[k].device),
                    )
                } else {
                    final(self).map()[k] == old(self).map()[k]
                },
    {
        let ghost l0 = self.device_labels@;
        self.device_labels.push(DeviceLabels { path: device_path.to_owned(), labels });
        proof {
            assert forall|path: Seq<char>| path != device_path@ implies #[trigger] labels_of(
                self.labels(),
                path,
                self.labels().len(),
            ) == labels_of(l0, path, l0.len()) by {
                lemma_labels_prefix(l0, self.labels(), path, l0.len());
            }
        }
        let ghost before = self.slabs@;
        let ghost mid = *self;
        let ids = self.slabs_on_device(device_path);
        let mut i: usize = 0;
        while i < ids.len()
            invariant
                i <= ids@.len(),
                ids@.no_duplicates(),
                forall|id: SlabId| #[trigger]
                    ids@.contains(id) <==> before.contains_key(id.0.bits)
                        && before[id.0.bits].device.path@ == device_path@,
                self.wf(),
                self.same_rest(&mid),
                self.map().dom() == before.dom(),
                forall|k: u128| #[trigger]
                    before.contains_key(k) ==> if ids@.take(i as int).contains(
                        SlabId(Uuid { bits: k }),
                    ) {
                        redomained(before[k], self.map()[k], mid.domain_for(before[k].device))
                    } else {
                        self.map()[k] == before[k]
                    },
            decreases ids@.len() - i,
        {
            broadcast use vstd::std_specs::hash::group_hash_axioms;

            let id: SlabId = ids[i];
            let key: u128 = id.0.bits;
            proof {
                let done = ids@.take(i as int);
                let now = ids@.take(i + 1);
                assert(ids@.contains(id));
                assert(now =~= done.push(id));
                assert(!done.contains(id)) by {
                    if done.contains(id) {
                        let m = done.index_of(id);
                        assert(ids@[m] == ids@[i as int]);
                    }
                }
                assert forall|x: SlabId| now.contains(x) <==> (done.contains(x) || x == id) by {
                    if done.contains(x) {
                        let m = done.index_of(x);
                        assert(now[m] == x);
                    }
                    if x == id {
                        assert(now[i as int] == x);
                    }
                }
                assert(before.contains_key(key));
            }
            let domain = match self.slabs.get(&key) {
                Some(r) => self.derive_domain(&r.device),
                None => FailureDomain::new(),
            };
            self.put_domain(key, domain);
            i = i + 1;
        }
        proof {
            assert(ids@.take(ids@.len() as int) =~= ids@);
            assert forall|k: u128| #[trigger] before.contains_key(k) implies if before[k].device.path@
                == device_path@ {
                redomained(before[k], self.map()[k], self.domain_for(before[k].device))
            } else {
                self.map()[k] == before[k]
            } by {
                assert(ids@.contains(SlabId(Uuid { bits: k })) <==> before[k].device.path@
                    == device_path@);
            }
        }
    }

    /// The labels a device was registered with, if any.
    pub fn device_labels(&self, device_path: &str) -> (r: Option<&FailureDomain>)
        ensures
            match r {
                Some(d) => labels_of(self.labels(), device_path@, self.labels().len()) == Some(d@),
                None => labels_of(self.labels(), device_path@, self.labels().len()) is None,
            },
    {
        match self.find_labels(device_path) {
            Some(i) => Some(&self.device_labels[i].labels),
            None => None,
        }
    }

    /// Where a reservation stands.
    fn find_reserved(&self, slab_id: SlabId, slot_idx: u32) -> (r: Option<usize>)
        ensures
            match r {
                Some(i) => i < self.in_flight@.len() && self.in_flight@[i as int] == (
                    slab_id,
                    slot_idx,
                ),
                None => !self.in_flight@.contains((slab_id, slot_idx)),
            },
    {
        let mut i: usize = 0;
        while i < self.in_flight.len()
            invariant
                i <= self.in_flight@.len(),
                forall|j: int| 0 <= j < i ==> #[trigger] self.in_flight@[j] != (slab_id, slot_idx),
            decreases self.in_flight@.len() - i,
        {
            let (s, n) = self.in_flight[i];
            if s == slab_id && n == slot_idx {
                return Some(i);
            }
            i = i + 1;
        }
        None
    }

    /// Marks a freshly allocated slot as in flight, protecting it from
    /// collection until it is mapped.
    pub fn reserve(&mut self, slab_id: SlabId, slot_idx: u32)
        requires
            old(self).wf(),
        ensures
            final(self).wf(),
            final(self).map() == old(self).map(),
            forall|t: StorageTier| #[trigger] final(self).on_tier(t) == old(self).on_tier(t),
            final(self).labels() == old(self).labels(),
            final(self).node() == old(self).node(),
            final(self).reserved() == old(self).reserved().insert((slab_id, slot_idx)),
            final(self).reserved().finite(),
    {
        broadcast use vstd::seq_lib::seq_to_set_is_finite;

        let ghost before = self.in_flight@;
        match self.find_reserved(slab_id, slot_idx) {
            Some(i) => {
                assert(before.contains((slab_id, slot_idx)));
                assert(before.to_set() =~= before.to_set().insert((slab_id, slot_idx)));
            },
            None => {
                self.in_flight.push((slab_id, slot_idx));
                proof {
                    before.lemma_push_to_set_commute((slab_id, slot_idx));
                }
            },
        }
    }

    /// Releases a reservation once the mapping exists, or the slot was given
    /// back.
    pub fn commit(&mut self, slab_id: SlabId, slot_idx: u32)
        requires
            old(self).wf(),
        ensures
            final(self).wf(),
            final(self).map() == old(self).map(),
            forall|t: StorageTier| #[trigger] final(self).on_tier(t) == old(self).on_tier(t),
            final(self).labels() == old(self).labels(),
            final(self).node() == old(self).node(),
            final(self).reserved() == old(self).reserved().remove((slab_id, slot_idx)),
            final(self).reserved().finite(),
    {
        broadcast use vstd::seq_lib::seq_to_set_is_finite;

        let ghost before = self.in_flight@;
        match self.find_reserved(slab_id, slot_idx) {
            Some(i) => {
                self.in_flight.remove(i);
                proof {
                    let after = self.in_flight@;
                    assert(after =~= before.remove(i as int));
                    assert forall|x: (SlabId, u32)| after.to_set().contains(x) <==> #[trigger] before
                        .to_set().remove((slab_id, slot_idx)).contains(x) by {
                        if after.contains(x) {
                            let m = after.index_of(x);
                            if m < i {
                                assert(before[m] == x);
                            } else {
                                assert(before[m + 1] == x);
                            }
                        }
                        if before.contains(x) && x != (slab_id, slot_idx) {
                            let m = before.index_of(x);
                            if m < i {
                                assert(after[m] == x);
                            } else {
                                assert(after[m - 1] == x);
                            }
                        }
                    }
                    assert(after.to_set() =~= before.to_set().remove((slab_id, slot_idx)));
                }
            },
            None => {
                assert(before.to_set().remove((slab_id, slot_idx)) =~= before.to_set());
            },
        }
    }

    /// Whether a slot is allocated but not yet mapped.
    pub fn is_reserved(&self, slab_id: SlabId, slot_idx: u32) -> (yes: bool)
        ensures
            yes == self.reserved().contains((slab_id, slot_idx)),
    {
        match self.find_reserved(slab_id, slot_idx) {
            Some(i) => {
                assert(self.in_flight@.contains((slab_id, slot_idx)));
                true
            },
            None => false,
        }
    }

    /// How many slots are in flight.
    pub fn in_flight_count(&self) -> (n: usize)
        requires
            self.wf(),
        ensures
            n == self.reserved().len(),
            self.reserved().finite(),
    {
        broadcast use vstd::seq_lib::seq_to_set_is_finite;

        proof {
            self.in_flight@.unique_seq_to_set();
        }
        self.in_flight.len()
    }

    /// Puts a slab into the registry, with a domain and a quarantine mark.
    fn put(&mut self, slab: Slab, role: SlabRole, device: DeviceId, domain: FailureDomain, quarantined: bool)
        requires
            old(self).wf(),
            slab.wf(),
        ensures
            final(self).wf(),
            final(self).reserved() == old(self).reserved(),
            final(self).labels() == old(self).labels(),
            final(self).node() == old(self).node(),
            final(self).map() == old(self).map().insert(
                slab.spec_id().0.bits,
                (SlabRecord { slab, role, device, domain, quarantined }),
            ),
            forall|t: StorageTier| #[trigger]
                final(self).on_tier(t) == if t == slab.spec_header().tier {
                    old(self).on_tier(t).push(slab.spec_id())
                } else {
                    old(self).on_tier(t)
                },
    {
        broadcast use vstd::std_specs::hash::group_hash_axioms;

        let id: SlabId = slab.slab_id();
        let tier: StorageTier = slab.tier();
        self.tiers.push(tier, id);
        self.slabs.insert(id.0.bits, SlabRecord { slab, role, device, domain, quarantined });
    }

    /// Registers a slab. Its failure domain is its device's, under the labels
    /// of device and node; a slab registered before keeps the one it had.
    pub fn add(&mut self, slab: Slab, role: SlabRole, device: DeviceId)
        requires
            old(self).wf(),
            slab.wf(),
        ensures
            final(self).wf(),
            final(self).reserved() == old(self).reserved(),
            final(self).labels() == old(self).labels(),
            final(self).node() == old(self).node(),
            ({
                let k = slab.spec_id().0.bits;
                let known = old(self).map().contains_key(k);
                let r = final(self).map()[k];
                &&& final(self).map() == old(self).map().insert(k, r)
                &&& r.slab == slab
                &&& r.role == role
                &&& r.device == device
                &&& r.quarantined == (known && old(self).map()[k].quarantined)
                &&& r.domain@ == if known {
                    old(self).map()[k].domain@
                } else {
                    old(self).domain_for(device)
                }
            }),
            forall|t: StorageTier| #[trigger]
                final(self).on_tier(t) == if t == slab.spec_header().tier {
                    old(self).on_tier(t).push(slab.spec_id())
                } else {
                    old(self).on_tier(t)
                },
    {
        broadcast use vstd::std_specs::hash::group_hash_axioms;

        let id: SlabId = slab.slab_id();
        let (domain, quarantined) = match self.slabs.get(&id.0.bits) {
            Some(r) => (r.domain.copied(), r.quarantined),
            None => (self.derive_domain(&device), false),
        };
        self.put(slab, role, device, domain, quarantined);
        assert(self.slabs@ =~= old(self).slabs@.insert(id.0.bits, self.slabs@[id.0.bits]));
    }

    /// Registers a slab with an explicit failure domain.
    pub fn add_in_domain(
        &mut self,
        slab: Slab,
        role: SlabRole,
        device: DeviceId,
        domain: FailureDomain,
    )
        requires
            old(self).wf(),
            slab.wf(),
        ensures
            final(self).wf(),
            final(self).reserved() == old(self).reserved(),
            final(self).labels() == old(self).labels(),
            final(self).node() == old(self).node(),
            ({
                let k = slab.spec_id().0.bits;
                let known = old(self).map().contains_key(k);
                final(self).map() == old(self).map().insert(
                    k,
                    (SlabRecord {
                        slab,
                        role,
                        device,
                        domain,
                        quarantined: known && old(self).map()[k].quarantined,
                    }),
                )
            }),
            forall|t: StorageTier| #[trigger]
                final(self).on_tier(t) == if t == slab.spec_header().tier {
                    old(self).on_tier(t).push(slab.spec_id())
                } else {
                    old(self).on_tier(t)
                },
    {
        let id: SlabId = slab.slab_id();
        let quarantined: bool = self.is_quarantined(&id);
        self.put(slab, role, device, domain, quarantined);
    }

    /// Replaces a slab's failure domain. False for a slab that is not
    /// registered.
    pub fn set_domain(&mut self, id: SlabId, domain: FailureDomain) -> (known: bool)
        requires
            old(self).wf(),
        ensures
            final(self).wf(),
            final(self).same_rest(old(self)),
            known == old(self).map().contains_key(id.0.bits),
            final(self).map().dom() == old(self).map().dom(),
            forall|k: u128| #[trigger]
                old(self).map().contains_key(k) ==> if k == id.0.bits {
                    redomained(old(self).map()[k], final(self).map()[k], domain@)
                } else {
                    final(self).map()[k] == old(self).map()[k]
                },
    {
        broadcast use vstd::std_specs::hash::group_hash_axioms;

        if !self.slabs.contains_key(&id.0.bits) {
            return false;
        }
        self.put_domain(id.0.bits, domain);
        true
    }

    /// The failure domain a slab is in: empty, that is unknown, for a slab
    /// that is not registered.
    pub open spec fn spec_domain_of(&self, id: SlabId) -> Seq<LabelView> {
        if self.map().contains_key(id.0.bits) {
            self.map()[id.0.bits].domain@
        } else {
            Seq::empty()
        }
    }

    /// The failure domain a slab is in.
    pub fn domain_of(&self, id: &SlabId) -> (d: FailureDomain)
        requires
            self.wf(),
        ensures
            d@ == self.spec_domain_of(*id),
    {
        broadcast use vstd::std_specs::hash::group_hash_axioms;

        match self.slabs.get(&id.0.bits) {
            Some(r) => r.domain.copied(),
            None => {
                let d = FailureDomain::new();
                assert(d@ =~= Seq::<LabelView>::empty());
                d
            },
        }
    }

    /// Whether a slab is the same domain at `rung` as any of `taken`.
    pub fn collides(&self, id: &SlabId, taken: &[FailureDomain], rung: &str) -> (yes: bool)
        requires
            self.wf(),
        ensures
            yes == collides_with(self.spec_domain_of(*id), taken@, rung@, taken@.len()),
    {
        let d = self.domain_of(id);
        let mut yes: bool = false;
        let mut i: usize = 0;
        while i < taken.len()
            invariant
                i <= taken@.len(),
                yes == collides_with(d@, taken@, rung@, i as nat),
            decreases taken@.len() - i,
        {
            if !taken[i].is_empty() && d.same_at(&taken[i], rung) {
                yes = true;
            }
            i = i + 1;
        }
        yes
    }

    /// What a slab is for. A slab that is not registered reads as `System`.
    pub fn role_of(&self, id: &SlabId) -> (r: SlabRole)
        requires
            self.wf(),
        ensures
            r == (if self.map().contains_key(id.0.bits) {
                self.map()[id.0.bits].role
            } else {
                SlabRole::System
            }),
    {
        broadcast use vstd::std_specs::hash::group_hash_axioms;

        match self.slabs.get(&id.0.bits) {
            Some(r) => r.role,
            None => SlabRole::System,
        }
    }

    /// How many slots a slab has to give, of one role or of any.
    fn allocatable(&self, id: &SlabId, role: Option<SlabRole>) -> (n: u64)
        requires
            self.wf(),
        ensures
            n == room(self.map(), *id, role),
    {
        broadcast use vstd::std_specs::hash::group_hash_axioms;

        match self.slabs.get(&id.0.bits) {
            Some(r) => {
                let fits: bool = match role {
                    Some(role) => r.role == role,
                    None => true,
                };
                if r.quarantined || !fits {
                    0
                } else {
                    r.slab.free_slots()
                }
            },
            None => 0,
        }
    }

    /// The slab on `tier` with the most free slots whose domain at `rung`
    /// differs from every one in `taken`. Nothing means that the policy cannot
    /// be met on this tier. The role is a hard filter, not a preference.
    pub fn best_slab_for_tier_apart_from(
        &self,
        tier: StorageTier,
        taken: &[FailureDomain],
        rung: &str,
        role: SlabRole,
    ) -> (r: Option<SlabId>)
        requires
            self.wf(),
        ensures
            ({
                let ids = self.on_tier(tier);
                let scores = rooms_apart(self.map(), ids, role, taken@, rung@);
                match r {
                    Some(id) => exists|k: int| #[trigger]
                        order::is_last_max(scores, k) && id == ids[k],
                    None => forall|k: int| 0 <= k < scores.len() ==> (#[trigger] scores[k]) == 0,
                }
            }),
    {
        let ids = self.tiers.get(tier);
        let mut scores: Vec<u64> = Vec::new();
        let ghost want = rooms_apart(self.map(), ids@, role, taken@, rung@);
        let mut i: usize = 0;
        while i < ids.len()
            invariant
                i <= ids@.len(),
                self.wf(),
                want == rooms_apart(self.map(), ids@, role, taken@, rung@),
                scores@ == want.take(i as int),
            decreases ids@.len() - i,
        {
            let free: u64 = self.allocatable(&ids[i], Some(role));
            if free > 0 && self.collides(&ids[i], taken, rung) {
                scores.push(0);
            } else {
                scores.push(free);
            }
            assert(want.take(i + 1) =~= want.take(i as int).push(want[i as int]));
            i = i + 1;
        }
        assert(scores@ =~= want);
        assert(want == rooms_apart(self.map(), self.on_tier(tier), role, taken@, rung@));
        match order::last_max(&scores) {
            Some(k) => {
                assert(order::is_last_max(want, k as int));
                Some(ids[k])
            },
            None => {
                assert(forall|k: int| 0 <= k < want.len() ==> (#[trigger] want[k]) == 0);
                None
            },
        }
    }

    /// How many distinct domains at `rung` have a slab with free space, on any
    /// tier and of any role. A quarantined slab has none to give.
    pub fn distinct_domains_with_space(&self, rung: &str) -> (n: usize)
        requires
            self.wf(),
        ensures
            n == distinct_domains(self.map(), rung@, None),
    {
        self.count_domains(rung, None)
    }

    /// The same, counting only slabs of one role: the space a volume of that
    /// role can reach.
    pub fn distinct_domains_with_space_in_role(&self, rung: &str, role: SlabRole) -> (n: usize)
        requires
            self.wf(),
        ensures
            n == distinct_domains(self.map(), rung@, Some(role)),
    {
        self.count_domains(rung, Some(role))
    }

    fn count_domains(&self, rung: &str, role: Option<SlabRole>) -> (n: usize)
        requires
            self.wf(),
        ensures
            n == distinct_domains(self.map(), rung@, role),
    {
        let keys = maps::keys_of(&self.slabs);
        let ghost m = self.map();
        let mut seen: Vec<FailureDomain> = Vec::new();
        let mut i: usize = 0;
        while i < keys.len()
            invariant
                i <= keys@.len(),
                self.wf(),
                m == self.map(),
                maps::enumerates(keys@, m),
                seen@.len() == domains_with_room(m, keys@, rung@, role, i as nat).len(),
                forall|j: int|
                    0 <= j < seen@.len() ==> (#[trigger] seen@[j])@ == domains_with_room(
                        m,
                        keys@,
                        rung@,
                        role,
                        i as nat,
                    )[j],
            decreases keys@.len() - i,
        {
            let id = SlabId(Uuid { bits: keys[i] });
            assert(keys@.contains(keys@[i as int]));
            let ghost before = domains_with_room(m, keys@, rung@, role, i as nat);
            i = i + 1;
            if self.allocatable(&id, role) == 0 {
                continue;
            }
            let d = self.domain_of(&id);
            let mut known: bool = false;
            let mut j: usize = 0;
            while j < seen.len()
                invariant
                    j <= seen@.len(),
                    seen@.len() == before.len(),
                    forall|k: int| 0 <= k < seen@.len() ==> (#[trigger] seen@[k])@ == before[k],
                    known == exists|k: int|
                        0 <= k < j && placement::same_domain(#[trigger] before[k], d@, rung@),
                decreases seen@.len() - j,
            {
                if seen[j].same_at(&d, rung) {
                    known = true;
                    assert(placement::same_domain(before[j as int], d@, rung@));
                }
                j = j + 1;
            }
            if !known {
                seen.push(d);
            }
        }
        proof {
            lemma_distinct_domains(m, keys@, rung@, role);
        }
        seen.len()
    }

    /// Removes a slab by identity.
    pub fn remove(&mut self, id: &SlabId) -> (r: Option<SlabRecord>)
        requires
            old(self).wf(),
        ensures
            final(self).wf(),
            final(self).reserved() == old(self).reserved(),
            final(self).labels() == old(self).labels(),
            final(self).node() == old(self).node(),
            match r {
                Some(s) => {
                    &&& old(self).map().contains_key(id.0.bits)
                    &&& s == old(self).map()[id.0.bits]
                    &&& final(self).map() == old(self).map().remove(id.0.bits)
                    &&& forall|t: StorageTier| #[trigger]
                        final(self).on_tier(t) == if t == s.slab.spec_header().tier {
                            tier_index::without(old(self).on_tier(t), *id)
                        } else {
                            old(self).on_tier(t)
                        }
                },
                None => {
                    &&& !old(self).map().contains_key(id.0.bits)
                    &&& final(self).map() == old(self).map()
                    &&& forall|t: StorageTier| #[trigger]
                        final(self).on_tier(t) == old(self).on_tier(t)
                },
            },
    {
        broadcast use vstd::std_specs::hash::group_hash_axioms;

        let ghost before = self.slabs@;
        match self.slabs.remove(&id.0.bits) {
            Some(r) => {
                let tier: StorageTier = r.slab.tier();
                self.tiers.remove(tier, *id);
                Some(r)
            },
            None => {
                assert(self.slabs@ =~= before);
                None
            },
        }
    }

    /// A slab by identity.
    pub fn get(&self, id: &SlabId) -> (r: Option<&Slab>)
        requires
            self.wf(),
        ensures
            match r {
                Some(s) => self.map().contains_key(id.0.bits) && *s == self.map()[id.0.bits].slab
                    && s.wf(),
                None => !self.map().contains_key(id.0.bits),
            },
    {
        broadcast use vstd::std_specs::hash::group_hash_axioms;

        match self.slabs.get(&id.0.bits) {
            Some(r) => Some(&r.slab),
            None => None,
        }
    }

    /// A slab by identity, to be changed in place.
    pub fn get_mut(&mut self, id: &SlabId) -> (r: Option<&mut Slab>)
        requires
            old(self).wf(),
        ensures
            final(self).same_rest(old(self)),
            match r {
                Some(s) => {
                    &&& old(self).map().contains_key(id.0.bits)
                    &&& *s == old(self).map()[id.0.bits].slab
                    &&& s.wf()
                    &&& final(self).map() == old(self).map().insert(
                        id.0.bits,
                        SlabRecord { slab: *final(s), ..old(self).map()[id.0.bits] },
                    )
                    &&& final(s).wf() && final(s).spec_id().0.bits == id.0.bits
                        ==> final(self).wf()
                },
                None => {
                    &&& !old(self).map().contains_key(id.0.bits)
                    &&& final(self).map() == old(self).map()
                    &&& final(self).wf()
                },
            },
    {
        broadcast use vstd::std_specs::hash::group_hash_axioms;

        match self.slabs.entry(id.0.bits) {
            Entry::Occupied(e) => {
                let r = e.into_mut();
                Some(&mut r.slab)
            },
            Entry::Vacant(_) => None,
        }
    }

    /// All identities on a tier.
    pub fn by_tier(&self, tier: StorageTier) -> (ids: &[SlabId])
        ensures
            ids@ == self.on_tier(tier),
    {
        self.tiers.get(tier)
    }

    /// The system slab on the given tier with the most free slots; of
    /// several, the one registered last.
    pub fn best_slab_for_tier(&self, tier: StorageTier) -> (r: Option<SlabId>)
        requires
            self.wf(),
        ensures
            self.is_tier_best(tier, SlabRole::System, r),
    {
        self.best_slab_for_tier_in_role(tier, SlabRole::System)
    }

    /// Whether `r` is the slab of a role on a tier with the most free slots; of
    /// several the one registered last; nothing if none has any.
    pub open spec fn is_tier_best(
        &self,
        tier: StorageTier,
        role: SlabRole,
        r: Option<SlabId>,
    ) -> bool {
        let ids = self.on_tier(tier);
        let scores = rooms(self.map(), ids, Some(role));
        match r {
            Some(id) => exists|k: int| #[trigger] order::is_last_max(scores, k) && id == ids[k],
            None => forall|k: int| 0 <= k < scores.len() ==> (#[trigger] scores[k]) == 0,
        }
    }

    /// The same, for a named role.
    pub fn best_slab_for_tier_in_role(&self, tier: StorageTier, role: SlabRole) -> (r: Option<
        SlabId,
    >)
        requires
            self.wf(),
        ensures
            self.is_tier_best(tier, role, r),
    {
        let ids = self.tiers.get(tier);
        let mut scores: Vec<u64> = Vec::new();
        let ghost want = rooms(self.map(), ids@, Some(role));
        let mut i: usize = 0;
        while i < ids.len()
            invariant
                i <= ids@.len(),
                self.wf(),
                want == rooms(self.map(), ids@, Some(role)),
                scores@ == want.take(i as int),
            decreases ids@.len() - i,
        {
            scores.push(self.allocatable(&ids[i], Some(role)));
            assert(want.take(i + 1) =~= want.take(i as int).push(want[i as int]));
            i = i + 1;
        }
        assert(scores@ =~= want);
        assert(want == rooms(self.map(), self.on_tier(tier), Some(role)));
        match order::last_max(&scores) {
            Some(k) => {
                assert(order::is_last_max(want, k as int));
                Some(ids[k])
            },
            None => {
                assert(forall|k: int| 0 <= k < want.len() ==> (#[trigger] want[k]) == 0);
                None
            },
        }
    }

    /// Whether none of the first `n` preferred tiers has a system slab with
    /// room.
    pub open spec fn tiers_full(&self, pref: Seq<StorageTier>, n: int) -> bool {
        forall|p: int| 0 <= p < n ==> self.is_tier_best(
            #[trigger] pref[p],
            SlabRole::System,
            None,
        )
    }

    /// A system slab with free space: the best one of the first tier of
    /// `tier_preference` that has one, or else any with the most free slots.
    pub fn best_slab(&self, tier_preference: &[StorageTier]) -> (r: Option<SlabId>)
        requires
            self.wf(),
        ensures
            ({
                let m = self.map();
                let pref = tier_preference@;
                match r {
                    None => forall|k: u128| #[trigger]
                        m.contains_key(k) ==> room(m, SlabId(Uuid { bits: k }), Some(SlabRole::System))
                            == 0,
                    Some(id) => (exists|p: int|
                        0 <= p < pref.len() && self.is_tier_best(
                            #[trigger] pref[p],
                            SlabRole::System,
                            r,
                        ) && self.tiers_full(pref, p)) || (self.tiers_full(pref, pref.len() as int)
                        && room(m, id, Some(SlabRole::System)) > 0 && forall|k: u128| #[trigger]
                        m.contains_key(k) ==> room(m, SlabId(Uuid { bits: k }), Some(SlabRole::System))
                            <= room(m, id, Some(SlabRole::System))),
                }
            }),
    {
        let ghost m = self.map();
        let ghost pref = tier_preference@;
        let mut p: usize = 0;
        while p < tier_preference.len()
            invariant
                p <= pref.len(),
                pref == tier_preference@,
                self.wf(),
                self.tiers_full(pref, p as int),
            decreases pref.len() - p,
        {
            let best = self.best_slab_for_tier(tier_preference[p]);
            match best {
                Some(id) => {
                    assert(self.is_tier_best(pref[p as int], SlabRole::System, best));
                    return best;
                },
                None => {},
            }
            p = p + 1;
        }
        let ids = self.iter();
        let ghost keys = ids@.map_values(|id: SlabId| id.0.bits);
        let mut best: Option<SlabId> = None;
        let mut most: u64 = 0;
        let mut i: usize = 0;
        while i < ids.len()
            invariant
                i <= ids@.len(),
                self.wf(),
                m == self.map(),
                keys == ids@.map_values(|id: SlabId| id.0.bits),
                maps::enumerates(keys, m),
                forall|j: int|
                    0 <= j < i ==> room(
                        m,
                        SlabId(Uuid { bits: #[trigger] keys[j] }),
                        Some(SlabRole::System),
                    ) <= most,
                match best {
                    Some(id) => most > 0 && most == room(m, id, Some(SlabRole::System)),
                    None => most == 0,
                },
            decreases ids@.len() - i,
        {
            assert(keys[i as int] == ids@[i as int].0.bits);
            let free: u64 = self.allocatable(&ids[i], Some(SlabRole::System));
            if free > most {
                best = Some(ids[i]);
                most = free;
            }
            i = i + 1;
        }
        assert forall|k: u128| #[trigger] m.contains_key(k) implies room(
            m,
            SlabId(Uuid { bits: k }),
            Some(SlabRole::System),
        ) <= most by {
            assert(keys.contains(k));
            let j = keys.index_of(k);
            assert(keys[j] == k);
        }
        best
    }

    /// Number of registered slabs.
    pub fn len(&self) -> (n: usize)
        ensures
            n == self.map().dom().len(),
    {
        broadcast use vstd::std_specs::hash::group_hash_axioms;

        self.slabs.len()
    }

    /// Whether the registry is empty.
    pub fn is_empty(&self) -> (yes: bool)
        ensures
            yes == (self.map().dom().len() == 0),
    {
        broadcast use vstd::std_specs::hash::group_hash_axioms;

        self.slabs.len() == 0
    }

    /// Free slots across all slabs.
    pub fn total_free_slots(&self) -> (n: u64)
        requires
            self.wf(),
            forall|keys: Seq<u128>| #[trigger]
                maps::enumerates(keys, self.map()) ==> free_sum(self.map(), keys, keys.len())
                    <= u64::MAX,
        ensures
            exists|keys: Seq<u128>| #[trigger]
                maps::enumerates(keys, self.map()) && n == free_sum(self.map(), keys, keys.len()),
    {
        let keys = maps::keys_of(&self.slabs);
        let ghost m = self.map();
        let mut sum: u64 = 0;
        let mut i: usize = 0;
        while i < keys.len()
            invariant
                i <= keys@.len(),
                self.wf(),
                m == self.map(),
                maps::enumerates(keys@, m),
                free_sum(m, keys@, keys@.len()) <= u64::MAX,
                sum == free_sum(m, keys@, i as nat),
            decreases keys@.len() - i,
        {
            broadcast use vstd::std_specs::hash::group_hash_axioms;

            proof {
                assert(keys@.contains(keys@[i as int]));
                lemma_sums_grow(m, keys@, (i + 1) as nat, keys@.len());
            }
            match self.slabs.get(&keys[i]) {
                Some(r) => {
                    sum = sum + r.slab.free_slots();
                },
                None => {
                    assert(false);
                },
            }
            i = i + 1;
        }
        sum
    }

    /// Slots across all slabs.
    pub fn total_slots(&self) -> (n: u64)
        requires
            self.wf(),
            forall|keys: Seq<u128>| #[trigger]
                maps::enumerates(keys, self.map()) ==> slot_sum(self.map(), keys, keys.len())
                    <= u64::MAX,
        ensures
            exists|keys: Seq<u128>| #[trigger]
                maps::enumerates(keys, self.map()) && n == slot_sum(self.map(), keys, keys.len()),
    {
        let keys = maps::keys_of(&self.slabs);
        let ghost m = self.map();
        let mut sum: u64 = 0;
        let mut i: usize = 0;
        while i < keys.len()
            invariant
                i <= keys@.len(),
                self.wf(),
                m == self.map(),
                maps::enumerates(keys@, m),
                slot_sum(m, keys@, keys@.len()) <= u64::MAX,
                sum == slot_sum(m, keys@, i as nat),
            decreases keys@.len() - i,
        {
            broadcast use vstd::std_specs::hash::group_hash_axioms;

            proof {
                assert(keys@.contains(keys@[i as int]));
                lemma_sums_grow(m, keys@, (i + 1) as nat, keys@.len());
            }
            match self.slabs.get(&keys[i]) {
                Some(r) => {
                    sum = sum + r.slab.total_slots();
                },
                None => {
                    assert(false);
                },
            }
            i = i + 1;
        }
        sum
    }
}

impl Default for SlabRegistry {
    fn default() -> (r: Self)
        ensures
            r.wf(),
            r.map() == Map::<u128, SlabRecord>::empty(),
            forall|t: StorageTier| (#[trigger] r.on_tier(t)).len() == 0,
            r.reserved() == Set::<(SlabId, u32)>::empty(),
            r.labels().len() == 0,
            r.node().len() == 0,
    {
        Self::new()
    }
}

/// A key that comes next in a list without repeats was not there before.
proof fn lemma_next_key(keys: Seq<u128>, i: int)
    requires
        keys.no_duplicates(),
        0 <= i < keys.len(),
    ensures
        !keys.take(i).contains(keys[i]),
        forall|k: u128| #[trigger]
            keys.take(i + 1).contains(k) <==> (keys.take(i).contains(k) || k == keys[i]),
{
    let done = keys.take(i);
    let now = keys.take(i + 1);
    assert(now =~= done.push(keys[i]));
    if done.contains(keys[i]) {
        let m = done.index_of(keys[i]);
        assert(keys[m] == keys[i]);
    }
    assert forall|k: u128| #[trigger] now.contains(k) <==> (done.contains(k) || k == keys[i]) by {
        if done.contains(k) {
            let m = done.index_of(k);
            assert(now[m] == k);
        }
        if k == keys[i] {
            assert(now[i] == k);
        }
    }
}

/// Labels registered later do not change what the earlier ones say.
proof fn lemma_labels_prefix(a: Seq<DeviceLabels>, b: Seq<DeviceLabels>, path: Seq<char>, n: nat)
    requires
        n <= a.len() <= b.len(),
        forall|i: int| 0 <= i < n ==> #[trigger] a[i] == b[i],
    ensures
        labels_of(a, path, n) == labels_of(b, path, n),
    decreases n,
{
    if n > 0 {
        lemma_labels_prefix(a, b, path, (n - 1) as nat);
        assert(a[n - 1] == b[n - 1]);
    }
}

/// A slot handed out and not yet mapped is never taken for a leak: it stays
/// reserved until it is committed, whatever else is reserved or committed.
pub proof fn a_reservation_holds_until_committed(
    before: Set<(SlabId, u32)>,
    x: (SlabId, u32),
    y: (SlabId, u32),
)
    requires
        before.contains(x),
        x != y,
    ensures
        before.insert(y).contains(x),
        before.remove(y).contains(x),
{
}

impl SlabRegistry {
    /// The tier of each slab that is registered.
    pub open spec fn tiers_of(&self) -> Map<u128, StorageTier> {
        self.map().map_values(|r: SlabRecord| r.slab.spec_header().tier)
    }

    /// Whether the list of each tier names exactly what is registered on it,
    /// each once.
    pub open spec fn in_step(&self) -> bool {
        forall|t: StorageTier| tier_index::lists(#[trigger] self.on_tier(t), t, self.tiers_of())
    }
}

/// The tier lists of a new registry name exactly what is registered: nothing.
pub proof fn a_new_registry_is_in_step(r: SlabRegistry)
    requires
        r.map() == Map::<u128, SlabRecord>::empty(),
        forall|t: StorageTier| (#[trigger] r.on_tier(t)).len() == 0,
    ensures
        r.in_step(),
{
}

/// Registering a slab of a new identity keeps the tier lists in step with what
/// is registered.
pub proof fn adding_keeps_the_tiers_in_step(before: SlabRegistry, after: SlabRegistry, r: SlabRecord)
    requires
        before.in_step(),
        !before.map().contains_key(r.slab.spec_id().0.bits),
        after.map() == before.map().insert(r.slab.spec_id().0.bits, r),
        forall|t: StorageTier| #[trigger]
            after.on_tier(t) == if t == r.slab.spec_header().tier {
                before.on_tier(t).push(r.slab.spec_id())
            } else {
                before.on_tier(t)
            },
    ensures
        after.in_step(),
{
    let id = r.slab.spec_id();
    let tier = r.slab.spec_header().tier;
    assert(after.tiers_of() =~= before.tiers_of().insert(id.0.bits, tier));
    assert forall|t: StorageTier| tier_index::lists(
        #[trigger] after.on_tier(t),
        t,
        after.tiers_of(),
    ) by {
        let ids = before.on_tier(t);
        tier_index::a_list_follows_what_is_added(ids, t, before.tiers_of(), id, tier);
    }
}

/// Removing a slab keeps the tier lists in step with what is registered.
pub proof fn removing_keeps_the_tiers_in_step(before: SlabRegistry, after: SlabRegistry, id: SlabId)
    requires
        before.in_step(),
        before.map().contains_key(id.0.bits),
        after.map() == before.map().remove(id.0.bits),
        forall|t: StorageTier| #[trigger]
            after.on_tier(t) == if t == before.map()[id.0.bits].slab.spec_header().tier {
                tier_index::without(before.on_tier(t), id)
            } else {
                before.on_tier(t)
            },
    ensures
        after.in_step(),
{
    assert(after.tiers_of() =~= before.tiers_of().remove(id.0.bits));
    assert forall|t: StorageTier| tier_index::lists(
        #[trigger] after.on_tier(t),
        t,
        after.tiers_of(),
    ) by {
        let ids = before.on_tier(t);
        tier_index::a_list_follows_what_is_removed(ids, t, before.tiers_of(), id);
    }
}

} // verus!
