//! What is found on drives, where it is put, and how it is written down.
use crate::drive;
use crate::drive::container::{Container, ContainerId};
use crate::drive::container_registry;
use crate::drive::container_registry::ContainerRegistry;
use crate::drive::discover;
use crate::drive::discover::{Candidate, TableEntry};
use crate::drive::slab::SlabId;
use crate::drive::slab_registry;
use crate::drive::slab_registry::{DeviceLabels, SlabRecord, SlabRegistry};
use crate::drive::slab_table;
use crate::drive::slab_table::SectorPlan;
use crate::drive::DeviceId;
use crate::order;
use crate::placement;
use crate::placement::{FailureDomain, LabelView, SlabRole, StorageTier};
use crate::text;
use vstd::prelude::*;

verus! {

/// The tiers are written as zero to three, the fastest first, and what is
/// written is read again; any other number is the slowest.
pub proof fn tiers_are_numbered(t: StorageTier, code: u8)
    ensures
        StorageTier::Hot.spec_code() == 0,
        StorageTier::Warm.spec_code() == 1,
        StorageTier::Cool.spec_code() == 2,
        StorageTier::Cold.spec_code() == 3,
        StorageTier::spec_from_code(t.spec_code()) == t,
        code > 3 ==> StorageTier::spec_from_code(code) == StorageTier::Cold,
{
}

/// What a domain says at a rung is what its innermost label for that rung says.
pub proof fn the_innermost_label_counts(d: Seq<LabelView>, rung: Seq<char>, k: int)
    ensures
        0 <= k < d.len() && d[k].0 == rung && (forall|j: int|
            0 <= j < k ==> (#[trigger] d[j]).0 != rung) ==> placement::value_at(d, rung) == Some(
            d[k].1,
        ),
        placement::value_at(d, rung) is None <==> forall|j: int|
            0 <= j < d.len() ==> (#[trigger] d[j]).0 != rung,
    decreases d.len(),
{
    if d.len() > 0 && d[0].0 != rung {
        let rest = d.drop_first();
        the_innermost_label_counts(rest, rung, k - 1);
        if k > 0 && k < d.len() && d[k].0 == rung && (forall|j: int|
            0 <= j < k ==> (#[trigger] d[j]).0 != rung) {
            assert(rest[k - 1] == d[k]);
            assert forall|j: int| 0 <= j < k - 1 implies (#[trigger] rest[j]).0 != rung by {
                assert(rest[j] == d[j + 1]);
            }
        }
        if forall|j: int| 0 <= j < rest.len() ==> (#[trigger] rest[j]).0 != rung {
            assert forall|j: int| 0 <= j < d.len() implies (#[trigger] d[j]).0 != rung by {
                if j > 0 {
                    assert(rest[j - 1] == d[j]);
                }
            }
        }
        if forall|j: int| 0 <= j < d.len() ==> (#[trigger] d[j]).0 != rung {
            assert forall|j: int| 0 <= j < rest.len() implies (#[trigger] rest[j]).0 != rung by {
                assert(rest[j] == d[j + 1]);
            }
        }
    }
}

/// A domain inside another says what it says itself, and at the rungs that it
/// says nothing of what the outer one says.
pub proof fn the_outer_domain_fills_in(
    own: Seq<LabelView>,
    outer: Seq<LabelView>,
    n: nat,
    rung: Seq<char>,
)
    requires
        n <= outer.len(),
    ensures
        placement::value_at(own, rung) is Some ==> placement::value_at(
            placement::merged(own, outer, n),
            rung,
        ) == placement::value_at(own, rung),
        placement::value_at(own, rung) is None ==> placement::value_at(
            placement::merged(own, outer, n),
            rung,
        ) == placement::value_at(outer.take(n as int), rung),
    decreases n,
{
    if n == 0 {
        assert(placement::value_at(outer.take(0), rung) is None);
    } else {
        the_outer_domain_fills_in(own, outer, (n - 1) as nat, rung);
        let before = placement::merged(own, outer, (n - 1) as nat);
        let x = outer[n - 1];
        assert(outer.take(n as int) =~= outer.take(n - 1).push(x));
        lemma_one_more(before, x, rung);
        lemma_one_more(outer.take(n - 1), x, rung);
    }
}

proof fn lemma_one_more(d: Seq<LabelView>, x: LabelView, rung: Seq<char>)
    ensures
        placement::value_at(d.push(x), rung) == (if placement::value_at(d, rung) is Some {
            placement::value_at(d, rung)
        } else if x.0 == rung {
            Some(x.1)
        } else {
            None
        }),
    decreases d.len(),
{
    if d.len() == 0 {
        assert(d.push(x).drop_first() =~= Seq::<LabelView>::empty());
        assert(placement::value_at(Seq::<LabelView>::empty(), rung) is None);
    } else if d[0].0 != rung {
        assert(d.push(x).drop_first() =~= d.drop_first().push(x));
        lemma_one_more(d.drop_first(), x, rung);
    }
}

/// A drive is known by its serial, unless nothing else is said: what its own
/// labels say comes before what the node's say.
pub proof fn where_a_slab_sits(
    device: DeviceId,
    labels: Seq<LabelView>,
    node: Seq<LabelView>,
    rung: Seq<char>,
)
    ensures
        placement::value_at(slab_registry::derived(device, Some(labels), node), "drive"@) == Some(
            device.serial@,
        ),
        placement::value_at(slab_registry::derived(device, None, node), "drive"@) == Some(
            device.serial@,
        ),
        rung != "drive"@ && placement::value_at(labels, rung) is Some ==> placement::value_at(
            slab_registry::derived(device, Some(labels), node),
            rung,
        ) == placement::value_at(labels, rung),
        rung != "drive"@ && placement::value_at(labels, rung) is None ==> placement::value_at(
            slab_registry::derived(device, Some(labels), node),
            rung,
        ) == placement::value_at(node, rung),
        rung != "drive"@ ==> placement::value_at(
            slab_registry::derived(device, None, node),
            rung,
        ) == placement::value_at(node, rung),
{
    let own = placement::device_domain(device);
    assert(own[0].0 == "drive"@);
    assert(own.drop_first() =~= Seq::<LabelView>::empty());
    assert(placement::value_at(Seq::<LabelView>::empty(), rung) is None);
    let mid = placement::merged(own, labels, labels.len());
    assert(labels.take(labels.len() as int) =~= labels);
    assert(node.take(node.len() as int) =~= node);
    the_outer_domain_fills_in(own, labels, labels.len(), rung);
    the_outer_domain_fills_in(own, labels, labels.len(), "drive"@);
    the_outer_domain_fills_in(mid, node, node.len(), rung);
    the_outer_domain_fills_in(mid, node, node.len(), "drive"@);
    the_outer_domain_fills_in(own, node, node.len(), rung);
    the_outer_domain_fills_in(own, node, node.len(), "drive"@);
}

/// The labels of a drive are those that it was last registered with.
pub proof fn the_last_labels_count(l: Seq<DeviceLabels>, path: Seq<char>, n: nat, k: int)
    requires
        n <= l.len(),
    ensures
        0 <= k < n && l[k].path@ == path && (forall|j: int|
            k < j < n ==> (#[trigger] l[j]).path@ != path) ==> slab_registry::labels_of(l, path, n)
            == Some(l[k].labels@),
        (forall|j: int| 0 <= j < n ==> (#[trigger] l[j]).path@ != path) ==> slab_registry::labels_of(
            l,
            path,
            n,
        ) is None,
    decreases n,
{
    if n > 0 {
        the_last_labels_count(l, path, (n - 1) as nat, k);
        assert(l[n - 1].path@ == path || l[n - 1].path@ != path);
    }
}

/// A slab has its free slots to give, unless it is quarantined, of another role,
/// or not registered.
pub proof fn what_a_slab_has_to_give(m: Map<u128, SlabRecord>, id: SlabId, role: SlabRole)
    ensures
        !m.contains_key(id.0.bits) ==> slab_registry::room(m, id, Some(role)) == 0
            && slab_registry::room(m, id, None) == 0,
        m.contains_key(id.0.bits) && m[id.0.bits].quarantined ==> slab_registry::room(
            m,
            id,
            Some(role),
        ) == 0 && slab_registry::room(m, id, None) == 0,
        m.contains_key(id.0.bits) && m[id.0.bits].role != role ==> slab_registry::room(
            m,
            id,
            Some(role),
        ) == 0,
        m.contains_key(id.0.bits) && !m[id.0.bits].quarantined ==> slab_registry::room(m, id, None)
            == m[id.0.bits].free(),
        m.contains_key(id.0.bits) && !m[id.0.bits].quarantined && m[id.0.bits].role == role
            ==> slab_registry::room(m, id, Some(role)) == m[id.0.bits].free(),
{
}

/// Two domains collide at a rung exactly where one that is taken says there what
/// the other says; where either says nothing, they do not.
pub proof fn when_domains_collide(
    d: Seq<LabelView>,
    taken: Seq<FailureDomain>,
    rung: Seq<char>,
    n: nat,
)
    requires
        n <= taken.len(),
    ensures
        slab_registry::collides_with(d, taken, rung, n) <==> exists|k: int|
            0 <= k < n && placement::value_at(d, rung) is Some && placement::value_at(
                (#[trigger] taken[k])@,
                rung,
            ) == placement::value_at(d, rung),
    decreases n,
{
    if n > 0 {
        when_domains_collide(d, taken, rung, (n - 1) as nat);
        let t = taken[n - 1]@;
        if t.len() == 0 {
            assert(placement::value_at(t, rung) is None);
        }
        if placement::value_at(d, rung) is Some && placement::value_at(t, rung)
            == placement::value_at(d, rung) {
            assert(slab_registry::collides_with(d, taken, rung, n));
        }
    }
}

/// The slab that is picked has room, no other on the list has more, and none
/// behind it as much.
pub proof fn the_most_room_wins(scores: Seq<u64>, k: int, j: int)
    requires
        order::is_last_max(scores, k),
        0 <= j < scores.len(),
    ensures
        0 <= k < scores.len(),
        scores[k] > 0,
        scores[j] <= scores[k],
        j > k ==> scores[j] < scores[k],
{
}

/// The container that is picked has room, no other on the list has more, and none
/// behind it as much.
pub proof fn the_roomiest_container_wins(
    m: Map<u128, Container>,
    ids: Seq<ContainerId>,
    k: int,
    j: int,
)
    requires
        container_registry::is_best(m, ids, k),
        0 <= j < ids.len(),
        m.contains_key(ids[j].0.bits),
        m[ids[j].0.bits].spec_free() > 0,
    ensures
        0 <= k < ids.len(),
        m.contains_key(ids[k].0.bits),
        m[ids[k].0.bits].spec_free() > 0,
        m[ids[j].0.bits].spec_free() <= m[ids[k].0.bits].spec_free(),
        j > k ==> m[ids[j].0.bits].spec_free() < m[ids[k].0.bits].spec_free(),
{
    assert(container_registry::has_room(m, ids[j]));
}

/// Of a list of slabs the room counts that are apart from what is taken; what
/// collides counts as full.
pub proof fn room_apart_is_room_or_nothing(
    m: Map<u128, SlabRecord>,
    ids: Seq<SlabId>,
    role: SlabRole,
    taken: Seq<FailureDomain>,
    rung: Seq<char>,
    i: int,
)
    requires
        0 <= i < ids.len(),
        0 <= slab_registry::room(m, ids[i], Some(role)) <= u64::MAX,
    ensures
        ({
            let r = slab_registry::rooms_apart(m, ids, role, taken, rung);
            let collides = slab_registry::collides_with(
                m[ids[i].0.bits].domain@,
                taken,
                rung,
                taken.len(),
            );
            &&& r.len() == ids.len()
            &&& slab_registry::rooms(m, ids, Some(role)).len() == ids.len()
            &&& slab_registry::rooms(m, ids, Some(role))[i] == slab_registry::room(
                m,
                ids[i],
                Some(role),
            )
            &&& collides ==> r[i] == 0
            &&& !collides ==> r[i] == slab_registry::room(m, ids[i], Some(role))
        }),
{
}

/// Slots are summed slab by slab.
pub proof fn slots_are_summed(
    m: Map<u128, SlabRecord>,
    c: Map<u128, Container>,
    keys: Seq<u128>,
    n: nat,
)
    ensures
        slab_registry::free_sum(m, keys, 0) == 0,
        slab_registry::slot_sum(m, keys, 0) == 0,
        slab_registry::free_sum(m, keys, n + 1) - slab_registry::free_sum(m, keys, n)
            == m[keys[n as int]].free(),
        slab_registry::slot_sum(m, keys, n + 1) - slab_registry::slot_sum(m, keys, n)
            == m[keys[n as int]].slab@.slots.len(),
        container_registry::free_sum(c, keys, 0) == 0,
        container_registry::slot_sum(c, keys, 0) == 0,
        container_registry::free_sum(c, keys, n + 1) - container_registry::free_sum(c, keys, n)
            == c[keys[n as int]].spec_free(),
        container_registry::slot_sum(c, keys, n + 1) - container_registry::slot_sum(c, keys, n)
            == c[keys[n as int]].slab@.slots.len(),
{
}

/// What a new label changes of a slab is its domain alone.
pub proof fn a_label_changes_the_domain_alone(
    before: SlabRecord,
    after: SlabRecord,
    d: Seq<LabelView>,
)
    requires
        slab_registry::redomained(before, after, d),
    ensures
        after.domain@ == d,
        after.slab == before.slab,
        after.role == before.role,
        after.device == before.device,
        after.quarantined == before.quarantined,
{
}

/// The windows of a table are those of its entries that lie on the device in
/// whole blocks, in the table's order and each once.
pub proof fn the_windows_of_a_table(
    es: Seq<TableEntry>,
    lba: int,
    block_size: int,
    capacity: int,
    n: nat,
    i: int,
)
    requires
        n <= es.len(),
    ensures
        ({
            let which = discover::usable_upto(es, lba, block_size, capacity, n);
            &&& forall|a: int, b: int| 0 <= a < b < which.len() ==> which[a] < which[b]
            &&& forall|a: int| 0 <= a < which.len() ==> 0 <= #[trigger] which[a] < n
            &&& which.contains(i) <==> 0 <= i < n && 0 < es[i].first_lba <= es[i].last_lba && (
            es[i].first_lba * lba) % block_size == 0 && ((es[i].last_lba - es[i].first_lba + 1)
                * lba) % block_size == 0 && es[i].first_lba * lba + (es[i].last_lba
                - es[i].first_lba + 1) * lba <= capacity
        }),
    decreases n,
{
    if n > 0 {
        the_windows_of_a_table(es, lba, block_size, capacity, (n - 1) as nat, i);
        let before = discover::usable_upto(es, lba, block_size, capacity, (n - 1) as nat);
        let which = discover::usable_upto(es, lba, block_size, capacity, n);
        if discover::usable(es[n - 1], lba, block_size, capacity) {
            assert(which[before.len() as int] == n - 1);
            if before.contains(i) {
                let k = choose|k: int| 0 <= k < before.len() && before[k] == i;
                assert(which[k] == i);
            }
            if which.contains(i) {
                let k = choose|k: int| 0 <= k < which.len() && which[k] == i;
                if k < before.len() {
                    assert(before[k] == i);
                }
            }
        }
    }
}

/// A window begins at its entry's first block and ends behind its last, and goes
/// under the entry's name, or under its place in the table, counted from one.
pub proof fn a_window_lies_where_its_entry_says(
    c: Candidate,
    e: TableEntry,
    i: int,
    lba: int,
    parent: DeviceId,
)
    requires
        0 <= i,
        discover::is_window(c, e, i, lba, parent),
    ensures
        c.part.start == e.first_lba * lba,
        c.part.start + c.part.len == (e.last_lba + 1) * lba,
        e.name@.len() > 0 ==> c.label@ == e.name@,
        e.name@.len() == 0 ==> c.label@ == "partition "@ + text::decimal((i + 1) as nat),
{
    let f = e.first_lba as int;
    let l = e.last_lba as int;
    assert(f * lba + (l + 1 - f) * lba == (l + 1) * lba) by (nonlinear_arith);
}

/// The plan for a slot writes the slot: its entry is among those that the plan
/// names, and lies in the bytes that the plan writes.
pub proof fn a_slot_plan_writes_its_slot(
    plan: SectorPlan,
    table: int,
    n: int,
    bs: int,
    idx: u32,
)
    requires
        slab_table::is_slot_plan(plan, table, n, bs, idx),
        slab_table::plan_ok(plan, table, n),
        0 <= table,
        idx < n <= u32::MAX,
        bs <= 64 || bs % 64 == 0,
    ensures
        plan.slots@.contains(idx),
        plan.offset <= table + 64 * idx,
        table + 64 * idx + 64 <= plan.offset + plan.len,
{
    if bs > 64 && !plan.read_first {
        let e = bs / 64;
        let q = idx as int / e;
        vstd::arithmetic::div_mod::lemma_fundamental_div_mod(idx as int, e);
        vstd::arithmetic::div_mod::lemma_mod_bound(idx as int, e);
        let k = idx as int % e;
        assert(q * e + k == idx) by (nonlinear_arith)
            requires
                idx as int == e * q + k,
        ;
        assert(plan.slots@[k] == idx);
    } else {
        assert(plan.slots@[0] == idx);
    }
    let m = choose|m: int| 0 <= m < plan.slots@.len() && plan.slots@[m] == idx;
    assert(slab_table::entry_pos(table, plan.slots@[m] as int) == table + 64 * idx);
}

/// Plans for a batch write every slot that the batch names, and no other.
pub proof fn a_batch_plan_writes_its_batch(
    plans: Seq<SectorPlan>,
    table: int,
    n: int,
    bs: int,
    batch: Seq<u32>,
    x: u32,
)
    requires
        slab_table::is_batch_plan(plans, table, n, bs, batch),
        bs > 64 || batch.len() == plans.len(),
    ensures
        batch.contains(x) <==> exists|j: int|
            0 <= j < plans.len() && #[trigger] plans[j].slots@.contains(x),
{
    if bs <= 64 {
        if batch.contains(x) {
            let j = choose|j: int| 0 <= j < batch.len() && batch[j] == x;
            assert(slab_table::is_slot_plan(plans[j], table, n, bs, batch[j]));
            assert(plans[j].slots@[0] == x);
            assert(plans[j].slots@.contains(x));
        }
        if exists|j: int| 0 <= j < plans.len() && #[trigger] plans[j].slots@.contains(x) {
            let j = choose|j: int| 0 <= j < plans.len() && #[trigger] plans[j].slots@.contains(x);
            assert(slab_table::is_slot_plan(plans[j], table, n, bs, batch[j]));
            assert(plans[j].slots@ =~= seq![batch[j]]);
            assert(batch[j] == x);
        }
    }
}

/// Runs are as long as can be and hold the numbers that they are of: one behind
/// another with at least one number left out between them.
pub proof fn runs_hold_their_numbers(runs: Seq<(u32, u32)>, of: Seq<u32>, x: u32, i: int, j: int)
    requires
        order::are_runs(runs, of),
        0 <= i < runs.len(),
        0 <= j < runs.len(),
    ensures
        runs[i].0 <= x <= runs[i].1 ==> of.contains(x),
        i < j ==> runs[i].1 + 1 < runs[j].0,
        runs[i].0 > 0 && x == runs[i].0 - 1 ==> !of.contains(x),
        x == runs[i].1 + 1 ==> !of.contains(x),
        runs[i].0 <= x <= runs[i].1 && runs[j].0 <= x <= runs[j].1 ==> i == j,
{
    if i < j {
        assert(runs[i].1 + 1 < runs[j].0);
    }
    if j < i {
        assert(runs[j].1 + 1 < runs[i].0);
    }
    if of.contains(x) {
        let k = choose|k: int|
            0 <= k < runs.len() && (#[trigger] runs[k]).0 <= x <= runs[k].1;
        if k < i {
            assert(runs[k].1 + 1 < runs[i].0);
        }
        if i < k {
            assert(runs[i].1 + 1 < runs[k].0);
        }
    }
}

/// A sorted list rises from place to place and has the members of what was
/// sorted.
pub proof fn a_sorted_list_rises(s: Seq<u32>, of: Seq<u32>, i: int, x: u32)
    requires
        order::lists(s, of),
    ensures
        0 < i < s.len() ==> s[i - 1] < s[i],
        s.contains(x) <==> of.contains(x),
{
}

/// The address of an iSCSI target is its host, its port and its name, in that
/// order; a host without a slash or colon and a port of digits are enough.
pub proof fn an_iscsi_address_is_read(host: Seq<char>, port: u16, iqn: Seq<char>)
    requires
        host.len() > 0,
        iqn.len() > 0,
        !host.contains(':'),
        !host.contains('/'),
    ensures
        drive::iscsi_uri(
            "iscsi://"@ + (host + seq![':'] + text::decimal(port as nat) + seq!['/'] + iqn),
        ) == Some((host, port, iqn)),
{
    let p = text::decimal(port as nat);
    let addr = host + seq![':'] + p;
    let rest = addr + seq!['/'] + iqn;
    crate::text_promises::a_prefix_is_taken_off(rest, "iscsi://"@);
    text::decimal_round_trip(port as nat, u16::MAX as nat);
    lemma_decimal_is_digits(port as nat);
    assert(!addr.contains('/')) by {
        if addr.contains('/') {
            let k = choose|k: int| 0 <= k < addr.len() && addr[k] == '/';
            if k < host.len() {
                assert(host[k] == '/');
            } else if k > host.len() {
                assert(p[k - host.len() - 1] == '/');
            }
        }
    }
    crate::text_promises::a_text_is_split_at_the_first(addr, '/', iqn);
    crate::text_promises::a_text_is_split_at_the_first(host, ':', p);
}

proof fn lemma_decimal_is_digits(n: nat)
    ensures
        forall|i: int|
            0 <= i < text::decimal(n).len() ==> '0' <= (#[trigger] text::decimal(n)[i]) <= '9',
    decreases n,
{
    if n >= 10 {
        lemma_decimal_is_digits(n / 10);
        let d = text::decimal(n / 10);
        assert forall|i: int| 0 <= i < text::decimal(n).len() implies '0' <= (
        #[trigger] text::decimal(n)[i]) <= '9' by {
            if i < d.len() {
                assert(text::decimal(n)[i] == d[i]);
            }
        }
    }
}

/// A path that has a scheme's mark in it anywhere is one with a scheme.
pub proof fn a_mark_is_found_anywhere(a: Seq<char>, needle: Seq<char>, b: Seq<char>)
    ensures
        drive::holds_text(a + needle + b, needle),
{
    let s = a + needle + b;
    assert(s.subrange(a.len() as int, a.len() as int + needle.len()) =~= needle);
}

/// The slab that is picked on a tier is one of the tier, has room of the role that
/// is asked for, and none on the tier has more; where none is picked, none has
/// any.
pub proof fn the_slab_that_is_picked_has_the_most_room(
    r: SlabRegistry,
    tier: StorageTier,
    role: SlabRole,
    id: SlabId,
    other: SlabId,
)
    requires
        r.on_tier(tier).contains(other),
        0 <= slab_registry::room(r.map(), id, Some(role)) <= u64::MAX,
        0 <= slab_registry::room(r.map(), other, Some(role)) <= u64::MAX,
    ensures
        r.is_tier_best(tier, role, Some(id)) ==> r.on_tier(tier).contains(id)
            && slab_registry::room(r.map(), id, Some(role)) > 0 && slab_registry::room(
            r.map(),
            other,
            Some(role),
        ) <= slab_registry::room(r.map(), id, Some(role)),
        r.is_tier_best(tier, role, None) ==> slab_registry::room(r.map(), other, Some(role)) == 0,
{
    let ids = r.on_tier(tier);
    let scores = slab_registry::rooms(r.map(), ids, Some(role));
    let j = choose|j: int| 0 <= j < ids.len() && ids[j] == other;
    assert(scores[j] == slab_registry::room(r.map(), other, Some(role)) as u64);
    if r.is_tier_best(tier, role, Some(id)) {
        let k = choose|k: int| #[trigger] order::is_last_max(scores, k) && id == ids[k];
        the_most_room_wins(scores, k, j);
        assert(scores[k] == slab_registry::room(r.map(), id, Some(role)) as u64);
        assert(ids[k] == id);
    }
}

/// A tier that is passed over has no container with room.
pub proof fn a_tier_is_passed_over_where_it_is_full(
    r: ContainerRegistry,
    pref: Seq<StorageTier>,
    n: int,
    p: int,
    id: ContainerId,
)
    requires
        r.tiers_full(pref, n),
        0 <= p < n,
        r.on_tier(pref[p]).contains(id),
    ensures
        !(r.map().contains_key(id.0.bits) && r.map()[id.0.bits].spec_free() > 0),
{
    let ids = r.on_tier(pref[p]);
    let j = choose|j: int| 0 <= j < ids.len() && ids[j] == id;
    assert(!container_registry::has_room(r.map(), r.on_tier(pref[p])[j]));
}

} // verus!
