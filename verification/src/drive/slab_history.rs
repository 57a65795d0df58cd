//! What becomes of a slab and of the device under it, one change after the
//! other.
//!
//! A change is made in memory, and its table entries are then written as the
//! plans for them say; where a batch returned slots, the header follows. What
//! lies in the data region may change at any time.
use crate::bytes;
use crate::drive::slab;
use crate::drive::slab::{
    DeviceInfo, FormatPlan, Slab, SlabHeader, SlabId, SlabState, Slot, SlotState, HEADER_SIZE,
};
use crate::drive::slab_table;
use crate::drive::slab_table::SectorPlan;
use crate::ids::VolumeId;
use crate::placement::StorageTier;
use vstd::prelude::*;

verus! {

/// A change to a slab.
pub enum Change {
    Allocate { volume: VolumeId, vext: u64 },
    Free { slot: u32 },
    IncRef { slot: u32 },
    DecRef { slot: u32 },
    IncRefs { batch: Seq<u32> },
    DecRefs { batch: Seq<u32> },
}

/// The first free slot of a table, or minus one.
pub open spec fn first_free(slots: Seq<Slot>) -> int
    decreases slots.len(),
{
    if slots.len() == 0 {
        -1
    } else if slots[0].state == SlotState::Free {
        0
    } else {
        let rest = first_free(slots.drop_first());
        if rest < 0 {
            -1
        } else {
            rest + 1
        }
    }
}

/// The first free slot is free, and none before it is; where there is none, no
/// slot is free.
pub proof fn lemma_first_free(slots: Seq<Slot>)
    ensures
        ({
            let r = first_free(slots);
            &&& -1 <= r < slots.len()
            &&& r >= 0 ==> slots[r].state == SlotState::Free
            &&& forall|j: int|
                0 <= j < slots.len() && (r < 0 || j < r) ==> (#[trigger] slots[j]).state
                    != SlotState::Free
        }),
    decreases slots.len(),
{
    if slots.len() > 0 && slots[0].state != SlotState::Free {
        let rest = slots.drop_first();
        lemma_first_free(rest);
        let r = first_free(slots);
        assert forall|j: int| 0 <= j < slots.len() && (r < 0 || j < r) implies (
        #[trigger] slots[j]).state != SlotState::Free by {
            if j > 0 {
                assert(rest[j - 1] == slots[j]);
            }
        }
    }
}

/// A slab after a change. One that is refused changes nothing.
pub open spec fn changed(st: SlabState, c: Change) -> SlabState {
    match c {
        Change::Allocate { volume, vext } => {
            let i = first_free(st.slots);
            if i < 0 {
                st
            } else {
                st.take(i, volume, vext)
            }
        },
        Change::Free { slot } => if slot < st.slots.len() && st.slots[slot as int].state
            != SlotState::Free {
            st.release(slot as int)
        } else {
            st
        },
        Change::IncRef { slot } => if st.add_fault(slot) is None {
            st.with_refs(slot as int, st.slots[slot as int].ref_count + 1)
        } else {
            st
        },
        Change::DecRef { slot } => if slot < st.slots.len() && slab::live(
            st.slots[slot as int],
        ) {
            st.drop_ref(slot as int)
        } else {
            st
        },
        Change::IncRefs { batch } => if st.first_fault(batch, batch.len()) is None {
            st.add_refs(batch)
        } else {
            st
        },
        Change::DecRefs { batch } => st.drop_refs(batch, batch.len()),
    }
}

/// The slots whose entries a change has to write.
pub open spec fn touched(st: SlabState, c: Change) -> Seq<u32> {
    match c {
        Change::Allocate { volume, vext } => {
            let i = first_free(st.slots);
            if i < 0 {
                Seq::empty()
            } else {
                seq![i as u32]
            }
        },
        Change::Free { slot } => if slot < st.slots.len() && st.slots[slot as int].state
            != SlotState::Free {
            seq![slot]
        } else {
            Seq::empty()
        },
        Change::IncRef { slot } => if st.add_fault(slot) is None {
            seq![slot]
        } else {
            Seq::empty()
        },
        Change::DecRef { slot } => if slot < st.slots.len() && slab::live(
            st.slots[slot as int],
        ) {
            seq![slot]
        } else {
            Seq::empty()
        },
        Change::IncRefs { batch } => if st.first_fault(batch, batch.len()) is None {
            batch
        } else {
            Seq::empty()
        },
        Change::DecRefs { batch } => st.accepted(batch, batch.len()),
    }
}

/// Whether a change is a batch, whose entries are written together.
pub open spec fn is_batch(c: Change) -> bool {
    c is IncRefs || c is DecRefs
}

/// Whether the header is to be written behind the entries.
pub open spec fn header_due(st: SlabState, c: Change) -> bool {
    c matches Change::DecRefs { batch } && st.last_refs(batch, batch.len()).len() > 0
}

/// A change that was made, what was written for it, and what the slab and the
/// device hold behind it.
pub struct Step {
    pub change: Change,
    pub plans: Seq<SectorPlan>,
    pub st: SlabState,
    pub img: Seq<u8>,
}

/// Whether plans write just the entries that a change has to, and fit a device.
pub open spec fn planned(
    h: SlabHeader,
    bs: int,
    st: SlabState,
    c: Change,
    plans: Seq<SectorPlan>,
    len: int,
) -> bool {
    let table = h.table_offset as int;
    let n = st.slots.len() as int;
    let which = touched(st, c);
    &&& if is_batch(c) {
        slab_table::is_batch_plan(plans, table, n, bs, which)
    } else {
        &&& plans.len() == which.len()
        &&& forall|j: int|
            0 <= j < plans.len() ==> slab_table::is_slot_plan(
                #[trigger] plans[j],
                table,
                n,
                bs,
                which[j],
            )
    }
    &&& forall|j: int|
        0 <= j < plans.len() ==> slab_table::plan_ok(#[trigger] plans[j], table, n)
            && plans[j].offset + plans[j].len <= len
}

/// What a device holds once the plans of a step are carried out and, where it
/// is due, the header is written.
pub open spec fn written(h: SlabHeader, st: SlabState, img: Seq<u8>, s: Step) -> Seq<u8> {
    let entries = slab_table::performed_all(
        img,
        s.plans,
        h.table_offset as int,
        s.st.slots,
        s.plans.len(),
    );
    if header_due(st, s.change) {
        bytes::splice(entries, 0, slab::header_with(h, s.st.slots).encoded())
    } else {
        entries
    }
}

/// Whether a step leads from a slab and a device to the next. Its writes
/// succeed; the data region may hold anything behind it.
pub open spec fn is_step(h: SlabHeader, bs: int, st: SlabState, img: Seq<u8>, s: Step) -> bool {
    &&& s.st == changed(st, s.change)
    &&& planned(h, bs, st, s.change, s.plans, img.len() as int)
    &&& s.img.len() == img.len()
    &&& forall|p: int|
        0 <= p < h.data_offset ==> #[trigger] s.img[p] == written(h, st, img, s)[p]
}

/// Whether steps lead from one to the next.
pub open spec fn is_history(
    h: SlabHeader,
    bs: int,
    st: SlabState,
    img: Seq<u8>,
    steps: Seq<Step>,
) -> bool
    decreases steps.len(),
{
    steps.len() > 0 ==> {
        let (st1, img1) = held(st, img, steps.drop_last());
        &&& is_history(h, bs, st, img, steps.drop_last())
        &&& is_step(h, bs, st1, img1, steps.last())
    }
}

/// What slab and device hold behind steps.
pub open spec fn held(st: SlabState, img: Seq<u8>, steps: Seq<Step>) -> (SlabState, Seq<u8>) {
    if steps.len() == 0 {
        (st, img)
    } else {
        (steps.last().st, steps.last().img)
    }
}

/// Whether the regions of a slab stand in order on a device of `len` bytes.
pub open spec fn laid_out(h: SlabHeader, len: int) -> bool {
    &&& HEADER_SIZE <= h.table_offset
    &&& h.table_offset + 64 * h.total_slots <= h.data_offset <= len
    &&& h.total_slots <= u32::MAX
}

/// Whether a device holds a slab: its header, but for the number of free slots,
/// and every slot.
pub open spec fn on_disk(h: SlabHeader, st: SlabState, img: Seq<u8>) -> bool {
    &&& h.total_slots == st.slots.len()
    &&& slab::table_at(img, h.table_offset as int, st.slots.len()) == st.slots
    &&& SlabHeader::decoded(img.subrange(0, HEADER_SIZE as int)) matches Ok(d) && d == (SlabHeader {
        free_slots: d.free_slots,
        ..h
    })
}

/// An entry that a batch accepted is among those it is said to have accepted.
proof fn lemma_accepted(st: SlabState, batch: Seq<u32>, n: nat, i: u32)
    requires
        n <= batch.len(),
        i < st.slots.len(),
        slab::live(st.slots[i as int]),
        batch.take(n as int).contains(i),
    ensures
        st.accepted(batch, n).contains(i),
    decreases n,
{
    let m = (n - 1) as nat;
    let now = batch.take(n as int);
    let before = batch.take(m as int);
    let k = now.index_of(i);
    if before.contains(i) {
        lemma_accepted(st, batch, m, i);
        let a = st.accepted(batch, m);
        let at = a.index_of(i);
        assert(st.accepted(batch, n)[at] == i);
    } else {
        if k < m {
            assert(before[k] == i);
        }
        assert(batch[m as int] == i);
        assert(st.verdict(batch, m as int) is None);
        assert(st.accepted(batch, n).last() == i);
    }
}

/// A slot that a batch does not name is not counted.
proof fn lemma_unnamed(batch: Seq<u32>, i: int)
    requires
        !batch.contains(i as u32),
        0 <= i <= u32::MAX,
    ensures
        slab::occurrences(batch, i) == 0,
    decreases batch.len(),
{
    if batch.len() > 0 {
        assert(batch[batch.len() - 1] == batch.last());
        assert forall|k: int| 0 <= k < batch.drop_last().len() implies batch.drop_last()[k] != i as u32 by {
            assert(batch[k] == batch.drop_last()[k]);
        }
        lemma_unnamed(batch.drop_last(), i);
    }
}

/// A change leaves every slot alone but those whose entries it writes.
pub proof fn only_touched_slots_change(st: SlabState, c: Change, i: int)
    requires
        0 <= i < st.slots.len() <= u32::MAX,
    ensures
        changed(st, c).slots.len() == st.slots.len(),
        !touched(st, c).contains(i as u32) ==> changed(st, c).slots[i] == st.slots[i],
{
    lemma_first_free(st.slots);
    let which = touched(st, c);
    match c {
        Change::IncRefs { batch } => {
            if !which.contains(i as u32) && st.first_fault(batch, batch.len()) is None {
                lemma_unnamed(batch, i);
            }
        },
        Change::DecRefs { batch } => {
            slab::a_batch_takes_one_reference_each(st, batch, batch.len(), i);
            assert(batch.take(batch.len() as int) =~= batch);
            if batch.contains(i as u32) && slab::live(st.slots[i]) {
                lemma_accepted(st, batch, batch.len(), i as u32);
            }
        },
        _ => {
            if which.len() > 0 {
                assert(which.contains(which[0]));
            }
        },
    }
}

/// A step keeps the device in step with the slab.
pub proof fn a_step_keeps_the_disk(h: SlabHeader, bs: int, st: SlabState, img: Seq<u8>, s: Step)
    requires
        0 < bs,
        laid_out(h, img.len() as int),
        on_disk(h, st, img),
        is_step(h, bs, st, img, s),
    ensures
        on_disk(h, s.st, s.img),
{
    let table = h.table_offset as int;
    let n = st.slots.len();
    let which = touched(st, s.change);
    let slots = s.st.slots;
    assert(slots.len() == n) by {
        if n > 0 {
            only_touched_slots_change(st, s.change, 0);
        } else {
            lemma_no_slots(st, s.change);
        }
    }
    assert forall|i: int| 0 <= i < n && !which.contains(i as u32) implies #[trigger] slab::table_at(
        img,
        table,
        n,
    )[i] == slots[i] by {
        only_touched_slots_change(st, s.change, i);
    }
    let entries = slab_table::performed_all(img, s.plans, table, slots, s.plans.len());
    assert(slab::table_at(entries, table, n) == slots) by {
        if is_batch(s.change) {
            slab::a_persisted_table_is_read_back(img, s.plans, table, bs, slots, which);
        } else if which.len() == 0 {
            assert(slab::table_at(img, table, n) =~= slots);
        } else {
            lemma_one_touched(st, s.change);
            assert(slab_table::is_slot_plan(s.plans[0], table, n as int, bs, which[0]));
            assert forall|i: int| 0 <= i < n && i != which[0] implies #[trigger] slab::table_at(
                img,
                table,
                n,
            )[i] == slots[i] by {
                assert(!which.contains(i as u32));
            }
            slab::a_persisted_slot_is_read_back(img, s.plans[0], table, bs, slots, which[0]);
            reveal_with_fuel(slab_table::performed_all, 2);
        }
    }
    slab_table::plans_change_only_their_entries(img, s.plans, table, slots, s.plans.len());
    let w = written(h, st, img, s);
    let now = slab::header_with(h, slots);
    slab::header_round_trip(now);
    assert(entries.len() == img.len());
    assert(w.len() == img.len());
    assert forall|p: int| HEADER_SIZE <= p < img.len() implies #[trigger] w[p] == entries[p] by {}
    assert(slab::table_at(s.img, table, n) =~= slots) by {
        assert forall|i: int| 0 <= i < n implies #[trigger] slab::table_at(s.img, table, n)[i]
            == slots[i] by {
            let at = table + 64 * i;
            assert(s.img.subrange(at, at + 64) =~= entries.subrange(at, at + 64));
            assert(slab::table_at(entries, table, n)[i] == slots[i]);
        }
    }
    let head = s.img.subrange(0, HEADER_SIZE as int);
    if header_due(st, s.change) {
        assert(head =~= now.encoded());
    } else {
        assert(head =~= img.subrange(0, HEADER_SIZE as int));
    }
}

proof fn lemma_no_slots(st: SlabState, c: Change)
    requires
        st.slots.len() == 0,
    ensures
        changed(st, c).slots.len() == 0,
{
    match c {
        Change::DecRefs { batch } => lemma_no_drops(st, batch, batch.len()),
        _ => {},
    }
}

proof fn lemma_no_drops(st: SlabState, batch: Seq<u32>, n: nat)
    requires
        st.slots.len() == 0,
        n <= batch.len(),
    ensures
        st.drop_refs(batch, n) == st,
    decreases n,
{
    if n > 0 {
        lemma_no_drops(st, batch, (n - 1) as nat);
    }
}

proof fn lemma_one_touched(st: SlabState, c: Change)
    requires
        !is_batch(c),
        touched(st, c).len() > 0,
        st.slots.len() <= u32::MAX,
    ensures
        touched(st, c).len() == 1,
        touched(st, c)[0] < st.slots.len(),
{
    lemma_first_free(st.slots);
}

/// Whatever changes a slab goes through, the device holds it behind each.
pub proof fn a_history_keeps_the_disk(
    h: SlabHeader,
    bs: int,
    st: SlabState,
    img: Seq<u8>,
    steps: Seq<Step>,
)
    requires
        0 < bs,
        laid_out(h, img.len() as int),
        on_disk(h, st, img),
        is_history(h, bs, st, img, steps),
    ensures
        on_disk(h, held(st, img, steps).0, held(st, img, steps).1),
        held(st, img, steps).1.len() == img.len(),
    decreases steps.len(),
{
    if steps.len() > 0 {
        a_history_keeps_the_disk(h, bs, st, img, steps.drop_last());
        let (st1, img1) = held(st, img, steps.drop_last());
        a_step_keeps_the_disk(h, bs, st1, img1, steps.last());
    }
}

/// Whether opening what a device holds may give `r`: the header that is read
/// from it has the identity and the header of `r`, and the table has its slots.
pub open spec fn opens_as(img: Seq<u8>, r: Slab) -> bool {
    SlabHeader::decoded(img.subrange(0, HEADER_SIZE as int)) matches Ok(d) && {
        let table = d.table_offset as int;
        &&& r.spec_header() == d
        &&& r.spec_id().0 == d.slab_uuid
        &&& r@.slots == slab::table_at(
            img.subrange(table, table + 64 * d.total_slots),
            0,
            d.total_slots as nat,
        )
    }
}

/// A slab that was formatted, and then went through any changes whose writes
/// all succeeded, opens again as it is: the same identity, tier, slot size and
/// number of slots, the same slots field for field, and so as many that are
/// free.
pub proof fn a_changed_slab_opens_again(
    p: FormatPlan,
    dev: DeviceInfo,
    slot_size: u64,
    tier: StorageTier,
    id: SlabId,
    now: u64,
    img: Seq<u8>,
    steps: Seq<Step>,
    s: Slab,
    r: Slab,
)
    requires
        0 < slot_size,
        HEADER_SIZE + slab::SLOT_ENTRY_SIZE + slot_size <= dev.capacity,
        0 < dev.block_size,
        slab::is_fresh(p, dev, slot_size, tier, id, now),
        p.slab.spec_header().total_slots <= u32::MAX,
        img.len() == dev.capacity,
        img.subrange(0, HEADER_SIZE as int) == p.header@,
        forall|b: int|
            HEADER_SIZE <= b < HEADER_SIZE + p.slab.spec_header().total_slots * 64 ==> img[b] == 0,
        is_history(p.slab.spec_header(), dev.block_size as int, p.slab@, img, steps),
        s.spec_id() == id,
        s.spec_header() == p.slab.spec_header(),
        s@ == held(p.slab@, img, steps).0,
        opens_as(held(p.slab@, img, steps).1, r),
    ensures
        r.spec_id() == s.spec_id(),
        r.spec_header().tier == s.spec_header().tier,
        r.spec_header().slot_size == s.spec_header().slot_size,
        r.spec_header().total_slots == s.spec_header().total_slots,
        r@.slots == s@.slots,
        slab::free_flags(r@.slots) == slab::free_flags(s@.slots),
{
    let h = p.slab.spec_header();
    slab::a_fresh_slab_opens_again(p, dev, slot_size, tier, id, now, img);
    slab::formatted_slab_fits(dev, slot_size, tier, id, now);
    lemma_data_fits(h, dev.capacity as int);
    a_history_keeps_the_disk(h, dev.block_size as int, p.slab@, img, steps);
    let (st, last) = held(p.slab@, img, steps);
    let table = h.table_offset as int;
    let n = st.slots.len();
    let cut = last.subrange(table, table + 64 * n);
    assert forall|i: int| 0 <= i < n implies #[trigger] slab::table_at(cut, 0, n)[i]
        == st.slots[i] by {
        assert(cut.subrange(64 * i, 64 * i + 64) =~= last.subrange(
            table + 64 * i,
            table + 64 * i + 64,
        ));
        assert(slab::table_at(last, table, n)[i] == st.slots[i]);
    }
    assert(slab::table_at(cut, 0, n) =~= st.slots);
}

proof fn lemma_data_fits(h: SlabHeader, capacity: int)
    requires
        h.data_offset + h.total_slots * h.slot_size <= capacity,
    ensures
        h.data_offset <= capacity,
{
    assert(0 <= h.total_slots * h.slot_size) by (nonlinear_arith);
}

} // verus!
