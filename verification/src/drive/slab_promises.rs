//! What holds of a slab, whatever is done with it: where things stand on its
//! device, whose each slot is, and what a change leaves alone.
use crate::align;
use crate::bits;
use crate::bytes;
use crate::digest;
use crate::drive::slab;
use crate::drive::slab::{
    DecRefReject, DeviceInfo, SlabError, SlabHeader, SlabId, SlabState, Slot, SlotState,
};
use crate::drive::slab_table;
use crate::ids::VolumeId;
use crate::placement::StorageTier;
use vstd::prelude::*;

verus! {

/// A formatted slab wastes no slot. Let `most` be the number of slots, each with
/// its entry, that the space behind the header holds. The table has room for
/// so many entries, and the data region begins at the first multiple of the
/// slot size behind it. There are `most` slots, or one more would end past the
/// device.
pub proof fn a_formatted_slab_wastes_no_slot(
    dev: DeviceInfo,
    slot_size: u64,
    tier: StorageTier,
    id: SlabId,
    now: u64,
    most: int,
)
    requires
        0 < slot_size,
        1 <= most,
        4096 + most * (64 + slot_size) <= dev.capacity,
        dev.capacity < 4096 + (most + 1) * (64 + slot_size),
    ensures
        ({
            let h = slab::fresh_header(dev, slot_size, tier, id, now);
            &&& h.table_offset == 4096
            &&& 4096 + most * 64 <= h.data_offset
            &&& h.data_offset < 4096 + most * 64 + slot_size
            &&& h.data_offset as int % slot_size as int == 0
            &&& h.total_slots <= most
            &&& h.data_offset + h.total_slots * slot_size <= dev.capacity
            &&& h.total_slots == most || h.data_offset + (h.total_slots + 1) * slot_size
                > dev.capacity
            &&& h.free_slots == h.total_slots
            &&& h.slot_size == slot_size
            &&& h.slab_uuid == id.0
            &&& h.device_uuid == dev.uuid
            &&& h.tier == tier
            &&& h.create_time == now
            &&& h.update_time == now
        }),
{
    let cap = dev.capacity as int;
    let ss = slot_size as int;
    let per = 64 + ss;
    let usable = cap - 4096;
    assert(usable >= per) by (nonlinear_arith)
        requires
            usable == cap - 4096,
            4096 + most * per <= cap,
            most >= 1,
            per > 0,
    ;
    vstd::arithmetic::div_mod::lemma_fundamental_div_mod(usable, per);
    let guess = usable / per;
    assert(guess == most) by (nonlinear_arith)
        requires
            usable == per * guess + usable % per,
            0 <= usable % per < per,
            most * per <= usable < (most + 1) * per,
            per > 0,
    ;
    assert(slab::slots_by_size(cap, ss) == most);
    slab::formatted_slab_fits(dev, slot_size, tier, id, now);
    let raw = 4096 + most * 64;
    align::round_up_is_least_multiple(raw, ss);
    let start = slab::data_start(cap, ss);
    assert(start == align::round_up(raw, ss));
    assert(raw + ss <= cap) by (nonlinear_arith)
        requires
            raw == 4096 + most * 64,
            4096 + most * (64 + ss) <= cap,
            most >= 1,
            ss > 0,
    ;
    assert(start <= cap);
    let fit = (cap - start) / ss;
    vstd::arithmetic::div_mod::lemma_fundamental_div_mod(cap - start, ss);
    vstd::arithmetic::div_mod::lemma_div_pos_is_pos(cap - start, ss);
    assert(start + (fit + 1) * ss > cap && fit <= cap - start) by (nonlinear_arith)
        requires
            cap - start == ss * fit + (cap - start) % ss,
            0 <= (cap - start) % ss < ss,
            ss > 0,
            fit >= 0,
    ;
    let total = slab::slot_total(cap, ss);
    assert(total == most || total == fit);
    assert(0 <= total <= u64::MAX);
}

/// A device is refused as too small exactly if it cannot hold the header, one
/// entry and one slot; and a slot fits none of those that are not exactly if
/// none is left behind the start of the data region.
pub proof fn a_slab_has_a_slot_where_one_fits(capacity: int, slot_size: int)
    requires
        0 < slot_size,
        4096 + 64 + slot_size <= capacity <= u64::MAX,
    ensures
        slab::slot_total(capacity, slot_size) == 0 <==> slab::data_start(capacity, slot_size)
            + slot_size > capacity,
{
    let usable = capacity - 4096;
    let per = 64 + slot_size;
    let guess = usable / per;
    vstd::arithmetic::div_mod::lemma_fundamental_div_mod(usable, per);
    assert(guess >= 1) by (nonlinear_arith)
        requires
            usable == per * guess + usable % per,
            usable % per < per,
            usable >= per,
            per > 0,
    ;
    let start = slab::data_start(capacity, slot_size);
    let room = if capacity < start {
        0
    } else {
        capacity - start
    };
    let fit = room / slot_size;
    vstd::arithmetic::div_mod::lemma_fundamental_div_mod(room, slot_size);
    vstd::arithmetic::div_mod::lemma_div_pos_is_pos(room, slot_size);
    assert(fit >= 1 <==> room >= slot_size) by (nonlinear_arith)
        requires
            room == slot_size * fit + room % slot_size,
            0 <= room % slot_size < slot_size,
            fit >= 0,
            slot_size > 0,
    ;
}

/// Slots stand one behind the other, the first where the data region begins,
/// and their entries one behind the other in the table, the first where the
/// table does.
pub proof fn slots_stand_back_to_back(h: SlabHeader, i: int)
    ensures
        slab::slot_offset(h, 0) == h.data_offset,
        slab::slot_offset(h, i + 1) == slab::slot_offset(h, i) + h.slot_size,
        slab_table::entry_pos(h.table_offset as int, 0) == h.table_offset,
        slab_table::entry_pos(h.table_offset as int, i + 1) == slab_table::entry_pos(
            h.table_offset as int,
            i,
        ) + 64,
{
    assert(0 * h.slot_size == 0) by (nonlinear_arith);
    assert((i + 1) * h.slot_size == i * h.slot_size + h.slot_size) by (nonlinear_arith);
}

/// The range of a run of slots begins with its first slot and ends with its
/// last, whatever lies between.
pub proof fn a_run_is_its_slots(h: SlabHeader, runs: Seq<(u32, u32)>, k: int)
    requires
        slab::geometry_ok(h),
        0 <= k < runs.len(),
        runs[k].0 <= runs[k].1 < h.total_slots,
    ensures
        slab::run_ranges(h, runs).len() == runs.len(),
        slab::run_ranges(h, runs)[k].0 == slab::slot_offset(h, runs[k].0 as int),
        slab::run_ranges(h, runs)[k].0 + slab::run_ranges(h, runs)[k].1 == slab::slot_offset(
            h,
            runs[k].1 as int,
        ) + h.slot_size,
{
    let a = runs[k].0 as int;
    let b = runs[k].1 as int;
    let ss = h.slot_size as int;
    assert(0 <= a * ss && a * ss + (b - a + 1) * ss == b * ss + ss && b * ss + ss
        <= h.total_slots * ss && 0 <= (b - a + 1) * ss) by (nonlinear_arith)
        requires
            0 <= a <= b < h.total_slots,
            0 <= ss,
    ;
}

/// A table is written padded to whole blocks, and to no more of them than it
/// needs.
pub proof fn a_table_is_padded_to_whole_blocks(n: int, bs: int)
    requires
        0 <= n,
        0 <= bs,
    ensures
        n * 64 <= slab::padded_table(n, bs),
        bs > 1 ==> slab::padded_table(n, bs) % bs == 0 && slab::padded_table(n, bs) < n * 64 + bs,
        bs <= 1 ==> slab::padded_table(n, bs) == n * 64,
{
    if bs > 1 {
        align::round_up_is_least_multiple(n * 64, bs);
    }
}

/// A slot that is given out is the extent's that it was given to, with one
/// reference, and is found under that extent; no other slot changes, and no
/// other extent is found elsewhere.
pub proof fn a_slot_is_its_extents(
    st: SlabState,
    i: int,
    volume: VolumeId,
    vext: u64,
    j: int,
    k: (VolumeId, u64),
)
    requires
        0 <= i < st.slots.len() <= u32::MAX,
        0 <= j < st.slots.len(),
    ensures
        ({
            let after = st.take(i, volume, vext);
            &&& after.slots.len() == st.slots.len()
            &&& after.slots[i].state == SlotState::Allocated
            &&& after.slots[i].volume_id == volume
            &&& after.slots[i].virtual_extent_idx == vext
            &&& after.slots[i].ref_count == 1
            &&& after.slots[i].generation == 1
            &&& j != i ==> after.slots[j] == st.slots[j]
            &&& after.index.contains_key((volume, vext)) && after.index[(volume, vext)] == i
            &&& k != (volume, vext) ==> (after.index.contains_key(k) <==> st.index.contains_key(k))
            &&& k != (volume, vext) && st.index.contains_key(k) ==> after.index[k] == st.index[k]
        }),
{
}

/// A slot that is returned is nobody's: it is free, without references, and no
/// extent is found there any more. No other slot changes, and what is found in
/// another slot is found there still.
pub proof fn a_returned_slot_is_nobodys(st: SlabState, i: int, j: int, k: (VolumeId, u64))
    requires
        st.index_ok(),
        0 <= i < st.slots.len() <= u32::MAX,
        0 <= j < st.slots.len(),
    ensures
        ({
            let after = st.release(i);
            &&& after.slots.len() == st.slots.len()
            &&& after.slots[i].state == SlotState::Free
            &&& after.slots[i].ref_count == 0
            &&& after.slots[i].volume_id.0.bits == 0
            &&& after.slots[i].generation == 0
            &&& after.slots[i].virtual_extent_idx == 0
            &&& j != i ==> after.slots[j] == st.slots[j]
            &&& after.index.contains_key(k) <==> st.index.contains_key(k) && st.index[k] != i
            &&& after.index.contains_key(k) ==> after.index[k] == st.index[k]
        }),
{
}

/// Giving out a free slot and taking it back leaves the slab as it was, where
/// the extent was not found before.
pub proof fn returning_undoes_giving_out(st: SlabState, i: int, volume: VolumeId, vext: u64)
    requires
        0 <= i < st.slots.len() <= u32::MAX,
        st.slots[i] == slab::free_slot(),
        !st.index.contains_key((volume, vext)),
    ensures
        st.take(i, volume, vext).release(i) == st,
{
    let after = st.take(i, volume, vext).release(i);
    assert(after.slots =~= st.slots);
    assert(after.index =~= st.index);
}

/// A reference count is set on one slot and changes nothing else; the last
/// reference given up returns the slot, any other leaves one fewer.
pub proof fn references_are_counted(st: SlabState, i: int, n: u32, j: int)
    requires
        0 <= i < st.slots.len(),
        0 <= j < st.slots.len(),
    ensures
        st.with_refs(i, n as int).slots.len() == st.slots.len(),
        st.with_refs(i, n as int).slots[i].ref_count == n,
        st.with_refs(i, n as int).slots[i] == (Slot { ref_count: n, ..st.slots[i] }),
        j != i ==> st.with_refs(i, n as int).slots[j] == st.slots[j],
        st.with_refs(i, n as int).index == st.index,
        st.slots[i].ref_count == 1 ==> st.drop_ref(i).slots[i].state == SlotState::Free,
        st.slots[i].ref_count > 1 ==> st.drop_ref(i).slots[i].state == st.slots[i].state
            && st.drop_ref(i).slots[i].ref_count == st.slots[i].ref_count - 1 && st.drop_ref(
            i,
        ).index == st.index,
        j != i ==> st.drop_ref(i).slots[j] == st.slots[j],
{
}

/// A batch of added references adds to each slot one for each time that it names
/// it, to a slot that it does not name none, and changes nothing else.
pub proof fn a_batch_adds_what_it_names(st: SlabState, batch: Seq<u32>, x: u32, i: int)
    requires
        0 <= i < st.slots.len(),
        st.slots[i].ref_count + slab::occurrences(batch.push(x), i) <= u32::MAX,
    ensures
        ({
            let before = st.add_refs(batch);
            let after = st.add_refs(batch.push(x));
            &&& after.slots.len() == st.slots.len()
            &&& after.index == st.index
            &&& after.slots[i].ref_count == before.slots[i].ref_count + (if x == i {
                1int
            } else {
                0
            })
            &&& after.slots[i] == (Slot { ref_count: after.slots[i].ref_count, ..st.slots[i] })
            &&& st.add_refs(Seq::<u32>::empty()).slots[i].ref_count == st.slots[i].ref_count
        }),
{
    assert(batch.push(x).drop_last() =~= batch);
    assert(slab::occurrences(Seq::<u32>::empty(), i) == 0);
}

/// A batch of added references is taken exactly if every slot that it names is
/// there and not free; what is reported else is the first that is wrong.
pub proof fn a_batch_is_taken_whole(st: SlabState, batch: Seq<u32>, n: nat)
    requires
        n <= batch.len(),
    ensures
        st.first_fault(batch, n) is None <==> forall|k: int|
            0 <= k < n ==> #[trigger] batch[k] < st.slots.len() && st.slots[batch[k] as int].state
                != SlotState::Free,
        st.first_fault(batch, n) matches Some(e) ==> exists|k: int|
            0 <= k < n && e == (if #[trigger] batch[k] >= st.slots.len() {
                SlabError::SlotOutOfRange(batch[k])
            } else {
                SlabError::IncRefOnFree(batch[k])
            }) && (forall|m: int|
                0 <= m < k ==> #[trigger] batch[m] < st.slots.len()
                    && st.slots[batch[m] as int].state != SlotState::Free),
    decreases n,
{
    if n > 0 {
        a_batch_is_taken_whole(st, batch, (n - 1) as nat);
        if st.first_fault(batch, (n - 1) as nat) is None && st.first_fault(batch, n) is Some {
            assert(batch[n - 1] >= st.slots.len() || st.slots[batch[n - 1] as int].state
                == SlotState::Free);
        }
    }
}

/// An entry of a release batch is refused as a repeat where the batch named it
/// before, as out of range where there is no such slot, as free where the slot
/// is free or without references, and is taken otherwise.
pub proof fn why_a_release_is_refused(st: SlabState, batch: Seq<u32>, n: int)
    requires
        0 <= n < batch.len(),
    ensures
        ({
            let x = batch[n];
            let again = exists|k: int| 0 <= k < n && batch[k] == x;
            let v = st.verdict(batch, n);
            &&& v == Some(DecRefReject::Duplicate) <==> again
            &&& v == Some(DecRefReject::OutOfRange) <==> !again && x >= st.slots.len()
            &&& v == Some(DecRefReject::AlreadyFree) <==> !again && x < st.slots.len() && (
            st.slots[x as int].state == SlotState::Free || st.slots[x as int].ref_count == 0)
            &&& v is None <==> !again && x < st.slots.len() && st.slots[x as int].state
                != SlotState::Free && st.slots[x as int].ref_count > 0
        }),
{
    let x = batch[n];
    let before = batch.take(n);
    if before.contains(x) {
        let k = before.index_of(x);
        assert(batch[k] == x);
    }
    if exists|k: int| 0 <= k < n && batch[k] == x {
        let k = choose|k: int| 0 <= k < n && batch[k] == x;
        assert(before[k] == x);
    }
}

/// The slots that a release batch frees are those that it names whose one
/// reference it gives up, and no others.
pub proof fn a_batch_frees_last_references(st: SlabState, batch: Seq<u32>, n: nat, x: u32)
    requires
        n <= batch.len(),
    ensures
        st.last_refs(batch, n).contains(x) <==> x < st.slots.len() && st.slots[x as int].state
            != SlotState::Free && st.slots[x as int].ref_count == 1 && exists|k: int|
            0 <= k < n && #[trigger] batch[k] == x,
        st.accepted(batch, n).contains(x) <==> x < st.slots.len() && st.slots[x as int].state
            != SlotState::Free && st.slots[x as int].ref_count > 0 && exists|k: int|
            0 <= k < n && #[trigger] batch[k] == x,
    decreases n,
{
    if n > 0 {
        let m = (n - 1) as nat;
        a_batch_frees_last_references(st, batch, m, x);
        why_a_release_is_refused(st, batch, m as int);
        let y = batch[m as int];
        lemma_pushed(st.last_refs(batch, m), y, x);
        lemma_pushed(st.accepted(batch, m), y, x);
        if exists|k: int| 0 <= k < n && #[trigger] batch[k] == x {
            let k = choose|k: int| 0 <= k < n && #[trigger] batch[k] == x;
            if k < m {
                assert(exists|k: int| 0 <= k < m && #[trigger] batch[k] == x);
            }
        }
        if exists|k: int| 0 <= k < m && #[trigger] batch[k] == x {
            let k = choose|k: int| 0 <= k < m && #[trigger] batch[k] == x;
            assert(0 <= k < n && batch[k] == x);
        }
    }
}

proof fn lemma_pushed(s: Seq<u32>, y: u32, x: u32)
    ensures
        s.push(y).contains(x) <==> s.contains(x) || x == y,
{
    let all = s.push(y);
    if s.contains(x) {
        assert(all[s.index_of(x)] == x);
    }
    assert(all[s.len() as int] == y);
    if all.contains(x) && x != y {
        let k = all.index_of(x);
        assert(s[k] == x);
    }
}

/// What an opened slab finds an extent in is a slot that is taken by it, and of
/// several the last; and every taken slot's extent is found.
pub proof fn an_opened_slab_finds_every_extent(slots: Seq<Slot>, n: nat, i: int, k: (VolumeId, u64))
    requires
        n <= slots.len() <= u32::MAX,
    ensures
        ({
            let ix = slab::index_of(slots, n);
            &&& ix.contains_key(k) ==> {
                &&& ix[k] < n
                &&& slots[ix[k] as int].state != SlotState::Free
                &&& slots[ix[k] as int].volume_id == k.0
                &&& slots[ix[k] as int].virtual_extent_idx == k.1
                &&& ix[k] < i < n && slots[i].volume_id == k.0 && slots[i].virtual_extent_idx == k.1
                    ==> slots[i].state == SlotState::Free
            }
            &&& 0 <= i < n && slots[i].state != SlotState::Free ==> ix.contains_key(
                (slots[i].volume_id, slots[i].virtual_extent_idx),
            )
        }),
    decreases n,
{
    if n > 0 {
        an_opened_slab_finds_every_extent(slots, (n - 1) as nat, i, k);
    }
}

/// The free slots are those whose state says so, and the header tells how many.
pub proof fn free_slots_are_counted(h: SlabHeader, slots: Seq<Slot>, i: int, s: Slot)
    requires
        0 <= i < slots.len() < u64::MAX,
    ensures
        slab::free_flags(slots).len() == slots.len(),
        slab::free_flags(slots)[i] <==> slots[i].state == SlotState::Free,
        slab::header_with(h, Seq::<Slot>::empty()).free_slots == 0,
        slab::header_with(h, slots.push(s)).free_slots == slab::header_with(h, slots).free_slots
            + (if s.state == SlotState::Free {
            1int
        } else {
            0
        }),
        slab::header_with(h, slots) == (SlabHeader {
            free_slots: slab::header_with(h, slots).free_slots,
            ..h
        }),
{
    let f = slab::free_flags(slots);
    let g = slab::free_flags(slots.push(s));
    assert(g.drop_last() =~= f);
    bits::lemma_count_set_bound(f);
    bits::lemma_count_set_bound(g);
    assert(slab::free_flags(Seq::<Slot>::empty()) =~= Seq::<bool>::empty());
}

/// A slot entry is read where the table has it: the state in byte 0, the owner
/// in bytes 4 to 19, most significant byte first, the extent in 20 to 27, the
/// references in 28 to 31 and the generation in 32 to 39, least significant byte
/// first, and the checksum of the first sixty bytes behind them.
pub proof fn a_slot_entry_is_laid_out(s: Slot)
    ensures
        ({
            let b = s.encoded();
            &&& b.len() == 64
            &&& b[0] == (match s.state {
                SlotState::Free => 0u8,
                SlotState::Allocated => 1,
                SlotState::Moving => 2,
            })
            &&& bytes::be_value(b.subrange(4, 20)) == s.volume_id.0.bits
            &&& bytes::le_value(b.subrange(20, 28)) == s.virtual_extent_idx
            &&& bytes::le_value(b.subrange(28, 32)) == s.ref_count
            &&& bytes::le_value(b.subrange(32, 40)) == s.generation
            &&& forall|i: int| 1 <= i < 4 || 40 <= i < 60 ==> #[trigger] b[i] == 0
            &&& bytes::le_value(b.subrange(60, 64)) == digest::crc32c_of(b.subrange(0, 60))
        }),
{
    broadcast use bytes::lemma_le_bytes_len, bytes::lemma_be_bytes_len;

    bytes::lemma_radix();
    let b = s.encoded();
    let crc = digest::crc32c_of(s.body()) as nat;
    assert(s.body().len() == 60);
    assert(b.subrange(0, 60) =~= s.body());
    assert(b.subrange(4, 20) =~= s.volume_id.0.bytes());
    assert(b.subrange(20, 28) =~= bytes::le_bytes(s.virtual_extent_idx as nat, 8));
    assert(b.subrange(28, 32) =~= bytes::le_bytes(s.ref_count as nat, 4));
    assert(b.subrange(32, 40) =~= bytes::le_bytes(s.generation as nat, 8));
    assert(b.subrange(60, 64) =~= bytes::le_bytes(crc, 4));
    bytes::be_round_trip(s.volume_id.0.bits as nat, 16);
    bytes::le_round_trip(s.virtual_extent_idx as nat, 8);
    bytes::le_round_trip(s.ref_count as nat, 4);
    bytes::le_round_trip(s.generation as nat, 8);
    bytes::le_round_trip(crc, 4);
}

/// A slab's header is read where the device has it: "STRMSLAB" and the version,
/// the two identities, most significant byte first, then the numbers, eight
/// bytes each, least significant byte first, the tier, the flags, and at byte
/// 124 the checksum of what is before it.
pub proof fn a_slab_header_is_laid_out(h: SlabHeader)
    ensures
        ({
            let b = h.encoded();
            &&& b.len() == 4096
            &&& b.subrange(0, 8) == seq![0x53u8, 0x54, 0x52, 0x4d, 0x53, 0x4c, 0x41, 0x42]
            &&& bytes::le_value(b.subrange(8, 12)) == 1
            &&& bytes::be_value(b.subrange(12, 28)) == h.slab_uuid.bits
            &&& bytes::be_value(b.subrange(28, 44)) == h.device_uuid.bits
            &&& bytes::le_value(b.subrange(44, 52)) == h.slot_size
            &&& bytes::le_value(b.subrange(52, 60)) == h.total_slots
            &&& bytes::le_value(b.subrange(60, 68)) == h.free_slots
            &&& bytes::le_value(b.subrange(68, 76)) == h.data_offset
            &&& bytes::le_value(b.subrange(76, 84)) == h.table_offset
            &&& bytes::le_value(b.subrange(84, 92)) == h.create_time
            &&& bytes::le_value(b.subrange(92, 100)) == h.update_time
            &&& b[100] == h.tier.spec_code()
            &&& b[101] == h.flags
            &&& forall|i: int| 102 <= i < 124 || 128 <= i < 4096 ==> #[trigger] b[i] == 0
            &&& bytes::le_value(b.subrange(124, 128)) == digest::crc32c_of(b.subrange(0, 124))
        }),
{
    broadcast use bytes::lemma_le_bytes_len, bytes::lemma_be_bytes_len;

    bytes::lemma_radix();
    let b = h.encoded();
    let crc = digest::crc32c_of(h.body()) as nat;
    assert(slab::SLAB_MAGIC@ =~= seq![0x53u8, 0x54, 0x52, 0x4d, 0x53, 0x4c, 0x41, 0x42]);
    assert(h.body().len() == 124);
    assert(b.subrange(0, 124) =~= h.body());
    assert(b.subrange(0, 8) =~= slab::SLAB_MAGIC@);
    assert(b.subrange(8, 12) =~= bytes::le_bytes(slab::SLAB_VERSION as nat, 4));
    assert(b.subrange(12, 28) =~= h.slab_uuid.bytes());
    assert(b.subrange(28, 44) =~= h.device_uuid.bytes());
    assert(b.subrange(44, 52) =~= bytes::le_bytes(h.slot_size as nat, 8));
    assert(b.subrange(52, 60) =~= bytes::le_bytes(h.total_slots as nat, 8));
    assert(b.subrange(60, 68) =~= bytes::le_bytes(h.free_slots as nat, 8));
    assert(b.subrange(68, 76) =~= bytes::le_bytes(h.data_offset as nat, 8));
    assert(b.subrange(76, 84) =~= bytes::le_bytes(h.table_offset as nat, 8));
    assert(b.subrange(84, 92) =~= bytes::le_bytes(h.create_time as nat, 8));
    assert(b.subrange(92, 100) =~= bytes::le_bytes(h.update_time as nat, 8));
    assert(b.subrange(124, 128) =~= bytes::le_bytes(crc, 4));
    bytes::le_round_trip(slab::SLAB_VERSION as nat, 4);
    bytes::be_round_trip(h.slab_uuid.bits as nat, 16);
    bytes::be_round_trip(h.device_uuid.bits as nat, 16);
    bytes::le_round_trip(h.slot_size as nat, 8);
    bytes::le_round_trip(h.total_slots as nat, 8);
    bytes::le_round_trip(h.free_slots as nat, 8);
    bytes::le_round_trip(h.data_offset as nat, 8);
    bytes::le_round_trip(h.table_offset as nat, 8);
    bytes::le_round_trip(h.create_time as nat, 8);
    bytes::le_round_trip(h.update_time as nat, 8);
    bytes::le_round_trip(crc, 4);
}

/// A header is taken for one exactly if it is long enough, begins with the
/// magic bytes, has the version that is known, and passes its checksum; an entry
/// that does not pass its checksum is a free slot.
pub proof fn what_is_spoilt_is_not_taken(data: Seq<u8>, img: Seq<u8>, at: int)
    ensures
        SlabHeader::decoded(data) is Ok <==> data.len() >= 128 && data.subrange(0, 8)
            == slab::SLAB_MAGIC@ && bytes::le_value(data.subrange(8, 12)) as u32 == 1
            && bytes::le_value(data.subrange(124, 128)) == digest::crc32c_of(
            data.subrange(0, 124),
        ),
        data.len() >= 128 && data.subrange(0, 8) != slab::SLAB_MAGIC@ ==> SlabHeader::decoded(data)
            == Err::<SlabHeader, SlabError>(SlabError::BadMagic),
        data.len() < 128 ==> SlabHeader::decoded(data) == Err::<SlabHeader, SlabError>(
            SlabError::HeaderTooShort,
        ),
        Slot::decoded(data) is Some <==> data.len() >= 64 && bytes::le_value(data.subrange(60, 64))
            == digest::crc32c_of(data.subrange(0, 60)),
        0 <= at && at + 64 <= img.len() && bytes::le_value(img.subrange(at + 60, at + 64))
            != digest::crc32c_of(img.subrange(at, at + 60)) ==> slab::entry_at(img, at).state
            == SlotState::Free,
{
    if 0 <= at && at + 64 <= img.len() {
        let e = img.subrange(at, at + 64);
        assert(e.subrange(60, 64) =~= img.subrange(at + 60, at + 64));
        assert(e.subrange(0, 60) =~= img.subrange(at, at + 60));
    }
}

} // verus!
