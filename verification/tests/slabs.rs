use std::collections::BTreeMap;
use stormblock::drive::filedev::BLOCK_SIZE;
use stormblock::drive::slab::{
    DecRefOutcome, DecRefReject, DeviceInfo, Slab, SlabError, SlabHeader, SlabId, Slot, SlotState,
    DEFAULT_SLOT_SIZE, HEADER_SIZE,
};
use stormblock::drive::slab_table::SectorPlan;
use stormblock::ids::{Uuid, VolumeId};
use stormblock::placement::StorageTier;

/// A sparse disk in memory: a block that was never written, or was given
/// back, reads as zeros and takes no room.
struct Disk {
    len: u64,
    blocks: BTreeMap<u64, Vec<u8>>,
    reads: usize,
    writes: usize,
}

impl Disk {
    fn new(len: u64) -> Disk {
        Disk { len, blocks: BTreeMap::new(), reads: 0, writes: 0 }
    }

    fn info(&self) -> DeviceInfo {
        DeviceInfo { uuid: Uuid { bits: 7 }, capacity: self.len, block_size: BLOCK_SIZE }
    }

    fn read(&mut self, offset: u64, len: u64) -> Vec<u8> {
        assert!(offset + len <= self.len);
        self.reads += 1;
        let mut out = Vec::new();
        let mut at = offset;
        while at < offset + len {
            let within = (at % 4096) as usize;
            let n = (4096 - within).min((offset + len - at) as usize);
            match self.blocks.get(&(at / 4096)) {
                Some(b) => out.extend_from_slice(&b[within..within + n]),
                None => out.resize(out.len() + n, 0),
            }
            at += n as u64;
        }
        out
    }

    fn write(&mut self, offset: u64, data: &[u8]) {
        assert!(offset + data.len() as u64 <= self.len);
        self.writes += 1;
        let mut at = 0;
        while at < data.len() {
            let pos = offset + at as u64;
            let within = (pos % 4096) as usize;
            let n = (4096 - within).min(data.len() - at);
            let block = self.blocks.entry(pos / 4096).or_insert(vec![0u8; 4096]);
            block[within..within + n].copy_from_slice(&data[at..at + n]);
            at += n;
        }
    }

    fn discard(&mut self, offset: u64, len: u64) {
        for b in offset / 4096..(offset + len) / 4096 {
            self.blocks.remove(&b);
        }
    }
}

fn apply(slab: &Slab, disk: &mut Disk, plan: &SectorPlan) {
    let current = if plan.read_first {
        disk.read(plan.offset, plan.len)
    } else {
        vec![0u8; plan.len as usize]
    };
    let bytes = slab.sector_bytes(plan, current);
    disk.write(plan.offset, &bytes);
}

fn persist(slab: &Slab, disk: &mut Disk, slots: &[u32]) {
    for plan in slab.persist_slots(slots, BLOCK_SIZE) {
        apply(slab, disk, &plan);
    }
}

fn format(disk: &mut Disk, slot_size: u64, tier: StorageTier) -> Slab {
    let plan = Slab::format(disk.info(), slot_size, tier, 1).unwrap();
    disk.write(0, &plan.header);
    disk.write(plan.table_offset, &vec![0u8; plan.table_len as usize]);
    plan.slab
}

fn open(disk: &mut Disk) -> Slab {
    let header = SlabHeader::from_bytes(&disk.read(0, HEADER_SIZE)).unwrap();
    assert!(header.addressable());
    let len = header.table_len(BLOCK_SIZE);
    let table = disk.read(header.table_offset, len);
    Slab::open(header, &table)
}

fn allocate(slab: &mut Slab, disk: &mut Disk, vol: VolumeId, vext: u64) -> u32 {
    let slot = slab.allocate(vol, vext).unwrap();
    let plan = slab.persist_slot(slot, BLOCK_SIZE);
    apply(slab, disk, &plan);
    slot
}

fn free(slab: &mut Slab, disk: &mut Disk, slot: u32) {
    slab.free(slot).unwrap();
    persist(slab, disk, &[slot]);
    for (offset, len) in slab.discard_slots(&[slot]) {
        disk.discard(offset, len);
    }
}

fn inc_ref_batch(slab: &mut Slab, disk: &mut Disk, slots: &[u32]) {
    slab.inc_ref_batch(slots).unwrap();
    persist(slab, disk, slots);
}

fn dec_ref_batch(slab: &mut Slab, disk: &mut Disk, slots: &[u32]) -> DecRefOutcome {
    let out = slab.dec_ref_batch(slots);
    persist(slab, disk, &out.touched);
    assert_eq!(out.header.is_some(), out.freed > 0, "the header is due once, for all that was freed");
    if let Some(header) = &out.header {
        assert_eq!(SlabHeader::from_bytes(header).unwrap().free_slots, slab.free_slots());
        disk.write(0, header);
    }
    for (offset, len) in slab.discard_slots(&out.freed_slots) {
        disk.discard(offset, len);
    }
    out
}

fn write_slot(slab: &Slab, disk: &mut Disk, slot: u32, offset: u64, data: &[u8]) {
    let (_, at) = slab.slot_device_and_offset(slot, offset).unwrap();
    disk.write(at, data);
}

fn read_slot(slab: &Slab, disk: &mut Disk, slot: u32, offset: u64, len: u64) -> Vec<u8> {
    let (_, at) = slab.slot_device_and_offset(slot, offset).unwrap();
    disk.read(at, len)
}

/// The batched refcount path must land on disk exactly like the per-slot
/// path: it coalesces sector writes and skips reads for fully-covered
/// sectors, both of which could corrupt neighbouring table entries.
#[test]
fn batched_refcounts_match_disk_after_reopen() {
    let mut dev = Disk::new(64 * 1024 * 1024);
    let mut slab = format(&mut dev, 64 * 1024, StorageTier::Hot);

    let vol = VolumeId::new();
    let mut slots = Vec::new();
    for vext in 0..100u64 {
        slots.push(allocate(&mut slab, &mut dev, vol, vext));
    }

    // Bump a run that crosses a sector boundary, plus a stray one well
    // past it, so both the coalesced and single-entry paths are used.
    let bumped: Vec<u32> = slots[60..70].to_vec();
    inc_ref_batch(&mut slab, &mut dev, &bumped);
    inc_ref_batch(&mut slab, &mut dev, &[slots[99]]);

    let free_before = slab.free_slots();
    let reopened = open(&mut dev);
    assert_eq!(reopened.free_slots(), free_before);
    for (i, &s) in slots.iter().enumerate() {
        let expected = if bumped.contains(&s) || i == 99 { 2 } else { 1 };
        assert_eq!(
            reopened.get_slot(s).unwrap().ref_count,
            expected,
            "slot {s} (index {i}) refcount"
        );
        // Neighbours in a rewritten sector must keep their identity.
        assert_eq!(reopened.get_slot(s).unwrap().volume_id, vol);
        assert_eq!(reopened.get_slot(s).unwrap().virtual_extent_idx, i as u64);
    }
}

/// Dropping a clone must return only the slots that hit zero, and leave
/// the ones its source still holds.
#[test]
fn batched_dec_ref_frees_only_last_reference() {
    let mut dev = Disk::new(64 * 1024 * 1024);
    let mut slab = format(&mut dev, 64 * 1024, StorageTier::Hot);

    let vol = VolumeId::new();
    let mut slots = Vec::new();
    for vext in 0..80u64 {
        slots.push(allocate(&mut slab, &mut dev, vol, vext));
    }
    let free_after_alloc = slab.free_slots();

    // Clone: every slot now has two references.
    inc_ref_batch(&mut slab, &mut dev, &slots);

    // Dropping the clone releases one reference from each: none freed.
    let out = dec_ref_batch(&mut slab, &mut dev, &slots);
    assert_eq!(out.freed, 0, "source still holds every slot");
    assert_eq!(out.retained, slots.len());
    assert!(out.rejected.is_empty());
    assert_eq!(slab.free_slots(), free_after_alloc);

    // Dropping the source too frees them all.
    let out = dec_ref_batch(&mut slab, &mut dev, &slots);
    assert_eq!(out.freed, slots.len());
    assert_eq!(slab.free_slots(), free_after_alloc + slots.len() as u64);

    let reopened = open(&mut dev);
    assert_eq!(reopened.free_slots(), free_after_alloc + slots.len() as u64);
    for &s in &slots {
        assert_eq!(reopened.get_slot(s).unwrap().state, SlotState::Free);
    }
}

/// Rewriting a partially-covered sector must preserve the entries the
/// batch did not touch.
#[test]
fn batched_persist_preserves_untouched_neighbours() {
    let mut dev = Disk::new(64 * 1024 * 1024);
    let mut slab = format(&mut dev, 64 * 1024, StorageTier::Hot);

    let vol_a = VolumeId::new();
    let vol_b = VolumeId::new();
    // Interleave two volumes so neighbours in the same sector differ.
    let mut a_slots = Vec::new();
    let mut b_slots = Vec::new();
    for vext in 0..40u64 {
        a_slots.push(allocate(&mut slab, &mut dev, vol_a, vext));
        b_slots.push(allocate(&mut slab, &mut dev, vol_b, vext));
    }

    // Touch only vol_a's slots; vol_b's share the same sectors.
    inc_ref_batch(&mut slab, &mut dev, &a_slots);

    let reopened = open(&mut dev);
    for (i, &s) in b_slots.iter().enumerate() {
        let slot = reopened.get_slot(s).unwrap();
        assert_eq!(slot.ref_count, 1, "untouched neighbour {s} refcount");
        assert_eq!(slot.volume_id, vol_b, "untouched neighbour {s} volume");
        assert_eq!(slot.virtual_extent_idx, i as u64);
    }
    for &s in &a_slots {
        assert_eq!(reopened.get_slot(s).unwrap().ref_count, 2);
    }
}

#[test]
fn batched_refcounts_reject_bad_slots_without_mutating() {
    let mut dev = Disk::new(64 * 1024 * 1024);
    let mut slab = format(&mut dev, 64 * 1024, StorageTier::Hot);

    let vol = VolumeId::new();
    let good = allocate(&mut slab, &mut dev, vol, 0);

    // An out-of-range index anywhere in the batch fails it whole, leaving
    // the valid entries alone rather than half-applied.
    assert_eq!(slab.inc_ref_batch(&[good, u32::MAX]), Err(SlabError::SlotOutOfRange(u32::MAX)));
    assert_eq!(slab.get_slot(good).unwrap().ref_count, 1);

    // Same for a free slot.
    let free_idx = allocate(&mut slab, &mut dev, vol, 1);
    free(&mut slab, &mut dev, free_idx);
    assert_eq!(slab.inc_ref_batch(&[good, free_idx]), Err(SlabError::IncRefOnFree(free_idx)));
    assert_eq!(slab.get_slot(good).unwrap().ref_count, 1);

    // Release is deliberately not all-or-nothing: the stale entry costs
    // itself, and the healthy slot is still released.
    let out = dec_ref_batch(&mut slab, &mut dev, &[good, free_idx]);
    assert_eq!(out.freed, 1);
    assert_eq!(out.rejected, vec![(free_idx, DecRefReject::AlreadyFree)]);
    assert_eq!(slab.get_slot(good).unwrap().state, SlotState::Free);
}

/// One stale extent-map entry must not strand every other extent of the
/// volume being deleted.
#[test]
fn one_stale_entry_does_not_strand_the_whole_batch() {
    let mut dev = Disk::new(64 * 1024 * 1024);
    let mut slab = format(&mut dev, 64 * 1024, StorageTier::Hot);

    let vol = VolumeId::new();
    let mut slots = Vec::new();
    for vext in 0..12u64 {
        slots.push(allocate(&mut slab, &mut dev, vol, vext));
    }
    let free_before = slab.free_slots();

    // Simulate the divergence: one slot is already free, but the volume's
    // extent map still names it.
    let stale = slots[5];
    free(&mut slab, &mut dev, stale);

    let out = dec_ref_batch(&mut slab, &mut dev, &slots);

    assert_eq!(out.rejected, vec![(stale, DecRefReject::AlreadyFree)]);
    assert_eq!(out.freed, slots.len() - 1, "every healthy extent released");
    assert_eq!(
        slab.free_slots(),
        free_before + slots.len() as u64,
        "all 12 slots are back, not zero of them"
    );
    for &s in &slots {
        assert_eq!(slab.get_slot(s).unwrap().state, SlotState::Free);
    }
}

#[test]
fn duplicate_slot_in_batch_does_not_underflow() {
    let mut dev = Disk::new(64 * 1024 * 1024);
    let mut slab = format(&mut dev, 64 * 1024, StorageTier::Hot);

    let vol = VolumeId::new();
    let slot = allocate(&mut slab, &mut dev, vol, 0);
    let free_before = slab.free_slots();

    let out = dec_ref_batch(&mut slab, &mut dev, &[slot, slot, slot]);

    assert_eq!(out.freed, 1, "released once, not three times");
    assert_eq!(
        out.rejected,
        vec![(slot, DecRefReject::Duplicate), (slot, DecRefReject::Duplicate)]
    );
    assert_eq!(slab.get_slot(slot).unwrap().ref_count, 0);
    assert_eq!(slab.free_slots(), free_before + 1);
}

/// A clone of an N-extent image must cost sectors touched, not N round
/// trips.
#[test]
fn batched_refcounts_collapse_device_writes() {
    let mut dev = Disk::new(64 * 1024 * 1024);
    let mut slab = format(&mut dev, 64 * 1024, StorageTier::Hot);

    let vol = VolumeId::new();
    let mut slots = Vec::new();
    for vext in 0..256u64 {
        slots.push(allocate(&mut slab, &mut dev, vol, vext));
    }

    // 4096-byte sectors hold 64 entries each, so 256 contiguous slots are
    // 4 sectors: 4 writes, and no reads because each is fully covered.
    dev.writes = 0;
    dev.reads = 0;
    inc_ref_batch(&mut slab, &mut dev, &slots);

    let (w, r) = (dev.writes, dev.reads);
    assert_eq!(w, 4, "256 slots over 64-entry sectors should be 4 writes, got {w}");
    assert_eq!(r, 0, "fully covered sectors need no read, got {r}");

    // Per-slot would have been 256 writes and 256 reads.
    assert!(w < slots.len() / 10);
}

/// Freeing a slot must hand the space back to the device, not just mark it
/// free inside the slab. Measured by the blocks the disk holds.
#[test]
fn freeing_slots_punches_holes_in_the_backing_file() {
    let mut dev = Disk::new(64 * 1024 * 1024);
    let mut slab = format(&mut dev, 1024 * 1024, StorageTier::Hot);
    let baseline = dev.blocks.len();

    // Fill 16 slots with real data so they occupy blocks on disk.
    let vol = VolumeId::new();
    let mut slots = Vec::new();
    let payload = vec![0xA5u8; 1024 * 1024];
    for vext in 0..16u64 {
        let s = allocate(&mut slab, &mut dev, vol, vext);
        write_slot(&slab, &mut dev, s, 0, &payload);
        slots.push(s);
    }
    let filled = dev.blocks.len();
    assert!(filled > baseline, "writing should allocate blocks: {baseline} -> {filled}");

    // Release them through the batched path (what dropping a clone uses).
    let out = dec_ref_batch(&mut slab, &mut dev, &slots);
    assert_eq!(out.freed, slots.len());

    let after = dev.blocks.len();
    assert!(after < filled, "freed slots must return blocks: {filled} -> {after}");

    // The disk keeps its length, so slab offsets remain valid.
    assert_eq!(dev.len, 64 * 1024 * 1024);
    // Sixteen neighbouring slots are one range to give back.
    let size = slab.slot_size();
    let (_, at) = slab.slot_device_and_offset(slots[0], 0).unwrap();
    assert_eq!(slab.discard_slots(&slots), vec![(at, 16 * size)]);
}

/// The single-slot route must reclaim too, not only the batched one.
#[test]
fn single_slot_free_also_punches() {
    let mut dev = Disk::new(32 * 1024 * 1024);
    let mut slab = format(&mut dev, 1024 * 1024, StorageTier::Hot);

    let vol = VolumeId::new();
    let s = allocate(&mut slab, &mut dev, vol, 0);
    write_slot(&slab, &mut dev, s, 0, &vec![0x5Au8; 1024 * 1024]);
    let filled = dev.blocks.len();

    free(&mut slab, &mut dev, s);
    let after = dev.blocks.len();

    assert!(after < filled, "free() must discard: {filled} -> {after}");
}

#[test]
fn format_and_open_roundtrip() {
    let mut dev = Disk::new(100 * 1024 * 1024);
    let cont = format(&mut dev, DEFAULT_SLOT_SIZE, StorageTier::Hot);
    let id = cont.id;
    let total = cont.total_slots();
    let free = cont.free_slots();
    assert!(total > 0);
    assert_eq!(total, free);

    // Re-open
    let cont2 = open(&mut dev);
    assert_eq!(cont2.id, id);
    assert_eq!(cont2.total_slots(), total);
    assert_eq!(cont2.free_slots(), free);
    assert_eq!(cont2.tier(), StorageTier::Hot);
}

#[test]
fn allocate_and_free() {
    let mut dev = Disk::new(10 * 1024 * 1024);
    let mut cont = format(&mut dev, DEFAULT_SLOT_SIZE, StorageTier::Warm);
    let total = cont.total_slots();
    let vol = VolumeId::new();

    let slot0 = allocate(&mut cont, &mut dev, vol, 0);
    assert_eq!(cont.free_slots(), total - 1);
    assert_eq!(cont.allocated_slots(), 1);

    let slot1 = allocate(&mut cont, &mut dev, vol, 1);
    assert_ne!(slot0, slot1);
    assert_eq!(cont.free_slots(), total - 2);

    // Find
    assert_eq!(cont.find_slot(vol, 0), Some(slot0));
    assert_eq!(cont.find_slot(vol, 1), Some(slot1));
    assert_eq!(cont.find_slot(vol, 999), None);

    // Free
    free(&mut cont, &mut dev, slot0);
    assert_eq!(cont.free_slots(), total - 1);
    assert_eq!(cont.find_slot(vol, 0), None);
}

#[test]
fn read_write_slot() {
    let mut dev = Disk::new(10 * 1024 * 1024);
    let mut cont = format(&mut dev, DEFAULT_SLOT_SIZE, StorageTier::Hot);
    let vol = VolumeId::new();

    let slot = allocate(&mut cont, &mut dev, vol, 0);

    // Write
    let data = vec![0xDE_u8; 4096];
    write_slot(&cont, &mut dev, slot, 0, &data);

    // Read back
    assert_eq!(read_slot(&cont, &mut dev, slot, 0, 4096), data);

    // Write at offset within slot
    let data2 = vec![0xAB_u8; 512];
    write_slot(&cont, &mut dev, slot, 8192, &data2);
    assert_eq!(read_slot(&cont, &mut dev, slot, 8192, 512), data2);
}

#[test]
fn ref_count_inc_dec() {
    let mut dev = Disk::new(10 * 1024 * 1024);
    let mut cont = format(&mut dev, DEFAULT_SLOT_SIZE, StorageTier::Hot);
    let vol = VolumeId::new();
    let total = cont.total_slots();

    let slot = allocate(&mut cont, &mut dev, vol, 0);
    assert_eq!(cont.get_slot(slot).unwrap().ref_count, 1);

    cont.inc_ref(slot).unwrap();
    assert_eq!(cont.get_slot(slot).unwrap().ref_count, 2);

    cont.inc_ref(slot).unwrap();
    assert_eq!(cont.get_slot(slot).unwrap().ref_count, 3);

    // dec_ref doesn't free until 0
    let freed = cont.dec_ref(slot).unwrap();
    assert!(!freed);
    assert_eq!(cont.get_slot(slot).unwrap().ref_count, 2);

    let freed = cont.dec_ref(slot).unwrap();
    assert!(!freed);
    assert_eq!(cont.get_slot(slot).unwrap().ref_count, 1);

    // Final dec_ref frees the slot
    let freed = cont.dec_ref(slot).unwrap();
    assert!(freed);
    assert_eq!(cont.free_slots(), total);
}

#[test]
fn bitmap_exhaustion() {
    // 3 MB = header + table + about 2 data slots
    let mut dev = Disk::new(3 * 1024 * 1024);
    let mut cont = format(&mut dev, DEFAULT_SLOT_SIZE, StorageTier::Cold);
    let total = cont.total_slots();
    let vol = VolumeId::new();

    // Allocate all slots
    for i in 0..total {
        allocate(&mut cont, &mut dev, vol, i);
    }
    assert_eq!(cont.free_slots(), 0);

    // Next allocation should fail
    assert_eq!(cont.allocate(vol, total), Err(SlabError::Full));
}

#[test]
fn multi_volume_slots() {
    let mut dev = Disk::new(10 * 1024 * 1024);
    let mut cont = format(&mut dev, DEFAULT_SLOT_SIZE, StorageTier::Warm);

    let vol_a = VolumeId::new();
    let vol_b = VolumeId::new();

    let slot_a0 = allocate(&mut cont, &mut dev, vol_a, 0);
    let slot_b0 = allocate(&mut cont, &mut dev, vol_b, 0);
    let slot_a1 = allocate(&mut cont, &mut dev, vol_a, 1);

    assert_ne!(slot_a0, slot_b0);
    assert_ne!(slot_a0, slot_a1);
    assert_eq!(cont.find_slot(vol_a, 0), Some(slot_a0));
    assert_eq!(cont.find_slot(vol_b, 0), Some(slot_b0));
    assert_eq!(cont.find_slot(vol_a, 1), Some(slot_a1));

    // Free vol_a slot 0, vol_b slot 0 should still be there
    free(&mut cont, &mut dev, slot_a0);
    assert_eq!(cont.find_slot(vol_a, 0), None);
    assert_eq!(cont.find_slot(vol_b, 0), Some(slot_b0));
}

#[test]
fn persistence_across_reopen() {
    let mut dev = Disk::new(10 * 1024 * 1024);
    let vol = VolumeId::new();

    // Format and allocate
    let slot_idx;
    {
        let mut cont = format(&mut dev, DEFAULT_SLOT_SIZE, StorageTier::Hot);
        slot_idx = allocate(&mut cont, &mut dev, vol, 42);
        write_slot(&cont, &mut dev, slot_idx, 0, &[0xFF; 4096]);
    }

    // Re-open and verify
    let cont2 = open(&mut dev);
    assert_eq!(cont2.find_slot(vol, 42), Some(slot_idx));
    let slot = cont2.get_slot(slot_idx).unwrap();
    assert_eq!(slot.state, SlotState::Allocated);
    assert_eq!(slot.volume_id, vol);
    assert_eq!(slot.virtual_extent_idx, 42);
    assert_eq!(slot.ref_count, 1);

    let buf = read_slot(&cont2, &mut dev, slot_idx, 0, 4096);
    assert!(buf.iter().all(|&b| b == 0xFF));
}

#[test]
fn slot_entry_roundtrip() {
    let slot = Slot {
        state: SlotState::Allocated,
        volume_id: VolumeId::new(),
        virtual_extent_idx: 42,
        ref_count: 3,
        generation: 7,
    };
    let bytes = slot.to_bytes();
    let decoded = Slot::from_bytes(&bytes).unwrap();
    assert_eq!(decoded.state, SlotState::Allocated);
    assert_eq!(decoded.volume_id, slot.volume_id);
    assert_eq!(decoded.virtual_extent_idx, 42);
    assert_eq!(decoded.ref_count, 3);
    assert_eq!(decoded.generation, 7);
}

#[test]
fn slot_entry_crc_detects_corruption() {
    let slot = Slot {
        state: SlotState::Allocated,
        volume_id: VolumeId::new(),
        virtual_extent_idx: 1,
        ref_count: 1,
        generation: 1,
    };
    let mut bytes = slot.to_bytes();
    bytes[5] ^= 0xFF; // corrupt a byte
    assert!(Slot::from_bytes(&bytes).is_none());
}

fn a_header() -> SlabHeader {
    SlabHeader {
        slab_uuid: Uuid::new_v4(),
        device_uuid: Uuid::new_v4(),
        slot_size: DEFAULT_SLOT_SIZE,
        total_slots: 100,
        free_slots: 95,
        data_offset: 2 * 1024 * 1024,
        table_offset: HEADER_SIZE,
        create_time: 1234567890,
        update_time: 1234567900,
        tier: StorageTier::Warm,
        flags: 0,
    }
}

#[test]
fn header_roundtrip() {
    let header = a_header();
    let bytes = header.to_bytes();
    let decoded = SlabHeader::from_bytes(&bytes).unwrap();
    assert_eq!(decoded.slab_uuid, header.slab_uuid);
    assert_eq!(decoded.device_uuid, header.device_uuid);
    assert_eq!(decoded.slot_size, DEFAULT_SLOT_SIZE);
    assert_eq!(decoded.total_slots, 100);
    assert_eq!(decoded.free_slots, 95);
    assert_eq!(decoded.tier, StorageTier::Warm);
    assert_eq!(decoded, header);
}

#[test]
fn a_spoilt_slab_header_is_refused() {
    let good = a_header().to_bytes();
    assert_eq!(SlabHeader::from_bytes(&good[..10]), Err(SlabError::HeaderTooShort));
    let mut b = good.clone();
    b[0] ^= 1;
    assert_eq!(SlabHeader::from_bytes(&b), Err(SlabError::BadMagic));
    let mut b = good.clone();
    b[8] = 9;
    assert_eq!(SlabHeader::from_bytes(&b), Err(SlabError::BadVersion(9)));
    let mut b = good.clone();
    b[20] ^= 1;
    assert_eq!(SlabHeader::from_bytes(&b), Err(SlabError::HeaderCrc));
}

#[test]
fn the_checksum_of_a_slot_is_crc32c() {
    let bytes = Slot::free().to_bytes();
    assert_eq!(bytes.len(), 64);
    let sum = crc32c::crc32c(&bytes[..60]);
    assert_eq!(&bytes[60..64], &sum.to_le_bytes());
}

#[test]
fn a_device_too_small_is_refused() {
    let small = DeviceInfo { uuid: Uuid::nil(), capacity: 4096, block_size: 4096 };
    assert_eq!(
        Slab::format(small, DEFAULT_SLOT_SIZE, StorageTier::Hot, 0).err(),
        Some(SlabError::DeviceTooSmall(4096))
    );
    let one = DeviceInfo { uuid: Uuid::nil(), capacity: 4096 + 64 + DEFAULT_SLOT_SIZE, block_size: 4096 };
    assert_eq!(
        Slab::format(one, DEFAULT_SLOT_SIZE, StorageTier::Hot, 0).err(),
        Some(SlabError::NoSlotFits)
    );
    assert_eq!(SlabError::DeviceTooSmall(4096).to_string(), "device too small for slab (4096 bytes)");
    assert_eq!(SlabError::NoSlotFits.to_string(), "device too small for even one slot");
}

#[test]
fn slots_lie_side_by_side() {
    let mut dev = Disk::new(10 * 1024 * 1024);
    let id = SlabId(Uuid { bits: 5 });
    let slab = Slab::format_as(dev.info(), DEFAULT_SLOT_SIZE, StorageTier::Hot, id, 3).unwrap().slab;
    assert_eq!(slab.slab_id(), id);
    assert_eq!(slab.header().create_time, 3);
    let (dev_a, a) = slab.slot_device_and_offset(0, 0).unwrap();
    let (_, b) = slab.slot_device_and_offset(1, 0).unwrap();
    assert_eq!(dev_a, Uuid { bits: 7 });
    assert_eq!(b - a, DEFAULT_SLOT_SIZE);
    assert!(slab.header().data_offset + slab.total_slots() * DEFAULT_SLOT_SIZE <= dev.len);
    assert_eq!(
        slab.slot_device_and_offset(u32::MAX, 0),
        Err(SlabError::SlotOutOfRange(u32::MAX))
    );
    dev.discard(0, 4096);
}

#[test]
fn a_freed_slot_is_refused_and_a_reference_is_undone() {
    let mut dev = Disk::new(10 * 1024 * 1024);
    let mut slab = format(&mut dev, DEFAULT_SLOT_SIZE, StorageTier::Hot);
    let vol = VolumeId::new();
    let s = slab.allocate(vol, 3).unwrap();
    let before = *slab.get_slot(s).unwrap();
    slab.inc_ref(s).unwrap();
    assert_eq!(slab.dec_ref(s), Ok(false));
    assert_eq!(slab.get_slot(s).unwrap().ref_count, before.ref_count);
    slab.free(s).unwrap();
    assert_eq!(slab.free(s), Err(SlabError::DoubleFree(s)));
    assert_eq!(slab.inc_ref(s), Err(SlabError::IncRefOnFree(s)));
    assert_eq!(slab.dec_ref(s), Err(SlabError::DecRefOnFree(s)));
    assert_eq!(slab.free(u32::MAX), Err(SlabError::SlotOutOfRange(u32::MAX)));
    assert_eq!(SlabError::DoubleFree(3).to_string(), "double free of slot 3");
    assert_eq!(SlabError::IncRefOnFree(3).to_string(), "cannot inc_ref on free slot 3");
    assert_eq!(SlabError::DecRefOnFree(3).to_string(), "cannot dec_ref on free/zero-ref slot 3");
    assert_eq!(SlabError::SlotOutOfRange(3).to_string(), "slot index 3 out of range");
    assert_eq!(SlabError::BadVersion(9).to_string(), "slab version 9, expected 1");
    assert_eq!(DecRefReject::Duplicate.to_string(), "duplicate in batch");
    let out = slab.dec_ref_batch(&[u32::MAX]);
    assert_eq!(out.rejected, vec![(u32::MAX, DecRefReject::OutOfRange)]);
}

#[test]
fn a_fresh_slab_opens_with_every_slot_free() {
    let mut dev = Disk::new(10 * 1024 * 1024);
    let slab = format(&mut dev, DEFAULT_SLOT_SIZE, StorageTier::Cool);
    let again = open(&mut dev);
    for i in 0..slab.total_slots() as u32 {
        assert_eq!(again.get_slot(i).unwrap().state, SlotState::Free);
    }
    assert!(again.get_slot(slab.total_slots() as u32).is_none());
}

/// Whatever a slab goes through, it opens again as it is.
#[test]
fn a_changed_slab_opens_again() {
    let mut dev = Disk::new(64 * 1024 * 1024);
    let mut slab = format(&mut dev, 64 * 1024, StorageTier::Warm);
    let vol = VolumeId::new();
    let mut slots = Vec::new();
    for vext in 0..200u64 {
        slots.push(allocate(&mut slab, &mut dev, vol, vext));
    }
    inc_ref_batch(&mut slab, &mut dev, &slots[50..150]);
    free(&mut slab, &mut dev, slots[7]);
    slab.inc_ref(slots[8]).unwrap();
    persist(&slab, &mut dev, &[slots[8]]);
    assert_eq!(slab.dec_ref(slots[9]), Ok(true));
    persist(&slab, &mut dev, &[slots[9]]);
    let before = SlabHeader::from_bytes(&dev.read(0, HEADER_SIZE)).unwrap().free_slots;
    assert_ne!(before, slab.free_slots(), "one slot at a time leaves the header alone");
    let out = dec_ref_batch(&mut slab, &mut dev, &slots[40..60]);
    assert_eq!((out.freed, out.retained), (10, 10));
    let header = SlabHeader::from_bytes(&dev.read(0, HEADER_SIZE)).unwrap();
    assert_eq!(header.free_slots, slab.free_slots());
    allocate(&mut slab, &mut dev, vol, 1000);
    write_slot(&slab, &mut dev, slots[100], 0, &[5u8; 64]);

    let again = open(&mut dev);
    assert_eq!(again.slab_id(), slab.slab_id());
    assert_eq!((again.tier(), again.slot_size()), (slab.tier(), slab.slot_size()));
    assert_eq!(again.total_slots(), slab.total_slots());
    assert_eq!(again.free_slots(), slab.free_slots());
    for i in 0..slab.total_slots() as u32 {
        assert_eq!(again.get_slot(i), slab.get_slot(i), "slot {i}");
    }
}
