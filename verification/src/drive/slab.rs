//! A slab: an extent store with fixed-size slots on a block device.
//!
//! Each device, or device region, is formatted as a slab with a header, a
//! slot table and a data region. Any volume can allocate slots in any slab.
use crate::align;
use crate::bits;
use crate::bytes;
use crate::digest;
use crate::drive::extent_index::ExtentIndex;
use crate::drive::freemap::FreeMap;
use crate::drive::slab_history;
use crate::drive::slab_history::Change;
use crate::drive::slab_table;
use crate::drive::slab_table::SectorPlan;
use crate::ids;
use crate::ids::{Uuid, VolumeId};
use crate::order;
use crate::placement::StorageTier;
use crate::text;
use std::collections::HashSet;
use vstd::prelude::*;

verus! {

/// Slab header magic: "STRMSLAB".
pub const SLAB_MAGIC: [u8; 8] = [83, 84, 82, 77, 83, 76, 65, 66];

/// Current slab header version.
pub const SLAB_VERSION: u32 = 1;

/// Default slot size: 1 MB.
pub const DEFAULT_SLOT_SIZE: u64 = 1024 * 1024;

/// Slab header size on disk.
pub const HEADER_SIZE: u64 = 4096;

/// Slot entry size on disk.
pub const SLOT_ENTRY_SIZE: u64 = 64;

/// Unique identifier for a slab.
#[derive(Debug, Clone, Copy, PartialEq, Eq, Hash, Structural)]
pub struct SlabId(pub Uuid);

impl SlabId {
    /// A fresh identity.
    pub fn new() -> (id: Self)
        ensures
            ids::uuid_version(id.0.bits) == 4,
            ids::uuid_variant(id.0.bits) == 2,
    {
        SlabId(Uuid::new_v4())
    }

    /// The hyphenated form of the identity.
    pub fn to_string(&self) -> (s: String)
        ensures
            s@ == self.0.text(),
    {
        self.0.to_string()
    }
}

impl Default for SlabId {
    fn default() -> (id: Self)
        ensures
            ids::uuid_version(id.0.bits) == 4,
            ids::uuid_variant(id.0.bits) == 2,
    {
        Self::new()
    }
}

/// Why a slab operation was refused.
#[derive(Debug, Clone, Copy, PartialEq, Eq, Structural)]
pub enum SlabError {
    HeaderTooShort,
    BadMagic,
    BadVersion(u32),
    HeaderCrc,
    DeviceTooSmall(u64),
    NoSlotFits,
    Full,
    SlotOutOfRange(u32),
    DoubleFree(u32),
    IncRefOnFree(u32),
    DecRefOnFree(u32),
}

impl SlabError {
    /// The error in words.
    pub open spec fn message(self) -> Seq<char> {
        match self {
            SlabError::HeaderTooShort => "slab header too short"@,
            SlabError::BadMagic => "bad slab magic"@,
            SlabError::BadVersion(v) => "slab version "@ + text::decimal(v as nat) + ", expected "@
                + text::decimal(SLAB_VERSION as nat),
            SlabError::HeaderCrc => "slab header CRC mismatch"@,
            SlabError::DeviceTooSmall(c) => "device too small for slab ("@ + text::decimal(
                c as nat,
            ) + " bytes)"@,
            SlabError::NoSlotFits => "device too small for even one slot"@,
            SlabError::Full => "slab full"@,
            SlabError::SlotOutOfRange(i) => "slot index "@ + text::decimal(i as nat)
                + " out of range"@,
            SlabError::DoubleFree(i) => "double free of slot "@ + text::decimal(i as nat),
            SlabError::IncRefOnFree(i) => "cannot inc_ref on free slot "@ + text::decimal(i as nat),
            SlabError::DecRefOnFree(i) => "cannot dec_ref on free/zero-ref slot "@ + text::decimal(
                i as nat,
            ),
        }
    }

    /// The error in words.
    pub fn to_string(&self) -> (s: String)
        ensures
            s@ == self.message(),
    {
        match *self {
            SlabError::HeaderTooShort => "slab header too short".to_owned(),
            SlabError::BadMagic => "bad slab magic".to_owned(),
            SlabError::BadVersion(v) => {
                let mut s = "slab version ".to_owned();
                text::push_decimal(&mut s, v as u64);
                s.append(", expected ");
                text::push_decimal(&mut s, SLAB_VERSION as u64);
                s
            },
            SlabError::HeaderCrc => "slab header CRC mismatch".to_owned(),
            SlabError::DeviceTooSmall(c) => {
                let mut s = "device too small for slab (".to_owned();
                text::push_decimal(&mut s, c);
                s.append(" bytes)");
                s
            },
            SlabError::NoSlotFits => "device too small for even one slot".to_owned(),
            SlabError::Full => "slab full".to_owned(),
            SlabError::SlotOutOfRange(i) => {
                let mut s = "slot index ".to_owned();
                text::push_decimal(&mut s, i as u64);
                s.append(" out of range");
                s
            },
            SlabError::DoubleFree(i) => {
                let mut s = "double free of slot ".to_owned();
                text::push_decimal(&mut s, i as u64);
                s
            },
            SlabError::IncRefOnFree(i) => {
                let mut s = "cannot inc_ref on free slot ".to_owned();
                text::push_decimal(&mut s, i as u64);
                s
            },
            SlabError::DecRefOnFree(i) => {
                let mut s = "cannot dec_ref on free/zero-ref slot ".to_owned();
                text::push_decimal(&mut s, i as u64);
                s
            },
        }
    }
}

/// State of a slot in the slab.
#[derive(Debug, Clone, Copy, PartialEq, Eq, Structural)]
pub enum SlotState {
    Free,
    Allocated,
    Moving,
}

impl SlotState {
    /// The number a state is written with.
    pub open spec fn spec_code(self) -> u8 {
        match self {
            SlotState::Free => 0,
            SlotState::Allocated => 1,
            SlotState::Moving => 2,
        }
    }

    /// The number this state is written with.
    pub fn code(self) -> (c: u8)
        ensures
            c == self.spec_code(),
    {
        match self {
            SlotState::Free => 0,
            SlotState::Allocated => 1,
            SlotState::Moving => 2,
        }
    }
}

/// The state a number stands for; an unknown number is a free slot.
pub open spec fn slot_state_of(v: u8) -> SlotState {
    if v == 1 {
        SlotState::Allocated
    } else if v == 2 {
        SlotState::Moving
    } else {
        SlotState::Free
    }
}

impl From<u8> for SlotState {
    fn from(v: u8) -> (s: Self) {
        match v {
            1 => SlotState::Allocated,
            2 => SlotState::Moving,
            _ => SlotState::Free,
        }
    }
}

impl vstd::std_specs::convert::FromSpecImpl<u8> for SlotState {
    open spec fn obeys_from_spec() -> bool {
        true
    }

    open spec fn from_spec(v: u8) -> Self {
        slot_state_of(v)
    }
}

/// What the table says of one slot.
#[derive(Debug, Clone, Copy, PartialEq, Eq, Structural)]
pub struct Slot {
    pub state: SlotState,
    pub volume_id: VolumeId,
    pub virtual_extent_idx: u64,
    pub ref_count: u32,
    pub generation: u64,
}

/// A slot that nobody owns.
pub open spec fn free_slot() -> Slot {
    Slot {
        state: SlotState::Free,
        volume_id: VolumeId(Uuid { bits: 0 }),
        virtual_extent_idx: 0,
        ref_count: 0,
        generation: 0,
    }
}

impl Slot {
    /// The checksummed part of a slot entry: state, three bytes of padding,
    /// owner, extent, references, generation, and twenty reserved bytes.
    pub open spec fn body(self) -> Seq<u8> {
        seq![self.state.spec_code()] + bytes::zeros(3) + self.volume_id.0.bytes()
            + bytes::le_bytes(self.virtual_extent_idx as nat, 8) + bytes::le_bytes(
            self.ref_count as nat,
            4,
        ) + bytes::le_bytes(self.generation as nat, 8) + bytes::zeros(20)
    }

    /// A slot entry as it stands on disk.
    pub open spec fn encoded(self) -> Seq<u8> {
        self.body() + bytes::le_bytes(digest::crc32c_of(self.body()) as nat, 4)
    }

    /// The slot a byte string describes: nothing when it is too short or its
    /// checksum does not match.
    pub open spec fn decoded(data: Seq<u8>) -> Option<Slot> {
        if data.len() < 64 || bytes::le_value(data.subrange(60, 64)) != digest::crc32c_of(
            data.subrange(0, 60),
        ) {
            None
        } else {
            Some(
                Slot {
                    state: slot_state_of(data[0]),
                    volume_id: VolumeId(
                        Uuid { bits: bytes::be_value(data.subrange(4, 20)) as u128 },
                    ),
                    virtual_extent_idx: bytes::le_value(data.subrange(20, 28)) as u64,
                    ref_count: bytes::le_value(data.subrange(28, 32)) as u32,
                    generation: bytes::le_value(data.subrange(32, 40)) as u64,
                },
            )
        }
    }

    /// A slot that nobody owns.
    pub fn free() -> (s: Self)
        ensures
            s == free_slot(),
    {
        Slot {
            state: SlotState::Free,
            volume_id: VolumeId(Uuid::nil()),
            virtual_extent_idx: 0,
            ref_count: 0,
            generation: 0,
        }
    }

    /// The entry as it stands on disk.
    pub fn to_bytes(&self) -> (buf: Vec<u8>)
        ensures
            buf@ == self.encoded(),
            buf@.len() == 64,
    {
        let mut buf: Vec<u8> = Vec::new();
        buf.push(self.state.code());
        bytes::push_zeros(&mut buf, 3);
        self.volume_id.0.push(&mut buf);
        bytes::push_le(&mut buf, self.virtual_extent_idx, 8);
        bytes::push_le(&mut buf, self.ref_count as u64, 4);
        bytes::push_le(&mut buf, self.generation, 8);
        bytes::push_zeros(&mut buf, 20);
        assert(buf@ =~= self.body());
        let crc: u32 = digest::crc32c_sum(&buf);
        bytes::push_le(&mut buf, crc as u64, 4);
        proof {
            lemma_slot_encoded_len(*self);
        }
        buf
    }

    /// The slot `data` describes.
    pub fn from_bytes(data: &[u8]) -> (s: Option<Self>)
        ensures
            s == Self::decoded(data@),
    {
        if data.len() < 64 {
            return None;
        }
        let stored_crc: u64 = bytes::get_le(data, 60, 4);
        let computed_crc: u32 = digest::crc32c_sum(&data[0..60]);
        if stored_crc != computed_crc as u64 {
            return None;
        }
        let refs: u64 = bytes::get_le(data, 28, 4);
        proof {
            bytes::lemma_radix();
        }
        Some(
            Slot {
                state: SlotState::from(data[0]),
                volume_id: VolumeId(Uuid::read(data, 4)),
                virtual_extent_idx: bytes::get_le(data, 20, 8),
                ref_count: refs as u32,
                generation: bytes::get_le(data, 32, 8),
            },
        )
    }
}

proof fn lemma_slot_encoded_len(s: Slot)
    ensures
        s.body().len() == 60,
        s.encoded().len() == 64,
{
    broadcast use bytes::lemma_le_bytes_len, bytes::lemma_be_bytes_len;

}

/// A slot entry read back is the slot that was written.
pub proof fn slot_round_trip(s: Slot)
    ensures
        s.encoded().len() == 64,
        Slot::decoded(s.encoded()) == Some(s),
{
    broadcast use bytes::lemma_le_bytes_len, bytes::lemma_be_bytes_len;

    bytes::lemma_radix();
    lemma_slot_encoded_len(s);
    let e = s.encoded();
    let crc = digest::crc32c_of(s.body()) as nat;
    assert(e.subrange(0, 60) =~= s.body());
    assert(e.subrange(60, 64) =~= bytes::le_bytes(crc, 4));
    assert(e.subrange(4, 20) =~= s.volume_id.0.bytes());
    assert(e.subrange(20, 28) =~= bytes::le_bytes(s.virtual_extent_idx as nat, 8));
    assert(e.subrange(28, 32) =~= bytes::le_bytes(s.ref_count as nat, 4));
    assert(e.subrange(32, 40) =~= bytes::le_bytes(s.generation as nat, 8));
    bytes::le_round_trip(crc, 4);
    bytes::be_round_trip(s.volume_id.0.bits as nat, 16);
    bytes::le_round_trip(s.virtual_extent_idx as nat, 8);
    bytes::le_round_trip(s.ref_count as nat, 4);
    bytes::le_round_trip(s.generation as nat, 8);
}

/// On-disk slab header: 128 bytes used of 4096.
#[derive(Debug, Clone, Copy, PartialEq, Eq, Structural)]
pub struct SlabHeader {
    pub slab_uuid: Uuid,
    pub device_uuid: Uuid,
    pub slot_size: u64,
    pub total_slots: u64,
    pub free_slots: u64,
    pub data_offset: u64,
    pub table_offset: u64,
    pub create_time: u64,
    pub update_time: u64,
    pub tier: StorageTier,
    pub flags: u8,
}

impl SlabHeader {
    /// The checksummed part of the header.
    pub open spec fn body(self) -> Seq<u8> {
        SLAB_MAGIC@ + bytes::le_bytes(SLAB_VERSION as nat, 4) + self.slab_uuid.bytes()
            + self.device_uuid.bytes() + bytes::le_bytes(self.slot_size as nat, 8)
            + bytes::le_bytes(self.total_slots as nat, 8) + bytes::le_bytes(
            self.free_slots as nat,
            8,
        ) + bytes::le_bytes(self.data_offset as nat, 8) + bytes::le_bytes(
            self.table_offset as nat,
            8,
        ) + bytes::le_bytes(self.create_time as nat, 8) + bytes::le_bytes(
            self.update_time as nat,
            8,
        ) + seq![self.tier.spec_code(), self.flags] + bytes::zeros(22)
    }

    /// The header as it stands on disk.
    pub open spec fn encoded(self) -> Seq<u8> {
        self.body() + bytes::le_bytes(digest::crc32c_of(self.body()) as nat, 4) + bytes::zeros(3968)
    }

    /// The header a byte string holds, or what is wrong with it. The checks
    /// come in this order: length, magic, version, checksum.
    pub open spec fn decoded(data: Seq<u8>) -> Result<SlabHeader, SlabError> {
        let version = bytes::le_value(data.subrange(8, 12)) as u32;
        if data.len() < 128 {
            Err(SlabError::HeaderTooShort)
        } else if data.subrange(0, 8) != SLAB_MAGIC@ {
            Err(SlabError::BadMagic)
        } else if version != SLAB_VERSION {
            Err(SlabError::BadVersion(version))
        } else if bytes::le_value(data.subrange(124, 128)) != digest::crc32c_of(
            data.subrange(0, 124),
        ) {
            Err(SlabError::HeaderCrc)
        } else {
            Ok(
                SlabHeader {
                    slab_uuid: Uuid { bits: bytes::be_value(data.subrange(12, 28)) as u128 },
                    device_uuid: Uuid { bits: bytes::be_value(data.subrange(28, 44)) as u128 },
                    slot_size: bytes::le_value(data.subrange(44, 52)) as u64,
                    total_slots: bytes::le_value(data.subrange(52, 60)) as u64,
                    free_slots: bytes::le_value(data.subrange(60, 68)) as u64,
                    data_offset: bytes::le_value(data.subrange(68, 76)) as u64,
                    table_offset: bytes::le_value(data.subrange(76, 84)) as u64,
                    create_time: bytes::le_value(data.subrange(84, 92)) as u64,
                    update_time: bytes::le_value(data.subrange(92, 100)) as u64,
                    tier: StorageTier::spec_from_code(data[100]),
                    flags: data[101],
                },
            )
        }
    }

    /// The header as it stands on disk.
    pub fn to_bytes(&self) -> (buf: Vec<u8>)
        ensures
            buf@ == self.encoded(),
            buf@.len() == HEADER_SIZE,
    {
        let mut buf: Vec<u8> = Vec::new();
        let magic: [u8; 8] = SLAB_MAGIC;
        buf.extend_from_slice(&magic);
        bytes::push_le(&mut buf, SLAB_VERSION as u64, 4);
        self.slab_uuid.push(&mut buf);
        self.device_uuid.push(&mut buf);
        bytes::push_le(&mut buf, self.slot_size, 8);
        bytes::push_le(&mut buf, self.total_slots, 8);
        bytes::push_le(&mut buf, self.free_slots, 8);
        bytes::push_le(&mut buf, self.data_offset, 8);
        bytes::push_le(&mut buf, self.table_offset, 8);
        bytes::push_le(&mut buf, self.create_time, 8);
        bytes::push_le(&mut buf, self.update_time, 8);
        buf.push(self.tier.code());
        buf.push(self.flags);
        bytes::push_zeros(&mut buf, 22);
        assert(buf@ =~= self.body());
        let crc: u32 = digest::crc32c_sum(&buf);
        bytes::push_le(&mut buf, crc as u64, 4);
        bytes::push_zeros(&mut buf, 3968);
        proof {
            lemma_header_len(*self);
        }
        buf
    }

    /// The header `data` holds, or what is wrong with it.
    pub fn from_bytes(data: &[u8]) -> (r: Result<Self, SlabError>)
        ensures
            r == Self::decoded(data@),
    {
        if data.len() < 128 {
            return Err(SlabError::HeaderTooShort);
        }
        let magic: [u8; 8] = SLAB_MAGIC;
        if !bytes::matches_at(data, 0, &magic) {
            return Err(SlabError::BadMagic);
        }
        proof {
            bytes::lemma_radix();
        }
        let version: u32 = bytes::get_le(data, 8, 4) as u32;
        if version != SLAB_VERSION {
            return Err(SlabError::BadVersion(version));
        }
        let stored_crc: u64 = bytes::get_le(data, 124, 4);
        let computed: u32 = digest::crc32c_sum(&data[0..124]);
        if stored_crc != computed as u64 {
            return Err(SlabError::HeaderCrc);
        }
        Ok(
            SlabHeader {
                slab_uuid: Uuid::read(data, 12),
                device_uuid: Uuid::read(data, 28),
                slot_size: bytes::get_le(data, 44, 8),
                total_slots: bytes::get_le(data, 52, 8),
                free_slots: bytes::get_le(data, 60, 8),
                data_offset: bytes::get_le(data, 68, 8),
                table_offset: bytes::get_le(data, 76, 8),
                create_time: bytes::get_le(data, 84, 8),
                update_time: bytes::get_le(data, 92, 8),
                tier: StorageTier::from_code(data[100]),
                flags: data[101],
            },
        )
    }
}

proof fn lemma_header_len(h: SlabHeader)
    ensures
        h.body().len() == 124,
        h.encoded().len() == HEADER_SIZE,
{
    broadcast use bytes::lemma_le_bytes_len, bytes::lemma_be_bytes_len;

}

/// A header read back is the header that was written.
pub proof fn header_round_trip(h: SlabHeader)
    ensures
        h.encoded().len() == HEADER_SIZE,
        SlabHeader::decoded(h.encoded()) == Ok::<SlabHeader, SlabError>(h),
{
    broadcast use bytes::lemma_le_bytes_len, bytes::lemma_be_bytes_len;

    bytes::lemma_radix();
    lemma_header_len(h);
    let e = h.encoded();
    let crc = digest::crc32c_of(h.body()) as nat;
    assert(e.subrange(0, 124) =~= h.body());
    assert(e.subrange(124, 128) =~= bytes::le_bytes(crc, 4));
    assert(e.subrange(0, 8) =~= SLAB_MAGIC@);
    assert(e.subrange(8, 12) =~= bytes::le_bytes(SLAB_VERSION as nat, 4));
    assert(e.subrange(12, 28) =~= h.slab_uuid.bytes());
    assert(e.subrange(28, 44) =~= h.device_uuid.bytes());
    assert(e.subrange(44, 52) =~= bytes::le_bytes(h.slot_size as nat, 8));
    assert(e.subrange(52, 60) =~= bytes::le_bytes(h.total_slots as nat, 8));
    assert(e.subrange(60, 68) =~= bytes::le_bytes(h.free_slots as nat, 8));
    assert(e.subrange(68, 76) =~= bytes::le_bytes(h.data_offset as nat, 8));
    assert(e.subrange(76, 84) =~= bytes::le_bytes(h.table_offset as nat, 8));
    assert(e.subrange(84, 92) =~= bytes::le_bytes(h.create_time as nat, 8));
    assert(e.subrange(92, 100) =~= bytes::le_bytes(h.update_time as nat, 8));
    bytes::le_round_trip(crc, 4);
    bytes::le_round_trip(SLAB_VERSION as nat, 4);
    bytes::be_round_trip(h.slab_uuid.bits as nat, 16);
    bytes::be_round_trip(h.device_uuid.bits as nat, 16);
    bytes::le_round_trip(h.slot_size as nat, 8);
    bytes::le_round_trip(h.total_slots as nat, 8);
    bytes::le_round_trip(h.free_slots as nat, 8);
    bytes::le_round_trip(h.data_offset as nat, 8);
    bytes::le_round_trip(h.table_offset as nat, 8);
    bytes::le_round_trip(h.create_time as nat, 8);
    bytes::le_round_trip(h.update_time as nat, 8);
}

/// Why a slot in a release batch could not be decremented.
#[derive(Debug, Clone, Copy, PartialEq, Eq, Structural)]
pub enum DecRefReject {
    /// Index past the end of the slot table.
    OutOfRange,
    /// Already free, or already at zero references: the extent map named a
    /// slot the slot table no longer considers owned.
    AlreadyFree,
    /// The same slot appeared earlier in this batch.
    Duplicate,
}

impl DecRefReject {
    /// The reason in words.
    pub open spec fn message(self) -> Seq<char> {
        match self {
            DecRefReject::OutOfRange => "out of range"@,
            DecRefReject::AlreadyFree => "already free"@,
            DecRefReject::Duplicate => "duplicate in batch"@,
        }
    }

    /// The reason in words.
    pub fn to_string(&self) -> (s: String)
        ensures
            s@ == self.message(),
    {
        match self {
            DecRefReject::OutOfRange => "out of range".to_owned(),
            DecRefReject::AlreadyFree => "already free".to_owned(),
            DecRefReject::Duplicate => "duplicate in batch".to_owned(),
        }
    }
}

/// What a batched reference release managed to do.
///
/// Carries the per-slot failures rather than collapsing them into a single
/// error, so a caller can free what it can and still report the divergence.
pub struct DecRefOutcome {
    /// Slots whose last reference went away: space returned to the slab.
    pub freed: usize,
    /// Slots decremented but still referenced by someone else.
    pub retained: usize,
    /// Slots that could not be decremented, and why.
    pub rejected: Vec<(u32, DecRefReject)>,
    /// Slots whose table entry changed, in the order of the batch.
    pub touched: Vec<u32>,
    /// Slots returned to the slab, in the order of the batch.
    pub freed_slots: Vec<u32>,
    /// The slab's header, to be written once behind the slot entries where a
    /// slot was returned.
    pub header: Option<Vec<u8>>,
}

/// Which slots are free, one flag a slot.
pub open spec fn free_flags(slots: Seq<Slot>) -> Seq<bool> {
    Seq::new(slots.len(), |i: int| slots[i].state == SlotState::Free)
}

/// A header with the number of slots that are free in a table.
pub open spec fn header_with(h: SlabHeader, slots: Seq<Slot>) -> SlabHeader {
    SlabHeader { free_slots: bits::count_set(free_flags(slots)) as u64, ..h }
}

/// Whether a slot holds a reference that can be given up.
pub open spec fn live(slot: Slot) -> bool {
    slot.state != SlotState::Free && slot.ref_count > 0
}

/// The contents of a slab: its slot table, and which slot each extent was
/// last given.
pub struct SlabState {
    pub slots: Seq<Slot>,
    pub index: Map<(VolumeId, u64), u32>,
}

impl SlabState {
    /// Every entry of the index names a slot that is taken by that extent.
    pub open spec fn index_ok(self) -> bool {
        forall|k: (VolumeId, u64)| #[trigger]
            self.index.contains_key(k) ==> {
                &&& self.index[k] < self.slots.len()
                &&& self.slots[self.index[k] as int].state != SlotState::Free
                &&& self.slots[self.index[k] as int].volume_id == k.0
                &&& self.slots[self.index[k] as int].virtual_extent_idx == k.1
            }
    }

    /// Slot `i` given to an extent, with one reference.
    pub open spec fn take(self, i: int, volume: VolumeId, vext: u64) -> SlabState {
        SlabState {
            slots: self.slots.update(
                i,
                Slot {
                    state: SlotState::Allocated,
                    volume_id: volume,
                    virtual_extent_idx: vext,
                    ref_count: 1,
                    generation: 1,
                },
            ),
            index: self.index.insert((volume, vext), i as u32),
        }
    }

    /// Slot `i` returned to the slab. The extent is forgotten only where the
    /// index still names this slot: after a copy-on-write the same extent may
    /// have moved to another one.
    pub open spec fn release(self, i: int) -> SlabState {
        let key = (self.slots[i].volume_id, self.slots[i].virtual_extent_idx);
        SlabState {
            slots: self.slots.update(i, free_slot()),
            index: if self.index.contains_key(key) && self.index[key] == i {
                self.index.remove(key)
            } else {
                self.index
            },
        }
    }

    /// Slot `i` with its reference count set to `n`.
    pub open spec fn with_refs(self, i: int, n: int) -> SlabState {
        SlabState {
            slots: self.slots.update(i, Slot { ref_count: n as u32, ..self.slots[i] }),
            index: self.index,
        }
    }

    /// One reference on slot `i` given up; the last one returns the slot.
    pub open spec fn drop_ref(self, i: int) -> SlabState {
        if self.slots[i].ref_count == 1 {
            self.release(i)
        } else {
            self.with_refs(i, self.slots[i].ref_count - 1)
        }
    }

    /// One reference more on each slot that `batch` names, as often as it
    /// names it.
    pub open spec fn add_refs(self, batch: Seq<u32>) -> SlabState {
        SlabState {
            slots: Seq::new(
                self.slots.len(),
                |i: int|
                    Slot {
                        ref_count: (self.slots[i].ref_count + occurrences(batch, i)) as u32,
                        ..self.slots[i]
                    },
            ),
            index: self.index,
        }
    }

    /// What is wrong with adding a reference to slot `i`, if anything is.
    pub open spec fn add_fault(self, i: u32) -> Option<SlabError> {
        if i >= self.slots.len() {
            Some(SlabError::SlotOutOfRange(i))
        } else if self.slots[i as int].state == SlotState::Free {
            Some(SlabError::IncRefOnFree(i))
        } else {
            None
        }
    }

    /// The first thing wrong among the first `n` entries of a batch of added
    /// references.
    pub open spec fn first_fault(self, batch: Seq<u32>, n: nat) -> Option<SlabError>
        decreases n,
    {
        if n == 0 {
            None
        } else {
            match self.first_fault(batch, (n - 1) as nat) {
                Some(e) => Some(e),
                None => self.add_fault(batch[n - 1]),
            }
        }
    }

    /// Why entry `n` of a release batch is refused, if it is.
    pub open spec fn verdict(self, batch: Seq<u32>, n: int) -> Option<DecRefReject> {
        if batch.take(n).contains(batch[n]) {
            Some(DecRefReject::Duplicate)
        } else if batch[n] >= self.slots.len() {
            Some(DecRefReject::OutOfRange)
        } else if !live(self.slots[batch[n] as int]) {
            Some(DecRefReject::AlreadyFree)
        } else {
            None
        }
    }

    /// The slab after the first `n` entries of a release batch.
    pub open spec fn drop_refs(self, batch: Seq<u32>, n: nat) -> SlabState
        decreases n,
    {
        if n == 0 {
            self
        } else {
            let before = self.drop_refs(batch, (n - 1) as nat);
            if self.verdict(batch, n - 1) is None {
                before.drop_ref(batch[n - 1] as int)
            } else {
                before
            }
        }
    }

    /// The refused entries among the first `n` of a release batch, in order.
    pub open spec fn rejects(self, batch: Seq<u32>, n: nat) -> Seq<(u32, DecRefReject)>
        decreases n,
    {
        if n == 0 {
            Seq::empty()
        } else {
            let before = self.rejects(batch, (n - 1) as nat);
            match self.verdict(batch, n - 1) {
                Some(why) => before.push((batch[n - 1], why)),
                None => before,
            }
        }
    }

    /// The accepted entries among the first `n` of a release batch, in order.
    pub open spec fn accepted(self, batch: Seq<u32>, n: nat) -> Seq<u32>
        decreases n,
    {
        if n == 0 {
            Seq::empty()
        } else {
            let before = self.accepted(batch, (n - 1) as nat);
            if self.verdict(batch, n - 1) is None {
                before.push(batch[n - 1])
            } else {
                before
            }
        }
    }

    /// The accepted entries that give up a slot's last reference, in order.
    pub open spec fn last_refs(self, batch: Seq<u32>, n: nat) -> Seq<u32>
        decreases n,
    {
        if n == 0 {
            Seq::empty()
        } else {
            let before = self.last_refs(batch, (n - 1) as nat);
            if self.verdict(batch, n - 1) is None && self.slots[batch[n - 1] as int].ref_count
                == 1 {
                before.push(batch[n - 1])
            } else {
                before
            }
        }
    }
}

/// How often `i` stands in `batch`.
pub open spec fn occurrences(batch: Seq<u32>, i: int) -> nat
    decreases batch.len(),
{
    if batch.len() == 0 {
        0
    } else {
        occurrences(batch.drop_last(), i) + if batch.last() == i {
            1nat
        } else {
            0nat
        }
    }
}

/// Whether a header's regions can be addressed: the table and the data lie
/// below the end of the 64-bit range, and a slot number fits in 32 bits.
pub open spec fn geometry_ok(h: SlabHeader) -> bool {
    &&& h.total_slots <= u32::MAX
    &&& h.total_slots <= bits::max_bits()
    &&& h.table_offset + h.total_slots * SLOT_ENTRY_SIZE <= u64::MAX
    &&& h.data_offset + h.total_slots * h.slot_size <= u64::MAX
}

/// A slab manages a device as an extent store with fixed-size slots.
///
/// Any volume can allocate slots in any slab. The slab tracks which volume
/// owns each slot, enabling many-to-many volume-device mapping.
pub struct Slab {
    pub id: SlabId,
    header: SlabHeader,
    free_map: FreeMap,
    slots: Vec<Slot>,
    extent_index: ExtentIndex,
    free_count: u64,
}

impl View for Slab {
    type V = SlabState;

    closed spec fn view(&self) -> SlabState {
        SlabState { slots: self.slots@, index: self.extent_index@ }
    }
}

impl Slab {
    /// The slab's identity.
    pub closed spec fn spec_id(&self) -> SlabId {
        self.id
    }

    /// The header the slab was formatted or opened with.
    pub closed spec fn spec_header(&self) -> SlabHeader {
        self.header
    }

    /// The header as it stands now: with the number of slots that are free.
    pub open spec fn header_now(&self) -> SlabHeader {
        header_with(self.spec_header(), self@.slots)
    }

    /// The free map, the free count and the index all say what the slot table
    /// says.
    pub closed spec fn wf(&self) -> bool {
        &&& self.header.total_slots == self.slots@.len()
        &&& geometry_ok(self.header)
        &&& self.free_map.wf()
        &&& self.free_map@ == free_flags(self.slots@)
        &&& self.free_count == bits::count_set(free_flags(self.slots@))
        &&& self@.index_ok()
        &&& self.id.0 == self.header.slab_uuid
    }

    /// Allocates a slot for a volume's virtual extent: the first free one.
    pub fn allocate(&mut self, volume_id: VolumeId, vext_idx: u64) -> (r: Result<u32, SlabError>)
        requires
            old(self).wf(),
        ensures
            final(self).wf(),
            final(self).spec_header() == old(self).spec_header(),
            match r {
                Ok(i) => {
                    &&& i < old(self)@.slots.len()
                    &&& old(self)@.slots[i as int].state == SlotState::Free
                    &&& forall|j: int|
                        0 <= j < i ==> old(self)@.slots[j].state != SlotState::Free
                    &&& final(self)@ == old(self)@.take(i as int, volume_id, vext_idx)
                },
                Err(e) => {
                    &&& e == SlabError::Full
                    &&& forall|j: int|
                        0 <= j < old(self)@.slots.len() ==> old(self)@.slots[j].state
                            != SlotState::Free
                    &&& final(self)@ == old(self)@
                },
            },
            final(self)@ == slab_history::changed(
                old(self)@,
                Change::Allocate { volume: volume_id, vext: vext_idx },
            ),
    {
        let ghost flags = free_flags(self.slots@);
        proof {
            bits::lemma_count_set_zero(flags);
            slab_history::lemma_first_free(self.slots@);
        }
        if self.free_count == 0 {
            assert forall|j: int| 0 <= j < self@.slots.len() implies self@.slots[j].state
                != SlotState::Free by {
                assert(!flags[j]);
            }
            return Err(SlabError::Full);
        }
        match self.free_map.first_free() {
            None => {
                assert(false);
                Err(SlabError::Full)
            },
            Some(idx) => {
                assert(flags[idx as int]);
                assert forall|j: int| 0 <= j < idx implies self@.slots[j].state
                    != SlotState::Free by {
                    assert(!flags[j]);
                }
                proof {
                    bits::lemma_count_set_update(flags, idx as int, false);
                }
                self.free_map.set(idx, false);
                self.free_count = self.free_count - 1;
                self.slots.set(
                    idx,
                    Slot {
                        state: SlotState::Allocated,
                        volume_id,
                        virtual_extent_idx: vext_idx,
                        ref_count: 1,
                        generation: 1,
                    },
                );
                self.extent_index.insert(volume_id, vext_idx, idx as u32);
                assert(free_flags(self.slots@) =~= flags.update(idx as int, false));
                Ok(idx as u32)
            },
        }
    }

    /// Returns slot `idx` to the slab and forgets its extent.
    fn give_back(&mut self, idx: usize)
        requires
            old(self).wf(),
            idx < old(self)@.slots.len(),
            old(self)@.slots[idx as int].state != SlotState::Free,
        ensures
            final(self).wf(),
            final(self).spec_header() == old(self).spec_header(),
            final(self)@ == old(self)@.release(idx as int),
    {
        let ghost flags = free_flags(self.slots@);
        let slot: Slot = self.slots[idx];
        proof {
            bits::lemma_count_set_update(flags, idx as int, true);
            bits::lemma_count_set_bound(flags.update(idx as int, true));
        }
        match self.extent_index.get(slot.volume_id, slot.virtual_extent_idx) {
            Some(held) => {
                if held == idx as u32 {
                    self.extent_index.remove(slot.volume_id, slot.virtual_extent_idx);
                }
            },
            None => {},
        }
        self.slots.set(idx, Slot::free());
        self.free_map.set(idx, true);
        self.free_count = self.free_count + 1;
        assert(free_flags(self.slots@) =~= flags.update(idx as int, true));
    }

    /// Frees a slot, whatever its reference count.
    pub fn free(&mut self, slot_idx: u32) -> (r: Result<(), SlabError>)
        requires
            old(self).wf(),
        ensures
            final(self).wf(),
            final(self).spec_header() == old(self).spec_header(),
            r == (if slot_idx >= old(self)@.slots.len() {
                Err(SlabError::SlotOutOfRange(slot_idx))
            } else if old(self)@.slots[slot_idx as int].state == SlotState::Free {
                Err(SlabError::DoubleFree(slot_idx))
            } else {
                Ok(())
            }),
            final(self)@ == if r is Ok {
                old(self)@.release(slot_idx as int)
            } else {
                old(self)@
            },
            final(self)@ == slab_history::changed(old(self)@, Change::Free { slot: slot_idx }),
    {
        let idx: usize = slot_idx as usize;
        if idx >= self.slots.len() {
            return Err(SlabError::SlotOutOfRange(slot_idx));
        }
        if self.slots[idx].state == SlotState::Free {
            return Err(SlabError::DoubleFree(slot_idx));
        }
        self.give_back(idx);
        Ok(())
    }

    /// Sets the reference count of slot `idx`.
    fn set_refs(&mut self, idx: usize, n: u32)
        requires
            old(self).wf(),
            idx < old(self)@.slots.len(),
        ensures
            final(self).wf(),
            final(self).spec_header() == old(self).spec_header(),
            final(self)@ == old(self)@.with_refs(idx as int, n as int),
    {
        let mut slot: Slot = self.slots[idx];
        slot.ref_count = n;
        let ghost before = self.slots@;
        self.slots.set(idx, slot);
        assert(free_flags(self.slots@) =~= free_flags(before));
    }

    /// Increments the reference count on a slot.
    pub fn inc_ref(&mut self, slot_idx: u32) -> (r: Result<(), SlabError>)
        requires
            old(self).wf(),
            slot_idx < old(self)@.slots.len() && old(self)@.slots[slot_idx as int].state
                != SlotState::Free ==> old(self)@.slots[slot_idx as int].ref_count < u32::MAX,
        ensures
            final(self).wf(),
            final(self).spec_header() == old(self).spec_header(),
            r == (if slot_idx >= old(self)@.slots.len() {
                Err(SlabError::SlotOutOfRange(slot_idx))
            } else if old(self)@.slots[slot_idx as int].state == SlotState::Free {
                Err(SlabError::IncRefOnFree(slot_idx))
            } else {
                Ok(())
            }),
            final(self)@ == if r is Ok {
                old(self)@.with_refs(
                    slot_idx as int,
                    old(self)@.slots[slot_idx as int].ref_count + 1,
                )
            } else {
                old(self)@
            },
            final(self)@ == slab_history::changed(old(self)@, Change::IncRef { slot: slot_idx }),
    {
        let idx: usize = slot_idx as usize;
        if idx >= self.slots.len() {
            return Err(SlabError::SlotOutOfRange(slot_idx));
        }
        if self.slots[idx].state == SlotState::Free {
            return Err(SlabError::IncRefOnFree(slot_idx));
        }
        let n: u32 = self.slots[idx].ref_count;
        self.set_refs(idx, n + 1);
        Ok(())
    }

    /// Decrements the reference count on a slot. Returns true if that freed
    /// the slot.
    pub fn dec_ref(&mut self, slot_idx: u32) -> (r: Result<bool, SlabError>)
        requires
            old(self).wf(),
        ensures
            final(self).wf(),
            final(self).spec_header() == old(self).spec_header(),
            r == (if slot_idx >= old(self)@.slots.len() {
                Err(SlabError::SlotOutOfRange(slot_idx))
            } else if !live(old(self)@.slots[slot_idx as int]) {
                Err(SlabError::DecRefOnFree(slot_idx))
            } else {
                Ok(old(self)@.slots[slot_idx as int].ref_count == 1)
            }),
            final(self)@ == if r is Ok {
                old(self)@.drop_ref(slot_idx as int)
            } else {
                old(self)@
            },
            final(self)@ == slab_history::changed(old(self)@, Change::DecRef { slot: slot_idx }),
    {
        let idx: usize = slot_idx as usize;
        if idx >= self.slots.len() {
            return Err(SlabError::SlotOutOfRange(slot_idx));
        }
        if self.slots[idx].state == SlotState::Free || self.slots[idx].ref_count == 0 {
            return Err(SlabError::DecRefOnFree(slot_idx));
        }
        let n: u32 = self.slots[idx].ref_count;
        if n == 1 {
            self.give_back(idx);
            Ok(true)
        } else {
            self.set_refs(idx, n - 1);
            Ok(false)
        }
    }

    /// Increments reference counts on many slots at once. Nothing changes
    /// unless every entry can be incremented.
    pub fn inc_ref_batch(&mut self, slot_indices: &[u32]) -> (r: Result<(), SlabError>)
        requires
            old(self).wf(),
            old(self)@.first_fault(slot_indices@, slot_indices@.len()) is None ==> forall|i: int|
                0 <= i < old(self)@.slots.len() ==> #[trigger] old(self)@.slots[i].ref_count
                    + occurrences(slot_indices@, i) <= u32::MAX,
        ensures
            final(self).wf(),
            final(self).spec_header() == old(self).spec_header(),
            r == (match old(self)@.first_fault(slot_indices@, slot_indices@.len()) {
                Some(e) => Err(e),
                None => Ok(()),
            }),
            final(self)@ == if r is Ok {
                old(self)@.add_refs(slot_indices@)
            } else {
                old(self)@
            },
            final(self)@ == slab_history::changed(
                old(self)@,
                Change::IncRefs { batch: slot_indices@ },
            ),
    {
        let ghost batch = slot_indices@;
        let mut n: usize = 0;
        while n < slot_indices.len()
            invariant
                n <= batch.len(),
                batch == slot_indices@,
                self.wf(),
                *self == *old(self),
                self@.first_fault(batch, n as nat) is None,
                forall|m: int| 0 <= m < n ==> self@.add_fault(#[trigger] batch[m]) is None,
            decreases batch.len() - n,
        {
            let slot_idx: u32 = slot_indices[n];
            let idx: usize = slot_idx as usize;
            let fault: Option<SlabError> = if idx >= self.slots.len() {
                Some(SlabError::SlotOutOfRange(slot_idx))
            } else if self.slots[idx].state == SlotState::Free {
                Some(SlabError::IncRefOnFree(slot_idx))
            } else {
                None
            };
            match fault {
                Some(e) => {
                    proof {
                        self@.lemma_first_fault_stays(batch, (n + 1) as nat, batch.len());
                    }
                    return Err(e);
                },
                None => {},
            }
            n = n + 1;
        }
        n = 0;
        assert(self@.slots =~= self@.add_refs(batch.take(0)).slots);
        while n < slot_indices.len()
            invariant
                n <= batch.len(),
                batch == slot_indices@,
                self.wf(),
                self.spec_header() == old(self).spec_header(),
                self@ == old(self)@.add_refs(batch.take(n as int)),
                forall|m: int| 0 <= m < batch.len() ==> old(self)@.add_fault(#[trigger] batch[m]) is None,
                forall|i: int|
                    0 <= i < old(self)@.slots.len() ==> #[trigger] old(self)@.slots[i].ref_count
                        + occurrences(batch, i) <= u32::MAX,
            decreases batch.len() - n,
        {
            let idx: usize = slot_indices[n] as usize;
            assert(old(self)@.add_fault(batch[n as int]) is None);
            proof {
                assert(batch.take(n + 1).drop_last() =~= batch.take(n as int));
                assert forall|i: int| 0 <= i < old(self)@.slots.len() implies #[trigger] old(
                    self,
                )@.slots[i].ref_count + occurrences(batch.take(n + 1), i) <= u32::MAX by {
                    lemma_occurrences_prefix(batch, n + 1, i);
                }
                assert(old(self)@.slots[idx as int].ref_count + occurrences(
                    batch.take(n + 1),
                    idx as int,
                ) <= u32::MAX);
            }
            let refs: u32 = self.slots[idx].ref_count;
            self.set_refs(idx, refs + 1);
            assert(self@.slots =~= old(self)@.add_refs(batch.take(n + 1)).slots);
            n = n + 1;
        }
        assert(batch.take(batch.len() as int) =~= batch);
        Ok(())
    }

    /// Decrements reference counts on many slots at once, freeing any that
    /// reach zero. An entry that cannot be decremented is refused and named;
    /// it does not hold up the others. The header is to be written once at the
    /// end, not once for each slot that is freed.
    pub fn dec_ref_batch(&mut self, slot_indices: &[u32]) -> (out: DecRefOutcome)
        requires
            old(self).wf(),
        ensures
            final(self).wf(),
            final(self).spec_header() == old(self).spec_header(),
            final(self)@ == old(self)@.drop_refs(slot_indices@, slot_indices@.len()),
            final(self)@ == slab_history::changed(
                old(self)@,
                Change::DecRefs { batch: slot_indices@ },
            ),
            out.rejected@ == old(self)@.rejects(slot_indices@, slot_indices@.len()),
            out.touched@ == old(self)@.accepted(slot_indices@, slot_indices@.len()),
            out.freed_slots@ == old(self)@.last_refs(slot_indices@, slot_indices@.len()),
            out.freed == out.freed_slots@.len(),
            out.retained == out.touched@.len() - out.freed_slots@.len(),
            match out.header {
                Some(b) => out.freed > 0 && b@ == final(self).header_now().encoded(),
                None => out.freed == 0,
            },
    {
        broadcast use vstd::std_specs::hash::group_hash_axioms;

        let ghost batch = slot_indices@;
        let mut out = DecRefOutcome {
            freed: 0,
            retained: 0,
            rejected: Vec::new(),
            touched: Vec::new(),
            freed_slots: Vec::new(),
            header: None,
        };
        let mut seen: HashSet<u32> = HashSet::new();
        let mut n: usize = 0;
        assert(batch.take(0) =~= Seq::<u32>::empty());
        while n < slot_indices.len()
            invariant
                n <= batch.len(),
                batch == slot_indices@,
                self.wf(),
                self.spec_header() == old(self).spec_header(),
                self@ == old(self)@.drop_refs(batch, n as nat),
                self@.slots.len() == old(self)@.slots.len(),
                forall|x: u32| seen@.contains(x) <==> batch.take(n as int).contains(x),
                forall|i: int|
                    0 <= i < self@.slots.len() && !batch.take(n as int).contains(i as u32)
                        ==> self@.slots[i] == old(self)@.slots[i],
                out.rejected@ == old(self)@.rejects(batch, n as nat),
                out.touched@ == old(self)@.accepted(batch, n as nat),
                out.freed_slots@ == old(self)@.last_refs(batch, n as nat),
                out.freed == out.freed_slots@.len() <= n,
                out.retained == out.touched@.len() - out.freed_slots@.len(),
                out.touched@.len() <= n,
                out.header is None,
            decreases batch.len() - n,
        {
            broadcast use vstd::std_specs::hash::group_hash_axioms;

            let slot_idx: u32 = slot_indices[n];
            let idx: usize = slot_idx as usize;
            let ghost before = batch.take(n as int);
            assert(batch.take(n + 1) =~= before.push(slot_idx));
            assert forall|x: u32| batch.take(n + 1).contains(x) <==> (before.contains(x) || x
                == slot_idx) by {
                if x == slot_idx {
                    assert(batch.take(n + 1)[n as int] == x);
                } else if before.contains(x) {
                    let k = before.index_of(x);
                    assert(batch.take(n + 1)[k] == x);
                }
            }
            n = n + 1;
            // A repeat inside one batch would give up a reference that an
            // earlier entry may already have been the last of.
            if !seen.insert(slot_idx) {
                out.rejected.push((slot_idx, DecRefReject::Duplicate));
                continue;
            }
            if idx >= self.slots.len() {
                out.rejected.push((slot_idx, DecRefReject::OutOfRange));
                continue;
            }
            if self.slots[idx].state == SlotState::Free || self.slots[idx].ref_count == 0 {
                out.rejected.push((slot_idx, DecRefReject::AlreadyFree));
                continue;
            }
            out.touched.push(slot_idx);
            let refs: u32 = self.slots[idx].ref_count;
            if refs > 1 {
                self.set_refs(idx, refs - 1);
                out.retained = out.retained + 1;
            } else {
                self.give_back(idx);
                out.freed_slots.push(slot_idx);
                out.freed = out.freed + 1;
            }
        }
        if out.freed > 0 {
            out.header = Some(self.header_bytes());
        }
        out
    }

    /// The header as it stands now, in bytes.
    pub fn header_bytes(&self) -> (b: Vec<u8>)
        requires
            self.wf(),
        ensures
            b@ == self.header_now().encoded(),
            b@.len() == HEADER_SIZE,
    {
        let mut h: SlabHeader = self.header;
        h.free_slots = self.free_count;
        h.to_bytes()
    }
}

/// What is known of a device before it is formatted.
#[derive(Debug, Clone, Copy, PartialEq, Eq, Structural)]
pub struct DeviceInfo {
    pub uuid: Uuid,
    pub capacity: u64,
    pub block_size: u32,
}

/// How many slots the space behind the header could hold, each with its table
/// entry.
pub open spec fn slots_by_size(capacity: int, slot_size: int) -> int {
    (if capacity < HEADER_SIZE {
        0
    } else {
        capacity - HEADER_SIZE
    }) / (SLOT_ENTRY_SIZE + slot_size)
}

/// Where the data region begins: behind a table for that many slots, on a
/// multiple of the slot size.
pub open spec fn data_start(capacity: int, slot_size: int) -> int {
    align::round_up(
        HEADER_SIZE + slots_by_size(capacity, slot_size) * SLOT_ENTRY_SIZE,
        slot_size,
    )
}

/// How many slots a device is formatted with: as many as the table was laid
/// out for, or as fit behind the data region's start.
pub open spec fn slot_total(capacity: int, slot_size: int) -> int {
    let start = data_start(capacity, slot_size);
    let fit = (if capacity < start {
        0
    } else {
        capacity - start
    }) / slot_size;
    if fit < slots_by_size(capacity, slot_size) {
        fit
    } else {
        slots_by_size(capacity, slot_size)
    }
}

/// The length of a table of `n` slots, padded to whole blocks.
pub open spec fn padded_table(n: int, block_size: int) -> int {
    if block_size > 1 {
        align::round_up(n * SLOT_ENTRY_SIZE, block_size)
    } else {
        n * SLOT_ENTRY_SIZE
    }
}

/// A freshly formatted slab and what has to be written for it: the header at
/// the start of the device, then `table_len` zero bytes at the table offset.
pub struct FormatPlan {
    pub slab: Slab,
    pub header: Vec<u8>,
    pub table_offset: u64,
    pub table_len: u64,
}

/// The header of a fresh slab.
pub open spec fn fresh_header(
    dev: DeviceInfo,
    slot_size: u64,
    tier: StorageTier,
    id: SlabId,
    now: u64,
) -> SlabHeader {
    let total = slot_total(dev.capacity as int, slot_size as int) as u64;
    SlabHeader {
        slab_uuid: id.0,
        device_uuid: dev.uuid,
        slot_size,
        total_slots: total,
        free_slots: total,
        data_offset: data_start(dev.capacity as int, slot_size as int) as u64,
        table_offset: HEADER_SIZE,
        create_time: now,
        update_time: now,
        tier,
        flags: 0,
    }
}

/// The slot that the 64 bytes at `at` describe; a free one where they do not
/// pass their checksum.
pub open spec fn entry_at(img: Seq<u8>, at: int) -> Slot {
    match Slot::decoded(img.subrange(at, at + 64)) {
        Some(s) => s,
        None => free_slot(),
    }
}

/// The table of `n` slots that stands at `at`.
pub open spec fn table_at(img: Seq<u8>, at: int, n: nat) -> Seq<Slot> {
    Seq::new(n, |i: int| entry_at(img, at + 64 * i))
}

/// The index that the first `n` entries of a table give; of two slots that
/// name the same extent the later one counts.
pub open spec fn index_of(slots: Seq<Slot>, n: nat) -> Map<(VolumeId, u64), u32>
    decreases n,
{
    if n == 0 {
        Map::empty()
    } else {
        let before = index_of(slots, (n - 1) as nat);
        let s = slots[n - 1];
        if s.state == SlotState::Free {
            before
        } else {
            before.insert((s.volume_id, s.virtual_extent_idx), (n - 1) as u32)
        }
    }
}

impl SlabHeader {
    /// Whether the header's regions can be addressed.
    pub fn addressable(&self) -> (yes: bool)
        ensures
            yes == geometry_ok(*self),
    {
        let n: u64 = self.total_slots;
        if n > u32::MAX as u64 || n > (usize::MAX / 8) as u64 {
            return false;
        }
        let table: u64 = n * SLOT_ENTRY_SIZE;
        if table > u64::MAX - self.table_offset {
            return false;
        }
        match n.checked_mul(self.slot_size) {
            None => false,
            Some(data) => data <= u64::MAX - self.data_offset,
        }
    }

    /// How many bytes of slot table to read from a device of `block_size`
    /// byte blocks.
    pub fn table_len(&self, block_size: u32) -> (len: u64)
        requires
            geometry_ok(*self),
        ensures
            len == padded_table(self.total_slots as int, block_size as int),
    {
        let len: u64 = self.total_slots * SLOT_ENTRY_SIZE;
        if block_size > 1 {
            proof {
                align::round_up_is_least_multiple(len as int, block_size as int);
            }
            align::align_up(len, block_size as u64)
        } else {
            len
        }
    }
}

proof fn lemma_data_start(capacity: int, slot_size: int)
    requires
        0 <= capacity <= u64::MAX,
        0 < slot_size,
        HEADER_SIZE + SLOT_ENTRY_SIZE + slot_size <= capacity,
    ensures
        0 < slots_by_size(capacity, slot_size),
        HEADER_SIZE + slots_by_size(capacity, slot_size) * SLOT_ENTRY_SIZE <= data_start(
            capacity,
            slot_size,
        ) <= capacity,
        align::is_multiple(data_start(capacity, slot_size), slot_size),
        0 <= slot_total(capacity, slot_size) <= slots_by_size(capacity, slot_size),
        data_start(capacity, slot_size) + slot_total(capacity, slot_size) * slot_size <= capacity,
{
    let per = SLOT_ENTRY_SIZE + slot_size;
    let usable = capacity - HEADER_SIZE;
    let guess = slots_by_size(capacity, slot_size);
    vstd::arithmetic::div_mod::lemma_fundamental_div_mod(usable, per);
    assert(guess >= 1) by (nonlinear_arith)
        requires
            usable == per * guess + usable % per,
            usable % per < per,
            usable >= per,
            per > 0,
    ;
    let raw = HEADER_SIZE + guess * SLOT_ENTRY_SIZE;
    assert(raw + slot_size <= capacity) by (nonlinear_arith)
        requires
            usable == per * guess + usable % per,
            usable % per >= 0,
            per == SLOT_ENTRY_SIZE + slot_size,
            usable == capacity - HEADER_SIZE,
            raw == HEADER_SIZE + guess * SLOT_ENTRY_SIZE,
            guess >= 1,
            slot_size > 0,
    ;
    align::round_up_is_least_multiple(raw, slot_size);
    let start = data_start(capacity, slot_size);
    let fit = (capacity - start) / slot_size;
    let total = slot_total(capacity, slot_size);
    vstd::arithmetic::div_mod::lemma_fundamental_div_mod(capacity - start, slot_size);
    vstd::arithmetic::div_mod::lemma_div_pos_is_pos(capacity - start, slot_size);
    assert(total * slot_size <= capacity - start) by (nonlinear_arith)
        requires
            capacity - start == slot_size * fit + (capacity - start) % slot_size,
            (capacity - start) % slot_size >= 0,
            total <= fit,
            slot_size > 0,
    ;
}

impl Slab {
    /// Formats a device as a new slab, under a fresh identity. `now` is the
    /// time in seconds.
    pub fn format(dev: DeviceInfo, slot_size: u64, tier: StorageTier, now: u64) -> (r: Result<
        FormatPlan,
        SlabError,
    >)
        requires
            slot_size <= u64::MAX - SLOT_ENTRY_SIZE,
            slot_size > 0 || dev.capacity < HEADER_SIZE + SLOT_ENTRY_SIZE,
            slot_total(dev.capacity as int, slot_size as int) <= u32::MAX,
            slot_total(dev.capacity as int, slot_size as int) <= bits::max_bits(),
        ensures
            match r {
                Err(e) => e == SlabError::DeviceTooSmall(dev.capacity) && dev.capacity < HEADER_SIZE
                    + SLOT_ENTRY_SIZE + slot_size || e == SlabError::NoSlotFits && dev.capacity
                    >= HEADER_SIZE + SLOT_ENTRY_SIZE + slot_size && slot_total(
                    dev.capacity as int,
                    slot_size as int,
                ) == 0,
                Ok(p) => {
                    &&& ids::uuid_version(p.slab.spec_id().0.bits) == 4
                    &&& ids::uuid_variant(p.slab.spec_id().0.bits) == 2
                    &&& is_fresh(p, dev, slot_size, tier, p.slab.spec_id(), now)
                },
            },
    {
        Self::format_as(dev, slot_size, tier, SlabId::new(), now)
    }

    /// Formats a device as a new slab with the given identity.
    pub fn format_as(
        dev: DeviceInfo,
        slot_size: u64,
        tier: StorageTier,
        id: SlabId,
        now: u64,
    ) -> (r: Result<FormatPlan, SlabError>)
        requires
            slot_size <= u64::MAX - SLOT_ENTRY_SIZE,
            slot_size > 0 || dev.capacity < HEADER_SIZE + SLOT_ENTRY_SIZE,
            slot_total(dev.capacity as int, slot_size as int) <= u32::MAX,
            slot_total(dev.capacity as int, slot_size as int) <= bits::max_bits(),
        ensures
            match r {
                Err(e) => e == SlabError::DeviceTooSmall(dev.capacity) && dev.capacity < HEADER_SIZE
                    + SLOT_ENTRY_SIZE + slot_size || e == SlabError::NoSlotFits && dev.capacity
                    >= HEADER_SIZE + SLOT_ENTRY_SIZE + slot_size && slot_total(
                    dev.capacity as int,
                    slot_size as int,
                ) == 0,
                Ok(p) => is_fresh(p, dev, slot_size, tier, id, now),
            },
    {
        let usable: u64 = dev.capacity.saturating_sub(HEADER_SIZE);
        let per_slot: u64 = SLOT_ENTRY_SIZE + slot_size;
        if usable < per_slot {
            return Err(SlabError::DeviceTooSmall(dev.capacity));
        }
        proof {
            lemma_data_start(dev.capacity as int, slot_size as int);
        }
        let guess: u64 = usable / per_slot;
        assert(guess == slots_by_size(dev.capacity as int, slot_size as int));
        let data_offset: u64 = align::align_up(HEADER_SIZE + guess * SLOT_ENTRY_SIZE, slot_size);
        let fit: u64 = dev.capacity.saturating_sub(data_offset) / slot_size;
        let total_slots: u64 = if fit < guess {
            fit
        } else {
            guess
        };
        if total_slots == 0 {
            return Err(SlabError::NoSlotFits);
        }
        let header = SlabHeader {
            slab_uuid: id.0,
            device_uuid: dev.uuid,
            slot_size,
            total_slots,
            free_slots: total_slots,
            data_offset,
            table_offset: HEADER_SIZE,
            create_time: now,
            update_time: now,
            tier,
            flags: 0,
        };
        let n: usize = total_slots as usize;
        let mut slots: Vec<Slot> = Vec::new();
        let mut k: usize = 0;
        while k < n
            invariant
                k <= n,
                slots@ == Seq::new(k as nat, |i: int| free_slot()),
            decreases n - k,
        {
            slots.push(Slot::free());
            k = k + 1;
            assert(slots@ =~= Seq::new(k as nat, |i: int| free_slot()));
        }
        let slab = Slab {
            id,
            header,
            free_map: FreeMap::new(n, true),
            slots,
            extent_index: ExtentIndex::new(),
            free_count: total_slots,
        };
        proof {
            assert(slab.free_map@ =~= free_flags(slab.slots@));
            lemma_all_free(slab.free_map@);
        }
        Ok(
            FormatPlan {
                slab,
                header: header.to_bytes(),
                table_offset: HEADER_SIZE,
                table_len: header.table_len(dev.block_size),
            },
        )
    }

    /// Opens a slab whose header was read and whose table is `table`. The
    /// free map, the free count and the index are rebuilt from the table.
    pub fn open(header: SlabHeader, table: &[u8]) -> (slab: Self)
        requires
            geometry_ok(header),
            header.total_slots * SLOT_ENTRY_SIZE <= table@.len(),
        ensures
            slab.wf(),
            slab.spec_id().0 == header.slab_uuid,
            slab.spec_header() == header,
            slab@.slots == table_at(table@, 0, header.total_slots as nat),
            slab@.index == index_of(slab@.slots, header.total_slots as nat),
    {
        let n: usize = header.total_slots as usize;
        let mut free_map = FreeMap::new(n, true);
        let mut slots: Vec<Slot> = Vec::new();
        let mut extent_index = ExtentIndex::new();
        let mut free_count: u64 = 0;
        let ghost all = table_at(table@, 0, n as nat);
        let total: usize = table.len();
        assert(free_flags(all.take(0)) =~= Seq::<bool>::empty());
        while slots.len() < n
            invariant
                n == header.total_slots,
                n <= u32::MAX,
                n * 64 <= table@.len() == total,
                all == table_at(table@, 0, n as nat),
                slots@.len() <= n,
                slots@ == all.take(slots@.len() as int),
                extent_index@ == index_of(all, slots@.len()),
                (SlabState { slots: all, index: extent_index@ }).index_ok(),
                forall|k: (VolumeId, u64)| #[trigger]
                    extent_index@.contains_key(k) ==> extent_index@[k] < slots@.len(),
                free_count == bits::count_set(free_flags(slots@)),
                free_count <= slots@.len(),
                free_map.wf(),
                free_map@ == Seq::new(
                    n as nat,
                    |i: int|
                        if i < slots@.len() {
                            free_flags(slots@)[i]
                        } else {
                            true
                        },
                ),
            decreases n - slots@.len(),
        {
            let i: usize = slots.len();
            let slot: Slot = match Slot::from_bytes(&table[i * 64..i * 64 + 64]) {
                Some(s) => s,
                None => Slot::free(),
            };
            assert(slot == all[i as int]);
            let ghost before = slots@;
            let ghost flags = free_flags(before);
            if slot.state != SlotState::Free {
                free_map.set(i, false);
                extent_index.insert(slot.volume_id, slot.virtual_extent_idx, i as u32);
            } else {
                free_count = free_count + 1;
            }
            slots.push(slot);
            proof {
                assert(slots@ =~= all.take(i + 1));
                let now = free_flags(slots@);
                assert(now.drop_last() =~= flags);
                assert(free_map@ =~= Seq::new(
                    n as nat,
                    |j: int|
                        if j < slots@.len() {
                            now[j]
                        } else {
                            true
                        },
                ));
            }
        }
        assert(slots@ =~= all);
        let slab = Slab {
            id: SlabId(header.slab_uuid),
            header,
            free_map,
            slots,
            extent_index,
            free_count,
        };
        assert(slab.free_map@ =~= free_flags(slab.slots@));
        slab
    }
}

impl Slab {
    /// The slot of a volume's virtual extent.
    pub fn find_slot(&self, volume_id: VolumeId, vext_idx: u64) -> (r: Option<u32>)
        requires
            self.wf(),
        ensures
            r == (if self@.index.contains_key((volume_id, vext_idx)) {
                Some(self@.index[(volume_id, vext_idx)])
            } else {
                None
            }),
    {
        self.extent_index.get(volume_id, vext_idx)
    }

    /// The slot at a given index.
    pub fn get_slot(&self, slot_idx: u32) -> (r: Option<&Slot>)
        requires
            self.wf(),
        ensures
            r == (if slot_idx < self@.slots.len() {
                Some(&self@.slots[slot_idx as int])
            } else {
                None
            }),
    {
        if (slot_idx as usize) < self.slots.len() {
            Some(&self.slots[slot_idx as usize])
        } else {
            None
        }
    }

    /// Slab UUID.
    pub fn slab_id(&self) -> (id: SlabId)
        ensures
            id == self.spec_id(),
    {
        self.id
    }

    /// The header the slab was formatted or opened with.
    pub fn header(&self) -> (h: SlabHeader)
        ensures
            h == self.spec_header(),
    {
        self.header
    }

    /// Storage tier.
    pub fn tier(&self) -> (t: StorageTier)
        ensures
            t == self.spec_header().tier,
    {
        self.header.tier
    }

    /// Slot size in bytes.
    pub fn slot_size(&self) -> (n: u64)
        ensures
            n == self.spec_header().slot_size,
    {
        self.header.slot_size
    }

    /// Total number of slots.
    pub fn total_slots(&self) -> (n: u64)
        requires
            self.wf(),
        ensures
            n == self@.slots.len(),
            n == self.spec_header().total_slots,
    {
        self.header.total_slots
    }

    /// Number of free slots.
    pub fn free_slots(&self) -> (n: u64)
        requires
            self.wf(),
        ensures
            n == bits::count_set(free_flags(self@.slots)),
            n <= self@.slots.len(),
    {
        proof {
            bits::lemma_count_set_bound(free_flags(self.slots@));
        }
        self.free_count
    }

    /// Number of allocated slots.
    pub fn allocated_slots(&self) -> (n: u64)
        requires
            self.wf(),
        ensures
            n == self@.slots.len() - bits::count_set(free_flags(self@.slots)),
    {
        proof {
            bits::lemma_count_set_bound(free_flags(self.slots@));
        }
        self.header.total_slots - self.free_count
    }

    /// The device a slot lives on, and where on it the byte `offset_in_slot`
    /// of the slot stands: where a read or a write of the slot goes.
    pub fn slot_device_and_offset(&self, slot_idx: u32, offset_in_slot: u64) -> (r: Result<
        (Uuid, u64),
        SlabError,
    >)
        requires
            self.wf(),
            slot_idx < self@.slots.len() ==> slot_offset(self.spec_header(), slot_idx as int)
                + offset_in_slot <= u64::MAX,
        ensures
            match r {
                Ok((device, at)) => {
                    &&& slot_idx < self@.slots.len()
                    &&& device == self.spec_header().device_uuid
                    &&& at == slot_offset(self.spec_header(), slot_idx as int) + offset_in_slot
                },
                Err(e) => slot_idx >= self@.slots.len() && e == SlabError::SlotOutOfRange(slot_idx),
            },
    {
        if slot_idx as usize >= self.slots.len() {
            return Err(SlabError::SlotOutOfRange(slot_idx));
        }
        proof {
            lemma_slot_offset(self.header, slot_idx as int);
        }
        let at: u64 = self.header.data_offset + slot_idx as u64 * self.header.slot_size;
        Ok((self.header.device_uuid, at + offset_in_slot))
    }

    /// How to persist a single slot entry on a device of `block_size` byte
    /// blocks.
    pub fn persist_slot(&self, slot_idx: u32, block_size: u32) -> (plan: SectorPlan)
        requires
            self.wf(),
            slot_idx < self@.slots.len(),
            slab_table::block_ok(self.spec_header().table_offset as int, block_size as int),
            self.spec_header().table_offset + 64 * self@.slots.len() + block_size <= u64::MAX,
        ensures
            slab_table::is_slot_plan(
                plan,
                self.spec_header().table_offset as int,
                self@.slots.len() as int,
                block_size as int,
                slot_idx,
            ),
            slab_table::plan_ok(
                plan,
                self.spec_header().table_offset as int,
                self@.slots.len() as int,
            ),
    {
        slab_table::plan_slot(
            self.header.table_offset,
            self.slots.len(),
            block_size as u64,
            slot_idx,
        )
    }

    /// How to persist several slot entries, those that share a sector
    /// together.
    pub fn persist_slots(&self, slot_indices: &[u32], block_size: u32) -> (plans: Vec<SectorPlan>)
        requires
            self.wf(),
            forall|k: int|
                0 <= k < slot_indices@.len() ==> #[trigger] slot_indices@[k] < self@.slots.len(),
            slab_table::block_ok(self.spec_header().table_offset as int, block_size as int),
            self.spec_header().table_offset + 64 * self@.slots.len() + block_size <= u64::MAX,
        ensures
            slab_table::is_batch_plan(
                plans@,
                self.spec_header().table_offset as int,
                self@.slots.len() as int,
                block_size as int,
                slot_indices@,
            ),
            forall|j: int|
                0 <= j < plans@.len() ==> slab_table::plan_ok(
                    #[trigger] plans@[j],
                    self.spec_header().table_offset as int,
                    self@.slots.len() as int,
                ),
    {
        slab_table::plan_slots(
            self.header.table_offset,
            self.slots.len(),
            block_size as u64,
            slot_indices,
        )
    }

    /// The bytes a plan writes, given what the sector holds now.
    pub fn sector_bytes(&self, plan: &SectorPlan, current: Vec<u8>) -> (r: Vec<u8>)
        requires
            self.wf(),
            slab_table::plan_ok(
                *plan,
                self.spec_header().table_offset as int,
                self@.slots.len() as int,
            ),
            current@.len() == plan.len,
            plan.offset + plan.len <= u64::MAX,
        ensures
            r@ == slab_table::patched(
                current@,
                plan.offset as int,
                self.spec_header().table_offset as int,
                self@.slots,
                plan.slots@,
                plan.slots@.len(),
            ),
    {
        slab_table::patch_sector(plan, self.header.table_offset, &self.slots, current)
    }

    /// Which byte ranges of the device, offset and length of each, hold the
    /// given slots. Contiguous slots come as one range.
    pub fn discard_slots(&self, slot_indices: &[u32]) -> (ranges: Vec<(u64, u64)>)
        requires
            self.wf(),
            forall|k: int|
                0 <= k < slot_indices@.len() ==> #[trigger] slot_indices@[k] < self@.slots.len(),
        ensures
            exists|runs: Seq<(u32, u32)>| #[trigger]
                order::are_runs(runs, slot_indices@) && ranges@ == run_ranges(
                    self.spec_header(),
                    runs,
                ),
    {
        let runs = order::coalesce(slot_indices);
        let mut ranges: Vec<(u64, u64)> = Vec::new();
        let mut k: usize = 0;
        while k < runs.len()
            invariant
                self.wf(),
                forall|m: int|
                    0 <= m < slot_indices@.len() ==> #[trigger] slot_indices@[m]
                        < self@.slots.len(),
                order::are_runs(runs@, slot_indices@),
                k <= runs@.len(),
                ranges@ == run_ranges(self.spec_header(), runs@.take(k as int)),
            decreases runs@.len() - k,
        {
            let (first, last) = runs[k];
            proof {
                assert(runs@[k as int].0 <= last <= runs@[k as int].1);
                assert(slot_indices@.contains(last));
                let m = slot_indices@.index_of(last);
                assert(slot_indices@[m] < self@.slots.len());
                lemma_run_fits(self.header, first as int, last as int);
            }
            let offset: u64 = self.header.data_offset + first as u64 * self.header.slot_size;
            let len: u64 = ((last - first) as u64 + 1) * self.header.slot_size;
            ranges.push((offset, len));
            assert(runs@.take(k + 1) =~= runs@.take(k as int).push((first, last)));
            k = k + 1;
            assert(ranges@ =~= run_ranges(self.spec_header(), runs@.take(k as int)));
        }
        assert(runs@.take(runs@.len() as int) =~= runs@);
        ranges
    }
}

/// Where slot `i` of a slab begins.
pub open spec fn slot_offset(h: SlabHeader, i: int) -> int {
    h.data_offset + i * h.slot_size
}

/// The byte ranges of runs of slots.
pub open spec fn run_ranges(h: SlabHeader, runs: Seq<(u32, u32)>) -> Seq<(u64, u64)> {
    Seq::new(
        runs.len(),
        |k: int|
            (
                slot_offset(h, runs[k].0 as int) as u64,
                ((runs[k].1 - runs[k].0 + 1) * h.slot_size) as u64,
            ),
    )
}

proof fn lemma_slot_offset(h: SlabHeader, i: int)
    requires
        geometry_ok(h),
        0 <= i < h.total_slots,
    ensures
        0 <= i * h.slot_size,
        slot_offset(h, i) + h.slot_size <= u64::MAX,
{
    assert(0 <= i * h.slot_size && i * h.slot_size + h.slot_size <= h.total_slots * h.slot_size)
        by (nonlinear_arith)
        requires
            0 <= i < h.total_slots,
    ;
}

proof fn lemma_run_fits(h: SlabHeader, first: int, last: int)
    requires
        geometry_ok(h),
        0 <= first <= last < h.total_slots,
    ensures
        0 <= first * h.slot_size,
        slot_offset(h, first) + (last - first + 1) * h.slot_size <= u64::MAX,
        0 <= (last - first + 1) * h.slot_size,
{
    lemma_slot_offset(h, first);
    assert(first * h.slot_size + (last - first + 1) * h.slot_size <= h.total_slots * h.slot_size
        && 0 <= (last - first + 1) * h.slot_size) by (nonlinear_arith)
        requires
            0 <= first <= last < h.total_slots,
    ;
}

/// Two slots never share a byte, and every slot lies between the start of the
/// data region and its end.
pub proof fn slots_do_not_overlap(h: SlabHeader, i: int, j: int)
    requires
        0 <= i < j < h.total_slots,
    ensures
        h.data_offset <= slot_offset(h, i),
        slot_offset(h, i) + h.slot_size <= slot_offset(h, j),
        slot_offset(h, j) + h.slot_size <= h.data_offset + h.total_slots * h.slot_size,
{
    assert(0 <= i * h.slot_size && i * h.slot_size + h.slot_size <= j * h.slot_size && j
        * h.slot_size + h.slot_size <= h.total_slots * h.slot_size) by (nonlinear_arith)
        requires
            0 <= i < j < h.total_slots,
    ;
}

/// A formatted slab fits its device: the data region begins behind the table,
/// on a multiple of the slot size, and ends inside the device.
pub proof fn formatted_slab_fits(
    dev: DeviceInfo,
    slot_size: u64,
    tier: StorageTier,
    id: SlabId,
    now: u64,
)
    requires
        0 < slot_size,
        HEADER_SIZE + SLOT_ENTRY_SIZE + slot_size <= dev.capacity,
    ensures
        ({
            let h = fresh_header(dev, slot_size, tier, id, now);
            &&& h.table_offset + h.total_slots * SLOT_ENTRY_SIZE <= h.data_offset
            &&& align::is_multiple(h.data_offset as int, slot_size as int)
            &&& h.data_offset + h.total_slots * h.slot_size <= dev.capacity
        }),
{
    lemma_data_start(dev.capacity as int, slot_size as int);
    let total = slot_total(dev.capacity as int, slot_size as int);
    assert(total <= dev.capacity) by (nonlinear_arith)
        requires
            0 <= total,
            0 < slot_size,
            data_start(dev.capacity as int, slot_size as int) + total * slot_size <= dev.capacity,
            0 <= data_start(dev.capacity as int, slot_size as int),
    ;
}

/// A reference added and given up again leaves the slab as it was.
pub proof fn dropping_a_reference_undoes_adding_it(st: SlabState, i: int)
    requires
        0 <= i < st.slots.len(),
        0 < st.slots[i].ref_count < u32::MAX,
    ensures
        st.with_refs(i, st.slots[i].ref_count + 1).drop_ref(i) == st,
{
    let up = st.with_refs(i, st.slots[i].ref_count + 1);
    assert(up.drop_ref(i).slots =~= st.slots);
}

/// A slot that was freed cannot be freed, released or referenced again until
/// it is allocated.
pub proof fn a_freed_slot_is_refused(st: SlabState, i: u32)
    requires
        i < st.slots.len(),
    ensures
        st.release(i as int).slots[i as int].state == SlotState::Free,
        !live(st.release(i as int).slots[i as int]),
        st.release(i as int).add_fault(i) == Some(SlabError::IncRefOnFree(i)),
{
}

/// Every entry of a release batch is either accepted or refused, and no more
/// slots are freed than entries accepted.
pub proof fn a_batch_accounts_for_every_entry(st: SlabState, batch: Seq<u32>, n: nat)
    requires
        n <= batch.len(),
    ensures
        st.accepted(batch, n).len() + st.rejects(batch, n).len() == n,
        st.last_refs(batch, n).len() <= st.accepted(batch, n).len(),
    decreases n,
{
    if n > 0 {
        a_batch_accounts_for_every_entry(st, batch, (n - 1) as nat);
    }
}

/// A release batch takes exactly one reference from each live slot it names,
/// however often it names it, and touches no other slot.
pub proof fn a_batch_takes_one_reference_each(st: SlabState, batch: Seq<u32>, n: nat, i: int)
    requires
        n <= batch.len(),
        0 <= i < st.slots.len() <= u32::MAX,
    ensures
        st.drop_refs(batch, n).slots.len() == st.slots.len(),
        st.drop_refs(batch, n).slots[i] == (if batch.take(n as int).contains(i as u32) && live(
            st.slots[i],
        ) {
            if st.slots[i].ref_count == 1 {
                free_slot()
            } else {
                Slot { ref_count: (st.slots[i].ref_count - 1) as u32, ..st.slots[i] }
            }
        } else {
            st.slots[i]
        }),
    decreases n,
{
    if n > 0 {
        let m = (n - 1) as nat;
        let j = batch[m as int];
        a_batch_takes_one_reference_each(st, batch, m, i);
        assert(batch.take(n as int) =~= batch.take(m as int).push(j));
        if batch.take(m as int).contains(i as u32) {
            let k = batch.take(m as int).index_of(i as u32);
            assert(batch.take(n as int)[k] == i as u32);
        }
        if j == i {
            assert(batch.take(n as int)[m as int] == i as u32);
        } else if batch.take(n as int).contains(i as u32) {
            let k = batch.take(n as int).index_of(i as u32);
            assert(batch.take(m as int)[k] == i as u32);
        }
        if j < st.slots.len() {
            a_batch_takes_one_reference_each(st, batch, m, j as int);
        }
    }
}

/// A batch names a slot exactly when one of its plans writes the slot's entry.
proof fn lemma_batch_names(
    plans: Seq<SectorPlan>,
    table: int,
    n: int,
    bs: int,
    batch: Seq<u32>,
    x: u32,
)
    requires
        slab_table::is_batch_plan(plans, table, n, bs, batch),
    ensures
        batch.contains(x) <==> exists|j: int|
            0 <= j < plans.len() && #[trigger] plans[j].slots@.contains(x),
{
    if bs <= 64 {
        if batch.contains(x) {
            let j = batch.index_of(x);
            assert(slab_table::is_slot_plan(plans[j], table, n, bs, batch[j]));
            assert(plans[j].slots@[0] == x);
            assert(plans[j].slots@.contains(x));
        }
        if exists|j: int| 0 <= j < plans.len() && #[trigger] plans[j].slots@.contains(x) {
            let j = choose|j: int| 0 <= j < plans.len() && #[trigger] plans[j].slots@.contains(x);
            assert(slab_table::is_slot_plan(plans[j], table, n, bs, batch[j]));
            assert(batch[j] == x);
        }
    }
}

/// An entry read after plans were carried out: the slot's own where a plan
/// wrote it, what was there before otherwise.
proof fn lemma_entry_after(
    img: Seq<u8>,
    plans: Seq<SectorPlan>,
    table: int,
    slots: Seq<Slot>,
    i: int,
)
    requires
        0 <= table,
        0 <= i < slots.len() <= u32::MAX,
        forall|j: int|
            0 <= j < plans.len() ==> slab_table::plan_ok(
                #[trigger] plans[j],
                table,
                slots.len() as int,
            ) && plans[j].offset + plans[j].len <= img.len(),
        table + 64 * slots.len() <= img.len(),
    ensures
        ({
            let after = slab_table::performed_all(img, plans, table, slots, plans.len());
            entry_at(after, table + 64 * i) == (if exists|j: int|
                0 <= j < plans.len() && #[trigger] plans[j].slots@.contains(i as u32) {
                slots[i]
            } else {
                entry_at(img, table + 64 * i)
            })
        }),
{
    let after = slab_table::performed_all(img, plans, table, slots, plans.len());
    slab_table::plans_change_only_their_entries(img, plans, table, slots, plans.len());
    let at = table + 64 * i;
    slot_round_trip(slots[i]);
    if exists|j: int| 0 <= j < plans.len() && #[trigger] plans[j].slots@.contains(i as u32) {
        let j = choose|j: int| 0 <= j < plans.len() && #[trigger] plans[j].slots@.contains(i as u32);
        let m = plans[j].slots@.index_of(i as u32);
        assert forall|p: int| at <= p < at + 64 implies #[trigger] after[p]
            == slots[i].encoded()[p - at] by {
            assert(plans[j].slots@[m] == (p - table) / 64);
            assert(slab_table::in_entry_of(p, table, plans[j].slots@));
        }
        assert(after.subrange(at, at + 64) =~= slots[i].encoded());
    } else {
        assert forall|p: int| at <= p < at + 64 implies #[trigger] after[p] == img[p] by {
            if exists|j: int|
                0 <= j < plans.len() && slab_table::in_entry_of(
                    p,
                    table,
                    #[trigger] plans[j].slots@,
                ) {
                let j = choose|j: int|
                    0 <= j < plans.len() && slab_table::in_entry_of(
                        p,
                        table,
                        #[trigger] plans[j].slots@,
                    );
                let m = choose|m: int|
                    0 <= m < plans[j].slots@.len() && #[trigger] plans[j].slots@[m] == (p - table)
                        / 64;
                assert(plans[j].slots@[m] == i as u32);
                assert(plans[j].slots@.contains(i as u32));
            }
        }
        assert(after.subrange(at, at + 64) =~= img.subrange(at, at + 64));
    }
}

/// What is on disk after the plans for a batch were carried out is what the
/// slab holds, provided that it was so before for every slot outside the
/// batch. Opened again, the slab has the same slots.
pub proof fn a_persisted_table_is_read_back(
    img: Seq<u8>,
    plans: Seq<SectorPlan>,
    table: int,
    bs: int,
    slots: Seq<Slot>,
    batch: Seq<u32>,
)
    requires
        0 <= table,
        slots.len() <= u32::MAX,
        slab_table::is_batch_plan(plans, table, slots.len() as int, bs, batch),
        forall|j: int|
            0 <= j < plans.len() ==> slab_table::plan_ok(
                #[trigger] plans[j],
                table,
                slots.len() as int,
            ) && plans[j].offset + plans[j].len <= img.len(),
        table + 64 * slots.len() <= img.len(),
        forall|i: int|
            0 <= i < slots.len() && !batch.contains(i as u32) ==> #[trigger] table_at(
                img,
                table,
                slots.len(),
            )[i] == slots[i],
    ensures
        table_at(
            slab_table::performed_all(img, plans, table, slots, plans.len()),
            table,
            slots.len(),
        ) == slots,
{
    let after = slab_table::performed_all(img, plans, table, slots, plans.len());
    let read = table_at(after, table, slots.len());
    assert forall|i: int| 0 <= i < slots.len() implies #[trigger] read[i] == slots[i] by {
        lemma_entry_after(img, plans, table, slots, i);
        lemma_batch_names(plans, table, slots.len() as int, bs, batch, i as u32);
        if !batch.contains(i as u32) {
            assert(table_at(img, table, slots.len())[i] == slots[i]);
        }
    }
    assert(read =~= slots);
}

/// What is on disk after the plan for one slot was carried out is what the
/// slab holds, provided that it was so before for every other slot.
pub proof fn a_persisted_slot_is_read_back(
    img: Seq<u8>,
    plan: SectorPlan,
    table: int,
    bs: int,
    slots: Seq<Slot>,
    idx: u32,
)
    requires
        0 <= table,
        0 < bs,
        idx < slots.len() <= u32::MAX,
        slab_table::is_slot_plan(plan, table, slots.len() as int, bs, idx),
        slab_table::plan_ok(plan, table, slots.len() as int),
        plan.offset + plan.len <= img.len(),
        table + 64 * slots.len() <= img.len(),
        forall|i: int|
            0 <= i < slots.len() && i != idx ==> #[trigger] table_at(img, table, slots.len())[i]
                == slots[i],
    ensures
        table_at(slab_table::performed(img, plan, table, slots), table, slots.len()) == slots,
{
    let plans = seq![plan];
    let after = slab_table::performed(img, plan, table, slots);
    reveal_with_fuel(slab_table::performed_all, 2);
    assert(slab_table::performed_all(img, plans, table, slots, 1) == after);
    let read = table_at(after, table, slots.len());
    assert(plan.slots@.contains(idx)) by {
        if bs <= 64 || plan.read_first {
            assert(plan.slots@[0] == idx);
        } else {
            let e = bs / 64;
            let q = idx as int / e;
            vstd::arithmetic::div_mod::lemma_fundamental_div_mod(idx as int, e);
            assert(q * e == e * q) by (nonlinear_arith);
            assert(plan.slots@[idx as int % e] == idx);
        }
    }
    assert forall|i: int| 0 <= i < slots.len() implies #[trigger] read[i] == slots[i] by {
        lemma_entry_after(img, plans, table, slots, i);
        if i == idx {
            assert(plans[0].slots@.contains(i as u32));
        } else {
            assert(table_at(img, table, slots.len())[i] == slots[i]);
        }
    }
    assert(read =~= slots);
}

proof fn lemma_zeros_value(n: nat)
    ensures
        bytes::le_value(bytes::zeros(n)) == 0,
        bytes::be_value(bytes::zeros(n)) == 0,
    decreases n,
{
    if n > 0 {
        lemma_zeros_value((n - 1) as nat);
        assert(bytes::zeros(n).drop_first() =~= bytes::zeros((n - 1) as nat));
        assert(bytes::zeros(n).drop_last() =~= bytes::zeros((n - 1) as nat));
    }
}

/// A freshly formatted device opens again as the slab that was formatted.
pub proof fn a_fresh_slab_opens_again(
    p: FormatPlan,
    dev: DeviceInfo,
    slot_size: u64,
    tier: StorageTier,
    id: SlabId,
    now: u64,
    img: Seq<u8>,
)
    requires
        is_fresh(p, dev, slot_size, tier, id, now),
        HEADER_SIZE + p.slab.spec_header().total_slots * 64 <= img.len(),
        img.subrange(0, HEADER_SIZE as int) == p.header@,
        forall|b: int|
            HEADER_SIZE <= b < HEADER_SIZE + p.slab.spec_header().total_slots * 64 ==> img[b] == 0,
    ensures
        SlabHeader::decoded(img.subrange(0, HEADER_SIZE as int)) == Ok::<SlabHeader, SlabError>(
            p.slab.spec_header(),
        ),
        table_at(img, p.table_offset as int, p.slab.spec_header().total_slots as nat)
            == p.slab@.slots,
{
    let h = p.slab.spec_header();
    header_round_trip(h);
    let read = table_at(img, p.table_offset as int, h.total_slots as nat);
    assert forall|i: int| 0 <= i < h.total_slots implies #[trigger] read[i] == free_slot() by {
        let e = img.subrange(HEADER_SIZE + 64 * i, HEADER_SIZE + 64 * i + 64);
        assert(e =~= bytes::zeros(64));
        assert(e.subrange(4, 20) =~= bytes::zeros(16));
        assert(e.subrange(20, 28) =~= bytes::zeros(8));
        assert(e.subrange(28, 32) =~= bytes::zeros(4));
        assert(e.subrange(32, 40) =~= bytes::zeros(8));
        lemma_zeros_value(16);
        lemma_zeros_value(8);
        lemma_zeros_value(4);
    }
    assert(read =~= p.slab@.slots);
}

/// What formatting promises of its result: an empty slab over the whole
/// device, its header encoded, its table to be zeroed.
pub open spec fn is_fresh(
    p: FormatPlan,
    dev: DeviceInfo,
    slot_size: u64,
    tier: StorageTier,
    id: SlabId,
    now: u64,
) -> bool {
    let h = fresh_header(dev, slot_size, tier, id, now);
    &&& p.slab.wf()
    &&& p.slab.spec_id() == id
    &&& p.slab.spec_header() == h
    &&& h.total_slots > 0
    &&& p.slab@.slots == Seq::new(h.total_slots as nat, |i: int| free_slot())
    &&& p.slab@.index == Map::<(VolumeId, u64), u32>::empty()
    &&& p.header@ == h.encoded()
    &&& p.table_offset == HEADER_SIZE
    &&& p.table_len == padded_table(h.total_slots as int, dev.block_size as int)
}

/// A map with every slot free has as many free slots as slots.
proof fn lemma_all_free(s: Seq<bool>)
    requires
        forall|i: int| 0 <= i < s.len() ==> s[i],
    ensures
        bits::count_set(s) == s.len(),
    decreases s.len(),
{
    if s.len() > 0 {
        lemma_all_free(s.drop_last());
    }
}

impl SlabState {
    /// A fault found early in a batch is the fault of the whole batch.
    proof fn lemma_first_fault_stays(self, batch: Seq<u32>, n: nat, m: nat)
        requires
            n <= m <= batch.len(),
            self.first_fault(batch, n) is Some,
        ensures
            self.first_fault(batch, m) == self.first_fault(batch, n),
        decreases m - n,
    {
        if n < m {
            self.lemma_first_fault_stays(batch, n, (m - 1) as nat);
        }
    }
}

/// A prefix names a slot no more often than the whole batch.
proof fn lemma_occurrences_prefix(batch: Seq<u32>, n: int, i: int)
    requires
        0 <= n <= batch.len(),
    ensures
        occurrences(batch.take(n), i) <= occurrences(batch, i),
    decreases batch.len() - n,
{
    if n == batch.len() {
        assert(batch.take(n) =~= batch);
    } else {
        assert(batch.take(n + 1).drop_last() =~= batch.take(n));
        lemma_occurrences_prefix(batch, n + 1, i);
    }
}

} // verus!
