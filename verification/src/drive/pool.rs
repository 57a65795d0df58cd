//! A disk pool: on-disk header, free-space management, allocation and
//! deletion of virtual drives.
//!
//! A pool manages a physical disk, or a file, as a set of virtual drives. The
//! first megabyte is reserved for the pool header and the drive table.
use crate::align;
use crate::bytes;
use crate::digest;
use crate::drive::vdrive::VDrive;
use crate::ids;
use crate::ids::Uuid;
use crate::text;
use vstd::prelude::*;

verus! {

/// Pool header magic: "STRMPOOL".
pub const POOL_MAGIC: [u8; 8] = [83, 84, 82, 77, 80, 79, 79, 76];

/// Current pool header version.
pub const POOL_VERSION: u32 = 1;

/// Data starts at 1 MB offset.
pub const POOL_DATA_OFFSET: u64 = 1024 * 1024;

/// Default alignment for virtual drives: 1 MB.
pub const POOL_ALIGNMENT: u64 = 1024 * 1024;

/// Maximum virtual drives per pool.
pub const MAX_VDRIVES: u32 = 256;

/// Where the drive table starts.
pub const VDRIVE_TABLE_OFFSET: u64 = 0x200;

/// Size of a drive entry on disk.
pub const VDRIVE_ENTRY_SIZE: usize = 128;

/// Why a pool operation was refused.
#[derive(Debug, Clone, Copy, PartialEq, Eq, Structural)]
pub enum PoolError {
    HeaderTooShort,
    BadMagic,
    BadVersion(u32),
    HeaderCrc,
    DeviceTooSmall(u64),
    MaxVDrives,
    NoSpace { size: u64, largest: u64 },
    NotFound(Uuid),
    InArray(Uuid),
}

impl PoolError {
    /// The error in words.
    pub open spec fn message(self) -> Seq<char> {
        match self {
            PoolError::HeaderTooShort => "pool header too short"@,
            PoolError::BadMagic => "bad pool magic"@,
            PoolError::BadVersion(v) => "pool version "@ + text::decimal(v as nat) + ", expected "@
                + text::decimal(POOL_VERSION as nat),
            PoolError::HeaderCrc => "pool header CRC mismatch"@,
            PoolError::DeviceTooSmall(n) => "device too small for pool ("@ + text::decimal(n as nat)
                + " bytes, need > "@ + text::decimal(POOL_DATA_OFFSET as nat) + ")"@,
            PoolError::MaxVDrives => "max VDrives reached"@,
            PoolError::NoSpace { size, largest } => "not enough contiguous space for "@
                + text::decimal(size as nat) + " byte VDrive (largest free: "@ + text::decimal(
                largest as nat,
            ) + " bytes)"@,
            PoolError::NotFound(u) => "VDrive "@ + u.text() + " not found"@,
            PoolError::InArray(u) => "VDrive "@ + u.text()
                + " is in an array — remove from array first"@,
        }
    }

    /// The error in words.
    pub fn to_string(&self) -> (s: String)
        ensures
            s@ == self.message(),
    {
        match *self {
            PoolError::HeaderTooShort => "pool header too short".to_owned(),
            PoolError::BadMagic => "bad pool magic".to_owned(),
            PoolError::BadVersion(v) => {
                let mut s = "pool version ".to_owned();
                text::push_decimal(&mut s, v as u64);
                s.append(", expected ");
                text::push_decimal(&mut s, POOL_VERSION as u64);
                s
            },
            PoolError::HeaderCrc => "pool header CRC mismatch".to_owned(),
            PoolError::DeviceTooSmall(n) => {
                let mut s = "device too small for pool (".to_owned();
                text::push_decimal(&mut s, n);
                s.append(" bytes, need > ");
                text::push_decimal(&mut s, POOL_DATA_OFFSET);
                s.append(")");
                s
            },
            PoolError::MaxVDrives => "max VDrives reached".to_owned(),
            PoolError::NoSpace { size, largest } => {
                let mut s = "not enough contiguous space for ".to_owned();
                text::push_decimal(&mut s, size);
                s.append(" byte VDrive (largest free: ");
                text::push_decimal(&mut s, largest);
                s.append(" bytes)");
                s
            },
            PoolError::NotFound(u) => {
                let mut s = "VDrive ".to_owned();
                s.append(&u.to_string());
                s.append(" not found");
                s
            },
            PoolError::InArray(u) => {
                let mut s = "VDrive ".to_owned();
                s.append(&u.to_string());
                s.append(" is in an array — remove from array first");
                s
            },
        }
    }
}

/// State of a virtual drive.
#[derive(Debug, Clone, Copy, PartialEq, Eq, Structural)]
pub enum VDriveState {
    Free,
    Active,
    InArray,
}

impl VDriveState {
    /// The number a state is written with.
    pub open spec fn spec_code(self) -> u8 {
        match self {
            VDriveState::Free => 0,
            VDriveState::Active => 1,
            VDriveState::InArray => 2,
        }
    }

    /// The number this state is written with.
    pub fn code(self) -> (c: u8)
        ensures
            c == self.spec_code(),
    {
        match self {
            VDriveState::Free => 0,
            VDriveState::Active => 1,
            VDriveState::InArray => 2,
        }
    }
}

/// The state a number stands for; an unknown number is a free entry.
pub open spec fn vdrive_state_of(v: u8) -> VDriveState {
    if v == 1 {
        VDriveState::Active
    } else if v == 2 {
        VDriveState::InArray
    } else {
        VDriveState::Free
    }
}

impl From<u8> for VDriveState {
    fn from(v: u8) -> (s: Self) {
        match v {
            1 => VDriveState::Active,
            2 => VDriveState::InArray,
            _ => VDriveState::Free,
        }
    }
}

impl vstd::std_specs::convert::FromSpecImpl<u8> for VDriveState {
    open spec fn obeys_from_spec() -> bool {
        true
    }

    open spec fn from_spec(v: u8) -> Self {
        vdrive_state_of(v)
    }
}

/// An entry of the drive table.
#[derive(Debug)]
pub struct VDriveEntry {
    pub uuid: Uuid,
    pub start_offset: u64,
    pub size: u64,
    pub state: VDriveState,
    pub array_uuid: Uuid,
    pub label: String,
    pub create_time: u64,
    pub checksum: u32,
}

/// What an entry of the drive table says.
#[verifier::ext_equal]
pub struct EntryView {
    pub uuid: Uuid,
    pub start_offset: u64,
    pub size: u64,
    pub state: VDriveState,
    pub array_uuid: Uuid,
    pub label: Seq<char>,
    pub create_time: u64,
    pub checksum: u32,
}

impl View for VDriveEntry {
    type V = EntryView;

    open spec fn view(&self) -> EntryView {
        EntryView {
            uuid: self.uuid,
            start_offset: self.start_offset,
            size: self.size,
            state: self.state,
            array_uuid: self.array_uuid,
            label: self.label@,
            create_time: self.create_time,
            checksum: self.checksum,
        }
    }
}

/// The bytes of a label that an entry has room for: the first 63 of its UTF-8
/// form.
pub open spec fn label_bytes(label: Seq<char>) -> Seq<u8> {
    let b = vstd::utf8::encode_utf8(label);
    if b.len() > 63 {
        b.take(63)
    } else {
        b
    }
}

/// What stands before the first zero byte.
pub open spec fn before_zero(s: Seq<u8>) -> Seq<u8>
    decreases s.len(),
{
    if s.len() == 0 || s[0] == 0 {
        Seq::empty()
    } else {
        seq![s[0]] + before_zero(s.drop_first())
    }
}

impl EntryView {
    /// The checksummed part of an entry.
    pub open spec fn body(self) -> Seq<u8> {
        self.uuid.bytes() + bytes::le_bytes(self.start_offset as nat, 8) + bytes::le_bytes(
            self.size as nat,
            8,
        ) + seq![self.state.spec_code()] + self.array_uuid.bytes() + label_bytes(self.label)
            + bytes::zeros((63 - label_bytes(self.label).len()) as nat) + bytes::le_bytes(
            self.create_time as nat,
            8,
        )
    }

    /// An entry as it stands on disk.
    pub open spec fn encoded(self) -> Seq<u8> {
        self.body() + bytes::le_bytes(digest::crc32c_of(self.body()) as nat, 4) + bytes::zeros(4)
    }

    /// The entry a byte string describes: nothing when it is too short, names
    /// the nil UUID, or does not pass its checksum.
    pub open spec fn decoded(data: Seq<u8>) -> Option<EntryView> {
        let crc = bytes::le_value(data.subrange(120, 124));
        if data.len() < 128 || bytes::be_value(data.subrange(0, 16)) == 0 || crc
            != digest::crc32c_of(data.subrange(0, 120)) {
            None
        } else {
            Some(
                EntryView {
                    uuid: Uuid { bits: bytes::be_value(data.subrange(0, 16)) as u128 },
                    start_offset: bytes::le_value(data.subrange(16, 24)) as u64,
                    size: bytes::le_value(data.subrange(24, 32)) as u64,
                    state: vdrive_state_of(data[32]),
                    array_uuid: Uuid { bits: bytes::be_value(data.subrange(33, 49)) as u128 },
                    label: text::lossy(before_zero(data.subrange(49, 112))),
                    create_time: bytes::le_value(data.subrange(112, 120)) as u64,
                    checksum: crc as u32,
                },
            )
        }
    }
}

proof fn lemma_entry_len(e: EntryView)
    ensures
        label_bytes(e.label).len() <= 63,
        e.body().len() == 120,
        e.encoded().len() == 128,
{
    broadcast use bytes::lemma_le_bytes_len, bytes::lemma_be_bytes_len;

}

proof fn lemma_before_zero(a: Seq<u8>, n: nat)
    requires
        forall|i: int| 0 <= i < a.len() ==> a[i] != 0,
    ensures
        before_zero(a + bytes::zeros(n)) == a,
    decreases a.len(),
{
    let s = a + bytes::zeros(n);
    if a.len() == 0 {
        assert(s =~= bytes::zeros(n));
    } else {
        assert(s.drop_first() =~= a.drop_first() + bytes::zeros(n));
        lemma_before_zero(a.drop_first(), n);
        assert(before_zero(s) =~= a);
    }
}

impl VDriveEntry {
    /// The entry as it stands on disk.
    pub fn to_bytes(&self) -> (buf: Vec<u8>)
        ensures
            buf@ == self@.encoded(),
            buf@.len() == VDRIVE_ENTRY_SIZE,
    {
        let mut buf: Vec<u8> = Vec::new();
        self.uuid.push(&mut buf);
        bytes::push_le(&mut buf, self.start_offset, 8);
        bytes::push_le(&mut buf, self.size, 8);
        buf.push(self.state.code());
        self.array_uuid.push(&mut buf);
        let label: &[u8] = self.label.as_str().as_bytes();
        let copied: usize = if label.len() < 63 {
            label.len()
        } else {
            63
        };
        buf.extend_from_slice(&label[0..copied]);
        assert(label@.subrange(0, copied as int) =~= label_bytes(self.label@));
        bytes::push_zeros(&mut buf, 63 - copied);
        bytes::push_le(&mut buf, self.create_time, 8);
        assert(buf@ =~= self@.body());
        let crc: u32 = digest::crc32c_sum(&buf);
        bytes::push_le(&mut buf, crc as u64, 4);
        bytes::push_zeros(&mut buf, 4);
        proof {
            lemma_entry_len(self@);
        }
        buf
    }

    /// The entry `data` describes.
    pub fn from_bytes(data: &[u8]) -> (r: Option<Self>)
        ensures
            match r {
                Some(e) => EntryView::decoded(data@) == Some(e@),
                None => EntryView::decoded(data@) is None,
            },
    {
        if data.len() < VDRIVE_ENTRY_SIZE {
            return None;
        }
        proof {
            bytes::lemma_radix();
        }
        let uuid = Uuid::read(data, 0);
        if uuid.is_nil() {
            return None;
        }
        let stored_crc: u64 = bytes::get_le(data, 120, 4);
        let computed_crc: u32 = digest::crc32c_sum(&data[0..120]);
        if stored_crc != computed_crc as u64 {
            return None;
        }
        let mut end: usize = 49;
        let ghost field = data@.subrange(49, 112);
        assert(field.subrange(0, 63) =~= field);
        assert(Seq::<u8>::empty() + before_zero(field) =~= before_zero(field));
        assert(data@.subrange(49, 49) =~= Seq::<u8>::empty());
        while end < 112 && data[end] != 0
            invariant
                49 <= end <= 112 <= data@.len(),
                field == data@.subrange(49, 112),
                before_zero(field) == data@.subrange(49, end as int) + before_zero(
                    field.subrange(end - 49, 63),
                ),
            decreases 112 - end,
        {
            let ghost rest = field.subrange(end - 49, 63);
            assert(rest.drop_first() =~= field.subrange(end + 1 - 49, 63));
            assert(data@.subrange(49, end as int) + before_zero(rest) =~= data@.subrange(
                49,
                end + 1,
            ) + before_zero(rest.drop_first()));
            end = end + 1;
        }
        assert(before_zero(field.subrange(end - 49, 63)) =~= Seq::<u8>::empty());
        assert(before_zero(field) =~= data@.subrange(49, end as int));
        let label = text::lossy_text(&data[49..end]);
        Some(
            VDriveEntry {
                uuid,
                start_offset: bytes::get_le(data, 16, 8),
                size: bytes::get_le(data, 24, 8),
                state: VDriveState::from(data[32]),
                array_uuid: Uuid::read(data, 33),
                label,
                create_time: bytes::get_le(data, 112, 8),
                checksum: stored_crc as u32,
            },
        )
    }

    /// The same entry again.
    pub fn copied(&self) -> (e: Self)
        ensures
            e@ == self@,
    {
        VDriveEntry {
            uuid: self.uuid,
            start_offset: self.start_offset,
            size: self.size,
            state: self.state,
            array_uuid: self.array_uuid,
            label: self.label.clone(),
            create_time: self.create_time,
            checksum: self.checksum,
        }
    }
}

/// An entry read back is the entry that was written, but for its checksum
/// field, which becomes the one on disk. The entry has to name a drive, and
/// its label has to fit: at most 63 bytes, none of them zero.
pub proof fn entry_round_trip(e: EntryView)
    requires
        e.uuid.bits != 0,
        vstd::utf8::encode_utf8(e.label).len() <= 63,
        !vstd::utf8::encode_utf8(e.label).contains(0),
    ensures
        e.encoded().len() == 128,
        EntryView::decoded(e.encoded()) == Some(
            EntryView { checksum: digest::crc32c_of(e.body()), ..e },
        ),
{
    broadcast use bytes::lemma_le_bytes_len, bytes::lemma_be_bytes_len;

    bytes::lemma_radix();
    lemma_entry_len(e);
    let b = e.encoded();
    let crc = digest::crc32c_of(e.body()) as nat;
    let lb = label_bytes(e.label);
    assert(b.subrange(0, 120) =~= e.body());
    assert(b.subrange(120, 124) =~= bytes::le_bytes(crc, 4));
    assert(b.subrange(0, 16) =~= e.uuid.bytes());
    assert(b.subrange(16, 24) =~= bytes::le_bytes(e.start_offset as nat, 8));
    assert(b.subrange(24, 32) =~= bytes::le_bytes(e.size as nat, 8));
    assert(b.subrange(33, 49) =~= e.array_uuid.bytes()) by {
        let head = e.uuid.bytes() + bytes::le_bytes(e.start_offset as nat, 8) + bytes::le_bytes(
            e.size as nat,
            8,
        ) + seq![e.state.spec_code()];
        let tail = lb + bytes::zeros((63 - lb.len()) as nat) + bytes::le_bytes(
            e.create_time as nat,
            8,
        ) + bytes::le_bytes(crc, 4) + bytes::zeros(4);
        assert(head.len() == 33);
        assert(e.array_uuid.bytes().len() == 16);
        assert(b =~= head + (e.array_uuid.bytes() + tail));
    }
    assert(b.subrange(49, 112) =~= lb + bytes::zeros((63 - lb.len()) as nat));
    assert(b.subrange(112, 120) =~= bytes::le_bytes(e.create_time as nat, 8));
    bytes::le_round_trip(crc, 4);
    bytes::be_round_trip(e.uuid.bits as nat, 16);
    bytes::le_round_trip(e.start_offset as nat, 8);
    bytes::le_round_trip(e.size as nat, 8);
    bytes::be_round_trip(e.array_uuid.bits as nat, 16);
    bytes::le_round_trip(e.create_time as nat, 8);
    lemma_before_zero(lb, (63 - lb.len()) as nat);
    text::lossy_of_text(e.label);
}

/// The pool header: the first 512 bytes.
#[derive(Debug, Clone, Copy, PartialEq, Eq, Structural)]
pub struct PoolHeader {
    pub pool_uuid: Uuid,
    pub total_capacity: u64,
    pub data_offset: u64,
    pub alignment: u64,
    pub vdrive_count: u32,
    pub max_vdrives: u32,
    pub create_time: u64,
    pub update_time: u64,
}

impl PoolHeader {
    /// The checksummed part of the header.
    pub open spec fn body(self) -> Seq<u8> {
        POOL_MAGIC@ + bytes::le_bytes(POOL_VERSION as nat, 4) + self.pool_uuid.bytes()
            + bytes::le_bytes(self.total_capacity as nat, 8) + bytes::le_bytes(
            self.data_offset as nat,
            8,
        ) + bytes::le_bytes(self.alignment as nat, 8) + bytes::le_bytes(
            self.vdrive_count as nat,
            4,
        ) + bytes::le_bytes(self.max_vdrives as nat, 4) + bytes::le_bytes(
            self.create_time as nat,
            8,
        ) + bytes::le_bytes(self.update_time as nat, 8)
    }

    /// The header as it stands on disk.
    pub open spec fn encoded(self) -> Seq<u8> {
        self.body() + bytes::le_bytes(digest::crc32c_of(self.body()) as nat, 4) + bytes::zeros(432)
    }

    /// The header a byte string holds, or what is wrong with it. The checks
    /// come in this order: length, magic, version, checksum.
    pub open spec fn decoded(data: Seq<u8>) -> Result<PoolHeader, PoolError> {
        let version = bytes::le_value(data.subrange(8, 12)) as u32;
        if data.len() < 80 {
            Err(PoolError::HeaderTooShort)
        } else if data.subrange(0, 8) != POOL_MAGIC@ {
            Err(PoolError::BadMagic)
        } else if version != POOL_VERSION {
            Err(PoolError::BadVersion(version))
        } else if bytes::le_value(data.subrange(76, 80)) != digest::crc32c_of(
            data.subrange(0, 76),
        ) {
            Err(PoolError::HeaderCrc)
        } else {
            Ok(
                PoolHeader {
                    pool_uuid: Uuid { bits: bytes::be_value(data.subrange(12, 28)) as u128 },
                    total_capacity: bytes::le_value(data.subrange(28, 36)) as u64,
                    data_offset: bytes::le_value(data.subrange(36, 44)) as u64,
                    alignment: bytes::le_value(data.subrange(44, 52)) as u64,
                    vdrive_count: bytes::le_value(data.subrange(52, 56)) as u32,
                    max_vdrives: bytes::le_value(data.subrange(56, 60)) as u32,
                    create_time: bytes::le_value(data.subrange(60, 68)) as u64,
                    update_time: bytes::le_value(data.subrange(68, 76)) as u64,
                },
            )
        }
    }

    /// The header as it stands on disk.
    pub fn to_bytes(&self) -> (buf: Vec<u8>)
        ensures
            buf@ == self.encoded(),
            buf@.len() == 512,
    {
        let mut buf: Vec<u8> = Vec::new();
        let magic: [u8; 8] = POOL_MAGIC;
        buf.extend_from_slice(&magic);
        bytes::push_le(&mut buf, POOL_VERSION as u64, 4);
        self.pool_uuid.push(&mut buf);
        bytes::push_le(&mut buf, self.total_capacity, 8);
        bytes::push_le(&mut buf, self.data_offset, 8);
        bytes::push_le(&mut buf, self.alignment, 8);
        bytes::push_le(&mut buf, self.vdrive_count as u64, 4);
        bytes::push_le(&mut buf, self.max_vdrives as u64, 4);
        bytes::push_le(&mut buf, self.create_time, 8);
        bytes::push_le(&mut buf, self.update_time, 8);
        assert(buf@ =~= self.body());
        let crc: u32 = digest::crc32c_sum(&buf);
        bytes::push_le(&mut buf, crc as u64, 4);
        bytes::push_zeros(&mut buf, 432);
        proof {
            lemma_pool_header_len(*self);
        }
        buf
    }

    /// The header `data` holds, or what is wrong with it.
    pub fn from_bytes(data: &[u8]) -> (r: Result<Self, PoolError>)
        ensures
            r == Self::decoded(data@),
    {
        if data.len() < 80 {
            return Err(PoolError::HeaderTooShort);
        }
        let magic: [u8; 8] = POOL_MAGIC;
        if !bytes::matches_at(data, 0, &magic) {
            return Err(PoolError::BadMagic);
        }
        proof {
            bytes::lemma_radix();
        }
        let version: u32 = bytes::get_le(data, 8, 4) as u32;
        if version != POOL_VERSION {
            return Err(PoolError::BadVersion(version));
        }
        let stored_crc: u64 = bytes::get_le(data, 76, 4);
        let computed: u32 = digest::crc32c_sum(&data[0..76]);
        if stored_crc != computed as u64 {
            return Err(PoolError::HeaderCrc);
        }
        Ok(
            PoolHeader {
                pool_uuid: Uuid::read(data, 12),
                total_capacity: bytes::get_le(data, 28, 8),
                data_offset: bytes::get_le(data, 36, 8),
                alignment: bytes::get_le(data, 44, 8),
                vdrive_count: bytes::get_le(data, 52, 4) as u32,
                max_vdrives: bytes::get_le(data, 56, 4) as u32,
                create_time: bytes::get_le(data, 60, 8),
                update_time: bytes::get_le(data, 68, 8),
            },
        )
    }
}

proof fn lemma_pool_header_len(h: PoolHeader)
    ensures
        h.body().len() == 76,
        h.encoded().len() == 512,
{
    broadcast use bytes::lemma_le_bytes_len, bytes::lemma_be_bytes_len;

}

/// A header read back is the header that was written.
pub proof fn pool_header_round_trip(h: PoolHeader)
    ensures
        h.encoded().len() == 512,
        PoolHeader::decoded(h.encoded()) == Ok::<PoolHeader, PoolError>(h),
{
    broadcast use bytes::lemma_le_bytes_len, bytes::lemma_be_bytes_len;

    bytes::lemma_radix();
    lemma_pool_header_len(h);
    let e = h.encoded();
    let crc = digest::crc32c_of(h.body()) as nat;
    assert(e.subrange(0, 76) =~= h.body());
    assert(e.subrange(76, 80) =~= bytes::le_bytes(crc, 4));
    assert(e.subrange(0, 8) =~= POOL_MAGIC@);
    assert(e.subrange(8, 12) =~= bytes::le_bytes(POOL_VERSION as nat, 4));
    assert(e.subrange(12, 28) =~= h.pool_uuid.bytes());
    assert(e.subrange(28, 36) =~= bytes::le_bytes(h.total_capacity as nat, 8));
    assert(e.subrange(36, 44) =~= bytes::le_bytes(h.data_offset as nat, 8));
    assert(e.subrange(44, 52) =~= bytes::le_bytes(h.alignment as nat, 8));
    assert(e.subrange(52, 56) =~= bytes::le_bytes(h.vdrive_count as nat, 4));
    assert(e.subrange(56, 60) =~= bytes::le_bytes(h.max_vdrives as nat, 4));
    assert(e.subrange(60, 68) =~= bytes::le_bytes(h.create_time as nat, 8));
    assert(e.subrange(68, 76) =~= bytes::le_bytes(h.update_time as nat, 8));
    bytes::le_round_trip(crc, 4);
    bytes::le_round_trip(POOL_VERSION as nat, 4);
    bytes::be_round_trip(h.pool_uuid.bits as nat, 16);
    bytes::le_round_trip(h.total_capacity as nat, 8);
    bytes::le_round_trip(h.data_offset as nat, 8);
    bytes::le_round_trip(h.alignment as nat, 8);
    bytes::le_round_trip(h.vdrive_count as nat, 4);
    bytes::le_round_trip(h.max_vdrives as nat, 4);
    bytes::le_round_trip(h.create_time as nat, 8);
    bytes::le_round_trip(h.update_time as nat, 8);
}

/// The regions that drives take up, start and end of each, in table order.
pub open spec fn regions_of(es: Seq<EntryView>) -> Seq<(u64, u64)> {
    Seq::new(es.len(), |i: int| (es[i].start_offset, (es[i].start_offset + es[i].size) as u64))
}

/// Whether `r` lists the regions of `es` in the order of their starts.
pub open spec fn by_start(r: Seq<(u64, u64)>, es: Seq<EntryView>) -> bool {
    &&& forall|i: int, j: int| 0 <= i < j < r.len() ==> (#[trigger] r[i]).0 <= (#[trigger] r[j]).0
    &&& r.to_multiset() == regions_of(es).to_multiset()
}

/// Whether `size` bytes at `p` keep clear of a drive.
pub open spec fn clear_of(p: int, size: int, e: EntryView) -> bool {
    p + size <= e.start_offset || e.start_offset + e.size <= p
}

/// Whether a drive of `size` bytes can be placed at `p`: aligned, in the data
/// region, clear of every drive, and followed by a drive or the pool's end.
pub open spec fn fits(h: PoolHeader, es: Seq<EntryView>, size: int, p: int) -> bool {
    &&& h.data_offset <= p
    &&& align::round_up(p, h.alignment as int) == p
    &&& forall|i: int| 0 <= i < es.len() ==> clear_of(p, size, #[trigger] es[i])
    &&& p + size <= h.total_capacity || exists|i: int|
        0 <= i < es.len() && p + size <= (#[trigger] es[i]).start_offset
}

/// Whether `p` is the first place where a drive of `size` bytes fits.
pub open spec fn first_fit(h: PoolHeader, es: Seq<EntryView>, size: int, p: int) -> bool {
    fits(h, es, size, p) && forall|q: int| #[trigger] fits(h, es, size, q) ==> p <= q
}

/// Whether the end of every drive, rounded up to the pool's alignment and with
/// `room` added, is a 64-bit number.
pub open spec fn ends_ok(h: PoolHeader, es: Seq<EntryView>, room: int) -> bool {
    &&& align::round_up(h.data_offset as int, h.alignment as int) + room <= u64::MAX
    &&& forall|i: int|
        0 <= i < es.len() ==> {
            let end = (#[trigger] es[i]).start_offset + es[i].size;
            end <= u64::MAX && align::round_up(end, h.alignment as int) + room <= u64::MAX
        }
}

/// The widest gap before the first `k` regions, and where the free space
/// behind them begins.
pub open spec fn gap_scan(h: PoolHeader, r: Seq<(u64, u64)>, k: nat) -> (int, int)
    decreases k,
{
    if k == 0 {
        (0, h.data_offset as int)
    } else {
        let (largest, cursor) = gap_scan(h, r, (k - 1) as nat);
        let (start, end) = r[k - 1];
        let gap = start - cursor;
        (
            if gap > largest {
                gap
            } else {
                largest
            },
            align::round_up(
                if end > cursor {
                    end as int
                } else {
                    cursor
                },
                h.alignment as int,
            ),
        )
    }
}

/// The widest gap, that behind the last region included.
pub open spec fn widest_gap(h: PoolHeader, r: Seq<(u64, u64)>) -> int {
    let (largest, cursor) = gap_scan(h, r, r.len());
    if h.total_capacity - cursor > largest {
        h.total_capacity - cursor
    } else {
        largest
    }
}

/// Whether `n` is the size of the largest contiguous free region.
pub open spec fn is_largest_free(h: PoolHeader, es: Seq<EntryView>, n: int) -> bool {
    exists|r: Seq<(u64, u64)>| #[trigger] by_start(r, es) && n == widest_gap(h, r)
}

/// `<[(u64, u64)]>::sort_by_key` on the first number of each pair: puts the
/// pairs in ascending order of it and keeps each as often as it was there.
#[verifier::external_body]
fn sort_regions(v: &mut Vec<(u64, u64)>)
    ensures
        forall|i: int, j: int| 0 <= i < j < final(v)@.len() ==> final(v)@[i].0 <= final(v)@[j].0,
        final(v)@.to_multiset() == old(v)@.to_multiset(),
{
    v.sort_by_key(|r| r.0)
}

/// The sum of the sizes of the first `n` drives.
pub open spec fn total_size(es: Seq<EntryView>, n: nat) -> int
    decreases n,
{
    if n == 0 {
        0
    } else {
        total_size(es, (n - 1) as nat) + es[n - 1].size
    }
}

/// The drive table as it stands on disk: the entries, then zeros.
pub open spec fn table_bytes(es: Seq<EntryView>, max: nat) -> Seq<u8> {
    entries_bytes(es, es.len()) + bytes::zeros((128 * (max - es.len())) as nat)
}

/// The first `n` entries as they stand on disk.
pub open spec fn entries_bytes(es: Seq<EntryView>, n: nat) -> Seq<u8>
    decreases n,
{
    if n == 0 {
        Seq::empty()
    } else {
        entries_bytes(es, (n - 1) as nat) + es[n - 1].encoded()
    }
}

/// The drives that the first `n` entries of a table describe, in order.
pub open spec fn drives_in(table: Seq<u8>, n: nat) -> Seq<EntryView>
    decreases n,
{
    if n == 0 {
        Seq::empty()
    } else {
        let before = drives_in(table, (n - 1) as nat);
        match EntryView::decoded(table.subrange(128 * (n - 1), 128 * (n - 1) + 128)) {
            Some(e) => before.push(e),
            None => before,
        }
    }
}

/// A pool that manages virtual drives on a physical device.
pub struct DiskPool {
    pub header: PoolHeader,
    pub entries: Vec<VDriveEntry>,
    pub path: String,
}

impl DiskPool {
    /// The drives of the pool, in table order.
    pub open spec fn drives(&self) -> Seq<EntryView> {
        Seq::new(self.entries@.len(), |i: int| self.entries@[i]@)
    }

    /// The first drive with a given UUID, or the number of drives where there
    /// is none.
    pub open spec fn position(es: Seq<EntryView>, uuid: Uuid) -> int
        decreases es.len(),
    {
        if es.len() == 0 || es[0].uuid == uuid {
            0
        } else {
            1 + Self::position(es.drop_first(), uuid)
        }
    }

    /// Formats a device of `total` bytes as a new pool, under a fresh
    /// identity. `now` is the time in seconds.
    pub fn format(total: u64, path: &str, now: u64) -> (r: Result<Self, PoolError>)
        ensures
            match r {
                Ok(p) => {
                    &&& total > POOL_DATA_OFFSET
                    &&& ids::uuid_version(p.header.pool_uuid.bits) == 4
                    &&& ids::uuid_variant(p.header.pool_uuid.bits) == 2
                    &&& p.header == fresh_pool(total, p.header.pool_uuid, now)
                    &&& p.entries@.len() == 0
                    &&& p.path@ == path@
                },
                Err(e) => total <= POOL_DATA_OFFSET && e == PoolError::DeviceTooSmall(total),
            },
    {
        Self::format_as(total, path, Uuid::new_v4(), now)
    }

    /// Formats a device as a new pool with the given identity.
    pub fn format_as(total: u64, path: &str, pool_uuid: Uuid, now: u64) -> (r: Result<
        Self,
        PoolError,
    >)
        ensures
            match r {
                Ok(p) => {
                    &&& total > POOL_DATA_OFFSET
                    &&& p.header == fresh_pool(total, pool_uuid, now)
                    &&& p.entries@.len() == 0
                    &&& p.path@ == path@
                },
                Err(e) => total <= POOL_DATA_OFFSET && e == PoolError::DeviceTooSmall(total),
            },
    {
        if total <= POOL_DATA_OFFSET {
            return Err(PoolError::DeviceTooSmall(total));
        }
        Ok(
            DiskPool {
                header: PoolHeader {
                    pool_uuid,
                    total_capacity: total,
                    data_offset: POOL_DATA_OFFSET,
                    alignment: POOL_ALIGNMENT,
                    vdrive_count: 0,
                    max_vdrives: MAX_VDRIVES,
                    create_time: now,
                    update_time: now,
                },
                entries: Vec::new(),
                path: path.to_owned(),
            },
        )
    }

    /// Opens a pool whose header was read and whose table is `table`. Entries
    /// that are empty or damaged are left out.
    pub fn open(header: PoolHeader, table: &[u8], path: &str) -> (p: Self)
        requires
            header.max_vdrives * 128 <= table@.len(),
        ensures
            p.header == header,
            p.drives() == drives_in(table@, header.max_vdrives as nat),
            p.path@ == path@,
    {
        let mut entries: Vec<VDriveEntry> = Vec::new();
        let mut i: u32 = 0;
        let total: usize = table.len();
        let ghost mut seen: Seq<EntryView> = Seq::empty();
        while i < header.max_vdrives
            invariant
                i <= header.max_vdrives,
                header.max_vdrives * 128 <= table@.len() == total,
                seen == drives_in(table@, i as nat),
                entries@.len() == seen.len(),
                forall|k: int| 0 <= k < seen.len() ==> #[trigger] entries@[k]@ == seen[k],
            decreases header.max_vdrives - i,
        {
            let at: usize = i as usize * 128;
            match VDriveEntry::from_bytes(&table[at..at + 128]) {
                Some(e) => {
                    proof {
                        seen = seen.push(e@);
                    }
                    entries.push(e);
                },
                None => {},
            }
            i = i + 1;
        }
        let p = DiskPool { header, entries, path: path.to_owned() };
        assert(p.drives() =~= seen);
        p
    }

    /// The bytes to write: the header, which goes to the start of the device,
    /// and the drive table, which goes to the table offset.
    pub fn persist(&self) -> (r: (Vec<u8>, Vec<u8>))
        requires
            self.entries@.len() <= self.header.max_vdrives,
            self.header.max_vdrives * 128 <= usize::MAX,
        ensures
            r.0@ == self.header.encoded(),
            r.1@ == table_bytes(self.drives(), self.header.max_vdrives as nat),
    {
        let mut table: Vec<u8> = Vec::new();
        let mut i: usize = 0;
        let n: usize = self.entries.len();
        while i < n
            invariant
                i <= n == self.entries@.len(),
                table@ == entries_bytes(self.drives(), i as nat),
            decreases n - i,
        {
            let e = self.entries[i].to_bytes();
            table.extend_from_slice(&e);
            i = i + 1;
        }
        bytes::push_zeros(&mut table, 128 * (self.header.max_vdrives as usize - n));
        (self.header.to_bytes(), table)
    }

    /// Device path this pool is on.
    pub fn device_path(&self) -> (s: String)
        ensures
            s@ == self.path@,
    {
        self.path.clone()
    }

    /// Number of drives.
    pub fn vdrive_count(&self) -> (n: u32)
        requires
            self.entries@.len() <= u32::MAX,
        ensures
            n == self.entries@.len(),
    {
        self.entries.len() as u32
    }

    /// Where drive data begins.
    pub fn data_offset(&self) -> (n: u64)
        ensures
            n == self.header.data_offset,
    {
        self.header.data_offset
    }

    /// All drive entries.
    pub fn list_vdrives(&self) -> (es: &[VDriveEntry])
        ensures
            es@ == self.entries@,
    {
        self.entries.as_slice()
    }

    /// Pool UUID.
    pub fn pool_uuid(&self) -> (u: Uuid)
        ensures
            u == self.header.pool_uuid,
    {
        self.header.pool_uuid
    }

    /// Total capacity of the underlying device.
    pub fn total_capacity(&self) -> (n: u64)
        ensures
            n == self.header.total_capacity,
    {
        self.header.total_capacity
    }

    /// Usable data capacity: the total without the header.
    pub fn data_capacity(&self) -> (n: u64)
        ensures
            n == if self.header.total_capacity < self.header.data_offset {
                0
            } else {
                self.header.total_capacity - self.header.data_offset
            },
            self.header.data_offset <= self.header.total_capacity ==> n + self.header.data_offset
                == self.header.total_capacity,
    {
        self.header.total_capacity.saturating_sub(self.header.data_offset)
    }

    /// Total allocated space: the sum of all drive sizes.
    pub fn allocated(&self) -> (n: u64)
        requires
            total_size(self.drives(), self.entries@.len()) <= u64::MAX,
        ensures
            n == total_size(self.drives(), self.entries@.len()),
    {
        let mut sum: u64 = 0;
        let mut i: usize = 0;
        while i < self.entries.len()
            invariant
                i <= self.entries@.len(),
                sum == total_size(self.drives(), i as nat),
                total_size(self.drives(), self.entries@.len()) <= u64::MAX,
            decreases self.entries@.len() - i,
        {
            proof {
                lemma_total_grows(self.drives(), (i + 1) as nat, self.entries@.len());
            }
            sum = sum + self.entries[i].size;
            i = i + 1;
        }
        sum
    }

    /// Free space available for new drives.
    pub fn free_space(&self) -> (n: u64)
        requires
            total_size(self.drives(), self.entries@.len()) <= u64::MAX,
        ensures
            n == ({
                let space = self.header.total_capacity - self.header.data_offset - total_size(
                    self.drives(),
                    self.entries@.len(),
                );
                if self.header.total_capacity < self.header.data_offset || space < 0 {
                    0
                } else {
                    space
                }
            }),
    {
        proof {
            lemma_total_grows(self.drives(), 0, self.entries@.len());
        }
        self.data_capacity().saturating_sub(self.allocated())
    }

    /// The regions of the drives in the order of their starts.
    fn sorted_regions(&self) -> (r: Vec<(u64, u64)>)
        requires
            forall|i: int|
                0 <= i < self.drives().len() ==> (#[trigger] self.drives()[i]).start_offset
                    + self.drives()[i].size <= u64::MAX,
        ensures
            by_start(r@, self.drives()),
    {
        let mut r: Vec<(u64, u64)> = Vec::new();
        let mut i: usize = 0;
        let ghost es = self.drives();
        while i < self.entries.len()
            invariant
                i <= self.entries@.len(),
                es == self.drives(),
                forall|k: int|
                    0 <= k < es.len() ==> (#[trigger] es[k]).start_offset + es[k].size <= u64::MAX,
                r@ == regions_of(es).take(i as int),
            decreases self.entries@.len() - i,
        {
            let e = &self.entries[i];
            assert(es[i as int] == e@);
            r.push((e.start_offset, e.start_offset + e.size));
            i = i + 1;
            assert(r@ =~= regions_of(es).take(i as int));
        }
        assert(r@ =~= regions_of(es));
        sort_regions(&mut r);
        r
    }

    /// The largest contiguous free region.
    pub fn largest_free_region(&self) -> (n: u64)
        requires
            ends_ok(self.header, self.drives(), 0),
        ensures
            is_largest_free(self.header, self.drives(), n as int),
    {
        let ghost es = self.drives();
        let h: PoolHeader = self.header;
        let regions = self.sorted_regions();
        let mut largest: u64 = 0;
        let mut cursor: u64 = h.data_offset;
        let mut k: usize = 0;
        while k < regions.len()
            invariant
                k <= regions@.len(),
                by_start(regions@, es),
                ends_ok(h, es, 0),
                (largest as int, cursor as int) == gap_scan(h, regions@, k as nat),
                align::round_up(cursor as int, h.alignment as int) <= u64::MAX,
            decreases regions@.len() - k,
        {
            let (start, end) = regions[k];
            proof {
                let i = lemma_region_of_drive(regions@, es, k as int);
                assert(es[i].start_offset + es[i].size <= u64::MAX);
            }
            if start > cursor && start - cursor > largest {
                largest = start - cursor;
            }
            if end > cursor {
                cursor = end;
            }
            cursor = align::align_up(cursor, h.alignment);
            proof {
                lemma_round_up_twice(
                    if end as int > gap_scan(h, regions@, k as nat).1 {
                        end as int
                    } else {
                        gap_scan(h, regions@, k as nat).1
                    },
                    h.alignment as int,
                );
            }
            k = k + 1;
        }
        if h.total_capacity > cursor && h.total_capacity - cursor > largest {
            largest = h.total_capacity - cursor;
        }
        assert(largest == widest_gap(h, regions@));
        largest
    }

    /// The first place where a drive of `size` bytes fits.
    fn find_gap(&self, size: u64) -> (r: Option<u64>)
        requires
            ends_ok(self.header, self.drives(), size as int),
        ensures
            match r {
                Some(p) => first_fit(self.header, self.drives(), size as int, p as int),
                None => forall|q: int| !fits(self.header, self.drives(), size as int, q),
            },
    {
        let ghost es = self.drives();
        let h: PoolHeader = self.header;
        let regions = self.sorted_regions();
        let mut cursor: u64 = h.data_offset;
        let mut k: usize = 0;
        while k < regions.len()
            invariant
                k <= regions@.len(),
                h == self.header,
                es == self.drives(),
                ends_ok(h, es, size as int),
                by_start(regions@, es),
                align::round_up(cursor as int, h.alignment as int) + size <= u64::MAX,
                h.data_offset <= cursor,
                forall|m: int| 0 <= m < k ==> (#[trigger] regions@[m]).1 <= cursor,
                forall|q: int| #[trigger]
                    fits(h, es, size as int, q) ==> cursor <= q && forall|m: int|
                        0 <= m < k ==> q + size > (#[trigger] regions@[m]).0,
            decreases regions@.len() - k,
        {
            let (start, end) = regions[k];
            let aligned: u64 = align::align_up(cursor, h.alignment);
            proof {
                lemma_round_up_twice(cursor as int, h.alignment as int);
                assert forall|q: int| #[trigger] fits(h, es, size as int, q) implies aligned
                    <= q by {
                    lemma_round_up_least(cursor as int, q, h.alignment as int);
                }
            }
            if aligned + size <= start {
                proof {
                    assert forall|i: int| 0 <= i < es.len() implies clear_of(
                        aligned as int,
                        size as int,
                        #[trigger] es[i],
                    ) by {
                        let m = lemma_drive_has_region(regions@, es, i);
                        if m >= k {
                            assert(regions@[k as int].0 <= regions@[m].0);
                        }
                    }
                    let i = lemma_region_of_drive(regions@, es, k as int);
                    assert(aligned + size <= es[i].start_offset);
                    assert(fits(h, es, size as int, aligned as int));
                }
                return Some(aligned);
            }
            proof {
                let i = lemma_region_of_drive(regions@, es, k as int);
                assert(es[i].start_offset + es[i].size <= u64::MAX);
                assert(align::round_up(end as int, h.alignment as int) + size <= u64::MAX);
                assert forall|q: int| #[trigger] fits(h, es, size as int, q) implies end <= q && q
                    + size > start by {
                    assert(aligned <= q);
                    assert(clear_of(q, size as int, es[i]));
                }
            }
            if end > cursor {
                cursor = end;
            }
            k = k + 1;
        }
        let aligned: u64 = align::align_up(cursor, h.alignment);
        proof {
            lemma_round_up_twice(cursor as int, h.alignment as int);
            assert forall|q: int| #[trigger] fits(h, es, size as int, q) implies aligned <= q && q
                + size <= h.total_capacity by {
                lemma_round_up_least(cursor as int, q, h.alignment as int);
                if exists|i: int| 0 <= i < es.len() && q + size <= (#[trigger] es[i]).start_offset {
                    let i = choose|i: int|
                        0 <= i < es.len() && q + size <= (#[trigger] es[i]).start_offset;
                    let m = lemma_drive_has_region(regions@, es, i);
                    assert(q + size > regions@[m].0);
                }
            }
        }
        if aligned + size <= h.total_capacity {
            proof {
                assert forall|i: int| 0 <= i < es.len() implies clear_of(
                    aligned as int,
                    size as int,
                    #[trigger] es[i],
                ) by {
                    let m = lemma_drive_has_region(regions@, es, i);
                    assert(es[i].start_offset + es[i].size <= u64::MAX);
                }
                assert(fits(h, es, size as int, aligned as int));
            }
            Some(aligned)
        } else {
            None
        }
    }
}

/// The header of a fresh pool.
pub open spec fn fresh_pool(total: u64, pool_uuid: Uuid, now: u64) -> PoolHeader {
    PoolHeader {
        pool_uuid,
        total_capacity: total,
        data_offset: POOL_DATA_OFFSET,
        alignment: POOL_ALIGNMENT,
        vdrive_count: 0,
        max_vdrives: MAX_VDRIVES,
        create_time: now,
        update_time: now,
    }
}

proof fn lemma_total_grows(es: Seq<EntryView>, n: nat, m: nat)
    requires
        n <= m <= es.len(),
    ensures
        0 <= total_size(es, n) <= total_size(es, m),
    decreases m,
{
    if n < m {
        lemma_total_grows(es, n, (m - 1) as nat);
    } else if n > 0 {
        lemma_total_grows(es, (n - 1) as nat, (m - 1) as nat);
    }
}

/// A region in a list by start is the region of some drive.
proof fn lemma_region_of_drive(r: Seq<(u64, u64)>, es: Seq<EntryView>, m: int) -> (i: int)
    requires
        by_start(r, es),
        0 <= m < r.len(),
    ensures
        0 <= i < es.len(),
        r[m] == regions_of(es)[i],
{
    let u = regions_of(es);
    r.to_multiset_ensures();
    u.to_multiset_ensures();
    assert(r.contains(r[m]));
    assert(r.to_multiset().count(r[m]) > 0);
    assert(u.contains(r[m]));
    u.index_of(r[m])
}

/// The region of a drive stands in a list by start.
proof fn lemma_drive_has_region(r: Seq<(u64, u64)>, es: Seq<EntryView>, i: int) -> (m: int)
    requires
        by_start(r, es),
        0 <= i < es.len(),
    ensures
        0 <= m < r.len(),
        r[m] == regions_of(es)[i],
{
    let u = regions_of(es);
    r.to_multiset_ensures();
    u.to_multiset_ensures();
    assert(u.contains(u[i]));
    assert(u.to_multiset().count(u[i]) > 0);
    assert(r.contains(u[i]));
    r.index_of(u[i])
}

/// Rounding up a rounded number changes nothing.
proof fn lemma_round_up_twice(v: int, a: int)
    requires
        0 <= v,
        0 <= a,
    ensures
        v <= align::round_up(v, a),
        align::round_up(align::round_up(v, a), a) == align::round_up(v, a),
{
    if a > 0 {
        align::round_up_is_least_multiple(v, a);
    }
}

/// A rounded number that is not below `v` is not below `v` rounded up.
proof fn lemma_round_up_least(v: int, q: int, a: int)
    requires
        0 <= v <= q,
        0 <= a,
        align::round_up(q, a) == q,
    ensures
        align::round_up(v, a) <= q,
{
    if a > 0 {
        align::round_up_is_least_multiple(v, a);
        align::round_up_is_least_multiple(q, a);
        assert(align::is_multiple(q, a));
    }
}

/// What `position` means: the first drive with that UUID.
proof fn lemma_position(es: Seq<EntryView>, uuid: Uuid)
    ensures
        0 <= DiskPool::position(es, uuid) <= es.len(),
        DiskPool::position(es, uuid) < es.len() ==> es[DiskPool::position(es, uuid)].uuid == uuid,
        forall|j: int| 0 <= j < DiskPool::position(es, uuid) ==> es[j].uuid != uuid,
    decreases es.len(),
{
    if es.len() > 0 && es[0].uuid != uuid {
        lemma_position(es.drop_first(), uuid);
        assert forall|j: int| 0 <= j < DiskPool::position(es, uuid) implies es[j].uuid != uuid by {
            if j > 0 {
                assert(es.drop_first()[j - 1].uuid != uuid);
            }
        }
    }
}

impl DiskPool {
    /// Allocates a new drive with the given size and label, under a fresh
    /// identity: first-fit, with the pool's alignment. `now` is the time in
    /// seconds.
    pub fn create_vdrive(&mut self, size: u64, label: &str, now: u64) -> (r: Result<
        VDriveEntry,
        PoolError,
    >)
        requires
            align::round_up(size as int, old(self).header.alignment as int) <= u64::MAX,
            ends_ok(
                old(self).header,
                old(self).drives(),
                align::round_up(size as int, old(self).header.alignment as int),
            ),
        ensures
            match r {
                Ok(e) => {
                    &&& ids::uuid_version(e.uuid.bits) == 4
                    &&& ids::uuid_variant(e.uuid.bits) == 2
                    &&& e.uuid.bits != 0
                    &&& is_created(*old(self), *final(self), size, label@, e.uuid, now, e@)
                },
                Err(e) => is_refused(*old(self), size, e) && *final(self) == *old(self),
            },
    {
        self.create_vdrive_as(size, label, Uuid::new_v4(), now)
    }

    /// Allocates a new drive with the given size, label and identity.
    pub fn create_vdrive_as(&mut self, size: u64, label: &str, uuid: Uuid, now: u64) -> (r: Result<
        VDriveEntry,
        PoolError,
    >)
        requires
            align::round_up(size as int, old(self).header.alignment as int) <= u64::MAX,
            ends_ok(
                old(self).header,
                old(self).drives(),
                align::round_up(size as int, old(self).header.alignment as int),
            ),
        ensures
            match r {
                Ok(e) => is_created(*old(self), *final(self), size, label@, uuid, now, e@),
                Err(e) => is_refused(*old(self), size, e) && *final(self) == *old(self),
            },
    {
        if self.entries.len() as u64 >= self.header.max_vdrives as u64 {
            return Err(PoolError::MaxVDrives);
        }
        proof {
            lemma_round_up_twice(size as int, self.header.alignment as int);
        }
        let aligned_size: u64 = align::align_up(size, self.header.alignment);
        match self.find_gap(aligned_size) {
            None => {
                let largest: u64 = self.largest_free_region();
                Err(PoolError::NoSpace { size: aligned_size, largest })
            },
            Some(start_offset) => {
                let entry = VDriveEntry {
                    uuid,
                    start_offset,
                    size: aligned_size,
                    state: VDriveState::Active,
                    array_uuid: Uuid::nil(),
                    label: label.to_owned(),
                    create_time: now,
                    checksum: 0,
                };
                let kept = entry.copied();
                self.entries.push(kept);
                self.header.vdrive_count = self.entries.len() as u32;
                self.header.update_time = now;
                assert(self.drives() =~= old(self).drives().push(entry@));
                Ok(entry)
            },
        }
    }

    /// Where the drive with a given UUID stands in the table.
    fn find(&self, uuid: Uuid) -> (r: Option<usize>)
        ensures
            match r {
                Some(i) => i < self.entries@.len() && i == Self::position(self.drives(), uuid),
                None => Self::position(self.drives(), uuid) == self.entries@.len(),
            },
    {
        let ghost es = self.drives();
        proof {
            lemma_position(es, uuid);
        }
        let mut i: usize = 0;
        while i < self.entries.len()
            invariant
                i <= self.entries@.len(),
                es == self.drives(),
                i <= Self::position(es, uuid) <= es.len(),
                Self::position(es, uuid) < es.len() ==> es[Self::position(es, uuid)].uuid == uuid,
                forall|j: int| 0 <= j < Self::position(es, uuid) ==> es[j].uuid != uuid,
            decreases self.entries@.len() - i,
        {
            assert(es[i as int].uuid == self.entries@[i as int].uuid);
            if self.entries[i].uuid == uuid {
                return Some(i);
            }
            i = i + 1;
        }
        None
    }

    /// Deletes a drive by UUID. A drive that is in an array is kept.
    pub fn delete_vdrive(&mut self, uuid: Uuid, now: u64) -> (r: Result<(), PoolError>)
        requires
            old(self).entries@.len() <= u32::MAX,
        ensures
            ({
                let es = old(self).drives();
                let i = Self::position(es, uuid);
                &&& r == (if i >= es.len() {
                    Err(PoolError::NotFound(uuid))
                } else if es[i].state == VDriveState::InArray {
                    Err(PoolError::InArray(uuid))
                } else {
                    Ok(())
                })
                &&& r is Err ==> *final(self) == *old(self)
                &&& r is Ok ==> {
                    &&& final(self).drives() == es.remove(i)
                    &&& final(self).path == old(self).path
                    &&& final(self).header == (PoolHeader {
                        vdrive_count: (es.len() - 1) as u32,
                        update_time: now,
                        ..old(self).header
                    })
                }
            }),
    {
        let ghost es = self.drives();
        proof {
            lemma_position(es, uuid);
        }
        match self.find(uuid) {
            None => Err(PoolError::NotFound(uuid)),
            Some(i) => {
                assert(es[i as int].state == self.entries@[i as int].state);
                if self.entries[i].state == VDriveState::InArray {
                    return Err(PoolError::InArray(uuid));
                }
                self.entries.remove(i);
                self.header.vdrive_count = self.entries.len() as u32;
                self.header.update_time = now;
                assert(self.drives() =~= es.remove(i as int));
                Ok(())
            },
        }
    }

    /// A drive entry by UUID.
    pub fn get_vdrive(&self, uuid: &Uuid) -> (r: Option<&VDriveEntry>)
        ensures
            ({
                let i = Self::position(self.drives(), *uuid);
                match r {
                    Some(e) => i < self.drives().len() && e@ == self.drives()[i],
                    None => i >= self.drives().len(),
                }
            }),
    {
        match self.find(*uuid) {
            Some(i) => {
                assert(self.drives()[i as int] == self.entries@[i as int]@);
                Some(&self.entries[i])
            },
            None => None,
        }
    }

    /// The drive with a given UUID, as a device of its own.
    pub fn open_vdrive(&self, uuid: &Uuid) -> (r: Result<VDrive, PoolError>)
        ensures
            ({
                let i = Self::position(self.drives(), *uuid);
                match r {
                    Ok(d) => {
                        &&& i < self.drives().len()
                        &&& d.pool_uuid == self.header.pool_uuid
                        &&& d.start_offset == self.drives()[i].start_offset
                        &&& d.size == self.drives()[i].size
                        &&& d.label@ == self.drives()[i].label
                    },
                    Err(e) => i >= self.drives().len() && e == PoolError::NotFound(*uuid),
                }
            }),
    {
        match self.get_vdrive(uuid) {
            None => Err(PoolError::NotFound(*uuid)),
            Some(e) => Ok(
                VDrive::new(self.header.pool_uuid, e.start_offset, e.size, e.label.clone()),
            ),
        }
    }

    /// Puts a state and an array on the drive with a given UUID.
    fn set_state(&mut self, uuid: Uuid, state: VDriveState, array_uuid: Uuid) -> (r: Result<
        (),
        PoolError,
    >)
        ensures
            is_marked(*old(self), *final(self), uuid, state, array_uuid, r),
    {
        let ghost es = self.drives();
        proof {
            lemma_position(es, uuid);
        }
        match self.find(uuid) {
            None => Err(PoolError::NotFound(uuid)),
            Some(i) => {
                let mut e = self.entries[i].copied();
                e.state = state;
                e.array_uuid = array_uuid;
                self.entries.set(i, e);
                assert(self.drives() =~= es.update(
                    i as int,
                    EntryView { state, array_uuid, ..es[i as int] },
                ));
                Ok(())
            },
        }
    }

    /// Marks a drive as being in an array.
    pub fn set_vdrive_in_array(&mut self, uuid: Uuid, array_uuid: Uuid) -> (r: Result<
        (),
        PoolError,
    >)
        ensures
            is_marked(*old(self), *final(self), uuid, VDriveState::InArray, array_uuid, r),
    {
        self.set_state(uuid, VDriveState::InArray, array_uuid)
    }

    /// Marks a drive as no longer in an array.
    pub fn set_vdrive_active(&mut self, uuid: Uuid) -> (r: Result<(), PoolError>)
        ensures
            is_marked(
                *old(self),
                *final(self),
                uuid,
                VDriveState::Active,
                Uuid { bits: 0 },
                r,
            ),
    {
        self.set_state(uuid, VDriveState::Active, Uuid::nil())
    }
}

/// What marking a drive does: its state and array change, nothing else does;
/// a drive that is not there is an error.
pub open spec fn is_marked(
    before: DiskPool,
    after: DiskPool,
    uuid: Uuid,
    state: VDriveState,
    array_uuid: Uuid,
    r: Result<(), PoolError>,
) -> bool {
    let es = before.drives();
    let i = DiskPool::position(es, uuid);
    if i >= es.len() {
        r == Err::<(), PoolError>(PoolError::NotFound(uuid)) && after == before
    } else {
        &&& r == Ok::<(), PoolError>(())
        &&& after.header == before.header
        &&& after.path == before.path
        &&& after.drives() == es.update(i, EntryView { state, array_uuid, ..es[i] })
    }
}

/// What creating a drive does: a new entry at the first place that fits, and
/// the header's count and time.
pub open spec fn is_created(
    before: DiskPool,
    after: DiskPool,
    size: u64,
    label: Seq<char>,
    uuid: Uuid,
    now: u64,
    e: EntryView,
) -> bool {
    let aligned = align::round_up(size as int, before.header.alignment as int);
    &&& before.entries@.len() < before.header.max_vdrives
    &&& first_fit(before.header, before.drives(), aligned, e.start_offset as int)
    &&& e == (EntryView {
        uuid,
        start_offset: e.start_offset,
        size: aligned as u64,
        state: VDriveState::Active,
        array_uuid: Uuid { bits: 0 },
        label,
        create_time: now,
        checksum: 0,
    })
    &&& after.drives() == before.drives().push(e)
    &&& after.path == before.path
    &&& after.header == (PoolHeader {
        vdrive_count: (before.entries@.len() + 1) as u32,
        update_time: now,
        ..before.header
    })
}

/// When creating a drive is refused: the table is full, or no place fits.
pub open spec fn is_refused(before: DiskPool, size: u64, e: PoolError) -> bool {
    let aligned = align::round_up(size as int, before.header.alignment as int);
    if before.entries@.len() >= before.header.max_vdrives {
        e == PoolError::MaxVDrives
    } else {
        &&& forall|q: int| !fits(before.header, before.drives(), aligned, q)
        &&& e matches PoolError::NoSpace { size: s, largest }
        &&& s == aligned
        &&& is_largest_free(before.header, before.drives(), largest as int)
    }
}

/// Whether no two drives share a byte.
pub open spec fn drives_apart(es: Seq<EntryView>) -> bool {
    forall|i: int, j: int|
        0 <= i < j < es.len() ==> clear_of(
            (#[trigger] es[i]).start_offset as int,
            es[i].size as int,
            #[trigger] es[j],
        )
}

/// Whether every drive lies in the pool's data region.
pub open spec fn drives_inside(h: PoolHeader, es: Seq<EntryView>) -> bool {
    forall|i: int|
        0 <= i < es.len() ==> h.data_offset <= (#[trigger] es[i]).start_offset
            && es[i].start_offset + es[i].size <= h.total_capacity
}

/// Whether a drive of `size` bytes fits anywhere.
pub open spec fn has_place(h: PoolHeader, es: Seq<EntryView>, size: int) -> bool {
    exists|p: int| #[trigger] fits(h, es, size, p)
}

/// Whether the `n` bytes at `p` are free, up to where a drive begins or the
/// pool ends.
pub open spec fn free_region(h: PoolHeader, es: Seq<EntryView>, p: int, n: int) -> bool {
    &&& h.data_offset <= p
    &&& p == h.data_offset || align::round_up(p, h.alignment as int) == p
    &&& forall|i: int| 0 <= i < es.len() ==> clear_of(p, n, #[trigger] es[i])
    &&& p + n == h.total_capacity || exists|i: int|
        0 <= i < es.len() && p + n == (#[trigger] es[i]).start_offset
}

/// The largest contiguous free region is one: where the reported size is not
/// zero, so many bytes are free in one piece. And there is no larger one:
/// whatever fits anywhere is not above that size. In a pool whose data region
/// begins aligned, a drive fits exactly if its size is not above it.
pub proof fn the_largest_free_region_is_free_and_largest(h: PoolHeader, es: Seq<EntryView>, n: int)
    requires
        ends_ok(h, es, 0),
        is_largest_free(h, es, n),
    ensures
        0 <= n,
        n > 0 ==> exists|p: int| free_region(h, es, p, n),
        forall|size: int, p: int| #[trigger] fits(h, es, size, p) ==> size <= n,
        align::round_up(h.data_offset as int, h.alignment as int) == h.data_offset ==> forall|
            size: int,
        |
            0 < size ==> (#[trigger] has_place(h, es, size) <==> size <= n),
{
    let r = choose|r: Seq<(u64, u64)>| #[trigger] by_start(r, es) && n == widest_gap(h, r);
    let (largest, cursor) = gap_scan(h, r, r.len());
    lemma_scan(h, r, r.len());
    if n > 0 {
        let p = if n == largest {
            lemma_gap_is_free(h, es, r, r.len())
        } else {
            assert forall|i: int| 0 <= i < es.len() implies clear_of(cursor, n, #[trigger] es[i]) by {
                let m = lemma_drive_has_region(r, es, i);
                assert(r[m].1 <= cursor);
            }
            cursor
        };
        assert(free_region(h, es, p, n));
        if align::round_up(h.data_offset as int, h.alignment as int) == h.data_offset {
            assert forall|size: int| 0 < size <= n implies #[trigger] has_place(h, es, size) by {
                assert forall|i: int| 0 <= i < es.len() implies clear_of(
                    p,
                    size,
                    #[trigger] es[i],
                ) by {
                    assert(clear_of(p, n, es[i]));
                }
                assert(fits(h, es, size, p));
            }
        }
    }
    assert forall|size: int, p: int| #[trigger] fits(h, es, size, p) implies size <= n by {
        lemma_nothing_larger_fits(h, es, r, size, p, 0);
    }
}

proof fn lemma_scan(h: PoolHeader, r: Seq<(u64, u64)>, k: nat)
    requires
        k <= r.len(),
    ensures
        0 <= gap_scan(h, r, k).0,
        h.data_offset <= gap_scan(h, r, k).1,
        k > 0 ==> align::round_up(gap_scan(h, r, k).1, h.alignment as int) == gap_scan(h, r, k).1,
        forall|j: int| 0 <= j < k ==> (#[trigger] r[j]).1 <= gap_scan(h, r, k).1,
    decreases k,
{
    if k > 0 {
        lemma_scan(h, r, (k - 1) as nat);
        let before = gap_scan(h, r, (k - 1) as nat).1;
        let end = r[k - 1].1 as int;
        lemma_round_up_twice(
            if end > before {
                end
            } else {
                before
            },
            h.alignment as int,
        );
    }
}

proof fn lemma_gap_is_free(h: PoolHeader, es: Seq<EntryView>, r: Seq<(u64, u64)>, k: nat) -> (p: int)
    requires
        by_start(r, es),
        ends_ok(h, es, 0),
        k <= r.len(),
        gap_scan(h, r, k).0 > 0,
    ensures
        free_region(h, es, p, gap_scan(h, r, k).0),
    decreases k,
{
    let n = gap_scan(h, r, k).0;
    let (largest, cursor) = gap_scan(h, r, (k - 1) as nat);
    if n == largest {
        lemma_gap_is_free(h, es, r, (k - 1) as nat)
    } else {
        lemma_scan(h, r, (k - 1) as nat);
        assert forall|i: int| 0 <= i < es.len() implies clear_of(cursor, n, #[trigger] es[i]) by {
            let m = lemma_drive_has_region(r, es, i);
            if m < k - 1 {
                assert(r[m].1 <= cursor);
            } else if m > k - 1 {
                assert(r[k - 1].0 <= r[m].0);
            }
        }
        let i = lemma_region_of_drive(r, es, k - 1);
        assert(cursor + n == es[i].start_offset);
        cursor
    }
}

/// What fits behind the first `k` regions is not above the widest gap.
proof fn lemma_nothing_larger_fits(
    h: PoolHeader,
    es: Seq<EntryView>,
    r: Seq<(u64, u64)>,
    size: int,
    p: int,
    k: nat,
)
    requires
        by_start(r, es),
        ends_ok(h, es, 0),
        fits(h, es, size, p),
        k <= r.len(),
        gap_scan(h, r, k).1 <= p,
    ensures
        size <= widest_gap(h, r),
    decreases r.len() - k,
{
    if size <= 0 {
        lemma_scan(h, r, r.len());
    } else if k == r.len() {
        if p + size > h.total_capacity {
            let i = choose|i: int|
                0 <= i < es.len() && p + size <= (#[trigger] es[i]).start_offset;
            let m = lemma_drive_has_region(r, es, i);
            lemma_scan(h, r, k);
            assert(r[m].1 <= gap_scan(h, r, k).1);
        }
    } else {
        let i = lemma_region_of_drive(r, es, k as int);
        assert(clear_of(p, size, es[i]));
        let (largest, cursor) = gap_scan(h, r, k);
        if p + size <= r[k as int].0 {
            lemma_gaps_grow(h, r, k + 1, r.len());
        } else {
            lemma_scan(h, r, k);
            lemma_round_up_least(
                if r[k as int].1 as int > cursor {
                    r[k as int].1 as int
                } else {
                    cursor
                },
                p,
                h.alignment as int,
            );
            lemma_nothing_larger_fits(h, es, r, size, p, k + 1);
        }
    }
}

proof fn lemma_gaps_grow(h: PoolHeader, r: Seq<(u64, u64)>, k: nat, m: nat)
    requires
        k <= m <= r.len(),
    ensures
        gap_scan(h, r, k).0 <= gap_scan(h, r, m).0,
    decreases m,
{
    if k < m {
        lemma_gaps_grow(h, r, k, (m - 1) as nat);
    }
}

/// A drive placed first-fit shares no byte with another and lies in the data
/// region.
pub proof fn a_new_drive_overlaps_no_other(h: PoolHeader, es: Seq<EntryView>, e: EntryView)
    requires
        drives_apart(es),
        drives_inside(h, es),
        first_fit(h, es, e.size as int, e.start_offset as int),
    ensures
        drives_apart(es.push(e)),
        drives_inside(h, es.push(e)),
{
    let all = es.push(e);
    assert forall|i: int, j: int| 0 <= i < j < all.len() implies clear_of(
        (#[trigger] all[i]).start_offset as int,
        all[i].size as int,
        #[trigger] all[j],
    ) by {
        if j == es.len() {
            assert(clear_of(e.start_offset as int, e.size as int, es[i]));
        }
    }
}

/// A deleted drive leaves room for one of its size where it stood.
pub proof fn a_deleted_drive_leaves_its_room(h: PoolHeader, es: Seq<EntryView>, k: int)
    requires
        drives_apart(es),
        drives_inside(h, es),
        0 <= k < es.len(),
        align::round_up(es[k].start_offset as int, h.alignment as int) == es[k].start_offset,
    ensures
        fits(h, es.remove(k), es[k].size as int, es[k].start_offset as int),
        drives_apart(es.remove(k)),
        drives_inside(h, es.remove(k)),
{
    let rest = es.remove(k);
    assert forall|i: int| 0 <= i < rest.len() implies clear_of(
        es[k].start_offset as int,
        es[k].size as int,
        #[trigger] rest[i],
    ) by {
        if i < k {
            assert(clear_of(es[i].start_offset as int, es[i].size as int, es[k]));
        } else {
            assert(clear_of(es[k].start_offset as int, es[k].size as int, es[i + 1]));
        }
    }
    assert(es[k].start_offset + es[k].size <= h.total_capacity);
}

/// Whether an entry survives being written: it names a drive, and its label
/// fits.
pub open spec fn writable(e: EntryView) -> bool {
    &&& e.uuid.bits != 0
    &&& vstd::utf8::encode_utf8(e.label).len() <= 63
    &&& !vstd::utf8::encode_utf8(e.label).contains(0)
}

/// The entry as it is read back: with the checksum that was written.
pub open spec fn reread(e: EntryView) -> EntryView {
    EntryView { checksum: digest::crc32c_of(e.body()), ..e }
}

/// The entries of a table stand one behind the other, 128 bytes each.
pub proof fn lemma_entries_bytes(es: Seq<EntryView>, n: nat, k: int)
    requires
        n <= es.len(),
        0 <= k < n,
    ensures
        entries_bytes(es, n).len() == 128 * n,
        entries_bytes(es, n).subrange(128 * k, 128 * k + 128) == es[k].encoded(),
    decreases n,
{
    lemma_entry_len(es[n - 1]);
    lemma_entries_len(es, (n - 1) as nat);
    let all = entries_bytes(es, n);
    let before = entries_bytes(es, (n - 1) as nat);
    if k == n - 1 {
        assert(all.subrange(128 * k, 128 * k + 128) =~= es[k].encoded());
    } else {
        lemma_entries_bytes(es, (n - 1) as nat, k);
        assert(all.subrange(128 * k, 128 * k + 128) =~= before.subrange(128 * k, 128 * k + 128));
    }
}

/// The entries of a table take 128 bytes each.
pub proof fn lemma_entries_len(es: Seq<EntryView>, n: nat)
    requires
        n <= es.len(),
    ensures
        entries_bytes(es, n).len() == 128 * n,
    decreases n,
{
    if n > 0 {
        lemma_entry_len(es[n - 1]);
        lemma_entries_len(es, (n - 1) as nat);
    }
}

proof fn lemma_nil_bytes(n: nat)
    ensures
        bytes::be_value(bytes::zeros(n)) == 0,
    decreases n,
{
    if n > 0 {
        lemma_nil_bytes((n - 1) as nat);
        assert(bytes::zeros(n).drop_last() =~= bytes::zeros((n - 1) as nat));
    }
}

/// A table read back holds the drives that were written, in their order.
pub proof fn a_persisted_pool_opens_again(es: Seq<EntryView>, max: nat, n: nat)
    requires
        es.len() <= max,
        n <= max,
        forall|i: int| 0 <= i < es.len() ==> writable(#[trigger] es[i]),
    ensures
        drives_in(table_bytes(es, max), n) == Seq::new(
            if n < es.len() {
                n
            } else {
                es.len()
            },
            |i: int| reread(es[i]),
        ),
    decreases n,
{
    let t = table_bytes(es, max);
    let want = Seq::new(
        if n < es.len() {
            n
        } else {
            es.len()
        },
        |i: int| reread(es[i]),
    );
    if n == 0 {
        assert(want =~= Seq::<EntryView>::empty());
    } else {
        let k = n - 1;
        a_persisted_pool_opens_again(es, max, k as nat);
        lemma_entries_len(es, es.len());
        let piece = t.subrange(128 * k, 128 * k + 128);
        if k < es.len() {
            lemma_entries_bytes(es, es.len(), k);
            assert(piece =~= entries_bytes(es, es.len()).subrange(128 * k, 128 * k + 128));
            assert(writable(es[k]));
            entry_round_trip(es[k]);
            assert(drives_in(t, n) =~= want);
        } else {
            assert(piece.subrange(0, 16) =~= bytes::zeros(16));
            lemma_nil_bytes(16);
            assert(drives_in(t, n) =~= want);
        }
    }
}

} // verus!
