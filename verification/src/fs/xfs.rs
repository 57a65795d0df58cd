//! The engine's side of XFS filesystems: reading the superblock, when a
//! filesystem may be sealed, and how a clone gets an identity of its own.
//!
//! Two filesystems of one UUID cannot be mounted on one host, so every clone
//! is stamped. On a version 5 filesystem every metadata block carries the
//! UUID too; a stamp keeps the old one for them in a field of its own, and so
//! rewrites one sector per allocation group and nothing else.
use crate::digest;
use crate::fs::ext4_free;
use crate::fs::info::{FsInfo, FsInfoView};
use crate::ids::Uuid;
use crate::{bytes, text};
use vstd::prelude::*;

verus! {

/// "XFSB".
pub const MAGIC: [u8; 4] = [0x58, 0x46, 0x53, 0x42];

/// The smallest filesystem that is made.
pub const MIN_BYTES: u64 = 300000000;

/// Size of a label.
pub const LABEL_LEN: usize = 12;

/// Places in the superblock.
pub const BLOCKSIZE: usize = 4;

pub const DBLOCKS: usize = 8;

pub const UUID: usize = 32;

pub const AGBLOCKS: usize = 84;

pub const AGCOUNT: usize = 88;

pub const LOGBLOCKS: usize = 96;

pub const VERSIONNUM: usize = 100;

pub const SECTSIZE: usize = 102;

pub const FNAME: usize = 108;

pub const INPROGRESS: usize = 126;

pub const FEATURES_INCOMPAT: usize = 216;

pub const CRC: usize = 224;

pub const META_UUID: usize = 248;

/// The version with a checksum in every metadata block.
pub const V5: u16 = 5;

/// The metadata carries another UUID than the filesystem's own.
pub const IN_META_UUID: u32 = 0x4;

/// A repair has to run before a mount.
pub const IN_NEEDSREPAIR: u32 = 0x10;

/// What is wrong with a filesystem, or with what is asked of one.
#[derive(Debug)]
pub enum XfsFault {
    TooSmall { capacity: u64 },
    LongLabel { label: String },
    NoSuperblock { at: u64 },
    BadSector { at: u64, size: u16 },
    BadCrc,
}

impl XfsFault {
    /// The fault in words.
    pub open spec fn message(self) -> Seq<char> {
        match self {
            XfsFault::TooSmall { capacity } =>
                "XFS needs at least 300 MB (mkfs.xfs refuses anything smaller); this volume is "@
                + text::decimal(capacity as nat) + " bytes"@,
            XfsFault::LongLabel { label } => "an XFS label is at most 12 bytes: "@ + text::quoted(
                label@,
            ),
            XfsFault::NoSuperblock { at } => "no XFS superblock at byte "@ + text::decimal(
                at as nat,
            ),
            XfsFault::BadSector { at, size } => "XFS superblock at byte "@ + text::decimal(
                at as nat,
            ) + " names a "@ + text::decimal(size as nat) + "-byte sector"@,
            XfsFault::BadCrc => "XFS superblock fails its CRC"@,
        }
    }

    /// The fault in words.
    pub fn to_string(&self) -> (s: String)
        ensures
            s@ == self.message(),
    {
        match self {
            XfsFault::TooSmall { capacity } => {
                let mut s =
                    "XFS needs at least 300 MB (mkfs.xfs refuses anything smaller); this volume is ".to_owned();
                text::push_decimal(&mut s, *capacity);
                s.append(" bytes");
                s
            },
            XfsFault::LongLabel { label } => {
                let mut s = "an XFS label is at most 12 bytes: ".to_owned();
                s.append(&text::quoted_text(label));
                s
            },
            XfsFault::NoSuperblock { at } => {
                let mut s = "no XFS superblock at byte ".to_owned();
                text::push_decimal(&mut s, *at);
                s
            },
            XfsFault::BadSector { at, size } => {
                let mut s = "XFS superblock at byte ".to_owned();
                text::push_decimal(&mut s, *at);
                s.append(" names a ");
                text::push_decimal(&mut s, *size as u64);
                s.append("-byte sector");
                s
            },
            XfsFault::BadCrc => "XFS superblock fails its CRC".to_owned(),
        }
    }
}

/// The two bytes at `o`, most significant first.
pub open spec fn u16_at(b: Seq<u8>, o: int) -> u16 {
    bytes::be_value(b.subrange(o, o + 2)) as u16
}

/// The four bytes at `o`, most significant first.
pub open spec fn u32_at(b: Seq<u8>, o: int) -> u32 {
    bytes::be_value(b.subrange(o, o + 4)) as u32
}

/// The eight bytes at `o`, most significant first.
pub open spec fn u64_at(b: Seq<u8>, o: int) -> u64 {
    bytes::be_value(b.subrange(o, o + 8)) as u64
}

/// The UUID at `o`.
pub open spec fn uuid_in(b: Seq<u8>, o: int) -> Uuid {
    Uuid { bits: bytes::be_value(b.subrange(o, o + 16)) as u128 }
}

/// The two bytes at `o`, most significant first.
pub fn be16(b: &[u8], o: usize) -> (v: u16)
    requires
        o + 2 <= b@.len(),
    ensures
        v == u16_at(b@, o as int),
{
    proof {
        bytes::lemma_radix();
    }
    bytes::get_be(b, o, 2) as u16
}

/// The four bytes at `o`, most significant first.
pub fn be32(b: &[u8], o: usize) -> (v: u32)
    requires
        o + 4 <= b@.len(),
    ensures
        v == u32_at(b@, o as int),
{
    proof {
        bytes::lemma_radix();
    }
    bytes::get_be(b, o, 4) as u32
}

/// The eight bytes at `o`, most significant first.
pub fn be64(b: &[u8], o: usize) -> (v: u64)
    requires
        o + 8 <= b@.len(),
    ensures
        v == u64_at(b@, o as int),
{
    proof {
        bytes::lemma_radix();
    }
    bytes::get_be(b, o, 8) as u64
}

/// The UUID at `o`.
fn uuid_at(b: &[u8], o: usize) -> (u: Uuid)
    requires
        o + 16 <= b@.len(),
    ensures
        u == uuid_in(b@, o as int),
        u.bytes() == b@.subrange(o as int, o + 16),
{
    Uuid::read(b, o)
}

/// What to format.
pub struct XfsParams {
    pub label: String,
    pub uuid: Uuid,
    /// Filesystem block size; nothing means the formatter's default.
    pub block_size: Option<u32>,
}

impl Default for XfsParams {
    fn default() -> (p: Self)
        ensures
            p.label@ == Seq::<char>::empty(),
            p.block_size is None,
            crate::ids::uuid_version(p.uuid.bits) == 4,
            crate::ids::uuid_variant(p.uuid.bits) == 2,
    {
        let p = XfsParams { label: String::new(), uuid: Uuid::new_v4(), block_size: None };
        assert(p.label@ =~= Seq::<char>::empty());
        p
    }
}

/// What a format laid down.
pub struct XfsReport {
    pub block_size: u32,
    pub blocks: u64,
    pub ag_count: u64,
    pub ag_blocks: u64,
    pub log_blocks: u64,
    pub free_blocks: u64,
    pub uuid: Uuid,
    pub label: String,
}

/// Whether a label fits its field.
pub open spec fn label_fits(label: Seq<char>) -> bool {
    vstd::utf8::encode_utf8(label).len() <= LABEL_LEN
}

/// Whether a label is refused for its length.
pub open spec fn is_long_label(f: XfsFault, label: Seq<char>) -> bool {
    f matches XfsFault::LongLabel { label: l } && l@ == label
}

/// Refuses a label that does not fit its field.
pub fn check_label(label: &str) -> (r: Result<(), XfsFault>)
    ensures
        match r {
            Ok(()) => label_fits(label@),
            Err(f) => !label_fits(label@) && is_long_label(f, label@),
        },
{
    if label.as_bytes().len() > LABEL_LEN {
        return Err(XfsFault::LongLabel { label: label.to_owned() });
    }
    Ok(())
}

/// Whether a volume of this size can be formatted with this label.
pub fn check_format(capacity: u64, label: &str) -> (r: Result<(), XfsFault>)
    ensures
        match r {
            Ok(()) => capacity >= MIN_BYTES && label_fits(label@),
            Err(XfsFault::TooSmall { capacity: c }) => capacity < MIN_BYTES && c == capacity,
            Err(f) => capacity >= MIN_BYTES && !label_fits(label@) && is_long_label(f, label@),
        },
{
    if capacity < MIN_BYTES {
        return Err(XfsFault::TooSmall { capacity });
    }
    check_label(label)
}

/// What the primary superblock says.
pub struct XfsLayout {
    /// The UUID that the filesystem answers to.
    pub uuid: Uuid,
    /// The UUID in its metadata.
    pub meta_uuid: Uuid,
    pub label: String,
    /// 4 or 5.
    pub version: u8,
    pub block_size: u32,
    pub sector_size: u32,
    pub blocks: u64,
    pub ag_count: u32,
    pub ag_blocks: u32,
    pub log_blocks: u32,
    /// A format that never finished.
    pub in_progress: bool,
    /// A repair must run before a mount.
    pub needs_repair: bool,
    pub meta_uuid_feature: bool,
}

/// Whether a sector size is one that a superblock may name.
pub open spec fn sector_ok(size: u16) -> bool {
    512 <= size <= 32768 && ext4_free::power_of_two(size as nat)
}

/// Whether the first bytes of a sector are a superblock's.
pub open spec fn is_xfs(head: Seq<u8>) -> bool {
    head.subrange(0, 4) == MAGIC@
}

fn is_power_of_two(n: u16) -> (yes: bool)
    ensures
        yes == ext4_free::power_of_two(n as nat),
    decreases n,
{
    n == 1 || (n > 0 && n % 2 == 0 && is_power_of_two(n / 2))
}

/// How large the superblock sector is that begins with `head`, the 512 bytes
/// at `at`.
pub fn sector_size(head: &[u8], at: u64) -> (r: Result<usize, XfsFault>)
    requires
        head@.len() >= 512,
    ensures
        match r {
            Ok(n) => is_xfs(head@) && n == u16_at(head@, SECTSIZE as int) && sector_ok(
                u16_at(head@, SECTSIZE as int),
            ),
            Err(XfsFault::NoSuperblock { at: a }) => !is_xfs(head@) && a == at,
            Err(XfsFault::BadSector { at: a, size }) => is_xfs(head@) && a == at && size == u16_at(
                head@,
                SECTSIZE as int,
            ) && !sector_ok(size),
            Err(_) => false,
        },
{
    if !bytes::matches_at(head, 0, &MAGIC) {
        return Err(XfsFault::NoSuperblock { at });
    }
    let size: u16 = be16(head, SECTSIZE);
    if size < 512 || size > 32768 || !is_power_of_two(size) {
        return Err(XfsFault::BadSector { at, size });
    }
    Ok(size as usize)
}

/// Whether the first sector says XFS. A volume without a first sector, and
/// one whose first sector cannot be read, does not.
pub fn looks_like_xfs(capacity: u64, head: Option<Vec<u8>>) -> (yes: bool)
    requires
        head matches Some(h) ==> h@.len() == 512,
    ensures
        yes == (capacity >= 512 && (head matches Some(h) && is_xfs(h@))),
{
    if capacity < 512 {
        return false;
    }
    match head {
        Some(h) => bytes::matches_at(&h, 0, &MAGIC),
        None => false,
    }
}

/// Whether a superblock is of version 5.
pub open spec fn v5(sb: Seq<u8>) -> bool {
    u16_at(sb, VERSIONNUM as int) & 0xf == V5
}

fn is_v5(sb: &[u8]) -> (yes: bool)
    requires
        sb@.len() >= 512,
    ensures
        yes == v5(sb@),
{
    be16(sb, VERSIONNUM) & 0xf == V5
}

/// The checksum of a sector: over all of it, with zeros in the checksum's own
/// place.
pub open spec fn checksum(sb: Seq<u8>) -> u32 {
    digest::crc32c_of(bytes::splice(sb, CRC as int, bytes::zeros(4)))
}

/// Whether a sector holds its checksum, least significant byte first.
pub open spec fn verifies(sb: Seq<u8>) -> bool {
    ext4_free::u32_at(sb, CRC as int) == checksum(sb)
}

fn sum_of(sb: &[u8]) -> (sum: u32)
    requires
        sb@.len() >= 512,
    ensures
        sum == checksum(sb@),
{
    let mut b: Vec<u8> = Vec::new();
    b.extend_from_slice(sb);
    assert(b@ =~= sb@);
    let mut none: Vec<u8> = Vec::new();
    bytes::push_zeros(&mut none, 4);
    assert(none@ =~= bytes::zeros(4));
    bytes::write_at(&mut b, CRC, &none);
    digest::crc32c_sum(&b)
}

/// The incompatible features of a superblock: version 4 has none.
pub open spec fn incompat_of(sb: Seq<u8>) -> u32 {
    if v5(sb) {
        u32_at(sb, FEATURES_INCOMPAT as int)
    } else {
        0
    }
}

/// The UUID in the metadata.
pub open spec fn meta_uuid_of(sb: Seq<u8>) -> Uuid {
    if incompat_of(sb) & IN_META_UUID != 0 {
        uuid_in(sb, META_UUID as int)
    } else {
        uuid_in(sb, UUID as int)
    }
}

impl XfsLayout {
    /// Whether a layout is what a superblock says.
    pub open spec fn is_of(self, sb: Seq<u8>) -> bool {
        &&& self.uuid == uuid_in(sb, UUID as int)
        &&& self.meta_uuid == meta_uuid_of(sb)
        &&& self.label@ == text::trim_end_char(
            text::lossy(sb.subrange(FNAME as int, FNAME + LABEL_LEN)),
            '\0',
        )
        &&& self.version == (if v5(sb) {
            5u8
        } else {
            4u8
        })
        &&& self.block_size == u32_at(sb, BLOCKSIZE as int)
        &&& self.sector_size == u16_at(sb, SECTSIZE as int)
        &&& self.blocks == u64_at(sb, DBLOCKS as int)
        &&& self.ag_count == u32_at(sb, AGCOUNT as int)
        &&& self.ag_blocks == u32_at(sb, AGBLOCKS as int)
        &&& self.log_blocks == u32_at(sb, LOGBLOCKS as int)
        &&& self.in_progress == (sb[INPROGRESS as int] != 0)
        &&& self.needs_repair == (incompat_of(sb) & IN_NEEDSREPAIR != 0)
        &&& self.meta_uuid_feature == (incompat_of(sb) & IN_META_UUID != 0)
    }
}

/// What a superblock says. One of version 5 has to hold its checksum.
pub fn layout_of(sb: &[u8]) -> (r: Result<XfsLayout, XfsFault>)
    requires
        sb@.len() >= 512,
    ensures
        match r {
            Ok(l) => (!v5(sb@) || verifies(sb@)) && l.is_of(sb@),
            Err(f) => v5(sb@) && !verifies(sb@) && f == XfsFault::BadCrc,
        },
{
    let five: bool = is_v5(sb);
    if five && ext4_free::le32(sb, CRC) != sum_of(sb) {
        return Err(XfsFault::BadCrc);
    }
    let incompat: u32 = if five {
        be32(sb, FEATURES_INCOMPAT)
    } else {
        0
    };
    let meta: bool = incompat & IN_META_UUID != 0;
    let uuid = uuid_at(sb, UUID);
    let raw = text::lossy_text(vstd::slice::slice_subrange(sb, FNAME, FNAME + LABEL_LEN));
    let name = text::drop_end_char(&text::to_chars(&raw), '\0');
    Ok(
        XfsLayout {
            uuid,
            meta_uuid: if meta {
                uuid_at(sb, META_UUID)
            } else {
                uuid
            },
            label: text::text_of(&name),
            version: if five {
                5
            } else {
                4
            },
            block_size: be32(sb, BLOCKSIZE),
            sector_size: be16(sb, SECTSIZE) as u32,
            blocks: be64(sb, DBLOCKS),
            ag_count: be32(sb, AGCOUNT),
            ag_blocks: be32(sb, AGBLOCKS),
            log_blocks: be32(sb, LOGBLOCKS),
            in_progress: sb[INPROGRESS] != 0,
            needs_repair: incompat & IN_NEEDSREPAIR != 0,
            meta_uuid_feature: meta,
        },
    )
}

/// What the sector at the start of a volume says of the filesystem there.
pub fn read_layout(sb: &[u8]) -> (r: Result<XfsLayout, XfsFault>)
    requires
        sb@.len() >= 512,
    ensures
        ({
            let size = u16_at(sb@, SECTSIZE as int);
            match r {
                Ok(l) => is_xfs(sb@) && sector_ok(size) && (!v5(sb@) || verifies(sb@)) && l.is_of(
                    sb@,
                ),
                Err(XfsFault::NoSuperblock { at }) => !is_xfs(sb@) && at == 0,
                Err(XfsFault::BadSector { at, size: n }) => is_xfs(sb@) && !sector_ok(size) && at
                    == 0 && n == size,
                Err(XfsFault::BadCrc) => is_xfs(sb@) && sector_ok(size) && v5(sb@) && !verifies(
                    sb@,
                ),
                Err(_) => false,
            }
        }),
{
    match sector_size(sb, 0) {
        Ok(_) => layout_of(sb),
        Err(f) => Err(f),
    }
}

/// Why a filesystem must not be sealed as it stands, in words.
pub open spec fn blockers_of(l: XfsLayout) -> Seq<Seq<char>> {
    (if l.in_progress {
        seq!["the format never finished (sb_inprogress is set)"@]
    } else {
        Seq::empty()
    }) + (if l.needs_repair {
        seq!["the filesystem is marked NEEDSREPAIR"@]
    } else {
        Seq::empty()
    })
}

/// Why a filesystem must not be sealed as it stands. Empty means that it may
/// be.
pub fn seal_blockers(l: &XfsLayout) -> (out: Vec<String>)
    ensures
        out@.map_values(|s: String| s@) == blockers_of(*l),
{
    let mut out: Vec<String> = Vec::new();
    if l.in_progress {
        out.push("the format never finished (sb_inprogress is set)".to_owned());
    }
    if l.needs_repair {
        out.push("the filesystem is marked NEEDSREPAIR".to_owned());
    }
    assert(out@.map_values(|s: String| s@) =~= blockers_of(*l));
    out
}

/// What walking a filesystem found.
#[derive(Debug, Clone, Copy, PartialEq, Eq, Structural)]
pub struct XfsCheck {
    pub entries: u64,
    pub directories: u64,
    pub files: u64,
    pub symlinks: u64,
    pub file_bytes: u64,
}

impl Default for XfsCheck {
    fn default() -> (c: Self)
        ensures
            c == (XfsCheck { entries: 0, directories: 0, files: 0, symlinks: 0, file_bytes: 0 }),
    {
        XfsCheck { entries: 0, directories: 0, files: 0, symlinks: 0, file_bytes: 0 }
    }
}

/// What an entry of a directory is.
#[derive(Debug, Clone, Copy, PartialEq, Eq, Structural)]
pub enum EntryKind {
    Directory,
    File { size: u64 },
    Symlink,
    Other,
}

impl XfsCheck {
    /// The count with one more entry.
    pub open spec fn with(self, e: EntryKind) -> XfsCheck {
        let c = XfsCheck { entries: (self.entries + 1) as u64, ..self };
        match e {
            EntryKind::Directory => XfsCheck { directories: (self.directories + 1) as u64, ..c },
            EntryKind::File { size } => XfsCheck {
                files: (self.files + 1) as u64,
                file_bytes: (self.file_bytes + size) as u64,
                ..c
            },
            EntryKind::Symlink => XfsCheck { symlinks: (self.symlinks + 1) as u64, ..c },
            EntryKind::Other => c,
        }
    }

    /// Of the entries counted, each is at most one of the three.
    pub open spec fn wf(self) -> bool {
        self.directories + self.files + self.symlinks <= self.entries
    }

    /// Counts one more entry of the walk.
    pub fn note(&mut self, e: EntryKind)
        requires
            old(self).wf(),
            old(self).entries < u64::MAX,
            e matches EntryKind::File { size } ==> old(self).file_bytes + size <= u64::MAX,
        ensures
            final(self).wf(),
            *final(self) == old(self).with(e),
    {
        self.entries = self.entries + 1;
        match e {
            EntryKind::Directory => {
                self.directories = self.directories + 1;
            },
            EntryKind::File { size } => {
                self.files = self.files + 1;
                self.file_bytes = self.file_bytes + size;
            },
            EntryKind::Symlink => {
                self.symlinks = self.symlinks + 1;
            },
            EntryKind::Other => {},
        }
    }
}

/// Where the superblock of an allocation group lies.
pub open spec fn group_at(l: XfsLayout, group: int) -> int {
    group * (l.ag_blocks * l.block_size)
}

/// Where the superblocks of all allocation groups lie, the primary last: a
/// stamp that is torn leaves the one that a mount reads as it was.
pub open spec fn offsets_of(l: XfsLayout) -> Seq<u64> {
    Seq::new(
        (if l.ag_count == 0 {
            0
        } else {
            l.ag_count - 1
        }) as nat,
        |i: int| group_at(l, i + 1) as u64,
    ).push(0)
}

/// Where the superblocks of all allocation groups lie, the primary last.
pub fn sb_offsets(l: &XfsLayout) -> (v: Vec<u64>)
    requires
        group_at(*l, l.ag_count as int) <= u64::MAX,
    ensures
        v@ == offsets_of(*l),
{
    assert(l.ag_blocks * l.block_size <= 0xFFFF_FFFF * 0xFFFF_FFFF) by (nonlinear_arith)
        requires
            0 <= l.ag_blocks <= 0xFFFF_FFFF,
            0 <= l.block_size <= 0xFFFF_FFFF,
    ;
    let bytes: u64 = l.ag_blocks as u64 * l.block_size as u64;
    let mut v: Vec<u64> = Vec::new();
    let mut a: u32 = 1;
    while a < l.ag_count
        invariant
            1 <= a,
            a <= l.ag_count || a == 1,
            bytes == l.ag_blocks * l.block_size,
            group_at(*l, l.ag_count as int) <= u64::MAX,
            v@ == Seq::new((a - 1) as nat, |i: int| group_at(*l, i + 1) as u64),
        decreases l.ag_count - a,
    {
        proof {
            let n = l.ag_count as int;
            assert(a * bytes <= n * bytes) by (nonlinear_arith)
                requires
                    0 <= a <= n,
                    bytes >= 0,
            ;
        }
        v.push(a as u64 * bytes);
        a = a + 1;
        assert(v@ =~= Seq::new((a - 1) as nat, |i: int| group_at(*l, i + 1) as u64));
    }
    v.push(0);
    assert(v@ =~= offsets_of(*l));
    v
}

/// A sector with its checksum, where its version has one.
pub open spec fn sealed(sb: Seq<u8>) -> Seq<u8> {
    if v5(sb) {
        bytes::splice(sb, CRC as int, bytes::le_bytes(checksum(sb) as nat, 4))
    } else {
        sb
    }
}

fn seal(sb: &mut Vec<u8>)
    requires
        old(sb)@.len() >= 512,
    ensures
        final(sb)@ == sealed(old(sb)@),
        final(sb)@.len() == old(sb)@.len(),
{
    broadcast use bytes::lemma_le_bytes_len;

    if is_v5(sb) {
        let sum: u32 = sum_of(sb);
        let mut field: Vec<u8> = Vec::new();
        bytes::push_le(&mut field, sum as u64, 4);
        assert(field@ =~= bytes::le_bytes(sum as nat, 4));
        bytes::write_at(sb, CRC, &field);
    }
}

/// A version 5 superblock that keeps its UUID for its metadata.
pub open spec fn pinned(sb: Seq<u8>) -> Seq<u8> {
    if v5(sb) && u32_at(sb, FEATURES_INCOMPAT as int) & IN_META_UUID == 0 {
        bytes::splice(
            bytes::splice(sb, META_UUID as int, sb.subrange(UUID as int, UUID + 16)),
            FEATURES_INCOMPAT as int,
            bytes::be_bytes((u32_at(sb, FEATURES_INCOMPAT as int) | IN_META_UUID) as nat, 4),
        )
    } else {
        sb
    }
}

/// A superblock with a new UUID.
pub open spec fn with_uuid(sb: Seq<u8>, uuid: Uuid) -> Seq<u8> {
    sealed(bytes::splice(pinned(sb), UUID as int, uuid.bytes()))
}

/// Gives a superblock a new UUID. On version 5 the old one is kept for the
/// metadata, unless another is already kept.
pub fn stamp_uuid(sb: &mut Vec<u8>, uuid: Uuid)
    requires
        old(sb)@.len() >= 512,
    ensures
        final(sb)@ == with_uuid(old(sb)@, uuid),
        final(sb)@.len() == old(sb)@.len(),
{
    broadcast use bytes::lemma_be_bytes_len;

    if is_v5(sb) {
        let incompat: u32 = be32(sb, FEATURES_INCOMPAT);
        if incompat & IN_META_UUID == 0 {
            let mut kept: Vec<u8> = Vec::new();
            kept.extend_from_slice(vstd::slice::slice_subrange(sb.as_slice(), UUID, UUID + 16));
            assert(kept@ =~= sb@.subrange(UUID as int, UUID + 16));
            bytes::write_at(sb, META_UUID, &kept);
            let mut field: Vec<u8> = Vec::new();
            bytes::push_be(&mut field, (incompat | IN_META_UUID) as u128, 4);
            assert(field@ =~= bytes::be_bytes((incompat | IN_META_UUID) as nat, 4));
            bytes::write_at(sb, FEATURES_INCOMPAT, &field);
        }
    }
    let mut id: Vec<u8> = Vec::new();
    uuid.push(&mut id);
    assert(id@ =~= uuid.bytes());
    bytes::write_at(sb, UUID, &id);
    seal(sb);
}

/// A label in its field, filled up with zeros.
pub open spec fn label_field(label: Seq<char>) -> Seq<u8> {
    let b = vstd::utf8::encode_utf8(label);
    b + bytes::zeros((LABEL_LEN - b.len()) as nat)
}

/// Gives a superblock a new label. One that does not fit is refused.
pub fn stamp_label(sb: &mut Vec<u8>, label: &str) -> (r: Result<(), XfsFault>)
    requires
        old(sb)@.len() >= 512,
    ensures
        match r {
            Ok(()) => label_fits(label@) && final(sb)@ == sealed(
                bytes::splice(old(sb)@, FNAME as int, label_field(label@)),
            ) && final(sb)@.len() == old(sb)@.len(),
            Err(f) => !label_fits(label@) && final(sb)@ == old(sb)@ && is_long_label(f, label@),
        },
{
    match check_label(label) {
        Err(f) => {
            return Err(f);
        },
        Ok(()) => {},
    }
    let mut name: Vec<u8> = Vec::new();
    name.extend_from_slice(label.as_bytes());
    let n: usize = name.len();
    bytes::push_zeros(&mut name, LABEL_LEN - n);
    assert(name@ =~= label_field(label@));
    bytes::write_at(sb, FNAME, &name);
    seal(sb);
    Ok(())
}

proof fn lemma_sealed(sb: Seq<u8>)
    requires
        sb.len() >= 512,
    ensures
        sealed(sb).len() == sb.len(),
        v5(sealed(sb)) == v5(sb),
        v5(sb) ==> verifies(sealed(sb)),
        forall|i: int|
            0 <= i < sb.len() && !(CRC <= i < CRC + 4) ==> #[trigger] sealed(sb)[i] == sb[i],
{
    broadcast use bytes::lemma_le_bytes_len;

    bytes::lemma_radix();
    let s = sealed(sb);
    assert(s.subrange(VERSIONNUM as int, VERSIONNUM + 2) =~= sb.subrange(
        VERSIONNUM as int,
        VERSIONNUM + 2,
    ));
    if v5(sb) {
        assert(bytes::splice(s, CRC as int, bytes::zeros(4)) =~= bytes::splice(
            sb,
            CRC as int,
            bytes::zeros(4),
        ));
        assert(s.subrange(CRC as int, CRC + 4) =~= bytes::le_bytes(checksum(sb) as nat, 4));
        bytes::le_round_trip(checksum(sb) as nat, 4);
    }
}

/// A new label reads back, and the superblock verifies; the UUIDs are as
/// before. A label that ends in the character zero loses it.
pub proof fn a_label_reads_back(sb: Seq<u8>, label: Seq<char>)
    requires
        sb.len() >= 512,
        label_fits(label),
        label.len() == 0 || label.last() != '\0',
    ensures
        ({
            let t = sealed(bytes::splice(sb, FNAME as int, label_field(label)));
            &&& t.len() == sb.len()
            &&& v5(t) == v5(sb)
            &&& v5(t) ==> verifies(t)
            &&& text::trim_end_char(
                text::lossy(t.subrange(FNAME as int, FNAME + LABEL_LEN)),
                '\0',
            ) == label
            &&& uuid_in(t, UUID as int) == uuid_in(sb, UUID as int)
            &&& meta_uuid_of(t) == meta_uuid_of(sb)
        }),
{
    let b = vstd::utf8::encode_utf8(label);
    let q = bytes::splice(sb, FNAME as int, label_field(label));
    let t = sealed(q);
    assert(q.len() == sb.len());
    assert(q.subrange(VERSIONNUM as int, VERSIONNUM + 2) =~= sb.subrange(
        VERSIONNUM as int,
        VERSIONNUM + 2,
    ));
    lemma_sealed(q);
    assert(t.subrange(FNAME as int, FNAME + LABEL_LEN) =~= label_field(label));
    text::padded_text_reads_back(label, (LABEL_LEN - b.len()) as nat);
    assert(t.subrange(UUID as int, UUID + 16) =~= sb.subrange(UUID as int, UUID + 16));
    assert(t.subrange(META_UUID as int, META_UUID + 16) =~= sb.subrange(
        META_UUID as int,
        META_UUID + 16,
    ));
    assert(t.subrange(FEATURES_INCOMPAT as int, FEATURES_INCOMPAT + 4) =~= sb.subrange(
        FEATURES_INCOMPAT as int,
        FEATURES_INCOMPAT + 4,
    ));
}

/// A stamped superblock can be read again: it verifies, the filesystem
/// answers to the new UUID, and its metadata still carries the UUID it
/// carried. Outside the fields of the UUIDs, of the features and of the
/// checksum no byte has changed, and no other feature has.
pub proof fn stamping_keeps_the_metadata_uuid(sb: Seq<u8>, uuid: Uuid)
    requires
        sb.len() >= 512,
    ensures
        ({
            let t = with_uuid(sb, uuid);
            &&& t.len() == sb.len()
            &&& v5(t) == v5(sb)
            &&& v5(t) ==> verifies(t)
            &&& uuid_in(t, UUID as int) == uuid
            &&& v5(sb) ==> meta_uuid_of(t) == meta_uuid_of(sb)
            &&& v5(sb) ==> incompat_of(t) == incompat_of(sb) | IN_META_UUID
            &&& incompat_of(t) & IN_NEEDSREPAIR == incompat_of(sb) & IN_NEEDSREPAIR
            &&& forall|i: int|
                0 <= i < sb.len() && !(UUID <= i < UUID + 16) && !(META_UUID <= i < META_UUID + 16)
                    && !(FEATURES_INCOMPAT <= i < FEATURES_INCOMPAT + 4) && !(CRC <= i < CRC + 4)
                    ==> #[trigger] t[i] == sb[i]
        }),
{
    broadcast use bytes::lemma_be_bytes_len;

    bytes::lemma_radix();
    crate::ids::uuid_round_trip(uuid);
    let p = pinned(sb);
    let q = bytes::splice(p, UUID as int, uuid.bytes());
    let t = with_uuid(sb, uuid);
    let f = u32_at(sb, FEATURES_INCOMPAT as int);
    assert(p.len() == sb.len() && q.len() == sb.len());
    assert(q.subrange(VERSIONNUM as int, VERSIONNUM + 2) =~= sb.subrange(
        VERSIONNUM as int,
        VERSIONNUM + 2,
    ));
    lemma_sealed(q);
    assert(t.subrange(UUID as int, UUID + 16) =~= uuid.bytes());
    assert((f | 0x4u32) & 0x4 != 0 && (f | 0x4u32) & 0x10 == f & 0x10 && (f & 0x4 != 0 ==> f | 0x4u32
        == f)) by (bit_vector);
    if v5(sb) {
        if f & IN_META_UUID == 0 {
            let field = bytes::be_bytes((f | IN_META_UUID) as nat, 4);
            assert(t.subrange(FEATURES_INCOMPAT as int, FEATURES_INCOMPAT + 4) =~= field);
            bytes::be_round_trip((f | IN_META_UUID) as nat, 4);
            assert(t.subrange(META_UUID as int, META_UUID + 16) =~= sb.subrange(
                UUID as int,
                UUID + 16,
            ));
        } else {
            assert(t.subrange(FEATURES_INCOMPAT as int, FEATURES_INCOMPAT + 4) =~= sb.subrange(
                FEATURES_INCOMPAT as int,
                FEATURES_INCOMPAT + 4,
            ));
            assert(t.subrange(META_UUID as int, META_UUID + 16) =~= sb.subrange(
                META_UUID as int,
                META_UUID + 16,
            ));
        }
    }
}

/// The primary superblock, the one that a mount reads, is rewritten last, and
/// each of the others once.
pub proof fn the_primary_is_written_last(l: XfsLayout)
    requires
        l.ag_count > 0,
        group_at(l, l.ag_count as int) <= u64::MAX,
    ensures
        offsets_of(l).len() == l.ag_count,
        offsets_of(l).last() == 0,
        forall|i: int|
            0 <= i < l.ag_count - 1 ==> #[trigger] offsets_of(l)[i] == group_at(l, i + 1),
{
    assert forall|i: int| 0 <= i < l.ag_count - 1 implies #[trigger] offsets_of(l)[i] == group_at(
        l,
        i + 1,
    ) by {
        let b = l.ag_blocks * l.block_size;
        let n = l.ag_count as int;
        assert(0 <= (i + 1) * b <= n * b) by (nonlinear_arith)
            requires
                0 <= i + 1 <= n,
                b >= 0,
        ;
    }
}

/// What is recorded of a volume with this filesystem. XFS always has a log.
pub fn fs_info(l: &XfsLayout) -> (r: FsInfo)
    ensures
        r@ == (FsInfoView {
            kind: "xfs"@,
            journal: true,
            features: None,
            sixty_four_bit: true,
            metadata_csum: l.version == 5,
            csum_seed: l.meta_uuid_feature,
            label: l.label@,
            uuid: Some(l.uuid),
        }),
{
    FsInfo {
        kind: "xfs".to_owned(),
        journal: true,
        features: None,
        sixty_four_bit: true,
        metadata_csum: l.version == 5,
        csum_seed: l.meta_uuid_feature,
        label: l.label.clone(),
        uuid: Some(l.uuid),
    }
}

} // verus!
