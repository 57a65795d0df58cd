//! What is on a volume when it is no filesystem of the engine's own: a
//! partition table, or a read-only image.
//!
//! A disk is told by a few sectors, each looked at in turn. Every clone of a
//! disk is given an identity of its own: the GUID of a GPT, or the signature
//! of an MBR. What lives inside the partitions is not touched.
use crate::digest;
use crate::fs::ext4::Ext4Layout;
use crate::fs::ext4_free;
use crate::fs::info;
use crate::fs::info::{FsInfo, FsInfoView};
use crate::ids::Uuid;
use crate::{bytes, text};
use vstd::prelude::*;

verus! {

/// "STORMPAL".
pub const PALLET_MAGIC: [u8; 8] = [0x53, 0x54, 0x4f, 0x52, 0x4d, 0x50, 0x41, 0x4c];

/// "EFI PART".
pub const GPT_MAGIC: [u8; 8] = [0x45, 0x46, 0x49, 0x20, 0x50, 0x41, 0x52, 0x54];

/// "CD001".
pub const ISO_MAGIC: [u8; 5] = [0x43, 0x44, 0x30, 0x30, 0x31];

/// A place to look at.
#[derive(Debug, Clone, Copy, PartialEq, Eq, Structural)]
pub enum Look {
    Pallet,
    /// A GPT header behind one block of 512 bytes.
    Gpt512,
    /// A GPT header behind one block of 4096 bytes.
    Gpt4096,
    Mbr,
    Iso,
}

impl Look {
    /// Where the place is: offset and length.
    pub open spec fn place_of(self) -> (int, int) {
        match self {
            Look::Pallet => (0, 4096),
            Look::Gpt512 => (512, 512),
            Look::Gpt4096 => (4096, 4096),
            Look::Mbr => (0, 512),
            Look::Iso => (0x8000, 2048),
        }
    }

    /// Where the place is: offset and length.
    pub fn place(&self) -> (r: (u64, usize))
        ensures
            r.0 == self.place_of().0,
            r.1 == self.place_of().1,
    {
        match self {
            Look::Pallet => (0, 4096),
            Look::Gpt512 => (512, 512),
            Look::Gpt4096 => (4096, 4096),
            Look::Mbr => (0, 512),
            Look::Iso => (0x8000, 2048),
        }
    }

    /// The place to look at after this one.
    pub open spec fn after_of(self) -> Option<Look> {
        match self {
            Look::Pallet => Some(Look::Gpt512),
            Look::Gpt512 => Some(Look::Gpt4096),
            Look::Gpt4096 => Some(Look::Mbr),
            Look::Mbr => Some(Look::Iso),
            Look::Iso => None,
        }
    }

    /// The place to look at after this one.
    pub fn after(&self) -> (r: Option<Look>)
        ensures
            r == self.after_of(),
    {
        match self {
            Look::Pallet => Some(Look::Gpt512),
            Look::Gpt512 => Some(Look::Gpt4096),
            Look::Gpt4096 => Some(Look::Mbr),
            Look::Mbr => Some(Look::Iso),
            Look::Iso => None,
        }
    }

    /// Whether a volume of this size has the place.
    pub fn fits(&self, capacity: u64) -> (yes: bool)
        ensures
            yes == (self.place_of().0 + self.place_of().1 <= capacity),
    {
        let (at, len) = self.place();
        at + len as u64 <= capacity
    }
}

/// Whether a character pads a name on an ISO image.
pub open spec fn pads(c: char) -> bool {
    c == ' ' || c == '\0'
}

/// A name without padding at its end.
pub open spec fn unpad_end(s: Seq<char>) -> Seq<char>
    decreases s.len(),
{
    if s.len() > 0 && pads(s.last()) {
        unpad_end(s.drop_last())
    } else {
        s
    }
}

/// A name without padding at its start.
pub open spec fn unpad_start(s: Seq<char>) -> Seq<char>
    decreases s.len(),
{
    if s.len() > 0 && pads(s[0]) {
        unpad_start(s.drop_first())
    } else {
        s
    }
}

fn unpadded(v: &[char]) -> (r: String)
    ensures
        r@ == unpad_start(unpad_end(v@)),
{
    let mut to: usize = v.len();
    assert(v@.subrange(0, to as int) =~= v@);
    while to > 0 && (v[to - 1] == ' ' || v[to - 1] == '\0')
        invariant
            to <= v@.len(),
            unpad_end(v@) == unpad_end(v@.subrange(0, to as int)),
        decreases to,
    {
        assert(v@.subrange(0, to as int).drop_last() =~= v@.subrange(0, to - 1));
        to = to - 1;
    }
    let ghost kept = v@.subrange(0, to as int);
    let mut from: usize = 0;
    assert(kept.subrange(0, to as int) =~= kept);
    while from < to && (v[from] == ' ' || v[from] == '\0')
        invariant
            from <= to <= v@.len(),
            kept == v@.subrange(0, to as int),
            unpad_start(kept) == unpad_start(kept.subrange(from as int, to as int)),
        decreases to - from,
    {
        assert(kept.subrange(from as int, to as int).drop_first() =~= kept.subrange(
            from + 1,
            to as int,
        ));
        from = from + 1;
    }
    assert(kept.subrange(from as int, to as int) =~= v@.subrange(from as int, to as int));
    text::from_chars(v, from, to)
}

/// `lba=` and a number.
pub open spec fn lba_feature(lba: nat) -> Seq<char> {
    "lba="@ + text::decimal(lba)
}

/// Whether a boot sector has a partition: one of its four entries has a type.
pub open spec fn has_partition(mbr: Seq<u8>) -> bool {
    mbr[450] != 0 || mbr[466] != 0 || mbr[482] != 0 || mbr[498] != 0
}

/// What one place tells.
pub open spec fn told(look: Look, d: Seq<u8>) -> Option<FsInfoView> {
    match look {
        Look::Pallet => if d.subrange(0, 8) == PALLET_MAGIC@ {
            Some(
                info::bare(
                    "pallet"@,
                    Some(lba_feature(ext4_free::u32_at(d, 16) as nat)),
                    text::trim_end_char(text::lossy(d.subrange(52, 92)), '\0'),
                    None,
                ),
            )
        } else {
            None
        },
        Look::Gpt512 => if d.subrange(0, 8) == GPT_MAGIC@ {
            Some(info::bare("gpt"@, Some(lba_feature(512)), Seq::empty(), Some(guid_at(d))))
        } else {
            None
        },
        Look::Gpt4096 => if d.subrange(0, 8) == GPT_MAGIC@ {
            Some(info::bare("gpt"@, Some(lba_feature(4096)), Seq::empty(), Some(guid_at(d))))
        } else {
            None
        },
        Look::Mbr => if d[510] == 0x55 && d[511] == 0xAA && has_partition(d) {
            Some(
                info::bare(
                    "mbr"@,
                    None,
                    Seq::empty(),
                    Some(Uuid { bits: ext4_free::u32_at(d, 440) as u128 }),
                ),
            )
        } else {
            None
        },
        Look::Iso => if d.subrange(1, 6) == ISO_MAGIC@ {
            Some(
                info::bare(
                    "iso9660"@,
                    None,
                    unpad_start(unpad_end(text::lossy(d.subrange(40, 72)))),
                    None,
                ),
            )
        } else {
            None
        },
    }
}

/// The disk's GUID in a GPT header.
pub open spec fn guid_at(d: Seq<u8>) -> Uuid {
    Uuid { bits: bytes::be_value(crate::ids::field_swapped(d.subrange(56, 72))) as u128 }
}

/// What is recorded, as a view, if anything is.
pub open spec fn opt_view(r: Option<FsInfo>) -> Option<FsInfoView> {
    match r {
        Some(i) => Some(i@),
        None => None,
    }
}

fn lba_text(lba: u64) -> (s: String)
    ensures
        s@ == lba_feature(lba as nat),
{
    let mut s = "lba=".to_owned();
    text::push_decimal(&mut s, lba);
    s
}

fn gpt_info(d: &[u8], lba: u64) -> (r: Option<FsInfo>)
    requires
        d@.len() >= 512,
    ensures
        opt_view(r) == (if d@.subrange(0, 8) == GPT_MAGIC@ {
            Some(info::bare("gpt"@, Some(lba_feature(lba as nat)), Seq::empty(), Some(guid_at(d@))))
        } else {
            None
        }),
{
    if !bytes::matches_at(d, 0, &GPT_MAGIC) {
        return None;
    }
    let guid = Uuid::read_guid(d, 56);
    proof {
        crate::ids::uuid_round_trip(guid);
    }
    let r = FsInfo::bare("gpt", Some(lba_text(lba)), String::new(), Some(guid));
    assert(r@.label =~= Seq::<char>::empty());
    Some(r)
}

/// What one place tells, from what it holds.
pub fn judge(look: Look, d: &[u8]) -> (r: Option<FsInfo>)
    requires
        d@.len() == look.place_of().1,
    ensures
        opt_view(r) == told(look, d@),
{
    match look {
        Look::Pallet => {
            if !bytes::matches_at(d, 0, &PALLET_MAGIC) {
                return None;
            }
            let lba: u32 = ext4_free::le32(d, 16);
            let raw = text::lossy_text(vstd::slice::slice_subrange(d, 52, 92));
            let name = text::drop_end_char(&text::to_chars(&raw), '\0');
            Some(FsInfo::bare("pallet", Some(lba_text(lba as u64)), text::text_of(&name), None))
        },
        Look::Gpt512 => gpt_info(d, 512),
        Look::Gpt4096 => gpt_info(d, 4096),
        Look::Mbr => {
            if d[510] == 0x55 && d[511] == 0xAA && (d[450] != 0 || d[466] != 0 || d[482] != 0
                || d[498] != 0) {
                let sig: u32 = ext4_free::le32(d, 440);
                let r = FsInfo::bare("mbr", None, String::new(), Some(Uuid { bits: sig as u128 }));
                assert(r@.label =~= Seq::<char>::empty());
                Some(r)
            } else {
                None
            }
        },
        Look::Iso => {
            if !bytes::matches_at(d, 1, &ISO_MAGIC) {
                return None;
            }
            let raw = text::lossy_text(vstd::slice::slice_subrange(d, 40, 72));
            let label = unpadded(&text::to_chars(&raw));
            Some(FsInfo::bare("iso9660", None, label, None))
        },
    }
}

/// What a place of a volume tells, where the volume has it.
pub open spec fn told_at(look: Look, image: Seq<u8>) -> Option<FsInfoView> {
    let (at, len) = look.place_of();
    if at + len <= image.len() {
        told(look, image.subrange(at, at + len))
    } else {
        None
    }
}

/// What the first place that tells something tells, from `look` on.
pub open spec fn first_told(look: Look, image: Seq<u8>) -> Option<FsInfoView>
    decreases rank(look),
{
    match told_at(look, image) {
        Some(i) => Some(i),
        None => match look.after_of() {
            Some(next) => if rank(next) < rank(look) {
                first_told(next, image)
            } else {
                None
            },
            None => None,
        },
    }
}

/// How many places come after one.
pub open spec fn rank(look: Look) -> nat {
    match look {
        Look::Pallet => 4,
        Look::Gpt512 => 3,
        Look::Gpt4096 => 2,
        Look::Mbr => 1,
        Look::Iso => 0,
    }
}

/// Recognises what is on a volume that is in memory: a pallet, a GPT, an MBR
/// or an ISO image, the first of these that is there.
pub fn detect(image: &[u8]) -> (r: Option<FsInfo>)
    ensures
        opt_view(r) == first_told(Look::Pallet, image@),
{
    let mut look: Look = Look::Pallet;
    let total: usize = image.len();
    loop
        invariant
            total == image@.len(),
            first_told(Look::Pallet, image@) == first_told(look, image@),
        decreases rank(look),
    {
        if look.fits(total as u64) {
            let (at, len) = look.place();
            let r = judge(look, vstd::slice::slice_subrange(image, at as usize, at as usize + len));
            match r {
                Some(i) => {
                    return Some(i);
                },
                None => {},
            }
        }
        match look.after() {
            Some(next) => {
                look = next;
            },
            None => {
                return None;
            },
        }
    }
}

/// What is recorded of a volume: an ext filesystem first, and else what the
/// disk tells.
pub fn probe(ext4: Option<Ext4Layout>, disk: Option<FsInfo>) -> (r: Option<FsInfo>)
    ensures
        match ext4 {
            Some(l) => r matches Some(i) && i@ == (FsInfoView {
                kind: "ext4"@,
                journal: l.has_journal,
                features: None,
                sixty_four_bit: l.sixty_four_bit,
                metadata_csum: l.metadata_csum,
                csum_seed: l.csum_seed,
                label: l.label@,
                uuid: Some(l.uuid),
            }),
            None => r == disk,
        },
{
    match ext4 {
        Some(l) => Some(l.fs_info()),
        None => disk,
    }
}

/// A GPT header with a new GUID and its checksum: the checksum is over the
/// first `covered` bytes, with zeros in its own place.
pub open spec fn gpt_stamped(h: Seq<u8>, guid: Uuid, covered: int) -> Seq<u8> {
    let named = bytes::splice(h, 56, guid.guid_bytes());
    let blank = bytes::splice(named, 16, bytes::zeros(4));
    let n = if covered < h.len() {
        covered
    } else {
        h.len() as int
    };
    bytes::splice(blank, 16, bytes::le_bytes(digest::crc32_of(blank.subrange(0, n)) as nat, 4))
}

/// Gives a GPT header a new GUID and its checksum.
fn stamp_header(h: &mut Vec<u8>, guid: Uuid, covered: usize)
    requires
        old(h)@.len() >= 72,
    ensures
        final(h)@ == gpt_stamped(old(h)@, guid, covered as int),
        final(h)@.len() == old(h)@.len(),
{
    broadcast use bytes::lemma_le_bytes_len;

    let id = guid.to_guid_bytes();
    bytes::write_at(h, 56, &id);
    let mut none: Vec<u8> = Vec::new();
    bytes::push_zeros(&mut none, 4);
    assert(none@ =~= bytes::zeros(4));
    bytes::write_at(h, 16, &none);
    let n: usize = if covered < h.len() {
        covered
    } else {
        h.len()
    };
    let sum: u32 = digest::crc32_sum(vstd::slice::slice_subrange(h.as_slice(), 0, n));
    let mut field: Vec<u8> = Vec::new();
    bytes::push_le(&mut field, sum as u64, 4);
    assert(field@ =~= bytes::le_bytes(sum as nat, 4));
    bytes::write_at(h, 16, &field);
}

/// What a GPT header says of itself: how many bytes its checksum covers, and
/// the block of its backup.
pub open spec fn gpt_covered(h: Seq<u8>) -> u32 {
    ext4_free::u32_at(h, 12)
}

/// The block of the backup header.
pub open spec fn gpt_backup(h: Seq<u8>) -> u64 {
    bytes::le_value(h.subrange(32, 40)) as u64
}

/// Giving a GPT disk a new GUID.
pub struct GptStamp {
    /// The header to write back.
    pub header: Vec<u8>,
    /// How many bytes the checksum covers.
    pub covered: usize,
    /// Where the backup lies, if the disk says that it has one.
    pub backup: Option<u64>,
}

/// Where the backup of a GPT header lies: at its block, where there is such a
/// block on the disk.
pub open spec fn backup_place(h: Seq<u8>, lba: u64, capacity: u64) -> Option<int> {
    let at = gpt_backup(h) * lba;
    if gpt_backup(h) != 0 && at + lba <= capacity {
        Some(at)
    } else {
        None
    }
}

/// Begins giving a GPT disk a new GUID, with its header, one block of `lba`
/// bytes. Nothing where that is no header.
pub fn stamp_gpt(header: Vec<u8>, lba: u64, guid: Uuid, capacity: u64) -> (r: Option<GptStamp>)
    requires
        header@.len() == lba,
        lba >= 72,
    ensures
        match r {
            Some(s) => {
                &&& header@.subrange(0, 8) == GPT_MAGIC@
                &&& s.header@ == gpt_stamped(header@, guid, gpt_covered(header@) as int)
                &&& s.covered == gpt_covered(header@)
                &&& match s.backup {
                    Some(at) => backup_place(header@, lba, capacity) == Some(at as int),
                    None => backup_place(header@, lba, capacity) is None,
                }
            },
            None => header@.subrange(0, 8) != GPT_MAGIC@,
        },
{
    if !bytes::matches_at(&header, 0, &GPT_MAGIC) {
        return None;
    }
    let covered: usize = ext4_free::le32(&header, 12) as usize;
    let block: u64 = bytes::get_le(&header, 32, 8);
    assert(block * lba <= 0xFFFF_FFFF_FFFF_FFFF * 0xFFFF_FFFF_FFFF_FFFF) by (nonlinear_arith)
        requires
            0 <= block <= 0xFFFF_FFFF_FFFF_FFFF,
            0 <= lba <= 0xFFFF_FFFF_FFFF_FFFF,
    ;
    let at: u128 = block as u128 * lba as u128;
    let backup: Option<u64> = if block != 0 && at <= capacity as u128 && lba <= capacity - at as u64 {
        Some(at as u64)
    } else {
        None
    };
    let mut h = header;
    stamp_header(&mut h, guid, covered);
    Some(GptStamp { header: h, covered, backup })
}

/// The backup to write back, or nothing where there is no header.
pub fn stamp_backup(header: Vec<u8>, guid: Uuid, covered: usize) -> (r: Option<Vec<u8>>)
    requires
        header@.len() >= 72,
    ensures
        match r {
            Some(h) => header@.subrange(0, 8) == GPT_MAGIC@ && h@ == gpt_stamped(
                header@,
                guid,
                covered as int,
            ),
            None => header@.subrange(0, 8) != GPT_MAGIC@,
        },
{
    if !bytes::matches_at(&header, 0, &GPT_MAGIC) {
        return None;
    }
    let mut h = header;
    stamp_header(&mut h, guid, covered);
    Some(h)
}

/// A stamped header still is one, tells the new GUID, and has the checksum of
/// what it covers. Nothing but the GUID and the checksum has changed.
pub proof fn a_stamped_header_verifies(h: Seq<u8>, guid: Uuid, covered: int)
    requires
        h.len() >= 72,
        0 <= covered,
    ensures
        ({
            let s = gpt_stamped(h, guid, covered);
            let n = if covered < h.len() {
                covered
            } else {
                h.len() as int
            };
            &&& s.len() == h.len()
            &&& s.subrange(0, 8) == h.subrange(0, 8)
            &&& guid_at(s) == guid
            &&& gpt_covered(s) == gpt_covered(h)
            &&& gpt_backup(s) == gpt_backup(h)
            &&& ext4_free::u32_at(s, 16) == digest::crc32_of(
                bytes::splice(s, 16, bytes::zeros(4)).subrange(0, n),
            )
            &&& forall|i: int|
                0 <= i < h.len() && !(16 <= i < 20) && !(56 <= i < 72) ==> #[trigger] s[i] == h[i]
        }),
{
    broadcast use bytes::lemma_le_bytes_len;

    bytes::lemma_radix();
    crate::ids::uuid_round_trip(guid);
    let g = guid.guid_bytes();
    let named = bytes::splice(h, 56, g);
    let blank = bytes::splice(named, 16, bytes::zeros(4));
    let n = if covered < h.len() {
        covered
    } else {
        h.len() as int
    };
    let sum = digest::crc32_of(blank.subrange(0, n));
    let s = gpt_stamped(h, guid, covered);
    assert(s.subrange(0, 8) =~= h.subrange(0, 8));
    assert(s.subrange(56, 72) =~= g);
    assert(crate::ids::field_swapped(g) =~= guid.bytes());
    assert(s.subrange(12, 16) =~= h.subrange(12, 16));
    assert(s.subrange(32, 40) =~= h.subrange(32, 40));
    assert(bytes::splice(s, 16, bytes::zeros(4)) =~= blank);
    assert(s.subrange(16, 20) =~= bytes::le_bytes(sum as nat, 4));
    bytes::le_round_trip(sum as nat, 4);
}

/// Gives a boot sector a new signature.
pub fn stamp_mbr(mbr: Vec<u8>, sig: u32) -> (r: Vec<u8>)
    requires
        mbr@.len() == 512,
    ensures
        r@ == bytes::splice(mbr@, 440, bytes::le_bytes(sig as nat, 4)),
        r@.len() == 512,
        bytes::le_value(r@.subrange(440, 444)) == sig,
        r@.take(440) == mbr@.take(440),
        r@.skip(444) == mbr@.skip(444),
{
    broadcast use bytes::lemma_le_bytes_len;

    let mut r = mbr;
    let mut field: Vec<u8> = Vec::new();
    bytes::push_le(&mut field, sig as u64, 4);
    assert(field@ =~= bytes::le_bytes(sig as nat, 4));
    bytes::write_at(&mut r, 440, &field);
    proof {
        bytes::lemma_radix();
        bytes::le_round_trip(sig as nat, 4);
        assert(r@.subrange(440, 444) =~= field@);
        assert(r@.take(440) =~= mbr@.take(440));
        assert(r@.skip(444) =~= mbr@.skip(444));
    }
    r
}

/// A stamped boot sector tells the new signature, and is one as before.
pub proof fn a_stamped_sector_tells_its_signature(mbr: Seq<u8>, sig: u32)
    requires
        mbr.len() == 512,
    ensures
        ({
            let s = bytes::splice(mbr, 440, bytes::le_bytes(sig as nat, 4));
            &&& ext4_free::u32_at(s, 440) == sig
            &&& (told(Look::Mbr, s) is Some <==> told(Look::Mbr, mbr) is Some)
        }),
{
    broadcast use bytes::lemma_le_bytes_len;

    bytes::lemma_radix();
    let s = bytes::splice(mbr, 440, bytes::le_bytes(sig as nat, 4));
    assert(s.subrange(440, 444) =~= bytes::le_bytes(sig as nat, 4));
    bytes::le_round_trip(sig as nat, 4);
    assert(s[510] == mbr[510] && s[511] == mbr[511]);
    assert(s[450] == mbr[450] && s[466] == mbr[466] && s[482] == mbr[482] && s[498] == mbr[498]);
}

/// `rand::random`: some 32-bit number; which one is up to chance.
#[verifier::external_body]
fn random_number() -> (n: u32) {
    rand::random::<u32>()
}

/// How a disk is given an identity of its own.
#[derive(Debug, Clone, Copy, PartialEq, Eq, Structural)]
pub enum Stamp {
    Gpt { lba: u64, guid: Uuid },
    Mbr { sig: u32 },
    Nothing,
}

impl Stamp {
    /// The identity that the disk then has.
    pub fn identity(&self) -> (r: Option<Uuid>)
        ensures
            r == (match *self {
                Stamp::Gpt { lba, guid } => Some(guid),
                Stamp::Mbr { sig } => Some(Uuid { bits: sig as u128 }),
                Stamp::Nothing => None,
            }),
    {
        match self {
            Stamp::Gpt { guid, .. } => Some(*guid),
            Stamp::Mbr { sig } => Some(Uuid { bits: *sig as u128 }),
            Stamp::Nothing => None,
        }
    }
}

/// The block size that a record of a GPT disk tells: 512 where it tells none.
pub open spec fn lba_of(features: Option<Seq<char>>) -> u64 {
    match features {
        None => 512,
        Some(f) => match text::without_prefix(f, "lba="@) {
            None => 512,
            Some(v) => match text::parsed(v, u64::MAX as nat) {
                None => 512,
                Some(n) => n as u64,
            },
        },
    }
}

fn read_lba(features: &Option<String>) -> (lba: u64)
    ensures
        lba == lba_of(info::opt_text(*features)),
{
    match features {
        None => 512,
        Some(f) => match text::strip_prefix(&text::to_chars(f), "lba=") {
            None => 512,
            Some(v) => match text::parse_number(&v, u64::MAX) {
                None => 512,
                Some(n) => n,
            },
        },
    }
}

/// How a disk of this kind is stamped, with the GUID and number at hand. A
/// signature is never zero: zero means none.
pub open spec fn stamp_with(fs: FsInfoView, guid: Uuid, number: u32) -> Stamp {
    if fs.kind == "gpt"@ {
        Stamp::Gpt { lba: lba_of(fs.features), guid }
    } else if fs.kind == "mbr"@ {
        Stamp::Mbr { sig: number | 1 }
    } else {
        Stamp::Nothing
    }
}

/// How a disk of this kind is stamped, with the GUID and number at hand.
pub fn plan_stamp(fs: &FsInfo, guid: Uuid, number: u32) -> (s: Stamp)
    ensures
        s == stamp_with(fs@, guid, number),
        s matches Stamp::Mbr { sig } ==> sig != 0,
{
    proof {
        assert(number | 1 != 0) by (bit_vector);
    }
    if text::same_text(&fs.kind, "gpt") {
        Stamp::Gpt { lba: read_lba(&fs.features), guid }
    } else if text::same_text(&fs.kind, "mbr") {
        Stamp::Mbr { sig: number | 1 }
    } else {
        Stamp::Nothing
    }
}

/// How a disk of this kind is given an identity of its own; nothing where
/// there is none to give, as on an ISO image.
pub fn stamp(fs: &FsInfo) -> (s: Stamp)
    ensures
        exists|guid: Uuid, number: u32| s == #[trigger] stamp_with(fs@, guid, number)
            && crate::ids::uuid_version(guid.bits) == 4 && crate::ids::uuid_variant(guid.bits) == 2,
        s matches Stamp::Mbr { sig } ==> sig != 0,
{
    let guid = Uuid::new_v4();
    let number: u32 = random_number();
    plan_stamp(fs, guid, number)
}

} // verus!
