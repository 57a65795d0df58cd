//! What the places of a volume have to hold, byte by byte, and what they tell.
use crate::bytes;
use crate::digest;
use crate::fs::disk;
use crate::fs::disk::{Look, Stamp};
use crate::fs::ext4;
use crate::fs::ext4::{Ext4Layout, Problem, Reason, Superblock};
use crate::fs::ext4_free;
use crate::fs::info::FsInfoView;
use crate::fs::xfs;
use crate::fs::xfs::{EntryKind, XfsCheck, XfsLayout};
use crate::ids::Uuid;
use crate::text;
use vstd::prelude::*;

verus! {

/// Whether some bytes stand at a place of an image.
pub open spec fn stands_at(image: Seq<u8>, at: int, b: Seq<u8>) -> bool {
    at + b.len() <= image.len() && image.subrange(at, at + b.len()) == b
}

/// "STORMPAL".
pub open spec fn pallet_mark() -> Seq<u8> {
    seq![0x53u8, 0x54, 0x4f, 0x52, 0x4d, 0x50, 0x41, 0x4c]
}

/// "EFI PART".
pub open spec fn gpt_mark() -> Seq<u8> {
    seq![0x45u8, 0x46, 0x49, 0x20, 0x50, 0x41, 0x52, 0x54]
}

/// "CD001".
pub open spec fn iso_mark() -> Seq<u8> {
    seq![0x43u8, 0x44, 0x30, 0x30, 0x31]
}

/// Whether an image begins with a boot sector that has a partition.
pub open spec fn boots(image: Seq<u8>) -> bool {
    &&& image.len() >= 512
    &&& image[510] == 0x55
    &&& image[511] == 0xAA
    &&& image[450] != 0 || image[466] != 0 || image[482] != 0 || image[498] != 0
}

/// A disk is what the first of its marks says: a pallet's at its start, then a
/// partition table's behind a block of 512 or of 4096 bytes, then a boot sector's,
/// then that of an ISO image; without any it is nothing.
#[verifier::rlimit(40)]
pub proof fn a_disk_is_told_by_its_first_mark(image: Seq<u8>)
    ensures
        ({
            let r = disk::first_told(Look::Pallet, image);
            let pallet = image.len() >= 4096 && stands_at(image, 0, pallet_mark());
            let small = image.len() >= 1024 && stands_at(image, 512, gpt_mark());
            let large = image.len() >= 8192 && stands_at(image, 4096, gpt_mark());
            let iso = image.len() >= 34816 && stands_at(image, 32769, iso_mark());
            &&& pallet ==> (r matches Some(i) && i.kind == "pallet"@ && i.features == Some(
                "lba="@ + text::decimal(bytes::le_value(image.subrange(16, 20))),
            ) && i.uuid is None)
            &&& !pallet && small ==> (r matches Some(i) && i.kind == "gpt"@ && i.features == Some(
                "lba="@ + text::decimal(512),
            ) && (i.uuid matches Some(u) && u.guid_bytes() == image.subrange(568, 584)))
            &&& !pallet && !small && large ==> (r matches Some(i) && i.kind == "gpt"@ && i.features
                == Some("lba="@ + text::decimal(4096)) && (i.uuid matches Some(u) && u.guid_bytes()
                == image.subrange(4152, 4168)))
            &&& !pallet && !small && !large && boots(image) ==> (r matches Some(i) && i.kind
                == "mbr"@ && i.features is None && (i.uuid matches Some(u) && u.bits
                == bytes::le_value(image.subrange(440, 444))))
            &&& !pallet && !small && !large && !boots(image) && iso ==> (r matches Some(i) && i.kind
                == "iso9660"@ && i.features is None && i.uuid is None)
            &&& !pallet && !small && !large && !boots(image) && !iso ==> r is None
        }),
{
    reveal_with_fuel(disk::first_told, 6);
    bytes::lemma_radix();
    assert(disk::PALLET_MAGIC@ =~= pallet_mark());
    assert(disk::GPT_MAGIC@ =~= gpt_mark());
    assert(disk::ISO_MAGIC@ =~= iso_mark());
    if image.len() >= 4096 {
        let d = image.subrange(0, 4096);
        assert(d.subrange(0, 8) =~= image.subrange(0, 8));
        assert(d.subrange(16, 20) =~= image.subrange(16, 20));
        bytes::le_value_round_trip(image.subrange(16, 20));
    }
    if image.len() >= 1024 {
        let d = image.subrange(512, 1024);
        assert(d.subrange(0, 8) =~= image.subrange(512, 520));
        assert(d.subrange(56, 72) =~= image.subrange(568, 584));
        lemma_guid(image.subrange(568, 584));
    }
    if image.len() >= 8192 {
        let d = image.subrange(4096, 8192);
        assert(d.subrange(0, 8) =~= image.subrange(4096, 4104));
        assert(d.subrange(56, 72) =~= image.subrange(4152, 4168));
        lemma_guid(image.subrange(4152, 4168));
    }
    if image.len() >= 512 {
        let d = image.subrange(0, 512);
        assert(d.subrange(440, 444) =~= image.subrange(440, 444));
        bytes::le_value_round_trip(image.subrange(440, 444));
    }
    if image.len() >= 34816 {
        let d = image.subrange(32768, 34816);
        assert(d.subrange(1, 6) =~= image.subrange(32769, 32774));
    }
}

proof fn lemma_guid(b: Seq<u8>)
    requires
        b.len() == 16,
    ensures
        (Uuid {
            bits: bytes::be_value(crate::ids::field_swapped(b)) as u128,
        }).guid_bytes() == b,
{
    bytes::lemma_radix();
    let s = crate::ids::field_swapped(b);
    bytes::be_value_round_trip(s);
    bytes::be_value_round_trip(s);
    assert(crate::ids::field_swapped(s) =~= b);
}

/// The label of a pallet is the text at byte 52, of forty bytes, without zeros
/// at its end; that of an ISO image the text at byte 40 of its first descriptor,
/// without what fills it up.
pub proof fn a_label_is_told(name: Seq<char>, n: nat, d: Seq<u8>)
    requires
        d.len() == 4096,
        name.len() == 0 || name.last() != '\0',
        stands_at(d, 0, pallet_mark()),
        vstd::utf8::encode_utf8(name).len() + n == 40,
        stands_at(d, 52, vstd::utf8::encode_utf8(name) + bytes::zeros(n)),
    ensures
        disk::told(Look::Pallet, d) matches Some(i) && i.label == name,
{
    assert(disk::PALLET_MAGIC@ =~= pallet_mark());
    text::padded_text_reads_back(name, n);
}

/// What fills up a name is taken off at both of its ends, and nothing else.
pub proof fn padding_is_taken_off(s: Seq<char>)
    ensures
        disk::unpad_end(s).len() > 0 ==> disk::unpad_end(s).last() != ' ' && disk::unpad_end(
            s,
        ).last() != '\0',
        disk::unpad_start(s).len() > 0 ==> disk::unpad_start(s)[0] != ' ' && disk::unpad_start(
            s,
        )[0] != '\0',
        disk::unpad_end(s).len() <= s.len(),
        disk::unpad_start(s).len() <= s.len(),
        disk::unpad_end(s) == s.take(disk::unpad_end(s).len() as int),
        disk::unpad_start(s) == s.skip(s.len() - disk::unpad_start(s).len()),
        forall|i: int|
            disk::unpad_end(s).len() <= i < s.len() ==> (#[trigger] s[i] == ' ' || s[i] == '\0'),
        forall|i: int|
            0 <= i < s.len() - disk::unpad_start(s).len() ==> (#[trigger] s[i] == ' ' || s[i]
                == '\0'),
    decreases s.len(),
{
    let e = disk::unpad_end(s);
    if s.len() > 0 && disk::pads(s.last()) {
        let r = s.drop_last();
        padding_is_taken_off(r);
        assert(r.take(e.len() as int) =~= s.take(e.len() as int));
        assert forall|i: int| e.len() <= i < s.len() implies (#[trigger] s[i] == ' ' || s[i]
            == '\0') by {
            if i < r.len() {
                assert(r[i] == s[i]);
            }
        }
    } else {
        assert(s.take(s.len() as int) =~= s);
    }
    let b = disk::unpad_start(s);
    if s.len() > 0 && disk::pads(s[0]) {
        let r = s.drop_first();
        padding_is_taken_off(r);
        assert(r.skip(r.len() - b.len()) =~= s.skip(s.len() - b.len()));
        assert forall|i: int| 0 <= i < s.len() - b.len() implies (#[trigger] s[i] == ' ' || s[i]
            == '\0') by {
            if i > 0 {
                assert(r[i - 1] == s[i]);
            }
        }
    } else {
        assert(s.skip(0) =~= s);
    }
}

/// A partition table's header has its new GUID at byte 56 and at byte 16 the
/// checksum of as many bytes as it says at byte 12, zeros standing for the
/// checksum; no other byte changes.
pub proof fn a_stamped_table_is_laid_out(h: Seq<u8>, guid: Uuid, i: int)
    requires
        h.len() >= 72,
    ensures
        ({
            let n = bytes::le_value(h.subrange(12, 16)) as int;
            let s = disk::gpt_stamped(h, guid, disk::gpt_covered(h) as int);
            let covered = bytes::splice(s, 16, bytes::zeros(4)).subrange(
                0,
                if n < h.len() {
                    n
                } else {
                    h.len() as int
                },
            );
            &&& s.len() == h.len()
            &&& s.subrange(56, 72) == guid.guid_bytes()
            &&& bytes::le_value(s.subrange(16, 20)) == digest::crc32_of(covered)
            &&& 0 <= i < h.len() && !(16 <= i < 20) && !(56 <= i < 72) ==> s[i] == h[i]
        }),
{
    broadcast use bytes::lemma_le_bytes_len;

    bytes::lemma_radix();
    bytes::le_value_round_trip(h.subrange(12, 16));
    crate::ids::uuid_round_trip(guid);
    let covered = disk::gpt_covered(h) as int;
    disk::a_stamped_header_verifies(h, guid, covered);
    let s = disk::gpt_stamped(h, guid, covered);
    assert(s.subrange(56, 72) =~= guid.guid_bytes());
    bytes::le_value_round_trip(s.subrange(16, 20));
}

/// The backup of a partition table lies at the block that byte 32 of the header
/// names, where that block is on the disk.
pub proof fn a_backup_lies_where_the_header_says(h: Seq<u8>, lba: u64, capacity: u64)
    requires
        h.len() >= 72,
    ensures
        ({
            let block = bytes::le_value(h.subrange(32, 40)) as int;
            &&& block > 0 && (block + 1) * lba <= capacity ==> disk::backup_place(h, lba, capacity)
                == Some(block * lba)
            &&& block == 0 || (block + 1) * lba > capacity ==> disk::backup_place(h, lba, capacity)
                is None
        }),
{
    bytes::lemma_radix();
    bytes::le_value_round_trip(h.subrange(32, 40));
    let block = bytes::le_value(h.subrange(32, 40)) as int;
    assert((block + 1) * lba == block * lba + lba) by (nonlinear_arith);
}

/// A partition table gets the GUID that is at hand, in blocks of the size that
/// its record tells; a boot sector the number, made odd so that it is never
/// zero; anything else is left alone.
pub proof fn a_disk_is_stamped_as_what_it_is(
    fs: FsInfoView,
    guid: Uuid,
    number: u32,
    lba: u64,
)
    ensures
        fs.kind == "gpt"@ && fs.features == Some("lba="@ + text::decimal(lba as nat))
            ==> disk::stamp_with(fs, guid, number) == (Stamp::Gpt { lba, guid }),
        fs.kind == "gpt"@ && fs.features is None ==> disk::stamp_with(fs, guid, number) == (
        Stamp::Gpt { lba: 512, guid }),
        fs.kind == "mbr"@ ==> (disk::stamp_with(fs, guid, number) matches Stamp::Mbr { sig } && sig
            % 2 == 1 && sig / 2 == number / 2),
        fs.kind != "gpt"@ && fs.kind != "mbr"@ ==> disk::stamp_with(fs, guid, number)
            == Stamp::Nothing,
{
    reveal_strlit("gpt");
    reveal_strlit("mbr");
    let v = text::decimal(lba as nat);
    crate::text_promises::a_prefix_is_taken_off(v, "lba="@);
    text::decimal_round_trip(lba as nat, u64::MAX as nat);
    assert((number | 1u32) % 2 == 1 && (number | 1u32) / 2 == number / 2) by (bit_vector);
    assert("gpt"@[0] != "mbr"@[0]);
}

/// The superblock of an XFS filesystem is read as it is laid out, most
/// significant byte first.
pub proof fn an_xfs_superblock_is_read(l: XfsLayout, sb: Seq<u8>)
    requires
        sb.len() >= 512,
        l.is_of(sb),
    ensures
        l.block_size == bytes::be_value(sb.subrange(4, 8)),
        l.blocks == bytes::be_value(sb.subrange(8, 16)),
        l.uuid.bits == bytes::be_value(sb.subrange(32, 48)),
        l.ag_blocks == bytes::be_value(sb.subrange(84, 88)),
        l.ag_count == bytes::be_value(sb.subrange(88, 92)),
        l.log_blocks == bytes::be_value(sb.subrange(96, 100)),
        l.sector_size == bytes::be_value(sb.subrange(102, 104)),
        l.label@ == text::trim_end_char(text::lossy(sb.subrange(108, 120)), '\0'),
        l.in_progress <==> sb[126] != 0,
        sb[101] as nat % 16 == 5 ==> l.version == 5,
        sb[101] as nat % 16 != 5 ==> l.version == 4,
        l.version == 4 ==> !l.needs_repair && !l.meta_uuid_feature && l.meta_uuid == l.uuid,
        l.version == 5 ==> (l.meta_uuid_feature <==> sb[219] & 4 != 0),
        l.version == 5 ==> (l.needs_repair <==> sb[219] & 16 != 0),
        l.version == 5 && sb[219] & 4 != 0 ==> l.meta_uuid.bits == bytes::be_value(
            sb.subrange(248, 264),
        ),
        l.version == 5 && sb[219] & 4 == 0 ==> l.meta_uuid == l.uuid,
{
    bytes::lemma_radix();
    bytes::be_value_round_trip(sb.subrange(4, 8));
    bytes::be_value_round_trip(sb.subrange(8, 16));
    bytes::be_value_round_trip(sb.subrange(32, 48));
    bytes::be_value_round_trip(sb.subrange(84, 88));
    bytes::be_value_round_trip(sb.subrange(88, 92));
    bytes::be_value_round_trip(sb.subrange(96, 100));
    bytes::be_value_round_trip(sb.subrange(102, 104));
    bytes::be_value_round_trip(sb.subrange(248, 264));
    let v = sb.subrange(100, 102);
    bytes::be_value_round_trip(v);
    assert(v.drop_last() =~= seq![sb[100]]);
    assert(seq![sb[100]].drop_last() =~= Seq::<u8>::empty());
    assert(bytes::be_value(Seq::<u8>::empty()) == 0);
    assert(bytes::be_value(seq![sb[100]]) == sb[100]);
    assert(bytes::be_value(v) == 256 * sb[100] + sb[101]);
    let w = xfs::u16_at(sb, 100);
    let low = sb[101];
    let high = sb[100];
    assert(w & 0xf == w % 16) by (bit_vector);
    assert(w as int % 16 == low as int % 16);
    let f = sb.subrange(216, 220);
    bytes::be_value_round_trip(f);
    let top = f.drop_last();
    bytes::be_value_round_trip(top);
    let t = bytes::be_value(top) as u32;
    let flags = xfs::u32_at(sb, 216);
    let last = sb[219];
    assert(flags == 256 * t + last);
    assert((flags & 4 != 0 <==> last & 4 != 0) && (flags & 16 != 0 <==> last & 16 != 0))
        by (bit_vector)
        requires
            flags == 256 * t + last,
            t < 0x100_0000,
    ;
    assert(0u32 & 4 == 0 && 0u32 & 16 == 0) by (bit_vector);
}

/// A stamped superblock has the new UUID at byte 32; of version 5, it has at byte
/// 248 the one that its metadata carries, says so at byte 216, and holds at byte
/// 224 the checksum of itself with zeros there.
pub proof fn an_xfs_stamp_is_laid_out(sb: Seq<u8>, uuid: Uuid, i: int)
    requires
        sb.len() >= 512,
    ensures
        ({
            let t = xfs::with_uuid(sb, uuid);
            let five = sb[101] as nat % 16 == 5;
            &&& t.len() == sb.len()
            &&& bytes::be_value(t.subrange(32, 48)) == uuid.bits
            &&& five ==> bytes::le_value(t.subrange(224, 228)) == digest::crc32c_of(
                bytes::splice(t, 224, bytes::zeros(4)),
            )
            &&& five && sb[219] & 4 == 0 ==> t.subrange(248, 264) == sb.subrange(32, 48)
            &&& five && sb[219] & 4 != 0 ==> t.subrange(248, 264) == sb.subrange(248, 264)
            &&& five ==> t[219] == sb[219] | 4
            &&& 0 <= i < sb.len() && !(32 <= i < 48) && !(five && (224 <= i < 228 || 248 <= i < 264
                || i == 219)) ==> t[i] == sb[i]
        }),
{
    broadcast use bytes::lemma_be_bytes_len, bytes::lemma_le_bytes_len;

    bytes::lemma_radix();
    xfs::stamping_keeps_the_metadata_uuid(sb, uuid);
    let t = xfs::with_uuid(sb, uuid);
    bytes::be_value_round_trip(t.subrange(32, 48));
    bytes::le_value_round_trip(t.subrange(224, 228));
    lemma_version(sb);
    let p = xfs::pinned(sb);
    let q = bytes::splice(p, 32, uuid.bytes());
    crate::ids::uuid_round_trip(uuid);
    assert(p.len() == sb.len());
    assert(q.subrange(100, 102) =~= sb.subrange(100, 102));
    assert(t.subrange(32, 48) =~= uuid.bytes());
    let last = sb[219];
    assert(last & 4 != 0 ==> last | 4 == last) by (bit_vector);
    if xfs::v5(sb) {
        let f = xfs::u32_at(sb, 216);
        lemma_flags(sb);
        let field = bytes::be_bytes((f | 4) as nat, 4);
        lemma_or_four(sb, f);
        if f & 4 == 0 {
            assert(t.subrange(248, 264) =~= sb.subrange(32, 48));
            assert(t.subrange(216, 220) =~= field);
            assert(t[219] == t.subrange(216, 220)[3]);
            if 216 <= i < 219 {
                assert(t[i] == t.subrange(216, 220)[i - 216]);
            }
        } else {
            assert(t.subrange(248, 264) =~= sb.subrange(248, 264));
            assert(t[219] == sb[219]);
        }
    }
}

proof fn lemma_version(sb: Seq<u8>)
    requires
        sb.len() >= 512,
    ensures
        xfs::v5(sb) <==> sb[101] as nat % 16 == 5,
{
    bytes::lemma_radix();
    let v = sb.subrange(100, 102);
    bytes::be_value_round_trip(v);
    assert(v.drop_last() =~= seq![sb[100]]);
    assert(seq![sb[100]].drop_last() =~= Seq::<u8>::empty());
    assert(bytes::be_value(Seq::<u8>::empty()) == 0);
    assert(bytes::be_value(seq![sb[100]]) == sb[100]);
    let w = xfs::u16_at(sb, 100);
    assert(w & 0xf == w % 16) by (bit_vector);
}

proof fn lemma_flags(sb: Seq<u8>)
    requires
        sb.len() >= 512,
    ensures
        xfs::u32_at(sb, 216) & 4 != 0 <==> sb[219] & 4 != 0,
{
    bytes::lemma_radix();
    let f = sb.subrange(216, 220);
    bytes::be_value_round_trip(f);
    bytes::be_value_round_trip(f.drop_last());
    let t = bytes::be_value(f.drop_last()) as u32;
    let flags = xfs::u32_at(sb, 216);
    let last = sb[219];
    assert(flags & 4 != 0 <==> last & 4 != 0) by (bit_vector)
        requires
            flags == 256 * t + last,
            t < 0x100_0000,
    ;
}

proof fn lemma_or_four(sb: Seq<u8>, f: u32)
    requires
        sb.len() >= 512,
        f == xfs::u32_at(sb, 216),
    ensures
        bytes::be_bytes((f | 4) as nat, 4).len() == 4,
        bytes::be_bytes((f | 4) as nat, 4)[3] == sb[219] | 4,
        forall|i: int| 0 <= i < 3 ==> #[trigger] bytes::be_bytes((f | 4) as nat, 4)[i] == sb[216 + i],
{
    broadcast use bytes::lemma_be_bytes_len;

    bytes::lemma_radix();
    let s = sb.subrange(216, 220);
    bytes::be_value_round_trip(s);
    bytes::be_value_round_trip(s.drop_last());
    let t = bytes::be_value(s.drop_last()) as u32;
    let last = sb[219];
    let new = last | 4;
    assert(f | 4 == 256 * t + new) by (bit_vector)
        requires
            f == 256 * t + last,
            t < 0x100_0000,
            new == last | 4,
    ;
    let z = s.drop_last().push(new);
    assert(z.drop_last() =~= s.drop_last());
    assert(bytes::be_value(z) == (f | 4) as nat);
    bytes::be_value_round_trip(z);
    assert(bytes::be_bytes((f | 4) as nat, 4) == z);
}

/// What a superblock must have: "XFSB" at its start, a sector of 512 to 32768
/// bytes, a label of twelve bytes at most, and 300 MB to lie in.
pub proof fn what_an_xfs_superblock_must_have(head: Seq<u8>, size: u16, label: Seq<char>)
    requires
        head.len() >= 4,
    ensures
        xfs::is_xfs(head) <==> head[0] == 0x58 && head[1] == 0x46 && head[2] == 0x53 && head[3]
            == 0x42,
        xfs::sector_ok(size) <==> size == 512 || size == 1024 || size == 2048 || size == 4096 || size
            == 8192 || size == 16384 || size == 32768,
        xfs::label_fits(label) <==> vstd::utf8::encode_utf8(label).len() <= 12,
        xfs::MIN_BYTES == 300000000,
{
    let h = head.subrange(0, 4);
    assert(xfs::MAGIC@ =~= seq![0x58u8, 0x46, 0x53, 0x42]);
    if xfs::is_xfs(head) {
        assert(h[0] == head[0] && h[1] == head[1] && h[2] == head[2] && h[3] == head[3]);
    } else if head[0] == 0x58 && head[1] == 0x46 && head[2] == 0x53 && head[3] == 0x42 {
        assert(h =~= xfs::MAGIC@);
    }
    lemma_power(size as nat);
}

proof fn lemma_power(n: nat)
    requires
        n <= 65535,
    ensures
        512 <= n <= 32768 ==> (ext4_free::power_of_two(n) <==> n == 512 || n == 1024 || n == 2048
            || n == 4096 || n == 8192 || n == 16384 || n == 32768),
{
    reveal_with_fuel(ext4_free::power_of_two, 17);
    if ext4_free::power_of_two(n) && 512 <= n <= 32768 {
        lemma_power_between(n, 512);
    }
}

proof fn lemma_power_between(n: nat, low: nat)
    requires
        ext4_free::power_of_two(n),
        ext4_free::power_of_two(low),
        low <= n <= 32768,
        low >= 512,
        low == 512 || low == 1024 || low == 2048 || low == 4096 || low == 8192 || low == 16384
            || low == 32768,
    ensures
        n == 512 || n == 1024 || n == 2048 || n == 4096 || n == 8192 || n == 16384 || n == 32768,
    decreases 32768 - low,
{
    if n >= 2 * low {
        assert((2 * low) % 2 == 0 && (2 * low) / 2 == low);
        if low < 32768 {
            lemma_power_between(n, 2 * low);
        }
    } else {
        lemma_no_power_between(n, low);
    }
}

proof fn lemma_no_power_between(n: nat, low: nat)
    requires
        ext4_free::power_of_two(n),
        ext4_free::power_of_two(low),
        low <= n < 2 * low,
    ensures
        n == low,
    decreases low,
{
    if low > 1 {
        lemma_no_power_between(n / 2, low / 2);
    }
}

/// The superblocks of a filesystem's groups stand a group apart, the first at
/// its start.
pub proof fn groups_stand_a_group_apart(l: XfsLayout, g: int)
    ensures
        xfs::group_at(l, 0) == 0,
        xfs::group_at(l, g + 1) - xfs::group_at(l, g) == l.ag_blocks * l.block_size,
{
    let b = l.ag_blocks * l.block_size;
    assert((g + 1) * b - g * b == b) by (nonlinear_arith);
}

/// A filesystem may be sealed exactly where its format was finished and it needs
/// no repair, and each of the two is told.
pub proof fn what_keeps_an_xfs_from_being_sealed(l: XfsLayout)
    ensures
        xfs::blockers_of(l).len() == (if l.in_progress {
            1int
        } else {
            0
        }) + (if l.needs_repair {
            1int
        } else {
            0
        }),
        l.in_progress ==> xfs::blockers_of(l)[0]
            == "the format never finished (sb_inprogress is set)"@,
        l.needs_repair ==> xfs::blockers_of(l).last() == "the filesystem is marked NEEDSREPAIR"@,
{
}

/// Each entry of a walk is counted once, as what it is.
pub proof fn entries_are_counted(c: XfsCheck, e: EntryKind)
    requires
        c.wf(),
        c.entries < u64::MAX,
        e matches EntryKind::File { size } ==> c.file_bytes + size <= u64::MAX,
    ensures
        ({
            let d = c.with(e);
            &&& d.entries - c.entries == 1
            &&& d.directories - c.directories == (if e is Directory {
                1int
            } else {
                0
            })
            &&& d.files - c.files == (if e is File {
                1int
            } else {
                0
            })
            &&& d.symlinks - c.symlinks == (if e is Symlink {
                1int
            } else {
                0
            })
            &&& d.file_bytes - c.file_bytes == (if e is File {
                e->size as int
            } else {
                0
            })
        }),
{
}

/// The flags of an ext superblock are read by their bits, and all is well where
/// it was unmounted cleanly and nothing is left to do.
pub proof fn an_ext_superblock_is_read(l: Ext4Layout, sb: Superblock)
    requires
        l.is_of(sb),
    ensures
        l.has_journal <==> sb.feature_compat & 4 != 0,
        l.needs_recovery <==> sb.feature_incompat & 4 != 0,
        l.sixty_four_bit <==> sb.feature_incompat & 128 != 0,
        l.csum_seed <==> sb.feature_incompat & 8192 != 0,
        l.metadata_csum <==> sb.feature_ro_compat & 1024 != 0,
        l.clean <==> sb.state & 1 != 0 && sb.state & 2 == 0 && sb.state & 4 == 0
            && !l.needs_recovery,
        l.uuid == sb.uuid,
        l.label@ == sb.label@,
        l.block_size == sb.block_size,
        l.blocks_count == sb.blocks_count,
        l.inodes_count == sb.inodes_count,
        l.group_count == sb.group_count,
        l.state == sb.state,
{
}

/// Each thing that keeps a filesystem from being sealed is told exactly where it
/// is so, and once.
pub proof fn what_keeps_an_ext_from_being_sealed(l: Ext4Layout)
    ensures
        ({
            let r = ext4::flag_reasons(l);
            &&& r.contains(Reason::NotCleanlyUnmounted) <==> l.state & 1 == 0
            &&& r.contains(Reason::ErrorFlagSet) <==> l.state & 2 != 0
            &&& r.contains(Reason::RecoveryPending) <==> l.needs_recovery
            &&& r.contains(Reason::OrphanCleanupPending) <==> l.state & 4 != 0
            &&& r.no_duplicates()
            &&& forall|i: int| 0 <= i < r.len() ==> !(#[trigger] r[i] is Fsck)
        }),
{
    let a0 = Seq::<Reason>::empty();
    let a = ext4::and_if(a0, l.state & ext4::VALID_FS == 0, Reason::NotCleanlyUnmounted);
    let b = ext4::and_if(a, l.state & ext4::ERROR_FS != 0, Reason::ErrorFlagSet);
    let c = ext4::and_if(b, l.needs_recovery, Reason::RecoveryPending);
    lemma_and_if(a0, l.state & ext4::VALID_FS == 0, Reason::NotCleanlyUnmounted);
    lemma_and_if(a, l.state & ext4::ERROR_FS != 0, Reason::ErrorFlagSet);
    lemma_and_if(b, l.needs_recovery, Reason::RecoveryPending);
    lemma_and_if(c, l.state & ext4::ORPHAN_FS != 0, Reason::OrphanCleanupPending);
    let r = ext4::flag_reasons(l);
    assert forall|i: int| 0 <= i < r.len() implies !(#[trigger] r[i] is Fsck) by {
        assert(r.contains(r[i]));
    }
}

proof fn lemma_and_if(s: Seq<Reason>, cause: bool, r: Reason)
    requires
        s.no_duplicates(),
    ensures
        forall|x: Reason| #[trigger]
            ext4::and_if(s, cause, r).contains(x) <==> s.contains(x) || (cause && x == r),
        !s.contains(r) ==> ext4::and_if(s, cause, r).no_duplicates(),
{
    let t = ext4::and_if(s, cause, r);
    assert forall|x: Reason| #[trigger] t.contains(x) <==> s.contains(x) || (cause && x == r) by {
        if s.contains(x) {
            let k = choose|k: int| 0 <= k < s.len() && s[k] == x;
            assert(t[k] == x);
        }
        if cause {
            assert(t[s.len() as int] == r);
        }
        if t.contains(x) {
            let k = choose|k: int| 0 <= k < t.len() && t[k] == x;
            if k < s.len() {
                assert(s[k] == x);
            }
        }
    }
}

/// What a check found is told in its order, remarks left out.
pub proof fn problems_are_told_in_order(ps: Seq<Problem>, p: Problem)
    ensures
        ext4::problem_reasons(Seq::<Problem>::empty()).len() == 0,
        p.serious ==> ext4::problem_reasons(ps.push(p)) == ext4::problem_reasons(ps).push(
            Reason::Fsck { code: p.code@, message: p.message@ },
        ),
        !p.serious ==> ext4::problem_reasons(ps.push(p)) == ext4::problem_reasons(ps),
{
    assert(ps.push(p).drop_last() =~= ps);
}

/// A new UUID changes the UUID, and where the checksums have to be kept valid
/// the stored seed and the bit that says so; nothing else.
pub proof fn an_ext_stamp_changes_little(sb: Superblock, uuid: Uuid, seed: u32)
    ensures
        ({
            let t = ext4::stamped(sb, uuid, seed);
            let pins = sb.feature_ro_compat & 1024 != 0 && sb.feature_incompat & 8192 == 0;
            &&& t.uuid == uuid
            &&& pins ==> t.checksum_seed == seed && t.feature_incompat == sb.feature_incompat + 8192
            &&& !pins ==> t.checksum_seed == sb.checksum_seed && t.feature_incompat
                == sb.feature_incompat
            &&& t.block_size == sb.block_size
            &&& t.blocks_count == sb.blocks_count
            &&& t.inodes_count == sb.inodes_count
            &&& t.blocks_per_group == sb.blocks_per_group
            &&& t.first_data_block == sb.first_data_block
            &&& t.group_count == sb.group_count
            &&& t.state == sb.state
            &&& t.label == sb.label
            &&& t.feature_compat == sb.feature_compat
            &&& t.feature_ro_compat == sb.feature_ro_compat
        }),
{
    let f = sb.feature_incompat;
    assert(f & 8192 == 0 ==> f | 8192 == f + 8192) by (bit_vector);
}

/// There is a backup for each group but the first that carries one, at the
/// start of the group, in the order of the groups.
pub proof fn each_group_has_its_backup(sb: Superblock, has_super: Seq<bool>, carries: bool)
    ensures
        has_super.len() <= 1 ==> ext4::backups_of(sb, has_super).len() == 0,
        has_super.len() >= 1 && carries ==> ext4::backups_of(sb, has_super.push(carries))
            == ext4::backups_of(sb, has_super).push(
            (
                has_super.len() as u16,
                ((sb.first_data_block + has_super.len() * sb.blocks_per_group)
                    * sb.block_size) as u64,
            ),
        ),
        has_super.len() >= 1 && !carries ==> ext4::backups_of(sb, has_super.push(carries))
            == ext4::backups_of(sb, has_super),
{
    assert(has_super.push(carries).drop_last() =~= has_super);
}

/// The backups of two neighbouring groups are a group apart.
pub proof fn backups_stand_a_group_apart(sb: Superblock, g: int)
    ensures
        ext4::backup_at(sb, 0) == sb.first_data_block * sb.block_size,
        ext4::backup_at(sb, g + 1) - ext4::backup_at(sb, g) == sb.blocks_per_group * sb.block_size,
{
    let bpg = sb.blocks_per_group as int;
    let bs = sb.block_size as int;
    let f = sb.first_data_block as int;
    assert((f + (g + 1) * bpg) * bs - (f + g * bpg) * bs == bpg * bs) by (nonlinear_arith);
}

/// A label takes sixteen bytes: those of its text, as many as fit, and zeros
/// behind them.
pub proof fn a_label_takes_sixteen_bytes(label: Seq<char>, i: int)
    ensures
        ext4::label_field_of(label).len() == 16,
        0 <= i < 16 ==> ext4::label_field_of(label)[i] == (if i < vstd::utf8::encode_utf8(
            label,
        ).len() {
            vstd::utf8::encode_utf8(label)[i]
        } else {
            0
        }),
{
}

/// A journal is laid down as asked; where nothing is asked, not on eight
/// mebibytes or less, and else as the formatter has it.
pub proof fn when_a_journal_is_laid_down(yes: bool, capacity: u64)
    ensures
        ext4::journal_on(Some(yes), capacity) == Some(yes),
        capacity <= 8388608 ==> ext4::journal_on(None, capacity) == Some(false),
        capacity > 8388608 ==> ext4::journal_on(None, capacity) is None,
{
}

/// A filesystem is ext4 by its checksums or its wide numbers, else ext3 by its
/// journal, else ext2.
pub proof fn a_filesystem_is_named_by_its_features(l: Ext4Layout)
    ensures
        l.metadata_csum || l.sixty_four_bit ==> l.profile_of().name_of() == "ext4"@,
        !l.metadata_csum && !l.sixty_four_bit && l.has_journal ==> l.profile_of().name_of()
            == "ext3"@,
        !l.metadata_csum && !l.sixty_four_bit && !l.has_journal ==> l.profile_of().name_of()
            == "ext2"@,
{
}

} // verus!
