//! What the plain devices do with the bytes that they are handed.
use crate::align;
use crate::bytes;
use crate::drive::crashdev;
use crate::drive::crashdev::CachedWrite;
use crate::drive::direct;
use crate::drive::dma;
use crate::drive::filedev;
use crate::drive::handover;
use crate::drive::handover::Device;
use crate::drive::identity;
use crate::drive::identity::DiskFiles;
use crate::drive::sas;
use crate::drive::sas::SasDevice;
use crate::drive::transfer;
use crate::fs::ext4_free;
use crate::text;
use vstd::prelude::*;

verus! {

/// Whether a write has a byte of an image.
pub open spec fn writes_byte(w: CachedWrite, p: int) -> bool {
    w.offset <= p < w.offset + w.data@.len()
}

/// After a power cut a byte is what the last write that was kept made of it, and
/// what it was at the last flush where none was kept that has it.
pub proof fn the_last_kept_write_decides(
    image: Seq<u8>,
    writes: Seq<CachedWrite>,
    kept: Seq<bool>,
    n: nat,
    p: int,
    k: int,
)
    requires
        n <= writes.len(),
        n <= kept.len(),
        crashdev::writes_inside(writes, image.len()),
        0 <= p < image.len(),
    ensures
        crashdev::applied(image, writes, kept, n).len() == image.len(),
        0 <= k < n && kept[k] && writes_byte(writes[k], p) && (forall|j: int|
            k < j < n && kept[j] ==> !writes_byte(#[trigger] writes[j], p)) ==> crashdev::applied(
            image,
            writes,
            kept,
            n,
        )[p] == writes[k].data@[p - writes[k].offset],
        (forall|j: int| 0 <= j < n && kept[j] ==> !writes_byte(#[trigger] writes[j], p))
            ==> crashdev::applied(image, writes, kept, n)[p] == image[p],
    decreases n,
{
    if n > 0 {
        the_last_kept_write_decides(image, writes, kept, (n - 1) as nat, p, k);
        let w = writes[n - 1];
        assert(w.offset + w.data@.len() <= image.len());
        assert(writes_byte(writes[n - 1], p) || !writes_byte(writes[n - 1], p));
    }
}

/// A request on a raw device is widened to the least whole blocks around it, and
/// begins in them as far from their start as it does on the device.
pub proof fn a_request_is_widened_to_the_least(d: SasDevice, offset: int, len: int)
    requires
        d.wf(),
        0 <= offset,
        0 <= len,
        d.in_range(offset, len),
    ensures
        ({
            let bs: int = if d.block_size == 0 {
                1
            } else {
                d.block_size as int
            };
            let s = d.spanned(offset, len);
            &&& s.start + s.skew == offset
            &&& s.skew < bs
            &&& s.start as int % bs == 0
            &&& (s.start + s.len) % bs == 0
            &&& offset + len <= s.start + s.len < offset + len + bs
        }),
{
    let b = ext4_free::unit(d.block_size);
    sas::a_span_is_whole_blocks(b, offset, len);
    align::div_up_is_least(offset + len, b);
    vstd::arithmetic::div_mod::lemma_fundamental_div_mod(offset, b);
    vstd::arithmetic::div_mod::lemma_mod_bound(offset, b);
    let p = offset / b;
    assert(p * b == offset - offset % b) by (nonlinear_arith)
        requires
            offset == b * p + offset % b,
    ;
    assert(p >= 0) by (nonlinear_arith)
        requires
            offset == b * p + offset % b,
            0 <= offset % b < b,
            offset >= 0,
            b > 0,
    ;
    assert(p * b >= 0) by (nonlinear_arith)
        requires
            p >= 0,
            b > 0,
    ;
}

/// A thin device discards wherever a whole unit lies in the range, and then as
/// many units as lie in it; any other device is written to.
pub proof fn whole_units_are_discarded(thin: bool, granularity: u32, offset: int, len: int, u: int)
    requires
        0 <= offset,
        0 < len,
        offset + len <= u64::MAX,
    ensures
        ({
            let p = transfer::zero_plan(thin, granularity, offset, len);
            let unit: int = if granularity == 0 {
                1
            } else {
                granularity as int
            };
            &&& thin && offset <= u * unit && (u + 1) * unit <= offset + len ==> (
            p.discard matches Some((at, n)) && at <= u * unit && (u + 1) * unit <= at + n)
            &&& !thin ==> p.discard is None && p.head == (offset as u64, len as u64)
        }),
{
    let unit = transfer::unit_of(granularity);
    let (first, last) = transfer::units_in(unit, offset, len);
    align::div_up_is_least(offset, unit);
    let a = align::div_up(offset, unit);
    let end = offset + len;
    let b = end / unit;
    vstd::arithmetic::div_mod::lemma_fundamental_div_mod(end, unit);
    vstd::arithmetic::div_mod::lemma_mod_bound(end, unit);
    assert(b * unit == unit * b) by (nonlinear_arith);
    if thin && offset <= u * unit && (u + 1) * unit <= end {
        assert(u >= a);
        assert(u + 1 <= b) by (nonlinear_arith)
            requires
                (u + 1) * unit <= end,
                end == unit * b + end % unit,
                end % unit < unit,
                unit > 0,
        ;
        assert(first <= u * unit && (u + 1) * unit <= last && u * unit < (u + 1) * unit)
            by (nonlinear_arith)
            requires
                first == a * unit,
                last == b * unit,
                a <= u,
                u + 1 <= b,
                unit > 0,
        ;
        transfer::a_zero_plan_covers_its_range(thin, granularity, offset, len);
        assert(0 <= first) by (nonlinear_arith)
            requires
                first == a * unit,
                a >= 0,
                unit > 0,
        ;
        assert(last <= end);
    }
}

/// Numbers that others know too: how much is zeroed with one write, the block
/// of a file, the size of a page, and the system's numbers of errors.
pub proof fn the_numbers_of_devices()
    ensures
        transfer::ZERO_CHUNK == 1048576,
        filedev::BLOCK_SIZE == 4096,
        filedev::ENOTTY == 25,
        filedev::ENOSYS == 38,
        filedev::EOPNOTSUPP == 95,
        dma::DMA_ALIGNMENT == 4096,
        direct::EINTR == 4,
        direct::EIO == 5,
        direct::WAKE == 0xFFFF_FFFF_FFFF_FFFF,
{
}

/// The tags of requests follow one another and begin anew before that of the
/// wake.
pub proof fn tags_follow_one_another(n: u64)
    requires
        n < u64::MAX - 1,
    ensures
        n < u64::MAX - 2 ==> direct::tag_after(n) == n + 1,
        n == u64::MAX - 2 ==> direct::tag_after(n) == 0,
        direct::tag_after(n) != direct::WAKE,
        direct::tag_after(n) != n,
{
}

/// The serial of a disk is the text behind the four bytes of its page's header,
/// as long as bytes 2 and 3 say, without blanks and zeros around it; a page of
/// another kind has none.
pub proof fn a_serial_is_read_from_its_page(page: Seq<u8>, serial: Seq<char>)
    requires
        page.len() >= 4,
    ensures
        page[1] != 0x80 ==> identity::vpd_serial_of(page).len() == 0,
        page[1] == 0x80 && page.len() == 4 + 256 * page[2] + page[3] && page.skip(4)
            == vstd::utf8::encode_utf8(serial) && text::trimmed(serial) == serial && serial.len()
            > 0 && serial[0] != '\0' && serial.last() != '\0' ==> identity::vpd_serial_of(page)
            == serial,
        page[1] == 0x80 && page[2] == 0 && page[3] == 0 ==> identity::vpd_serial_of(page).len()
            == 0,
{
    let f = page.subrange(2, 4);
    assert(f.drop_last() =~= seq![page[2]]);
    assert(seq![page[2]].drop_last() =~= Seq::<u8>::empty());
    assert(bytes::be_value(Seq::<u8>::empty()) == 0);
    assert(bytes::be_value(seq![page[2]]) == page[2]);
    assert(bytes::be_value(f) == 256 * page[2] + page[3]);
    assert(page.skip(4) =~= page.subrange(4, page.len() as int));
    text::lossy_of_text(serial);
    if page[2] == 0 && page[3] == 0 {
        let none = page.subrange(4, 4);
        let nobody = Seq::<char>::empty();
        text::lossy_of_text(nobody);
        assert(none =~= vstd::utf8::encode_utf8(nobody));
        assert(text::trimmed(nobody) == nobody);
    }
}

/// A disk is known by what it says of itself first: its name's own file before
/// the device's, its serial's file before the page.
pub proof fn who_a_disk_is(f: DiskFiles)
    ensures
        text::trimmed(f.wwid@).len() > 0 ==> identity::wwn_of(f) == text::trimmed(f.wwid@),
        text::trimmed(f.wwid@).len() == 0 ==> identity::wwn_of(f) == text::trimmed(f.device_wwid@),
        text::trimmed(f.serial@).len() > 0 ==> identity::serial_of(f) == text::trimmed(f.serial@),
        text::trimmed(f.serial@).len() == 0 ==> identity::serial_of(f) == identity::vpd_serial_of(
            f.vpd_pg80@,
        ),
{
}

/// Devices are handed over by rising number, those of one number as they were
/// noted: each of two devices is in front of or behind the other.
pub proof fn devices_are_handed_over_by_number(d: Seq<Device>, order: Seq<usize>, a: int, b: int)
    requires
        handover::in_device_order(d, order, d.len() as int),
        0 <= a < b < d.len(),
    ensures
        d[order[a] as int].dev_id <= d[order[b] as int].dev_id,
        d[order[a] as int].dev_id == d[order[b] as int].dev_id ==> order[a] < order[b],
        order[a] != order[b],
        order[a] < d.len() && order[b] < d.len(),
{
    assert(handover::goes_before(d, order[a] as int, order[b] as int));
}

/// A temperature in thousandths of a degree is told in whole degrees, and the
/// first that can be read is the one.
pub proof fn degrees_are_whole(reads: Seq<String>, n: nat, k: int)
    requires
        0 <= k < reads.len(),
    ensures
        text::parsed(text::trimmed(reads[k]@), u64::MAX as nat) == Some(n) && n < 65536000
            ==> (sas::degrees(reads[k]@) matches Some(t) && 1000 * t <= n < 1000 * t + 1000),
        text::parsed(text::trimmed(reads[k]@), u64::MAX as nat) is None ==> sas::degrees(reads[k]@)
            is None,
        sas::degrees(reads[k]@) is Some && (forall|j: int|
            0 <= j < k ==> sas::degrees((#[trigger] reads[j])@) is None) ==> sas::first_degrees(
            reads,
        ) == sas::degrees(reads[k]@),
        (forall|j: int| 0 <= j < reads.len() ==> sas::degrees((#[trigger] reads[j])@) is None)
            ==> sas::first_degrees(reads) is None,
    decreases reads.len(),
{
    let rest = reads.drop_first();
    if (forall|j: int| 0 <= j < reads.len() ==> sas::degrees((#[trigger] reads[j])@) is None) {
        assert(sas::degrees(reads[0]@) is None);
        assert(rest.len() == 0 ==> sas::first_degrees(rest) is None);
        if rest.len() > 0 {
            assert forall|j: int| 0 <= j < rest.len() implies sas::degrees((#[trigger] rest[j])@)
                is None by {
                assert(rest[j] == reads[j + 1]);
            }
            degrees_are_whole(rest, n, 0);
        }
    } else if k > 0 && (forall|j: int|
        0 <= j < k ==> sas::degrees((#[trigger] reads[j])@) is None) {
        assert(sas::degrees(reads[0]@) is None);
        assert forall|j: int| 0 <= j < k - 1 implies sas::degrees((#[trigger] rest[j])@) is None by {
            assert(rest[j] == reads[j + 1]);
        }
        degrees_are_whole(rest, n, k - 1);
        assert(rest[k - 1] == reads[k]);
    }
}

} // verus!
