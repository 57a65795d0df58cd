//! What a pool has on its device, byte by byte, and where its drives lie.
use crate::align;
use crate::bytes;
use crate::digest;
use crate::drive::pool;
use crate::drive::pool::{DiskPool, EntryView, PoolError, PoolHeader, VDriveState};
use crate::ids::Uuid;
use vstd::prelude::*;

verus! {

/// The header of a pool is laid out as its device has it: "STRMPOOL" and the
/// version, the identity, most significant byte first, and the numbers, least
/// significant first, with the checksum of what is before it at byte 76.
pub proof fn a_pool_header_is_laid_out(h: PoolHeader)
    ensures
        ({
            let b = h.encoded();
            &&& b.len() == 512
            &&& b.subrange(0, 8) == seq![0x53u8, 0x54, 0x52, 0x4d, 0x50, 0x4f, 0x4f, 0x4c]
            &&& bytes::le_value(b.subrange(8, 12)) == 1
            &&& bytes::be_value(b.subrange(12, 28)) == h.pool_uuid.bits
            &&& bytes::le_value(b.subrange(28, 36)) == h.total_capacity
            &&& bytes::le_value(b.subrange(36, 44)) == h.data_offset
            &&& bytes::le_value(b.subrange(44, 52)) == h.alignment
            &&& bytes::le_value(b.subrange(52, 56)) == h.vdrive_count
            &&& bytes::le_value(b.subrange(56, 60)) == h.max_vdrives
            &&& bytes::le_value(b.subrange(60, 68)) == h.create_time
            &&& bytes::le_value(b.subrange(68, 76)) == h.update_time
            &&& bytes::le_value(b.subrange(76, 80)) == digest::crc32c_of(b.subrange(0, 76))
            &&& forall|i: int| 80 <= i < 512 ==> #[trigger] b[i] == 0
        }),
{
    broadcast use bytes::lemma_le_bytes_len, bytes::lemma_be_bytes_len;

    bytes::lemma_radix();
    let b = h.encoded();
    let crc = digest::crc32c_of(h.body()) as nat;
    assert(pool::POOL_MAGIC@ =~= seq![0x53u8, 0x54, 0x52, 0x4d, 0x50, 0x4f, 0x4f, 0x4c]);
    assert(h.body().len() == 76);
    assert(b.subrange(0, 76) =~= h.body());
    assert(b.subrange(0, 8) =~= pool::POOL_MAGIC@);
    assert(b.subrange(8, 12) =~= bytes::le_bytes(pool::POOL_VERSION as nat, 4));
    assert(b.subrange(12, 28) =~= h.pool_uuid.bytes());
    assert(b.subrange(28, 36) =~= bytes::le_bytes(h.total_capacity as nat, 8));
    assert(b.subrange(36, 44) =~= bytes::le_bytes(h.data_offset as nat, 8));
    assert(b.subrange(44, 52) =~= bytes::le_bytes(h.alignment as nat, 8));
    assert(b.subrange(52, 56) =~= bytes::le_bytes(h.vdrive_count as nat, 4));
    assert(b.subrange(56, 60) =~= bytes::le_bytes(h.max_vdrives as nat, 4));
    assert(b.subrange(60, 68) =~= bytes::le_bytes(h.create_time as nat, 8));
    assert(b.subrange(68, 76) =~= bytes::le_bytes(h.update_time as nat, 8));
    assert(b.subrange(76, 80) =~= bytes::le_bytes(crc, 4));
    bytes::le_round_trip(pool::POOL_VERSION as nat, 4);
    bytes::be_round_trip(h.pool_uuid.bits as nat, 16);
    bytes::le_round_trip(h.total_capacity as nat, 8);
    bytes::le_round_trip(h.data_offset as nat, 8);
    bytes::le_round_trip(h.alignment as nat, 8);
    bytes::le_round_trip(h.vdrive_count as nat, 4);
    bytes::le_round_trip(h.max_vdrives as nat, 4);
    bytes::le_round_trip(h.create_time as nat, 8);
    bytes::le_round_trip(h.update_time as nat, 8);
    bytes::le_round_trip(crc, 4);
}

/// A drive's entry is laid out as the table has it: the identity, the place, the
/// size, the state, the array, the label in 63 bytes, the time, and the checksum
/// of what is before it.
#[verifier::rlimit(30)]
pub proof fn a_drive_entry_is_laid_out(e: EntryView, i: int)
    ensures
        ({
            let b = e.encoded();
            let name = vstd::utf8::encode_utf8(e.label);
            &&& b.len() == 128
            &&& bytes::be_value(b.subrange(0, 16)) == e.uuid.bits
            &&& bytes::le_value(b.subrange(16, 24)) == e.start_offset
            &&& bytes::le_value(b.subrange(24, 32)) == e.size
            &&& b[32] == e.state.spec_code()
            &&& bytes::be_value(b.subrange(33, 49)) == e.array_uuid.bits
            &&& 0 <= i < 63 ==> b[49 + i] == (if i < name.len() {
                name[i]
            } else {
                0
            })
            &&& bytes::le_value(b.subrange(112, 120)) == e.create_time
            &&& bytes::le_value(b.subrange(120, 124)) == digest::crc32c_of(b.subrange(0, 120))
        }),
        e.state == VDriveState::Free ==> e.state.spec_code() == 0,
        e.state == VDriveState::Active ==> e.state.spec_code() == 1,
        e.state == VDriveState::InArray ==> e.state.spec_code() == 2,
{
    broadcast use bytes::lemma_le_bytes_len, bytes::lemma_be_bytes_len;

    bytes::lemma_radix();
    let b = e.encoded();
    let crc = digest::crc32c_of(e.body()) as nat;
    let lb = pool::label_bytes(e.label);
    let fill = bytes::zeros((63 - lb.len()) as nat);
    let head = e.uuid.bytes() + bytes::le_bytes(e.start_offset as nat, 8) + bytes::le_bytes(
        e.size as nat,
        8,
    ) + seq![e.state.spec_code()];
    let tail = bytes::le_bytes(e.create_time as nat, 8);
    assert(head.len() == 33);
    assert(lb.len() <= 63);
    let label = lb + fill;
    assert(label.len() == 63);
    assert(e.body() =~= head + (e.array_uuid.bytes() + (label + tail)));
    assert(e.body().len() == 120);
    assert(b.subrange(0, 120) =~= e.body());
    assert(b.subrange(0, 33) =~= head);
    assert(b.subrange(0, 16) =~= head.subrange(0, 16));
    assert(head.subrange(0, 16) =~= e.uuid.bytes());
    assert(b.subrange(16, 24) =~= head.subrange(16, 24));
    assert(head.subrange(16, 24) =~= bytes::le_bytes(e.start_offset as nat, 8));
    assert(b.subrange(24, 32) =~= head.subrange(24, 32));
    assert(head.subrange(24, 32) =~= bytes::le_bytes(e.size as nat, 8));
    assert(b[32] == b.subrange(0, 33)[32]);
    assert(b.subrange(33, 49) =~= e.array_uuid.bytes());
    assert(b.subrange(49, 112) =~= label);
    assert(b.subrange(112, 120) =~= tail);
    assert(b.subrange(120, 124) =~= bytes::le_bytes(crc, 4));
    if 0 <= i < 63 {
        assert(b[49 + i] == b.subrange(49, 112)[i]);
    }
    bytes::be_round_trip(e.uuid.bits as nat, 16);
    bytes::le_round_trip(e.start_offset as nat, 8);
    bytes::le_round_trip(e.size as nat, 8);
    bytes::be_round_trip(e.array_uuid.bits as nat, 16);
    bytes::le_round_trip(e.create_time as nat, 8);
    bytes::le_round_trip(crc, 4);
}

/// The table holds the entry of each drive at 128 bytes for each before it, and
/// zeros behind the last.
pub proof fn a_table_holds_its_entries(es: Seq<EntryView>, max: nat, k: int)
    requires
        es.len() <= max,
    ensures
        pool::table_bytes(es, max).len() == 128 * max,
        0 <= k < es.len() ==> pool::table_bytes(es, max).subrange(128 * k, 128 * k + 128)
            == es[k].encoded(),
        128 * es.len() <= k < 128 * max ==> pool::table_bytes(es, max)[k] == 0,
{
    let t = pool::table_bytes(es, max);
    pool::lemma_entries_len(es, es.len());
    if 0 <= k < es.len() {
        pool::lemma_entries_bytes(es, es.len(), k);
        assert(t.subrange(128 * k, 128 * k + 128) =~= pool::entries_bytes(es, es.len()).subrange(
            128 * k,
            128 * k + 128,
        ));
    }
}

/// A pool's data begins behind its first mebibyte, in pieces of one mebibyte,
/// and it has room for 256 drives.
pub proof fn a_new_pool_keeps_a_mebibyte(total: u64, id: Uuid, now: u64)
    ensures
        ({
            let h = pool::fresh_pool(total, id, now);
            &&& h.data_offset == 1048576
            &&& h.alignment == 1048576
            &&& h.max_vdrives == 256
            &&& h.vdrive_count == 0
            &&& h.total_capacity == total
            &&& h.pool_uuid == id
            &&& h.create_time == now
            &&& h.update_time == now
        }),
{
}

/// A drive is given a place of its own: at least as large as was asked for and
/// less than one piece larger, on whole pieces, inside the data region or in
/// front of another drive, without a byte of any other drive, and in front of
/// every other place that would have done. No other drive changes.
pub proof fn a_new_drive_has_its_own_place(
    before: DiskPool,
    after: DiskPool,
    size: u64,
    label: Seq<char>,
    uuid: Uuid,
    now: u64,
    e: EntryView,
    x: int,
    k: int,
)
    requires
        before.header.alignment > 0,
        align::round_up(size as int, before.header.alignment as int) <= u64::MAX,
        pool::is_created(before, after, size, label, uuid, now, e),
    ensures
        e.uuid == uuid,
        e.label == label,
        e.create_time == now,
        e.state == VDriveState::Active,
        e.array_uuid.bits == 0,
        size <= e.size < size + before.header.alignment,
        e.size as int % before.header.alignment as int == 0,
        e.start_offset as int % before.header.alignment as int == 0,
        before.header.data_offset <= e.start_offset,
        e.start_offset + e.size <= before.header.total_capacity || exists|j: int|
            0 <= j < before.drives().len() && e.start_offset + e.size <= (
            #[trigger] before.drives()[j]).start_offset,
        0 <= k < before.drives().len() && e.start_offset <= x < e.start_offset + e.size ==> !(
        before.drives()[k].start_offset <= x < before.drives()[k].start_offset
            + before.drives()[k].size),
        0 <= k < before.drives().len() ==> after.drives()[k] == before.drives()[k],
        after.drives().len() == before.drives().len() + 1,
        after.drives().last() == e,
        after.header.vdrive_count == before.drives().len() + 1,
        after.header.update_time == now,
        after.header.pool_uuid == before.header.pool_uuid,
        after.header.total_capacity == before.header.total_capacity,
{
    let a = before.header.alignment as int;
    align::round_up_is_least_multiple(size as int, a);
    align::round_up_is_least_multiple(e.start_offset as int, a);
    if 0 <= k < before.drives().len() {
        assert(pool::clear_of(e.start_offset as int, e.size as int, before.drives()[k]));
    }
}

/// No place in front of the one that a drive is given would have done: any
/// place there that is on whole pieces and in the data region has a byte of
/// another drive among those that the drive needs.
pub proof fn a_drive_goes_to_the_first_place(
    h: PoolHeader,
    es: Seq<EntryView>,
    size: int,
    p: int,
    q: int,
)
    requires
        0 < size,
        h.alignment > 0,
        pool::first_fit(h, es, size, p),
        h.data_offset <= q < p,
        q % h.alignment as int == 0,
        q + size <= h.total_capacity,
    ensures
        exists|i: int|
            0 <= i < es.len() && q < (#[trigger] es[i]).start_offset + es[i].size
                && es[i].start_offset < q + size,
{
    assert(!pool::fits(h, es, size, q));
}

/// Of two ranges that do not share a byte, one ends before the other begins.
pub proof fn keeping_clear_is_sharing_no_byte(p: int, size: int, e: EntryView)
    requires
        size > 0,
        e.size > 0,
    ensures
        pool::clear_of(p, size, e) <==> forall|x: int|
            !(p <= x < p + size && #[trigger] in_drive(e, x)),
{
    if !pool::clear_of(p, size, e) {
        let x = if p < e.start_offset {
            e.start_offset as int
        } else {
            p
        };
        assert(in_drive(e, x));
    }
}

/// Whether a byte of the pool is a drive's.
pub open spec fn in_drive(e: EntryView, x: int) -> bool {
    e.start_offset <= x < e.start_offset + e.size
}

/// A drive is refused exactly where the table is full or there is no place for
/// it, and is told apart by which.
pub proof fn why_a_drive_is_refused(before: DiskPool, size: u64, e: PoolError)
    requires
        pool::is_refused(before, size, e),
    ensures
        before.entries@.len() >= before.header.max_vdrives ==> e == PoolError::MaxVDrives,
        before.entries@.len() < before.header.max_vdrives ==> e is NoSpace && !pool::has_place(
            before.header,
            before.drives(),
            align::round_up(size as int, before.header.alignment as int),
        ),
{
}

/// A drive that is looked up is the first with that identity; marking it changes
/// its state and its array, and nothing of any other.
pub proof fn marking_changes_one_drive(
    before: DiskPool,
    after: DiskPool,
    uuid: Uuid,
    state: VDriveState,
    array: Uuid,
    k: int,
)
    requires
        pool::is_marked(before, after, uuid, state, array, Ok(())),
        0 <= k < before.drives().len(),
    ensures
        after.drives().len() == before.drives().len(),
        after.header == before.header,
        before.drives()[k].uuid != uuid ==> after.drives()[k] == before.drives()[k],
        before.drives()[k].uuid == uuid && (forall|j: int|
            0 <= j < k ==> (#[trigger] before.drives()[j]).uuid != uuid) ==> after.drives()[k] == (
        EntryView { state, array_uuid: array, ..before.drives()[k] }),
{
    lemma_first(before.drives(), uuid, k);
}

proof fn lemma_first(es: Seq<EntryView>, uuid: Uuid, k: int)
    requires
        0 <= k < es.len(),
    ensures
        0 <= DiskPool::position(es, uuid) <= es.len(),
        DiskPool::position(es, uuid) < es.len() ==> es[DiskPool::position(es, uuid)].uuid == uuid,
        forall|j: int| 0 <= j < DiskPool::position(es, uuid) ==> (#[trigger] es[j]).uuid != uuid,
        es[k].uuid == uuid && (forall|j: int| 0 <= j < k ==> (#[trigger] es[j]).uuid != uuid)
            ==> DiskPool::position(es, uuid) == k,
    decreases es.len(),
{
    if es[0].uuid != uuid {
        let rest = es.drop_first();
        assert(rest.len() == 0 ==> DiskPool::position(rest, uuid) == 0);
        if rest.len() > 0 {
            lemma_first(
                rest,
                uuid,
                if k > 0 {
                    k - 1
                } else {
                    0
                },
            );
        }
        assert forall|j: int| 0 <= j < DiskPool::position(es, uuid) implies (
        #[trigger] es[j]).uuid != uuid by {
            if j > 0 {
                assert(rest[j - 1] == es[j]);
            }
        }
        if k > 0 && es[k].uuid == uuid && (forall|j: int|
            0 <= j < k ==> (#[trigger] es[j]).uuid != uuid) {
            assert forall|j: int| 0 <= j < k - 1 implies (#[trigger] rest[j]).uuid != uuid by {
                assert(es[j + 1] == rest[j]);
            }
            assert(rest[k - 1] == es[k]);
        }
    }
}

/// What drives take up together is the sum of their sizes.
pub proof fn sizes_add_up(es: Seq<EntryView>, e: EntryView)
    ensures
        pool::total_size(es, 0) == 0,
        pool::total_size(es.push(e), es.len() + 1) == pool::total_size(es, es.len()) + e.size,
{
    lemma_same_sizes(es, es.push(e), es.len());
}

proof fn lemma_same_sizes(a: Seq<EntryView>, b: Seq<EntryView>, n: nat)
    requires
        n <= a.len() <= b.len(),
        forall|i: int| 0 <= i < n ==> #[trigger] a[i] == b[i],
    ensures
        pool::total_size(a, n) == pool::total_size(b, n),
    decreases n,
{
    if n > 0 {
        lemma_same_sizes(a, b, (n - 1) as nat);
        assert(a[n - 1] == b[n - 1]);
    }
}

} // verus!
