//! What a client and the server of a device share, byte by byte, and what
//! becomes of a command.
use crate::align;
use crate::bytes;
use crate::drive::uring_channel;
use crate::drive::uring_channel::{RingCommand, RingCompletion, RingHeader, RingOp};
use crate::drive::uring_server::{RequestFault, UringServer};
use vstd::prelude::*;

verus! {

/// The header of the shared memory is laid out as client and server have it:
/// each index on a cache line of its own.
pub proof fn a_ring_header_is_laid_out(h: RingHeader)
    ensures
        ({
            let b = h.layout();
            &&& b.len() == 4096
            &&& bytes::le_value(b.subrange(0, 4)) == h.magic
            &&& bytes::le_value(b.subrange(4, 6)) == h.version
            &&& bytes::le_value(b.subrange(6, 8)) == h.queue_depth
            &&& bytes::le_value(b.subrange(8, 12)) == h.buf_size
            &&& bytes::le_value(b.subrange(64, 68)) == h.sq_tail
            &&& bytes::le_value(b.subrange(128, 132)) == h.sq_head
            &&& bytes::le_value(b.subrange(192, 196)) == h.cq_tail
            &&& bytes::le_value(b.subrange(256, 260)) == h.cq_head
            &&& bytes::le_value(b.subrange(320, 324)) == h.sq_offset
            &&& bytes::le_value(b.subrange(324, 328)) == h.cq_offset
            &&& bytes::le_value(b.subrange(328, 332)) == h.data_offset
            &&& bytes::le_value(b.subrange(336, 344)) == h.total_size
            &&& bytes::le_value(b.subrange(344, 352)) == h.capacity
            &&& bytes::le_value(b.subrange(352, 356)) == h.block_size
        }),
{
    broadcast use bytes::lemma_le_bytes_len;

    bytes::lemma_radix();
    let b = h.layout();
    assert(b.len() == 4096);
    assert(b.subrange(0, 4) =~= bytes::le_bytes(h.magic as nat, 4));
    assert(b.subrange(4, 6) =~= bytes::le_bytes(h.version as nat, 2));
    assert(b.subrange(6, 8) =~= bytes::le_bytes(h.queue_depth as nat, 2));
    assert(b.subrange(8, 12) =~= bytes::le_bytes(h.buf_size as nat, 4));
    assert(b.subrange(64, 68) =~= bytes::le_bytes(h.sq_tail as nat, 4));
    assert(b.subrange(128, 132) =~= bytes::le_bytes(h.sq_head as nat, 4));
    assert(b.subrange(192, 196) =~= bytes::le_bytes(h.cq_tail as nat, 4));
    assert(b.subrange(256, 260) =~= bytes::le_bytes(h.cq_head as nat, 4));
    assert(b.subrange(320, 324) =~= bytes::le_bytes(h.sq_offset as nat, 4));
    assert(b.subrange(324, 328) =~= bytes::le_bytes(h.cq_offset as nat, 4));
    assert(b.subrange(328, 332) =~= bytes::le_bytes(h.data_offset as nat, 4));
    assert(b.subrange(336, 344) =~= bytes::le_bytes(h.total_size as nat, 8));
    assert(b.subrange(344, 352) =~= bytes::le_bytes(h.capacity as nat, 8));
    assert(b.subrange(352, 356) =~= bytes::le_bytes(h.block_size as nat, 4));
    bytes::le_round_trip(h.magic as nat, 4);
    bytes::le_round_trip(h.version as nat, 2);
    bytes::le_round_trip(h.queue_depth as nat, 2);
    bytes::le_round_trip(h.buf_size as nat, 4);
    bytes::le_round_trip(h.sq_tail as nat, 4);
    bytes::le_round_trip(h.sq_head as nat, 4);
    bytes::le_round_trip(h.cq_tail as nat, 4);
    bytes::le_round_trip(h.cq_head as nat, 4);
    bytes::le_round_trip(h.sq_offset as nat, 4);
    bytes::le_round_trip(h.cq_offset as nat, 4);
    bytes::le_round_trip(h.data_offset as nat, 4);
    bytes::le_round_trip(h.total_size as nat, 8);
    bytes::le_round_trip(h.capacity as nat, 8);
    bytes::le_round_trip(h.block_size as nat, 4);
}

/// A command is laid out as client and server have it.
pub proof fn a_command_is_laid_out(c: RingCommand)
    ensures
        ({
            let b = c.layout();
            &&& b.len() == 64
            &&& b[2] == c.op
            &&& b[3] == c.flags
            &&& bytes::le_value(b.subrange(0, 2)) == c.tag
            &&& bytes::le_value(b.subrange(4, 6)) == c.buf_idx
            &&& bytes::le_value(b.subrange(8, 16)) == c.offset
            &&& bytes::le_value(b.subrange(16, 20)) == c.length
            &&& forall|i: int| 6 <= i < 8 ==> #[trigger] b[i] == 0
            &&& forall|i: int| 20 <= i < 64 ==> #[trigger] b[i] == 0
        }),
{
    broadcast use bytes::lemma_le_bytes_len;

    bytes::lemma_radix();
    let b = c.layout();
    assert(b.len() == 64);
    assert(b.subrange(0, 2) =~= bytes::le_bytes(c.tag as nat, 2));
    assert(b.subrange(4, 6) =~= bytes::le_bytes(c.buf_idx as nat, 2));
    assert(b.subrange(8, 16) =~= bytes::le_bytes(c.offset as nat, 8));
    assert(b.subrange(16, 20) =~= bytes::le_bytes(c.length as nat, 4));
    bytes::le_round_trip(c.tag as nat, 2);
    bytes::le_round_trip(c.buf_idx as nat, 2);
    bytes::le_round_trip(c.offset as nat, 8);
    bytes::le_round_trip(c.length as nat, 4);
}

/// A completion is laid out as client and server have it.
pub proof fn a_completion_is_laid_out(c: RingCompletion)
    ensures
        ({
            let b = c.layout();
            &&& b.len() == 32
            &&& bytes::le_value(b.subrange(0, 2)) == c.tag
            &&& bytes::le_value(b.subrange(2, 4)) == c.status as u16
            &&& bytes::le_value(b.subrange(4, 8)) == c.result
            &&& forall|i: int| 8 <= i < 32 ==> #[trigger] b[i] == 0
        }),
{
    broadcast use bytes::lemma_le_bytes_len;

    bytes::lemma_radix();
    let b = c.layout();
    assert(b.len() == 32);
    assert(b.subrange(0, 2) =~= bytes::le_bytes(c.tag as nat, 2));
    assert(b.subrange(2, 4) =~= bytes::le_bytes(c.status as u16 as nat, 2));
    assert(b.subrange(4, 8) =~= bytes::le_bytes(c.result as nat, 4));
    bytes::le_round_trip(c.tag as nat, 2);
    bytes::le_round_trip(c.status as u16 as nat, 2);
    bytes::le_round_trip(c.result as nat, 4);
}

/// The memory is as large as it has to be and no larger: a page of header, 64
/// bytes for each command and 32 for each completion, filled up to whole pages,
/// and a buffer for each entry.
pub proof fn the_memory_is_no_larger_than_needed(queue_depth: u16, buf_size: u32)
    ensures
        uring_channel::cq_start(queue_depth) == 4096 + queue_depth * 64,
        uring_channel::data_start(queue_depth) % 4096 == 0,
        4096 + queue_depth * 96 <= uring_channel::data_start(queue_depth),
        uring_channel::data_start(queue_depth) < 4096 + queue_depth * 96 + 4096,
        uring_channel::total_len(queue_depth, buf_size) == uring_channel::data_start(queue_depth)
            + queue_depth * buf_size,
        uring_channel::RING_MAGIC == 0x55524E47,
        uring_channel::RING_VERSION == 1,
        uring_channel::HEADER_LEN == 4096,
        uring_channel::DEFAULT_QUEUE_DEPTH == 64,
        uring_channel::DEFAULT_BUF_SIZE == 1048576,
{
    align::round_up_is_least_multiple(4096 + queue_depth * 64 + queue_depth * 32, 4096);
}

/// A command is carried out at the offset and over the length that it names, in
/// the buffer that it names, and as what it names: 0 reads, 1 writes, 2 flushes,
/// 3 discards, and nothing else is known.
pub proof fn a_command_is_carried_out_where_it_names(c: RingCommand)
    ensures
        c.op == 0 ==> c.asks() == (RingOp::Read {
            offset: c.offset,
            len: c.length,
            buf_idx: c.buf_idx,
        }),
        c.op == 1 ==> c.asks() == (RingOp::Write {
            offset: c.offset,
            len: c.length,
            buf_idx: c.buf_idx,
        }),
        c.op == 2 ==> c.asks() == RingOp::Flush,
        c.op == 3 ==> c.asks() == (RingOp::Discard { offset: c.offset, len: c.length as u64 }),
        c.op > 3 ==> c.asks() == RingOp::Unknown,
{
}

/// A command is answered under its own tag: with zero where it went well and the
/// system's number of the error, negative, where it did not; and with the number
/// of bytes exactly where it read them.
pub proof fn a_command_is_answered_under_its_tag(c: RingCommand, n: u32)
    ensures
        c.answered(Some(n)).tag == c.tag,
        c.answered(None).tag == c.tag,
        c.op <= 3 ==> c.answered(Some(n)).status == 0,
        c.op <= 3 ==> c.answered(None).status == -5,
        c.op > 3 ==> c.answered(Some(n)).status == -95 && c.answered(None).status == -95,
        c.op == 0 ==> c.answered(Some(n)).result == n,
        c.op != 0 ==> c.answered(Some(n)).result == 0,
        c.answered(None).result == 0,
{
}

/// A queue takes an entry exactly while it holds fewer than its depth, and gives
/// one out exactly while it holds any; what it holds goes up by one with each
/// that is put in and down by one with each that is taken out, also where the
/// indices wrap around.
pub proof fn a_queue_counts_its_entries(depth: u16, tail: u32, head: u32)
    ensures
        0 <= uring_channel::ahead(tail, head) < 0x1_0000_0000,
        uring_channel::ahead(head, head) == 0,
        (head + uring_channel::ahead(tail, head)) % 0x1_0000_0000 == tail,
        uring_channel::room(depth, tail, head) is Some <==> uring_channel::ahead(tail, head) < depth,
        uring_channel::waiting(depth, tail, head) is Some <==> uring_channel::ahead(tail, head) > 0,
        uring_channel::room(depth, tail, head) matches Some((slot, next)) ==> slot
            == tail as int % depth as int && uring_channel::ahead(next, tail) == 1,
        depth > 0 ==> (uring_channel::waiting(depth, tail, head) matches Some((slot, next)) ==> slot
            == head as int % depth as int && uring_channel::ahead(next, head) == 1),
{
}

/// A client gets the device that is on offer under the name that it asks for,
/// and is told what is wrong where it names none, or one that is not on offer.
pub proof fn a_client_gets_what_it_names(
    s: UringServer,
    name: Seq<char>,
    why: Seq<char>,
    r: Result<(String, u64), RequestFault>,
    i: int,
)
    requires
        s.wf(),
    ensures
        0 <= i < s.offers@.len() && s.offers@[i].name@ == name && s.granted(Ok(Some(name)), r) ==> (
        r matches Ok((n, device)) && n@ == name && device == s.offers@[i].device),
        (forall|k: int| 0 <= k < s.offers@.len() ==> (#[trigger] s.offers@[k]).name@ != name)
            && s.granted(Ok(Some(name)), r) ==> (r matches Err(RequestFault::NotFound(n)) && n@
            == name),
        s.granted(Ok(None), r) ==> r matches Err(RequestFault::MissingVolume),
        s.granted(Err(why), r) ==> (r matches Err(RequestFault::NotJson(e)) && e@ == why),
{
    if 0 <= i < s.offers@.len() && s.offers@[i].name@ == name {
        let k = crate::drive::uring_server::place_of(s.offers@, name);
        assert(0 <= k < s.offers@.len() && s.offers@[k].name@ == name);
        if k < i {
            assert(s.offers@[k].name@ != s.offers@[i].name@);
        } else if i < k {
            assert(s.offers@[i].name@ != s.offers@[k].name@);
        }
    }
}

} // verus!
