//! What NVMe over TCP has on the wire, byte by byte, and what becomes of a
//! transfer that takes several commands.
use crate::bytes;
use crate::drive::nvme::{NvmeCompletionEntry, NvmeSubmissionEntry};
use crate::drive::nvme_pdu;
use crate::drive::nvme_pdu::{Part, Progress};
use crate::drive::nvmeof_dev;
use crate::drive::nvmeof_dev::{
    Chunk, CommonHeader, DataNext, DataPdu, SpecView,
};
use crate::text;
use vstd::prelude::*;

verus! {

/// The header of every PDU is read where the protocol has it: type, flags,
/// header length and data offset in a byte each, then the length of the whole in
/// four, least significant first.
pub proof fn a_pdu_header_is_laid_out(h: CommonHeader, b: Seq<u8>)
    requires
        b.len() >= 8,
    ensures
        h.encoded().len() == 8,
        h.encoded()[0] == h.pdu_type,
        h.encoded()[1] == h.flags,
        h.encoded()[2] == h.hlen,
        h.encoded()[3] == h.pdo,
        bytes::le_value(h.encoded().subrange(4, 8)) == h.plen,
        nvmeof_dev::header_in(h.encoded() + b) == h,
{
    broadcast use bytes::lemma_le_bytes_len;

    bytes::lemma_radix();
    let e = h.encoded();
    assert(e.subrange(4, 8) =~= bytes::le_bytes(h.plen as nat, 4));
    assert((e + b).subrange(4, 8) =~= bytes::le_bytes(h.plen as nat, 4));
    bytes::le_round_trip(h.plen as nat, 4);
}

/// A connection is asked for with 128 bytes of type 0 that say so of themselves
/// and allow four transfers in flight.
pub proof fn a_connection_request_is_laid_out()
    ensures
        ({
            let b = nvmeof_dev::ic_req();
            &&& b.len() == 128
            &&& b[0] == 0
            &&& b[2] == 128
            &&& bytes::le_value(b.subrange(4, 8)) == 128
            &&& bytes::le_value(b.subrange(8, 12)) == 0
            &&& bytes::le_value(b.subrange(12, 16)) == 4
            &&& forall|i: int| 16 <= i < 128 ==> #[trigger] b[i] == 0
        }),
{
    broadcast use bytes::lemma_le_bytes_len;

    bytes::lemma_radix();
    let b = nvmeof_dev::ic_req();
    assert(b.len() == 128);
    assert(b.subrange(4, 8) =~= bytes::le_bytes(128, 4));
    assert(b.subrange(8, 12) =~= bytes::zeros(4));
    assert(b.subrange(12, 16) =~= bytes::le_bytes(4, 4));
    bytes::le_round_trip(128, 4);
    bytes::le_round_trip(4, 4);
    bytes::zeros_are_nothing(4);
}

/// A Connect command names its queue, and 128 entries, in bytes 42 to 45; its
/// data names the subsystem from byte 256 on and the host from 512 on, each
/// filled up with zeros.
pub proof fn a_connect_names_queue_and_parties(
    cid: u16,
    qid: u16,
    host: u32,
    nqn: Seq<char>,
    host_nqn: Seq<char>,
    i: int,
)
    ensures
        ({
            let b = nvmeof_dev::connect_sqe(cid, qid);
            &&& b.len() == 64
            &&& b[0] == 0x7f
            &&& bytes::le_value(b.subrange(2, 4)) == cid
            &&& b[4] == 1
            &&& bytes::le_value(b.subrange(42, 44)) == qid
            &&& bytes::le_value(b.subrange(44, 46)) == 127
        }),
        ({
            let d = nvmeof_dev::connect_data_of(host, nqn, host_nqn);
            let a = vstd::utf8::encode_utf8(nqn);
            let c = vstd::utf8::encode_utf8(host_nqn);
            &&& d.len() == 1024
            &&& bytes::le_value(d.subrange(0, 4)) == host
            &&& d[16] == 0xff && d[17] == 0xff
            &&& 0 <= i < 256 ==> d[256 + i] == (if i < a.len() {
                a[i]
            } else {
                0
            })
            &&& 0 <= i < 256 ==> d[512 + i] == (if i < c.len() {
                c[i]
            } else {
                0
            })
            &&& 768 <= i < 1024 ==> d[i] == 0
        }),
{
    broadcast use bytes::lemma_le_bytes_len;

    bytes::lemma_radix();
    let b = nvmeof_dev::connect_sqe(cid, qid);
    assert(b.subrange(2, 4) =~= bytes::le_bytes(cid as nat, 2));
    assert(b.subrange(42, 44) =~= bytes::le_bytes(qid as nat, 2));
    assert(b.subrange(44, 46) =~= bytes::le_bytes(127, 2));
    bytes::le_round_trip(cid as nat, 2);
    bytes::le_round_trip(qid as nat, 2);
    bytes::le_round_trip(127, 2);
    let d = nvmeof_dev::connect_data_of(host, nqn, host_nqn);
    assert(nvmeof_dev::name_field(nqn, 256).len() == 256);
    assert(nvmeof_dev::name_field(host_nqn, 256).len() == 256);
    assert(d.subrange(0, 4) =~= bytes::le_bytes(host as nat, 4));
    bytes::le_round_trip(host as nat, 4);
    assert(d.subrange(256, 512) =~= nvmeof_dev::name_field(nqn, 256));
    assert(d.subrange(512, 768) =~= nvmeof_dev::name_field(host_nqn, 256));
    if 0 <= i < 256 {
        assert(d[256 + i] == d.subrange(256, 512)[i]);
        assert(d[512 + i] == d.subrange(512, 768)[i]);
    }
}

/// What a namespace says of itself is taken as it says it: its size in blocks in
/// its first eight bytes, and a block of two to the power that the format in use
/// names, which has to be between 9 and 16.
pub proof fn a_namespace_is_read(data: Seq<u8>, blocks: u64, k: u8)
    requires
        data.len() >= 384,
        data.subrange(0, 8) == bytes::le_bytes(blocks as nat, 8),
        data[130 + 4 * (data[26] as int % 16)] == k,
    ensures
        9 <= k <= 16 ==> nvmeof_dev::identified_ns(data) == Some(
            (blocks, nvmeof_dev::two_to(k as nat) as u32),
        ),
        !(9 <= k <= 16) ==> nvmeof_dev::identified_ns(data) is None,
        k == 9 ==> nvmeof_dev::identified_ns(data) == Some((blocks, 512u32)),
        k == 12 ==> nvmeof_dev::identified_ns(data) == Some((blocks, 4096u32)),
        nvmeof_dev::two_to(0) == 1,
        nvmeof_dev::two_to((k + 1) as nat) == 2 * nvmeof_dev::two_to(k as nat),
{
    bytes::lemma_radix();
    bytes::le_round_trip(blocks as nat, 8);
    reveal_with_fuel(nvmeof_dev::two_to, 17);
}

/// Data that is too short to be a namespace's is not taken for one.
pub proof fn a_short_namespace_is_refused(data: Seq<u8>)
    requires
        data.len() < 384,
    ensures
        nvmeof_dev::identified_ns(data) is None,
{
}

/// The status of a completion is the number in its last two bytes without the
/// phase bit: zero exactly where nothing but that bit is set.
pub proof fn a_status_leaves_the_phase_out(cqe: Seq<u8>, code: u16, phase: bool)
    requires
        cqe.len() == 16,
        code < 0x8000,
        cqe.subrange(14, 16) == bytes::le_bytes(
            (2 * code + if phase {
                1int
            } else {
                0
            }) as nat,
            2,
        ),
    ensures
        nvmeof_dev::status_of(cqe) == 2 * code,
{
    bytes::lemma_radix();
    bytes::le_round_trip(
        (2 * code + if phase {
            1int
        } else {
            0
        }) as nat,
        2,
    );
}

/// Data comes in the order in which it is sent and only as much of a PDU as it
/// says counts; the third flag marks the last of it and the fourth that it went
/// well, and only both together end the response without a completion.
pub proof fn data_adds_up(data: Seq<u8>, flags: u8, datal: u32, payload: Vec<u8>)
    ensures
        ({
            let (after, awaiting, next) = nvmeof_dev::data_step(
                data,
                false,
                DataPdu::Data { flags, datal, payload },
            );
            let last = (flags as int / 4) % 2 == 1;
            let well = (flags as int / 8) % 2 == 1;
            let n = if datal <= payload@.len() {
                datal as int
            } else {
                payload@.len() as int
            };
            &&& after == data + payload@.take(n)
            &&& awaiting <==> last && !well
            &&& next == (if last && well {
                DataNext::Done
            } else {
                DataNext::More
            })
        }),
        nvmeof_dev::data_step(data, true, DataPdu::Data { flags, datal, payload }).0 == data,
        nvmeof_dev::data_step(data, true, DataPdu::Data { flags, datal, payload }).2 is Failed,
{
    if datal >= payload@.len() {
        assert(payload@.take(payload@.len() as int) =~= payload@);
    }
}

/// A completion ends a response, well exactly if its status is zero, and adds
/// nothing to it; any other PDU fails it.
pub proof fn a_completion_ends_a_response(
    data: Seq<u8>,
    awaiting: bool,
    status: u16,
    pdu_type: u8,
)
    ensures
        ({
            let (after, _, next) = nvmeof_dev::data_step(
                data,
                awaiting,
                DataPdu::Completion { status },
            );
            &&& after == data
            &&& next is Done <==> status == 0
            &&& next is Done || next is Failed
        }),
        nvmeof_dev::data_step(data, awaiting, DataPdu::Other { pdu_type }).0 == data,
        nvmeof_dev::data_step(data, awaiting, DataPdu::Other { pdu_type }).2 is Failed,
{
}

/// The bytes of a response are taken apart as the protocol has it: eight of a
/// header; behind one of type 7 sixteen more, of which bytes 8 to 11 tell how
/// much counts, and the payload; behind one of type 5 sixteen of a completion
/// and whatever its length tells of besides.
pub proof fn a_response_is_taken_apart(p: Progress, h: CommonHeader, head: Seq<u8>, datal: u32)
    requires
        p.part is Header,
        nvme_pdu::is_sane(h),
        head.len() == 16,
        head.subrange(8, 12) == bytes::le_bytes(datal as nat, 4),
    ensures
        nvme_pdu::part_len(p.part) == 8,
        h.pdu_type == 7 && !p.awaiting ==> {
            let (q, next) = nvme_pdu::fed(p, h.encoded());
            &&& next == DataNext::More
            &&& q.data == p.data
            &&& nvme_pdu::part_len(q.part) == 16
            &&& h.plen > h.hlen ==> nvme_pdu::part_len(nvme_pdu::fed(q, head).0.part) == h.plen
                - h.hlen && nvme_pdu::fed(q, head).0.data == p.data && (nvme_pdu::fed(
                q,
                head,
            ).0.part matches Part::Payload { flags, datal: d, len } && flags == h.flags && d
                == datal)
        },
        h.pdu_type == 5 ==> {
            let (q, next) = nvme_pdu::fed(p, h.encoded());
            &&& next == DataNext::More
            &&& q.data == p.data
            &&& nvme_pdu::part_len(q.part) == 16
            &&& q.part == (Part::Completion { extra: (h.plen - 24) as u32 })
        },
        h.pdu_type != 5 && (h.pdu_type != 7 || p.awaiting) ==> nvme_pdu::fed(p, h.encoded()).1
            is Failed,
        nvme_pdu::is_sane(h) <==> (h.pdu_type == 7 ==> h.plen >= h.hlen) && (h.pdu_type == 5
            ==> h.plen >= 24),
{
    broadcast use bytes::lemma_le_bytes_len;

    bytes::lemma_radix();
    bytes::le_round_trip(datal as nat, 4);
    bytes::le_round_trip(h.plen as nat, 4);
    let e = h.encoded();
    assert(e.subrange(4, 8) =~= bytes::le_bytes(h.plen as nat, 4));
    assert(nvmeof_dev::header_in(e) == h);
}

/// The commands of a transfer each name the blocks on which their bytes lie: a
/// command's first block begins where its bytes do, and it has as many blocks as
/// its bytes fill. Its bytes are where the transfer has them, and no command
/// has more than 128 KiB.
pub proof fn a_command_names_the_blocks_of_its_bytes(
    chunks: Seq<Chunk>,
    offset: int,
    len: int,
    bs: int,
    i: int,
)
    requires
        0 <= offset,
        0 < len,
        0 < bs,
        offset % bs == 0,
        len % bs == 0,
        131072int % bs == 0,
        nvmeof_dev::carries(chunks, offset, len, bs),
        0 <= i < chunks.len(),
    ensures
        chunks[i].slba * bs == offset + chunks[i].from,
        chunks[i].nlb * bs == chunks[i].len,
        0 < chunks[i].len <= 131072,
        chunks[i].from + chunks[i].len <= len,
        i == 0 ==> chunks[i].from == 0,
        i + 1 < chunks.len() ==> chunks[i].from + chunks[i].len == chunks[i + 1].from,
        i + 1 == chunks.len() ==> chunks[i].from + chunks[i].len == len,
{
    let c = chunks[i];
    let from = c.from as int;
    let m = 131072int;
    let n = chunks.len() as int;
    vstd::arithmetic::div_mod::lemma_fundamental_div_mod(len + m - 1, m);
    assert(from == i * m);
    assert(n == (len + m - 1) / m);
    assert((n - 1) * m < len && len <= n * m) by (nonlinear_arith)
        requires
            len + m - 1 == m * n + (len + m - 1) % m,
            0 <= (len + m - 1) % m < m,
    ;
    assert(i * m <= (n - 1) * m) by (nonlinear_arith)
        requires
            i <= n - 1,
            m > 0,
    ;
    vstd::arithmetic::div_mod::lemma_mod_multiples_basic(i, m);
    lemma_multiple_of(i, m, bs);
    assert(from % bs == 0);
    lemma_sum_divides(offset, from, bs);
    lemma_sum_divides(len, -from, bs);
    lemma_exact(offset + from, bs);
    lemma_exact(c.len as int, bs);
    if i + 1 < n {
        assert((i + 1) * m == i * m + m && (i + 1) * m <= (n - 1) * m) by (nonlinear_arith)
            requires
                i + 1 <= n - 1,
                m > 0,
        ;
    } else {
        assert((i + 1) * m == i * m + m) by (nonlinear_arith);
    }
}

proof fn lemma_exact(a: int, b: int)
    requires
        b > 0,
        a % b == 0,
    ensures
        (a / b) * b == a,
{
    vstd::arithmetic::div_mod::lemma_fundamental_div_mod(a, b);
    assert((a / b) * b == a) by (nonlinear_arith)
        requires
            a == b * (a / b) + a % b,
            a % b == 0,
    ;
}

proof fn lemma_sum_divides(a: int, c: int, b: int)
    requires
        b > 0,
        a % b == 0,
        c % b == 0 || (-c) % b == 0,
    ensures
        (a + c) % b == 0,
{
    if c % b == 0 {
        vstd::arithmetic::div_mod::lemma_add_mod_noop(a, c, b);
    } else {
        vstd::arithmetic::div_mod::lemma_sub_mod_noop(a, -c, b);
    }
    vstd::arithmetic::div_mod::lemma_small_mod(0, b as nat);
}

proof fn lemma_multiple_of(i: int, m: int, b: int)
    requires
        b > 0,
        m % b == 0,
    ensures
        (i * m) % b == 0,
{
    lemma_exact(m, b);
    let q = m / b;
    assert(i * m == (i * q) * b) by (nonlinear_arith)
        requires
            q * b == m,
    ;
    vstd::arithmetic::div_mod::lemma_mod_multiples_basic(i * q, b);
}

/// The ranges of a discard follow each other without a gap, from the first block
/// to the last.
pub proof fn a_discard_names_every_block_once(
    ranges: Seq<(u64, u32)>,
    first: int,
    count: int,
    i: int,
)
    requires
        0 <= first,
        0 < count,
        nvmeof_dev::covers_blocks(ranges, first, count),
        0 <= i < ranges.len(),
    ensures
        ranges.len() > 0,
        ranges[0].0 == first,
        ranges[i].1 > 0,
        i + 1 < ranges.len() ==> ranges[i].0 + ranges[i].1 == ranges[i + 1].0,
        i + 1 == ranges.len() ==> ranges[i].0 + ranges[i].1 == first + count,
{
    let m = u32::MAX as int;
    let n = ranges.len() as int;
    vstd::arithmetic::div_mod::lemma_fundamental_div_mod(count + m - 1, m);
    assert((n - 1) * m < count && count <= n * m) by (nonlinear_arith)
        requires
            count + m - 1 == m * n + (count + m - 1) % m,
            0 <= (count + m - 1) % m < m,
    ;
    assert((i + 1) * m == i * m + m) by (nonlinear_arith);
    assert(ranges[0].0 == first);
    if i + 1 < n {
        assert((i + 1) * m <= (n - 1) * m) by (nonlinear_arith)
            requires
                i + 1 <= n - 1,
                m > 0,
        ;
        assert(ranges[i + 1].0 == first + (i + 1) * m);
    }
}

/// An address in writing is the scheme, the host with its port, the subsystem,
/// and the namespace, and behind them the host's own name where it has one.
pub proof fn an_address_is_written_out(v: SpecView)
    ensures
        v.host_nqn is None ==> nvmeof_dev::uri_of(v) == "nvme-tcp://"@ + v.addr + "/"@ + v.nqn
            + "?nsid="@ + text::decimal(v.nsid as nat),
        v.host_nqn matches Some(h) ==> nvmeof_dev::uri_of(v) == "nvme-tcp://"@ + v.addr + "/"@
            + v.nqn + "?nsid="@ + text::decimal(v.nsid as nat) + "&hostnqn="@ + h,
        nvmeof_dev::spec_of(v.addr) matches Some(s) ==> v.addr.len() >= 11 && v.addr.take(11)
            == "nvme-tcp://"@ && s.nqn.len() > 0 && nvmeof_dev::names_port(s.addr),
{
    reveal_strlit("nvme-tcp://");
}

/// An entry of a submission queue is read where the controller reads it.
pub proof fn a_submission_entry_is_laid_out(e: NvmeSubmissionEntry)
    ensures
        ({
            let b = e.layout();
            &&& b.len() == 64
            &&& b[0] == e.opcode
            &&& b[1] == e.flags
            &&& bytes::le_value(b.subrange(2, 4)) == e.command_id
            &&& bytes::le_value(b.subrange(4, 8)) == e.nsid
            &&& bytes::le_value(b.subrange(8, 16)) == 0
            &&& bytes::le_value(b.subrange(16, 24)) == e.metadata_ptr
            &&& bytes::le_value(b.subrange(24, 32)) == e.prp1
            &&& bytes::le_value(b.subrange(32, 40)) == e.prp2
            &&& bytes::le_value(b.subrange(40, 44)) == e.cdw10
            &&& bytes::le_value(b.subrange(44, 48)) == e.cdw11
            &&& bytes::le_value(b.subrange(48, 52)) == e.cdw12
            &&& bytes::le_value(b.subrange(52, 56)) == e.cdw13
            &&& bytes::le_value(b.subrange(56, 60)) == e.cdw14
            &&& bytes::le_value(b.subrange(60, 64)) == e.cdw15
        }),
{
    broadcast use bytes::lemma_le_bytes_len;

    bytes::lemma_radix();
    let b = e.layout();
    assert(b.len() == 64);
    assert(b.subrange(2, 4) =~= bytes::le_bytes(e.command_id as nat, 2));
    assert(b.subrange(4, 8) =~= bytes::le_bytes(e.nsid as nat, 4));
    assert(b.subrange(8, 16) =~= bytes::zeros(8));
    assert(b.subrange(16, 24) =~= bytes::le_bytes(e.metadata_ptr as nat, 8));
    assert(b.subrange(24, 32) =~= bytes::le_bytes(e.prp1 as nat, 8));
    assert(b.subrange(32, 40) =~= bytes::le_bytes(e.prp2 as nat, 8));
    assert(b.subrange(40, 44) =~= bytes::le_bytes(e.cdw10 as nat, 4));
    assert(b.subrange(44, 48) =~= bytes::le_bytes(e.cdw11 as nat, 4));
    assert(b.subrange(48, 52) =~= bytes::le_bytes(e.cdw12 as nat, 4));
    assert(b.subrange(52, 56) =~= bytes::le_bytes(e.cdw13 as nat, 4));
    assert(b.subrange(56, 60) =~= bytes::le_bytes(e.cdw14 as nat, 4));
    assert(b.subrange(60, 64) =~= bytes::le_bytes(e.cdw15 as nat, 4));
    bytes::zeros_are_nothing(8);
    bytes::le_round_trip(e.command_id as nat, 2);
    bytes::le_round_trip(e.nsid as nat, 4);
    bytes::le_round_trip(e.metadata_ptr as nat, 8);
    bytes::le_round_trip(e.prp1 as nat, 8);
    bytes::le_round_trip(e.prp2 as nat, 8);
    bytes::le_round_trip(e.cdw10 as nat, 4);
    bytes::le_round_trip(e.cdw11 as nat, 4);
    bytes::le_round_trip(e.cdw12 as nat, 4);
    bytes::le_round_trip(e.cdw13 as nat, 4);
    bytes::le_round_trip(e.cdw14 as nat, 4);
    bytes::le_round_trip(e.cdw15 as nat, 4);
}

/// An entry of a completion queue is taken as the controller wrote it: the
/// result, four bytes that say nothing, then head, queue, command and status in
/// two bytes each.
pub proof fn a_completion_entry_is_read(e: NvmeCompletionEntry, gap: Seq<u8>)
    requires
        gap.len() == 4,
    ensures
        NvmeCompletionEntry::held(
            bytes::le_bytes(e.result as nat, 4) + gap + bytes::le_bytes(e.sq_head as nat, 2)
                + bytes::le_bytes(e.sq_id as nat, 2) + bytes::le_bytes(e.command_id as nat, 2)
                + bytes::le_bytes(e.status as nat, 2),
        ) == e,
{
    broadcast use bytes::lemma_le_bytes_len;

    bytes::lemma_radix();
    let b = bytes::le_bytes(e.result as nat, 4) + gap + bytes::le_bytes(e.sq_head as nat, 2)
        + bytes::le_bytes(e.sq_id as nat, 2) + bytes::le_bytes(e.command_id as nat, 2)
        + bytes::le_bytes(e.status as nat, 2);
    assert(b.subrange(0, 4) =~= bytes::le_bytes(e.result as nat, 4));
    assert(b.subrange(8, 10) =~= bytes::le_bytes(e.sq_head as nat, 2));
    assert(b.subrange(10, 12) =~= bytes::le_bytes(e.sq_id as nat, 2));
    assert(b.subrange(12, 14) =~= bytes::le_bytes(e.command_id as nat, 2));
    assert(b.subrange(14, 16) =~= bytes::le_bytes(e.status as nat, 2));
    bytes::le_round_trip(e.result as nat, 4);
    bytes::le_round_trip(e.sq_head as nat, 2);
    bytes::le_round_trip(e.sq_id as nat, 2);
    bytes::le_round_trip(e.command_id as nat, 2);
    bytes::le_round_trip(e.status as nat, 2);
}

} // verus!
