//! What a ublk server tells the kernel and takes from it, byte by byte; and
//! what a run of one comes to from its first command to its last.
use crate::bytes;
use crate::drive::ublk;
use crate::drive::ublk::{
    Action, CtrlRequest, Event, Geometry, Job, Look, Phase, QueueOp, Reply, UblkServer,
};
use crate::drive::ublk_abi;
use crate::drive::ublk_abi::{
    UblkCtrlCmd, UblkCtrlDevInfo, UblkIoCmd, UblkIoDesc, UblkParams,
};
use crate::text;
use vstd::prelude::*;

verus! {

/// The device's record of itself is laid out as the kernel has it.
pub proof fn a_record_is_laid_out(r: UblkCtrlDevInfo)
    ensures
        ({
            let b = r.layout();
            &&& b.len() == 64
            &&& bytes::le_value(b.subrange(0, 2)) == r.nr_hw_queues
            &&& bytes::le_value(b.subrange(2, 4)) == r.queue_depth
            &&& bytes::le_value(b.subrange(4, 6)) == r.state
            &&& bytes::le_value(b.subrange(8, 12)) == r.max_io_buf_bytes
            &&& bytes::le_value(b.subrange(12, 16)) == r.dev_id
            &&& bytes::le_value(b.subrange(16, 20)) == r.ublksrv_pid as u32
            &&& bytes::le_value(b.subrange(24, 32)) == r.flags
            &&& bytes::le_value(b.subrange(32, 40)) == r.ublksrv_flags
            &&& bytes::le_value(b.subrange(40, 44)) == r.owner_uid
            &&& bytes::le_value(b.subrange(44, 48)) == r.owner_gid
            &&& forall|i: int| 6 <= i < 8 ==> #[trigger] b[i] == 0
            &&& forall|i: int| 20 <= i < 24 ==> #[trigger] b[i] == 0
            &&& forall|i: int| 48 <= i < 64 ==> #[trigger] b[i] == 0
        }),
{
    broadcast use bytes::lemma_le_bytes_len;

    bytes::lemma_radix();
    let b = r.layout();
    assert(b.len() == 64);
    assert(b.subrange(0, 2) =~= bytes::le_bytes(r.nr_hw_queues as nat, 2));
    assert(b.subrange(2, 4) =~= bytes::le_bytes(r.queue_depth as nat, 2));
    assert(b.subrange(4, 6) =~= bytes::le_bytes(r.state as nat, 2));
    assert(b.subrange(8, 12) =~= bytes::le_bytes(r.max_io_buf_bytes as nat, 4));
    assert(b.subrange(12, 16) =~= bytes::le_bytes(r.dev_id as nat, 4));
    assert(b.subrange(16, 20) =~= bytes::le_bytes(r.ublksrv_pid as u32 as nat, 4));
    assert(b.subrange(24, 32) =~= bytes::le_bytes(r.flags as nat, 8));
    assert(b.subrange(32, 40) =~= bytes::le_bytes(r.ublksrv_flags as nat, 8));
    assert(b.subrange(40, 44) =~= bytes::le_bytes(r.owner_uid as nat, 4));
    assert(b.subrange(44, 48) =~= bytes::le_bytes(r.owner_gid as nat, 4));
    bytes::le_round_trip(r.nr_hw_queues as nat, 2);
    bytes::le_round_trip(r.queue_depth as nat, 2);
    bytes::le_round_trip(r.state as nat, 2);
    bytes::le_round_trip(r.max_io_buf_bytes as nat, 4);
    bytes::le_round_trip(r.dev_id as nat, 4);
    bytes::le_round_trip(r.ublksrv_pid as u32 as nat, 4);
    bytes::le_round_trip(r.flags as nat, 8);
    bytes::le_round_trip(r.ublksrv_flags as nat, 8);
    bytes::le_round_trip(r.owner_uid as nat, 4);
    bytes::le_round_trip(r.owner_gid as nat, 4);
}

/// A control command is laid out as the kernel has it, in the room that a
/// submission entry has.
pub proof fn a_control_command_is_laid_out(c: UblkCtrlCmd)
    ensures
        ({
            let b = ublk_abi::payload_of(c.layout());
            &&& b.len() == 80
            &&& bytes::le_value(b.subrange(0, 4)) == c.dev_id
            &&& bytes::le_value(b.subrange(4, 6)) == c.queue_id
            &&& bytes::le_value(b.subrange(6, 8)) == c.len
            &&& bytes::le_value(b.subrange(8, 16)) == c.addr
            &&& bytes::le_value(b.subrange(16, 24)) == c.data
            &&& bytes::le_value(b.subrange(24, 26)) == c.dev_path_len
            &&& forall|i: int| 26 <= i < 80 ==> #[trigger] b[i] == 0
        }),
{
    broadcast use bytes::lemma_le_bytes_len;

    bytes::lemma_radix();
    let b = ublk_abi::payload_of(c.layout());
    assert(b.len() == 80);
    assert(b.subrange(0, 4) =~= bytes::le_bytes(c.dev_id as nat, 4));
    assert(b.subrange(4, 6) =~= bytes::le_bytes(c.queue_id as nat, 2));
    assert(b.subrange(6, 8) =~= bytes::le_bytes(c.len as nat, 2));
    assert(b.subrange(8, 16) =~= bytes::le_bytes(c.addr as nat, 8));
    assert(b.subrange(16, 24) =~= bytes::le_bytes(c.data as nat, 8));
    assert(b.subrange(24, 26) =~= bytes::le_bytes(c.dev_path_len as nat, 2));
    bytes::le_round_trip(c.dev_id as nat, 4);
    bytes::le_round_trip(c.queue_id as nat, 2);
    bytes::le_round_trip(c.len as nat, 2);
    bytes::le_round_trip(c.addr as nat, 8);
    bytes::le_round_trip(c.data as nat, 8);
    bytes::le_round_trip(c.dev_path_len as nat, 2);
}

/// An I/O command is laid out as the kernel has it, in the room that a
/// submission entry has.
pub proof fn an_io_command_is_laid_out(c: UblkIoCmd)
    ensures
        ({
            let b = ublk_abi::payload_of(c.layout());
            &&& b.len() == 80
            &&& bytes::le_value(b.subrange(0, 2)) == c.q_id
            &&& bytes::le_value(b.subrange(2, 4)) == c.tag
            &&& bytes::le_value(b.subrange(4, 8)) == c.result as u32
            &&& bytes::le_value(b.subrange(8, 16)) == c.addr
            &&& forall|i: int| 16 <= i < 80 ==> #[trigger] b[i] == 0
        }),
{
    broadcast use bytes::lemma_le_bytes_len;

    bytes::lemma_radix();
    let b = ublk_abi::payload_of(c.layout());
    assert(b.len() == 80);
    assert(b.subrange(0, 2) =~= bytes::le_bytes(c.q_id as nat, 2));
    assert(b.subrange(2, 4) =~= bytes::le_bytes(c.tag as nat, 2));
    assert(b.subrange(4, 8) =~= bytes::le_bytes(c.result as u32 as nat, 4));
    assert(b.subrange(8, 16) =~= bytes::le_bytes(c.addr as nat, 8));
    bytes::le_round_trip(c.q_id as nat, 2);
    bytes::le_round_trip(c.tag as nat, 2);
    bytes::le_round_trip(c.result as u32 as nat, 4);
    bytes::le_round_trip(c.addr as nat, 8);
}

/// The parameters of a device are laid out as the kernel has them.
pub proof fn parameters_are_laid_out(p: UblkParams)
    ensures
        ({
            let b = p.layout();
            &&& b.len() == 64
            &&& b[12] == p.basic.logical_bs_shift
            &&& b[13] == p.basic.physical_bs_shift
            &&& b[14] == p.basic.io_opt_shift
            &&& b[15] == p.basic.io_min_shift
            &&& bytes::le_value(b.subrange(0, 4)) == 64
            &&& bytes::le_value(b.subrange(4, 8)) == p.types
            &&& bytes::le_value(b.subrange(8, 12)) == p.basic.attrs
            &&& bytes::le_value(b.subrange(16, 20)) == p.basic.max_sectors
            &&& bytes::le_value(b.subrange(20, 24)) == p.basic.chunk_sectors
            &&& bytes::le_value(b.subrange(24, 32)) == p.basic.dev_sectors
            &&& bytes::le_value(b.subrange(32, 40)) == p.basic.virt_boundary_mask
            &&& bytes::le_value(b.subrange(40, 44)) == p.discard.discard_alignment
            &&& bytes::le_value(b.subrange(44, 48)) == p.discard.discard_granularity
            &&& bytes::le_value(b.subrange(48, 52)) == p.discard.max_discard_sectors
            &&& bytes::le_value(b.subrange(52, 56)) == p.discard.max_write_zeroes_sectors
            &&& bytes::le_value(b.subrange(56, 58)) == p.discard.max_discard_segments
            &&& forall|i: int| 58 <= i < 64 ==> #[trigger] b[i] == 0
        }),
{
    broadcast use bytes::lemma_le_bytes_len;

    bytes::lemma_radix();
    let b = p.layout();
    assert(b.len() == 64);
    assert(b.subrange(0, 4) =~= bytes::le_bytes(64nat, 4));
    assert(b.subrange(4, 8) =~= bytes::le_bytes(p.types as nat, 4));
    assert(b.subrange(8, 12) =~= bytes::le_bytes(p.basic.attrs as nat, 4));
    assert(b.subrange(16, 20) =~= bytes::le_bytes(p.basic.max_sectors as nat, 4));
    assert(b.subrange(20, 24) =~= bytes::le_bytes(p.basic.chunk_sectors as nat, 4));
    assert(b.subrange(24, 32) =~= bytes::le_bytes(p.basic.dev_sectors as nat, 8));
    assert(b.subrange(32, 40) =~= bytes::le_bytes(p.basic.virt_boundary_mask as nat, 8));
    assert(b.subrange(40, 44) =~= bytes::le_bytes(p.discard.discard_alignment as nat, 4));
    assert(b.subrange(44, 48) =~= bytes::le_bytes(p.discard.discard_granularity as nat, 4));
    assert(b.subrange(48, 52) =~= bytes::le_bytes(p.discard.max_discard_sectors as nat, 4));
    assert(b.subrange(52, 56) =~= bytes::le_bytes(p.discard.max_write_zeroes_sectors as nat, 4));
    assert(b.subrange(56, 58) =~= bytes::le_bytes(p.discard.max_discard_segments as nat, 2));
    bytes::le_round_trip(64nat, 4);
    bytes::le_round_trip(p.types as nat, 4);
    bytes::le_round_trip(p.basic.attrs as nat, 4);
    bytes::le_round_trip(p.basic.max_sectors as nat, 4);
    bytes::le_round_trip(p.basic.chunk_sectors as nat, 4);
    bytes::le_round_trip(p.basic.dev_sectors as nat, 8);
    bytes::le_round_trip(p.basic.virt_boundary_mask as nat, 8);
    bytes::le_round_trip(p.discard.discard_alignment as nat, 4);
    bytes::le_round_trip(p.discard.discard_granularity as nat, 4);
    bytes::le_round_trip(p.discard.max_discard_sectors as nat, 4);
    bytes::le_round_trip(p.discard.max_write_zeroes_sectors as nat, 4);
    bytes::le_round_trip(p.discard.max_discard_segments as nat, 2);
}

/// A descriptor is taken as the kernel wrote it: what is asked for, how many
/// sectors, from which on, and where the data is.
pub proof fn a_descriptor_is_read(d: UblkIoDesc)
    ensures
        UblkIoDesc::held(
            bytes::le_bytes(d.op_flags as nat, 4) + bytes::le_bytes(d.nr_sectors as nat, 4)
                + bytes::le_bytes(d.start_sector as nat, 8) + bytes::le_bytes(d.addr as nat, 8),
        ) == d,
{
    broadcast use bytes::lemma_le_bytes_len;

    bytes::lemma_radix();
    let b = bytes::le_bytes(d.op_flags as nat, 4) + bytes::le_bytes(d.nr_sectors as nat, 4)
        + bytes::le_bytes(d.start_sector as nat, 8) + bytes::le_bytes(d.addr as nat, 8);
    assert(b.subrange(0, 4) =~= bytes::le_bytes(d.op_flags as nat, 4));
    assert(b.subrange(4, 8) =~= bytes::le_bytes(d.nr_sectors as nat, 4));
    assert(b.subrange(8, 16) =~= bytes::le_bytes(d.start_sector as nat, 8));
    assert(b.subrange(16, 24) =~= bytes::le_bytes(d.addr as nat, 8));
    bytes::le_round_trip(d.op_flags as nat, 4);
    bytes::le_round_trip(d.nr_sectors as nat, 4);
    bytes::le_round_trip(d.start_sector as nat, 8);
    bytes::le_round_trip(d.addr as nat, 8);
}

/// A request is carried out on the bytes of the sectors that it names, 512 to a
/// sector, and as what its lowest byte says: 0 reads, 1 writes, 2 flushes, 3
/// discards, 5 writes zeroes, and nothing else is known.
pub proof fn a_request_is_carried_out_where_it_names(d: UblkIoDesc)
    requires
        ublk::servable(d),
    ensures
        ({
            let op = d.op_flags as int % 256;
            let q = ublk::queue_op(d);
            let at = d.start_sector * 512;
            let n = d.nr_sectors * 512;
            &&& op == 0 ==> (q matches QueueOp::Read { offset, len } && offset == at && len == n)
            &&& op == 1 ==> (q matches QueueOp::Write { offset, len } && offset == at && len == n)
            &&& op == 2 ==> q == QueueOp::Flush
            &&& op == 3 ==> (q matches QueueOp::Discard { offset, len } && offset == at && len == n)
            &&& op == 5 ==> (q matches QueueOp::WriteZeroes { offset, len } && offset == at && len
                == n)
            &&& op == 4 || op > 5 ==> q is Unknown
        }),
        d.start_sector * 512 <= u64::MAX,
        d.op_flags as int % 256 <= 1 ==> d.nr_sectors * 512 <= 524288,
{
    let f = d.op_flags;
    assert(f & 0xFF == f % 256) by (bit_vector);
}

/// A request that can be told apart from one that cannot be carried out: only
/// one whose place is no 64-bit number, or whose data is more than its buffer
/// holds, cannot.
pub proof fn which_requests_can_be_served(d: UblkIoDesc)
    ensures
        ublk::servable(d) <==> d.start_sector * 512 <= u64::MAX && (d.op_flags as int % 256 <= 1
            ==> d.nr_sectors * 512 <= 524288),
{
    let f = d.op_flags;
    assert(f & 0xFF == f % 256) by (bit_vector);
}

/// The kernel is told how many bytes were moved, zero where none were to be,
/// and the system's number of the error where the device failed; what is not
/// known is not supported, and zeroes that could not be written are no error.
pub proof fn the_kernel_is_told_how_it_went(offset: u64, len: u32, n: u64, op: u8)
    ensures
        ublk::answer_to(QueueOp::Read { offset, len }, true) == len,
        ublk::answer_to(QueueOp::Write { offset, len }, true) == len,
        ublk::answer_to(QueueOp::Read { offset, len }, false) == -5,
        ublk::answer_to(QueueOp::Write { offset, len }, false) == -5,
        ublk::answer_to(QueueOp::Flush, true) == 0,
        ublk::answer_to(QueueOp::Flush, false) == -5,
        ublk::answer_to(QueueOp::Discard { offset, len: n }, true) == 0,
        ublk::answer_to(QueueOp::Discard { offset, len: n }, false) == -5,
        ublk::answer_to(QueueOp::WriteZeroes { offset, len: n }, true) == 0,
        ublk::answer_to(QueueOp::WriteZeroes { offset, len: n }, false) == 0,
        ublk::answer_to(QueueOp::Unknown { op }, true) == -95,
        ublk::answer_to(QueueOp::Unknown { op }, false) == -95,
{
}

/// Each completion that is no error brings one request, the one that the
/// descriptor of its tag describes, in the order of the completions; one that is
/// an error brings none.
pub proof fn each_completion_brings_its_request(
    done: Seq<(u16, i32)>,
    tag: u16,
    result: i32,
    descs: Seq<UblkIoDesc>,
)
    ensures
        ublk::jobs_of(Seq::<(u16, i32)>::empty(), descs) == Seq::<Job>::empty(),
        result < 0 ==> ublk::jobs_of(done.push((tag, result)), descs) == ublk::jobs_of(done, descs),
        result >= 0 ==> ublk::jobs_of(done.push((tag, result)), descs) == ublk::jobs_of(
            done,
            descs,
        ).push(Job { tag, op: ublk::queue_op(descs[tag as int]) }),
{
    assert(done.push((tag, result)).drop_last() =~= done);
}

/// A new device has the size of what it exports, in sectors of 512 bytes; its
/// blocks and what it can discard are the exported device's, and no request is
/// larger than its buffer.
pub proof fn a_new_device_has_the_exported_size(capacity: u64, block_size: u32)
    ensures
        ({
            let p = ublk::params_of(capacity, block_size);
            &&& p.basic.dev_sectors * 512 <= capacity < (p.basic.dev_sectors + 1) * 512
            &&& p.basic.max_sectors * 512 == 524288
            &&& p.discard.max_discard_sectors * 512 == 524288
            &&& p.discard.max_write_zeroes_sectors * 512 == 524288
            &&& p.discard.discard_granularity == block_size
            &&& p.discard.max_discard_segments == 1
            &&& p.discard.discard_alignment == 0
            &&& p.basic.logical_bs_shift == p.basic.physical_bs_shift
            &&& p.basic.logical_bs_shift == p.basic.io_min_shift
            &&& p.basic.logical_bs_shift as u32 == vstd::std_specs::bits::u32_trailing_zeros(
                block_size,
            )
            &&& p.basic.io_opt_shift == 12
            &&& p.basic.attrs == 0 && p.basic.chunk_sectors == 0 && p.basic.virt_boundary_mask == 0
            &&& p.types == 3
        }),
{
    assert(1u32 | 2u32 == 3u32) by (bit_vector);
    vstd::std_specs::bits::axiom_u32_trailing_zeros(block_size);
}

/// A control command tells the kernel its number, the device it is about, the
/// length and the place of its buffer, and the one number that it carries: the
/// server's process where a device goes live, a size in sectors where it grows.
pub proof fn a_request_is_told(r: CtrlRequest, addr: u64, id: u32, pid: u32, n: u64)
    ensures
        r.structure(addr).queue_id == 0xffff,
        r.structure(addr).addr == addr,
        r.structure(addr).dev_path_len == 0,
        r == (CtrlRequest::GetInfo { id }) ==> r.op_of() == 0x8020_7502 && r.structure(addr).dev_id
            == id && r.structure(addr).len == 64 && r.structure(addr).data == 0,
        r is GetFeatures ==> r.op_of() == 0x8020_7513 && r.structure(addr).len == 8,
        r == (CtrlRequest::Stop { id }) ==> r.op_of() == 0xC020_7507 && r.structure(addr).dev_id
            == id && r.structure(addr).len == 0,
        r == (CtrlRequest::Delete { id }) ==> r.op_of() == 0xC020_7505 && r.structure(addr).dev_id
            == id && r.structure(addr).len == 0,
        r == (CtrlRequest::Start { id, pid }) ==> r.op_of() == 0xC020_7506 && r.structure(
            addr,
        ).dev_id == id && r.structure(addr).data == pid,
        r == (CtrlRequest::StartRecovery { id }) ==> r.op_of() == 0xC020_7510 && r.structure(
            addr,
        ).dev_id == id,
        r == (CtrlRequest::EndRecovery { id, pid }) ==> r.op_of() == 0xC020_7511 && r.structure(
            addr,
        ).dev_id == id && r.structure(addr).data == pid,
        r == (CtrlRequest::UpdateSize { id, sectors: n }) ==> r.op_of() == 0xC020_7515
            && r.structure(addr).dev_id == id && r.structure(addr).data == n,
        r matches CtrlRequest::Add { info } ==> r.op_of() == 0xC020_7504 && r.structure(addr).dev_id
            == info.dev_id && r.structure(addr).len == 64 && r.buffer_of() == info.layout(),
        r matches CtrlRequest::SetParams { id: i, params } ==> r.op_of() == 0xC020_7508
            && r.structure(addr).dev_id == i && r.structure(addr).len == 64 && r.buffer_of()
            == params.layout(),
{
    if let CtrlRequest::Add { info } = r {
        a_record_is_laid_out(info);
    }
    if let CtrlRequest::SetParams { id: i, params } = r {
        parameters_are_laid_out(params);
    }
}

/// What the kernel answers is taken as it wrote it: a record where it has
/// written one, its features where it was asked for them.
pub proof fn a_reply_is_taken(r: CtrlRequest, info: UblkCtrlDevInfo, features: u64)
    ensures
        r is GetInfo || r is Add ==> r.reply_of(info.layout()) == Reply::Info(info),
        r is GetFeatures ==> r.reply_of(bytes::le_bytes(features as nat, 8)) == Reply::Features(
            features,
        ),
        !(r is GetInfo) && !(r is Add) && !(r is GetFeatures) ==> r.reply_of(info.layout())
            == Reply::Nothing,
{
    bytes::lemma_radix();
    ublk_abi::a_record_reads_back(info);
    bytes::le_round_trip(features as nat, 8);
}

/// A device that is created comes up in this order: what the kernel offers is asked
/// for, the device is added with the queues, the depth and the process of the
/// server, it gets the size and the blocks of what it exports, its character
/// device is opened, its queues are mapped, a worker serves each, and only then
/// it goes live, under the number that the kernel gave it.
pub proof fn a_device_comes_up_in_order(
    s: UblkServer,
    id: u32,
    features: u64,
    info: UblkCtrlDevInfo,
    reply: Reply,
    late: bool,
)
    requires
        s.adopt is None,
        s.phase == (Phase::AskFeatures { id }),
    ensures
        ({
            let (s1, a1) = ublk::next(s, Event::Replied { reply: Reply::Features(features), late });
            let (s2, a2) = ublk::next(s1, Event::Replied { reply: Reply::Info(info), late });
            let (s3, a3) = ublk::next(s2, Event::Replied { reply, late });
            let (s4, a4) = ublk::next(s3, Event::Opened);
            let (s5, a5) = ublk::next(s4, Event::Mapped);
            let (s6, a6) = ublk::next(s5, Event::Spawned);
            let (s7, a7) = ublk::next(s6, Event::Replied { reply, late });
            let (s8, a8) = ublk::next(s7, Event::Found { yes: true });
            let geo = Geometry { id: info.dev_id, queues: s.nr_queues, depth: s.queue_depth };
            &&& a1 matches Action::Control { request: CtrlRequest::Add { info: w } } && w.dev_id
                == id && w.nr_hw_queues == s.nr_queues && w.queue_depth == s.queue_depth
                && w.ublksrv_pid == s.pid as i32 && w.max_io_buf_bytes == 524288 && w.flags
                == ublk::asked_flags(features, s.recoverable)
            &&& a2 == (Action::Control {
                request: CtrlRequest::SetParams {
                    id: info.dev_id,
                    params: ublk::params_of(s.capacity, s.block_size),
                },
            })
            &&& a3 == (Action::Open { id: info.dev_id })
            &&& a4 == (Action::MapQueues { geo })
            &&& a5 == (Action::Spawn { geo })
            &&& a6 == (Action::Control {
                request: CtrlRequest::Start { id: info.dev_id, pid: s.pid },
            })
            &&& a7 == (Action::FindBlockNode { id: info.dev_id })
            &&& a8 is Wait
            &&& s8.phase == (Phase::Serve { geo })
            &&& s8.running
            &&& s8.dev_id == info.dev_id as i32
            &&& s8.dev_sectors == s.capacity / 512
            &&& s8.resizable <==> info.flags & 0x400 != 0
        }),
{
}

/// A device that is adopted is taken over in this order: its record is read, it
/// is waited for until the kernel has quiesced it, recovery is begun, its
/// character device is opened, its queues, as the kernel knows them, are mapped,
/// a worker serves each, and only then recovery is ended.
pub proof fn a_device_is_taken_over_in_order(
    s: UblkServer,
    id: u32,
    info: UblkCtrlDevInfo,
    now: UblkCtrlDevInfo,
    reply: Reply,
    late: bool,
)
    requires
        s.adopt == Some(id),
        s.phase is Idle,
        info.flags & 0x8 != 0,
        now.state == 2,
    ensures
        ({
            let (s1, a1) = ublk::next(s, Event::Begin);
            let (s2, a2) = ublk::next(s1, Event::Replied { reply: Reply::Info(info), late });
            let (s3, a3) = ublk::next(s2, Event::Replied { reply: Reply::Info(now), late });
            let (s4, a4) = ublk::next(s3, Event::Replied { reply, late });
            let (s5, a5) = ublk::next(s4, Event::Opened);
            let (s6, a6) = ublk::next(s5, Event::Mapped);
            let (s7, a7) = ublk::next(s6, Event::Spawned);
            let geo = Geometry { id, queues: info.nr_hw_queues, depth: info.queue_depth };
            &&& a1 == (Action::Control { request: CtrlRequest::GetInfo { id } })
            &&& a2 == (Action::Control { request: CtrlRequest::GetInfo { id } })
            &&& a3 == (Action::Control { request: CtrlRequest::StartRecovery { id } })
            &&& a4 == (Action::Open { id })
            &&& a5 == (Action::MapQueues { geo })
            &&& a6 == (Action::Spawn { geo })
            &&& a7 == (Action::Control { request: CtrlRequest::EndRecovery { id, pid: s.pid } })
            &&& s7.running
            &&& s7.dev_id == id as i32
            &&& s7.dev_sectors == s.capacity / 512
        }),
{
}

/// A device is not adopted that was not created to be, nor one that the kernel
/// does not quiesce in time; until then it is looked at again and again.
pub proof fn what_is_not_adopted(
    s: UblkServer,
    id: u32,
    info: UblkCtrlDevInfo,
    now: UblkCtrlDevInfo,
    late: bool,
)
    ensures
        s.phase == (Phase::ReadInfo { id }) && info.flags & 0x8 == 0 ==> ublk::next(
            s,
            Event::Replied { reply: Reply::Info(info), late },
        ).1 is Fail,
        s.phase == (Phase::Quiesce { id, info }) && now.state != 2 && late ==> ublk::next(
            s,
            Event::Replied { reply: Reply::Info(now), late },
        ).1 is Fail,
        s.phase == (Phase::Quiesce { id, info }) && now.state != 2 && !late ==> ublk::next(
            s,
            Event::Replied { reply: Reply::Info(now), late },
        ) == (s, Action::ControlAfter { ms: 50, request: CtrlRequest::GetInfo { id } }),
{
}

/// A server that is to create a device at a place first clears the place: what
/// is there is stopped and deleted, whether or not there is anything.
pub proof fn a_wanted_place_is_cleared(s: UblkServer, id: u32, e: Event, f: Event)
    requires
        s.phase is Idle,
        s.adopt is None,
        e is Replied || e is Refused,
        f is Replied || f is Refused,
    ensures
        s.requested_dev_id == Some(id) && id != u32::MAX ==> {
            let (s1, a1) = ublk::next(s, Event::Begin);
            let (s2, a2) = ublk::next(s1, e);
            let (s3, a3) = ublk::next(s2, f);
            &&& a1 == (Action::Control { request: CtrlRequest::Stop { id } })
            &&& a2 == (Action::Control { request: CtrlRequest::Delete { id } })
            &&& a3 == (Action::Control { request: CtrlRequest::GetFeatures })
            &&& s3.phase == (Phase::AskFeatures { id })
        },
        s.requested_dev_id is None ==> ublk::next(s, Event::Begin).1 == (Action::Control {
            request: CtrlRequest::GetFeatures,
        }) && ublk::next(s, Event::Begin).0.phase == (Phase::AskFeatures { id: 0xffff_ffff }),
{
}

/// A character device that cannot be opened is tried ten times more, and then
/// its node is made from the numbers that the system tells.
pub proof fn an_absent_node_is_made(s: UblkServer, geo: Geometry, retries: u32, why: String)
    requires
        s.phase == (Phase::OpenNode { geo, retries }),
    ensures
        retries > 0 ==> ublk::next(s, Event::NotOpened { why }).1 == (Action::OpenAfter {
            ms: 100,
            id: geo.id,
        }) && ublk::next(s, Event::NotOpened { why }).0.phase == (Phase::OpenNode {
            geo,
            retries: (retries - 1) as u32,
        }),
        retries == 0 ==> ublk::next(s, Event::NotOpened { why }).1 == (Action::ReadCharNumbers {
            id: geo.id,
        }),
        ublk::next(s, Event::Opened).1 == (Action::MapQueues { geo }),
        ublk::OPEN_RETRIES == 10,
{
}

/// A device can change hands exactly if the kernel has quiesced it, or there is
/// none; and is back exactly if it is live.
pub proof fn when_a_device_is_settled(l: Look, states: Seq<Option<u16>>, i: int)
    requires
        0 <= i < states.len(),
    ensures
        ublk::settled(l) <==> l is Missing || l == Look::State(2),
        ublk::live_flags(states).len() == states.len(),
        ublk::live_flags(states)[i] <==> states[i] == Some(1u16),
{
}

/// The paths of a device are those that the system has it under.
pub proof fn devices_have_their_paths(id: u32)
    ensures
        ublk::block_path_of(id as int) == "/dev/ublkb"@ + text::decimal(id as nat),
        ublk::block_path_of(-1) == "/dev/ublkb"@ + (seq!['-'] + text::decimal(1)),
        ublk::char_path_of(id) == "/dev/ublkc"@ + text::decimal(id as nat),
        ublk::char_sysfs_of(id) == "/sys/class/ublk-char/ublkc"@ + text::decimal(id as nat)
            + "/dev"@,
        ublk::block_sysfs_of(id) == "/sys/block/ublkb"@ + text::decimal(id as nat) + "/dev"@,
{
}

} // verus!
