//! What a ublk server and the kernel say to each other: command numbers,
//! flags, and the byte layout of each structure.
use crate::bytes;
use vstd::prelude::*;

verus! {

/// Size of a control command's own structure.
pub const CTRL_CMD_LEN: usize = 32;

/// Size of the device's record of itself.
pub const DEV_INFO_LEN: usize = 64;

/// Size of the parameters of a device.
pub const PARAMS_LEN: usize = 64;

/// Size of an I/O command's own structure.
pub const IO_CMD_LEN: usize = 16;

/// Size of an I/O descriptor.
pub const IO_DESC_LEN: usize = 24;

/// Room for a command inside a submission entry.
pub const PAYLOAD_LEN: usize = 80;

/// Reads the device's own record of itself.
pub const UBLK_U_CMD_GET_DEV_INFO: u32 = 0x8020_7502;

pub const UBLK_U_CMD_ADD_DEV: u32 = 0xC020_7504;

pub const UBLK_U_CMD_DEL_DEV: u32 = 0xC020_7505;

pub const UBLK_U_CMD_START_DEV: u32 = 0xC020_7506;

pub const UBLK_U_CMD_STOP_DEV: u32 = 0xC020_7507;

pub const UBLK_U_CMD_SET_PARAMS: u32 = 0xC020_7508;

/// Reports the kernel's features.
pub const UBLK_U_CMD_GET_FEATURES: u32 = 0x8020_7513;

/// Tells the kernel that a new server takes over a device whose old server
/// has gone.
pub const UBLK_U_CMD_START_USER_RECOVERY: u32 = 0xC020_7510;

/// Finishes the takeover.
pub const UBLK_U_CMD_END_USER_RECOVERY: u32 = 0xC020_7511;

/// Resizes a live device; the new size is in sectors.
pub const UBLK_U_CMD_UPDATE_SIZE: u32 = 0xC020_7515;

/// Fetches a request.
pub const UBLK_U_IO_FETCH_REQ: u32 = 0xC010_7520;

/// Completes a request and fetches the next.
pub const UBLK_U_IO_COMMIT_AND_FETCH_REQ: u32 = 0xC010_7521;

pub const UBLK_IO_OP_READ: u8 = 0;

pub const UBLK_IO_OP_WRITE: u8 = 1;

pub const UBLK_IO_OP_FLUSH: u8 = 2;

pub const UBLK_IO_OP_DISCARD: u8 = 3;

pub const UBLK_IO_OP_WRITE_ZEROES: u8 = 5;

/// Basic parameters are given.
pub const UBLK_PARAM_TYPE_BASIC: u32 = 1;

/// Discard parameters are given.
pub const UBLK_PARAM_TYPE_DISCARD: u32 = 2;

pub const UBLK_F_URING_CMD_COMP_IN_TASK: u64 = 0x2;

/// The device outlives its server.
pub const UBLK_F_USER_RECOVERY: u64 = 0x8;

/// What was in flight when the old server went is given to the new one.
pub const UBLK_F_USER_RECOVERY_REISSUE: u64 = 0x10;

pub const UBLK_F_CMD_IOCTL_ENCODE: u64 = 0x40;

/// The device may be resized in place.
pub const UBLK_F_UPDATE_SIZE: u64 = 0x400;

pub const UBLK_S_DEV_DEAD: u16 = 0;

pub const UBLK_S_DEV_LIVE: u16 = 1;

pub const UBLK_S_DEV_QUIESCED: u16 = 2;

/// Largest request, in bytes.
pub const DEFAULT_MAX_IO_BYTES: u32 = 524288;

/// Requests in flight per queue.
pub const DEFAULT_QUEUE_DEPTH: u16 = 128;

/// The number of a control command that the kernel reads and writes: the two
/// direction bits, the size of the command's structure, the letter `u`, and
/// the command.
pub open spec fn read_write_number(nr: u32) -> u32 {
    (3u32 << 30) | (32u32 << 16) | (0x75u32 << 8) | nr
}

/// The number of a control command that the kernel only reads.
pub open spec fn read_number(nr: u32) -> u32 {
    (2u32 << 30) | (32u32 << 16) | (0x75u32 << 8) | nr
}

/// The number of a control command that the kernel reads and writes.
pub fn ublk_ctrl_cmd(nr: u32) -> (op: u32)
    ensures
        op == read_write_number(nr),
{
    (3u32 << 30) | (32u32 << 16) | (0x75u32 << 8) | nr
}

/// The number of a control command that the kernel only reads.
pub fn ublk_ctrl_cmd_read(nr: u32) -> (op: u32)
    ensures
        op == read_number(nr),
{
    (2u32 << 30) | (32u32 << 16) | (0x75u32 << 8) | nr
}

/// Every control command carries the number that its encoding gives it.
pub proof fn command_numbers_are_encoded()
    ensures
        UBLK_U_CMD_GET_DEV_INFO == read_number(0x02),
        UBLK_U_CMD_GET_FEATURES == read_number(0x13),
        UBLK_U_CMD_ADD_DEV == read_write_number(0x04),
        UBLK_U_CMD_DEL_DEV == read_write_number(0x05),
        UBLK_U_CMD_START_DEV == read_write_number(0x06),
        UBLK_U_CMD_STOP_DEV == read_write_number(0x07),
        UBLK_U_CMD_SET_PARAMS == read_write_number(0x08),
        UBLK_U_CMD_START_USER_RECOVERY == read_write_number(0x10),
        UBLK_U_CMD_END_USER_RECOVERY == read_write_number(0x11),
        UBLK_U_CMD_UPDATE_SIZE == read_write_number(0x15),
{
    assert((3u32 << 30) | (32u32 << 16) | (0x75u32 << 8) == 0xC020_7500u32 && (2u32 << 30) | (32u32
        << 16) | (0x75u32 << 8) == 0x8020_7500u32) by (bit_vector);
    assert(0x8020_7500u32 | 0x02 == 0x8020_7502u32 && 0x8020_7500u32 | 0x13 == 0x8020_7513u32
        && 0xC020_7500u32 | 0x04 == 0xC020_7504u32 && 0xC020_7500u32 | 0x05 == 0xC020_7505u32
        && 0xC020_7500u32 | 0x06 == 0xC020_7506u32 && 0xC020_7500u32 | 0x07 == 0xC020_7507u32
        && 0xC020_7500u32 | 0x08 == 0xC020_7508u32 && 0xC020_7500u32 | 0x10 == 0xC020_7510u32
        && 0xC020_7500u32 | 0x11 == 0xC020_7511u32 && 0xC020_7500u32 | 0x15 == 0xC020_7515u32)
        by (bit_vector);
}

/// The device's record of itself.
#[derive(Debug, Clone, Copy, PartialEq, Eq, Structural)]
pub struct UblkCtrlDevInfo {
    pub nr_hw_queues: u16,
    pub queue_depth: u16,
    pub state: u16,
    pub max_io_buf_bytes: u32,
    pub dev_id: u32,
    pub ublksrv_pid: i32,
    pub flags: u64,
    pub ublksrv_flags: u64,
    pub owner_uid: u32,
    pub owner_gid: u32,
}

impl UblkCtrlDevInfo {
    /// The record as the kernel lays it out.
    pub open spec fn layout(self) -> Seq<u8> {
        bytes::le_bytes(self.nr_hw_queues as nat, 2) + bytes::le_bytes(self.queue_depth as nat, 2)
            + bytes::le_bytes(self.state as nat, 2) + bytes::zeros(2) + bytes::le_bytes(
            self.max_io_buf_bytes as nat,
            4,
        ) + bytes::le_bytes(self.dev_id as nat, 4) + bytes::le_bytes(
            self.ublksrv_pid as u32 as nat,
            4,
        ) + bytes::zeros(4) + bytes::le_bytes(self.flags as nat, 8) + bytes::le_bytes(
            self.ublksrv_flags as nat,
            8,
        ) + bytes::le_bytes(self.owner_uid as nat, 4) + bytes::le_bytes(self.owner_gid as nat, 4)
            + bytes::zeros(16)
    }

    /// The record that a buffer holds.
    pub open spec fn held(b: Seq<u8>) -> UblkCtrlDevInfo {
        UblkCtrlDevInfo {
            nr_hw_queues: bytes::le_value(b.subrange(0, 2)) as u16,
            queue_depth: bytes::le_value(b.subrange(2, 4)) as u16,
            state: bytes::le_value(b.subrange(4, 6)) as u16,
            max_io_buf_bytes: bytes::le_value(b.subrange(8, 12)) as u32,
            dev_id: bytes::le_value(b.subrange(12, 16)) as u32,
            ublksrv_pid: (bytes::le_value(b.subrange(16, 20)) as u32) as i32,
            flags: bytes::le_value(b.subrange(24, 32)) as u64,
            ublksrv_flags: bytes::le_value(b.subrange(32, 40)) as u64,
            owner_uid: bytes::le_value(b.subrange(40, 44)) as u32,
            owner_gid: bytes::le_value(b.subrange(44, 48)) as u32,
        }
    }

    /// A record of zeros.
    pub open spec fn blank() -> UblkCtrlDevInfo {
        UblkCtrlDevInfo {
            nr_hw_queues: 0,
            queue_depth: 0,
            state: 0,
            max_io_buf_bytes: 0,
            dev_id: 0,
            ublksrv_pid: 0,
            flags: 0,
            ublksrv_flags: 0,
            owner_uid: 0,
            owner_gid: 0,
        }
    }

    /// The record as the kernel lays it out.
    pub fn as_bytes(&self) -> (b: Vec<u8>)
        ensures
            b@ == self.layout(),
            b@.len() == DEV_INFO_LEN,
    {
        broadcast use bytes::lemma_le_bytes_len;

        let mut b: Vec<u8> = Vec::new();
        bytes::push_le(&mut b, self.nr_hw_queues as u64, 2);
        bytes::push_le(&mut b, self.queue_depth as u64, 2);
        bytes::push_le(&mut b, self.state as u64, 2);
        bytes::push_zeros(&mut b, 2);
        bytes::push_le(&mut b, self.max_io_buf_bytes as u64, 4);
        bytes::push_le(&mut b, self.dev_id as u64, 4);
        bytes::push_le(&mut b, self.ublksrv_pid as u32 as u64, 4);
        bytes::push_zeros(&mut b, 4);
        bytes::push_le(&mut b, self.flags, 8);
        bytes::push_le(&mut b, self.ublksrv_flags, 8);
        bytes::push_le(&mut b, self.owner_uid as u64, 4);
        bytes::push_le(&mut b, self.owner_gid as u64, 4);
        bytes::push_zeros(&mut b, 16);
        assert(b@ =~= self.layout());
        b
    }

    /// The record that a buffer holds.
    pub fn read(b: &[u8]) -> (info: UblkCtrlDevInfo)
        requires
            b@.len() == DEV_INFO_LEN,
        ensures
            info == UblkCtrlDevInfo::held(b@),
    {
        proof {
            bytes::lemma_radix();
        }
        UblkCtrlDevInfo {
            nr_hw_queues: bytes::get_le(b, 0, 2) as u16,
            queue_depth: bytes::get_le(b, 2, 2) as u16,
            state: bytes::get_le(b, 4, 2) as u16,
            max_io_buf_bytes: bytes::get_le(b, 8, 4) as u32,
            dev_id: bytes::get_le(b, 12, 4) as u32,
            ublksrv_pid: (bytes::get_le(b, 16, 4) as u32) as i32,
            flags: bytes::get_le(b, 24, 8),
            ublksrv_flags: bytes::get_le(b, 32, 8),
            owner_uid: bytes::get_le(b, 40, 4) as u32,
            owner_gid: bytes::get_le(b, 44, 4) as u32,
        }
    }
}

impl Default for UblkCtrlDevInfo {
    fn default() -> (info: Self)
        ensures
            info == UblkCtrlDevInfo::blank(),
    {
        UblkCtrlDevInfo {
            nr_hw_queues: 0,
            queue_depth: 0,
            state: 0,
            max_io_buf_bytes: 0,
            dev_id: 0,
            ublksrv_pid: 0,
            flags: 0,
            ublksrv_flags: 0,
            owner_uid: 0,
            owner_gid: 0,
        }
    }
}

/// What a record says is read back from its layout.
pub proof fn a_record_reads_back(info: UblkCtrlDevInfo)
    ensures
        info.layout().len() == DEV_INFO_LEN,
        UblkCtrlDevInfo::held(info.layout()) == info,
{
    broadcast use bytes::lemma_le_bytes_len;

    bytes::lemma_radix();
    let b = info.layout();
    let p = info.ublksrv_pid;
    assert(b.subrange(0, 2) =~= bytes::le_bytes(info.nr_hw_queues as nat, 2));
    assert(b.subrange(2, 4) =~= bytes::le_bytes(info.queue_depth as nat, 2));
    assert(b.subrange(4, 6) =~= bytes::le_bytes(info.state as nat, 2));
    assert(b.subrange(8, 12) =~= bytes::le_bytes(info.max_io_buf_bytes as nat, 4));
    assert(b.subrange(12, 16) =~= bytes::le_bytes(info.dev_id as nat, 4));
    assert(b.subrange(16, 20) =~= bytes::le_bytes(p as u32 as nat, 4));
    assert(b.subrange(24, 32) =~= bytes::le_bytes(info.flags as nat, 8));
    assert(b.subrange(32, 40) =~= bytes::le_bytes(info.ublksrv_flags as nat, 8));
    assert(b.subrange(40, 44) =~= bytes::le_bytes(info.owner_uid as nat, 4));
    assert(b.subrange(44, 48) =~= bytes::le_bytes(info.owner_gid as nat, 4));
    bytes::le_round_trip(info.nr_hw_queues as nat, 2);
    bytes::le_round_trip(info.queue_depth as nat, 2);
    bytes::le_round_trip(info.state as nat, 2);
    bytes::le_round_trip(info.max_io_buf_bytes as nat, 4);
    bytes::le_round_trip(info.dev_id as nat, 4);
    bytes::le_round_trip(p as u32 as nat, 4);
    bytes::le_round_trip(info.flags as nat, 8);
    bytes::le_round_trip(info.ublksrv_flags as nat, 8);
    bytes::le_round_trip(info.owner_uid as nat, 4);
    bytes::le_round_trip(info.owner_gid as nat, 4);
    assert((p as u32) as i32 == p) by (bit_vector);
}

/// The structure of a control command.
#[derive(Debug, Clone, Copy, PartialEq, Eq, Structural)]
pub struct UblkCtrlCmd {
    pub dev_id: u32,
    pub queue_id: u16,
    pub len: u16,
    pub addr: u64,
    pub data: u64,
    pub dev_path_len: u16,
}

impl UblkCtrlCmd {
    /// The command as the kernel lays it out.
    pub open spec fn layout(self) -> Seq<u8> {
        bytes::le_bytes(self.dev_id as nat, 4) + bytes::le_bytes(self.queue_id as nat, 2)
            + bytes::le_bytes(self.len as nat, 2) + bytes::le_bytes(self.addr as nat, 8)
            + bytes::le_bytes(self.data as nat, 8) + bytes::le_bytes(self.dev_path_len as nat, 2)
            + bytes::zeros(6)
    }

    /// A command to one device, and to no queue of it in particular.
    pub fn new(dev_id: u32) -> (c: Self)
        ensures
            c == (UblkCtrlCmd { dev_id, queue_id: 0xFFFF, len: 0, addr: 0, data: 0, dev_path_len: 0 }),
    {
        UblkCtrlCmd { dev_id, queue_id: 0xFFFF, len: 0, addr: 0, data: 0, dev_path_len: 0 }
    }

    /// The command as the kernel lays it out.
    pub fn as_bytes(&self) -> (b: Vec<u8>)
        ensures
            b@ == self.layout(),
            b@.len() == CTRL_CMD_LEN,
    {
        broadcast use bytes::lemma_le_bytes_len;

        let mut b: Vec<u8> = Vec::new();
        bytes::push_le(&mut b, self.dev_id as u64, 4);
        bytes::push_le(&mut b, self.queue_id as u64, 2);
        bytes::push_le(&mut b, self.len as u64, 2);
        bytes::push_le(&mut b, self.addr, 8);
        bytes::push_le(&mut b, self.data, 8);
        bytes::push_le(&mut b, self.dev_path_len as u64, 2);
        bytes::push_zeros(&mut b, 6);
        assert(b@ =~= self.layout());
        b
    }
}

/// A command's structure, filled up with zeros to the room of a submission
/// entry.
pub open spec fn payload_of(layout: Seq<u8>) -> Seq<u8> {
    layout + bytes::zeros((PAYLOAD_LEN - layout.len()) as nat)
}

/// Fills a command's structure up to the room of a submission entry.
pub fn payload(layout: Vec<u8>) -> (b: Vec<u8>)
    requires
        layout@.len() <= PAYLOAD_LEN,
    ensures
        b@ == payload_of(layout@),
        b@.len() == PAYLOAD_LEN,
{
    let mut b = layout;
    let n: usize = b.len();
    bytes::push_zeros(&mut b, PAYLOAD_LEN - n);
    b
}

/// Basic parameters of a device.
#[derive(Debug, Clone, Copy, PartialEq, Eq, Structural)]
pub struct UblkParamBasic {
    pub attrs: u32,
    pub logical_bs_shift: u8,
    pub physical_bs_shift: u8,
    pub io_opt_shift: u8,
    pub io_min_shift: u8,
    pub max_sectors: u32,
    pub chunk_sectors: u32,
    pub dev_sectors: u64,
    pub virt_boundary_mask: u64,
}

impl UblkParamBasic {
    /// The parameters as the kernel lays them out.
    pub open spec fn layout(self) -> Seq<u8> {
        bytes::le_bytes(self.attrs as nat, 4) + seq![
            self.logical_bs_shift,
            self.physical_bs_shift,
            self.io_opt_shift,
            self.io_min_shift,
        ] + bytes::le_bytes(self.max_sectors as nat, 4) + bytes::le_bytes(
            self.chunk_sectors as nat,
            4,
        ) + bytes::le_bytes(self.dev_sectors as nat, 8) + bytes::le_bytes(
            self.virt_boundary_mask as nat,
            8,
        )
    }

    /// The parameters as the kernel lays them out.
    pub fn as_bytes(&self) -> (b: Vec<u8>)
        ensures
            b@ == self.layout(),
            b@.len() == 32,
    {
        broadcast use bytes::lemma_le_bytes_len;

        let mut b: Vec<u8> = Vec::new();
        bytes::push_le(&mut b, self.attrs as u64, 4);
        b.push(self.logical_bs_shift);
        b.push(self.physical_bs_shift);
        b.push(self.io_opt_shift);
        b.push(self.io_min_shift);
        bytes::push_le(&mut b, self.max_sectors as u64, 4);
        bytes::push_le(&mut b, self.chunk_sectors as u64, 4);
        bytes::push_le(&mut b, self.dev_sectors, 8);
        bytes::push_le(&mut b, self.virt_boundary_mask, 8);
        assert(b@ =~= self.layout());
        b
    }
}

/// Discard parameters of a device.
#[derive(Debug, Clone, Copy, PartialEq, Eq, Structural)]
pub struct UblkParamDiscard {
    pub discard_alignment: u32,
    pub discard_granularity: u32,
    pub max_discard_sectors: u32,
    pub max_write_zeroes_sectors: u32,
    pub max_discard_segments: u16,
}

impl UblkParamDiscard {
    /// The parameters as the kernel lays them out.
    pub open spec fn layout(self) -> Seq<u8> {
        bytes::le_bytes(self.discard_alignment as nat, 4) + bytes::le_bytes(
            self.discard_granularity as nat,
            4,
        ) + bytes::le_bytes(self.max_discard_sectors as nat, 4) + bytes::le_bytes(
            self.max_write_zeroes_sectors as nat,
            4,
        ) + bytes::le_bytes(self.max_discard_segments as nat, 2) + bytes::zeros(6)
    }

    /// The parameters as the kernel lays them out.
    pub fn as_bytes(&self) -> (b: Vec<u8>)
        ensures
            b@ == self.layout(),
            b@.len() == 24,
    {
        broadcast use bytes::lemma_le_bytes_len;

        let mut b: Vec<u8> = Vec::new();
        bytes::push_le(&mut b, self.discard_alignment as u64, 4);
        bytes::push_le(&mut b, self.discard_granularity as u64, 4);
        bytes::push_le(&mut b, self.max_discard_sectors as u64, 4);
        bytes::push_le(&mut b, self.max_write_zeroes_sectors as u64, 4);
        bytes::push_le(&mut b, self.max_discard_segments as u64, 2);
        bytes::push_zeros(&mut b, 6);
        assert(b@ =~= self.layout());
        b
    }
}

/// All parameters of a device.
#[derive(Debug, Clone, Copy, PartialEq, Eq, Structural)]
pub struct UblkParams {
    pub types: u32,
    pub basic: UblkParamBasic,
    pub discard: UblkParamDiscard,
}

impl UblkParams {
    /// The parameters as the kernel lays them out, their own size first.
    pub open spec fn layout(self) -> Seq<u8> {
        bytes::le_bytes(PARAMS_LEN as nat, 4) + bytes::le_bytes(self.types as nat, 4)
            + self.basic.layout() + self.discard.layout()
    }

    /// The parameters as the kernel lays them out, their own size first.
    pub fn as_bytes(&self) -> (b: Vec<u8>)
        ensures
            b@ == self.layout(),
            b@.len() == PARAMS_LEN,
    {
        broadcast use bytes::lemma_le_bytes_len;

        let mut b: Vec<u8> = Vec::new();
        bytes::push_le(&mut b, PARAMS_LEN as u64, 4);
        bytes::push_le(&mut b, self.types as u64, 4);
        let mut basic = self.basic.as_bytes();
        b.append(&mut basic);
        let mut discard = self.discard.as_bytes();
        b.append(&mut discard);
        assert(b@ =~= self.layout());
        b
    }
}

/// The structure of an I/O command.
#[derive(Debug, Clone, Copy, PartialEq, Eq, Structural)]
pub struct UblkIoCmd {
    pub q_id: u16,
    pub tag: u16,
    pub result: i32,
    pub addr: u64,
}

impl UblkIoCmd {
    /// The command as the kernel lays it out.
    pub open spec fn layout(self) -> Seq<u8> {
        bytes::le_bytes(self.q_id as nat, 2) + bytes::le_bytes(self.tag as nat, 2)
            + bytes::le_bytes(self.result as u32 as nat, 4) + bytes::le_bytes(self.addr as nat, 8)
    }

    /// The command as the kernel lays it out.
    pub fn as_bytes(&self) -> (b: Vec<u8>)
        ensures
            b@ == self.layout(),
            b@.len() == IO_CMD_LEN,
    {
        broadcast use bytes::lemma_le_bytes_len;

        let mut b: Vec<u8> = Vec::new();
        bytes::push_le(&mut b, self.q_id as u64, 2);
        bytes::push_le(&mut b, self.tag as u64, 2);
        bytes::push_le(&mut b, self.result as u32 as u64, 4);
        bytes::push_le(&mut b, self.addr, 8);
        assert(b@ =~= self.layout());
        b
    }
}

/// An I/O descriptor: what the kernel asks for.
#[derive(Debug, Clone, Copy, PartialEq, Eq, Structural)]
pub struct UblkIoDesc {
    pub op_flags: u32,
    pub nr_sectors: u32,
    pub start_sector: u64,
    pub addr: u64,
}

impl UblkIoDesc {
    /// The descriptor that a buffer holds.
    pub open spec fn held(b: Seq<u8>) -> UblkIoDesc {
        UblkIoDesc {
            op_flags: bytes::le_value(b.subrange(0, 4)) as u32,
            nr_sectors: bytes::le_value(b.subrange(4, 8)) as u32,
            start_sector: bytes::le_value(b.subrange(8, 16)) as u64,
            addr: bytes::le_value(b.subrange(16, 24)) as u64,
        }
    }

    /// The descriptor that a buffer holds.
    pub fn read(b: &[u8]) -> (d: UblkIoDesc)
        requires
            b@.len() == IO_DESC_LEN,
        ensures
            d == UblkIoDesc::held(b@),
    {
        proof {
            bytes::lemma_radix();
        }
        UblkIoDesc {
            op_flags: bytes::get_le(b, 0, 4) as u32,
            nr_sectors: bytes::get_le(b, 4, 4) as u32,
            start_sector: bytes::get_le(b, 8, 8),
            addr: bytes::get_le(b, 16, 8),
        }
    }
}

} // verus!
