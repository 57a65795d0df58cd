//! Exporting a device as `/dev/ublkbN` through the kernel's ublk driver.
//!
//! The library decides: which control command comes next, what an I/O request
//! of the kernel asks of the device and what it is answered, and who has to
//! stand down before a device changes hands. Opening, submitting, mapping,
//! waiting and signalling are done by the caller, who hands back what came of
//! it.
use crate::drive::ublk_abi::{
    UblkCtrlCmd, UblkCtrlDevInfo, UblkIoCmd, UblkIoDesc, UblkParamBasic, UblkParamDiscard, UblkParams,
    DEFAULT_MAX_IO_BYTES, DEFAULT_QUEUE_DEPTH, UBLK_F_CMD_IOCTL_ENCODE, UBLK_F_UPDATE_SIZE,
    UBLK_F_URING_CMD_COMP_IN_TASK, UBLK_F_USER_RECOVERY, UBLK_F_USER_RECOVERY_REISSUE,
    UBLK_IO_OP_DISCARD, UBLK_IO_OP_FLUSH, UBLK_IO_OP_READ, UBLK_IO_OP_WRITE,
    UBLK_IO_OP_WRITE_ZEROES, UBLK_PARAM_TYPE_BASIC, UBLK_PARAM_TYPE_DISCARD, UBLK_S_DEV_LIVE,
    UBLK_S_DEV_QUIESCED, UBLK_U_CMD_ADD_DEV, UBLK_U_CMD_DEL_DEV, UBLK_U_CMD_END_USER_RECOVERY,
    UBLK_U_CMD_GET_DEV_INFO, UBLK_U_CMD_GET_FEATURES, UBLK_U_CMD_SET_PARAMS, UBLK_U_CMD_START_DEV,
    UBLK_U_CMD_START_USER_RECOVERY, UBLK_U_CMD_STOP_DEV, UBLK_U_CMD_UPDATE_SIZE,
};
use crate::drive::{ublk_abi, DriveError, DriveResult};
use crate::{bytes, order, text};
use vstd::prelude::*;

verus! {

/// How long a device may take to quiesce before it is adopted.
pub const QUIESCE_TIMEOUT_MS: u64 = 30000;

/// How long to wait before a state is asked for again.
pub const POLL_MS: u64 = 50;

/// How long to wait before the character device is opened again.
pub const OPEN_RETRY_MS: u64 = 100;

/// How often the character device is opened again.
pub const OPEN_RETRIES: u32 = 10;

/// How long a killed server is given to let go of its devices.
pub const KILL_GRACE_MS: u64 = 500;

/// How long a server waits between two looks at devices that are to quiesce.
pub const STAND_DOWN_POLL_MS: u64 = 20;

/// Numbers of system errors that decide something here.
pub const EINTR: i32 = 4;

pub const EIO: i32 = 5;

pub const ENODEV: i32 = 19;

pub const ETIME: i32 = 62;

pub const ENOTSUP: i32 = 95;

/// What can go wrong.
#[allow(inconsistent_fields)]
#[derive(Debug)]
pub enum UblkFault {
    NotRunning,
    NotResizable { id: i32 },
    NotWholeSectors { bytes: u64 },
    Shrink { id: i32, current: u64, sectors: u64 },
    NoInfo { id: u32, why: String },
    NotRecoverable { id: u32 },
    LostInfo { id: u32, why: String },
    NeverQuiesced { id: u32, state: u16 },
    NoRecovery { id: u32, why: String },
    /// A control command failed, in the words of its own error.
    Control { why: String },
    NoNode { id: u32, why: String },
    BadNode { found: String },
    BadMajor { found: String },
    BadMinor { found: String },
    NodeNotMade { id: u32, major: u32, minor: u32, why: String },
    NodeNotOpened { id: u32, why: String },
    NotMapped { queue: u16, why: String },
    NotSpawned { queue: u16, why: String },
    CommandFailed { op: u32, why: String },
}

/// A number with its sign, in decimal.
pub open spec fn signed(n: int) -> Seq<char> {
    if n < 0 {
        seq!['-'] + text::decimal((-n) as nat)
    } else {
        text::decimal(n as nat)
    }
}

/// Path of a block device.
pub open spec fn block_path_of(id: int) -> Seq<char> {
    "/dev/ublkb"@ + signed(id)
}

/// Path of a character device.
pub open spec fn char_path_of(id: u32) -> Seq<char> {
    "/dev/ublkc"@ + text::decimal(id as nat)
}

/// Where the system tells the numbers of a character device.
pub open spec fn char_sysfs_of(id: u32) -> Seq<char> {
    "/sys/class/ublk-char/ublkc"@ + text::decimal(id as nat) + "/dev"@
}

/// Where the system tells the numbers of a block device.
pub open spec fn block_sysfs_of(id: u32) -> Seq<char> {
    "/sys/block/ublkb"@ + text::decimal(id as nat) + "/dev"@
}

fn push_signed(s: &mut String, n: i64)
    requires
        -0x8000_0000 <= n,
    ensures
        final(s)@ == old(s)@ + signed(n as int),
{
    if n < 0 {
        s.push('-');
        text::push_decimal(s, (-n) as u64);
        assert(s@ =~= old(s)@ + signed(n as int));
    } else {
        text::push_decimal(s, n as u64);
    }
}

/// Path of a block device.
pub fn block_path(id: u32) -> (s: String)
    ensures
        s@ == block_path_of(id as int),
{
    let mut s = "/dev/ublkb".to_owned();
    text::push_decimal(&mut s, id as u64);
    s
}

/// Path of a character device.
pub fn char_path(id: u32) -> (s: String)
    ensures
        s@ == char_path_of(id),
{
    let mut s = "/dev/ublkc".to_owned();
    text::push_decimal(&mut s, id as u64);
    s
}

/// Where the system tells the numbers of a character device.
pub fn char_sysfs(id: u32) -> (s: String)
    ensures
        s@ == char_sysfs_of(id),
{
    let mut s = "/sys/class/ublk-char/ublkc".to_owned();
    text::push_decimal(&mut s, id as u64);
    s.append("/dev");
    s
}

/// Where the system tells the numbers of a block device.
pub fn block_sysfs(id: u32) -> (s: String)
    ensures
        s@ == block_sysfs_of(id),
{
    let mut s = "/sys/block/ublkb".to_owned();
    text::push_decimal(&mut s, id as u64);
    s.append("/dev");
    s
}

/// The parts of a `major:minor` text.
pub open spec fn node_parts(s: Seq<char>) -> Seq<Seq<char>> {
    text::pieces(text::trimmed(s), ':')
}

impl UblkFault {
    /// The fault in words.
    pub open spec fn message(self) -> Seq<char> {
        match self {
            UblkFault::NotRunning => "ublk device is not running — nothing to resize"@,
            UblkFault::NotResizable { id } => "ublk device "@ + signed(id as int)
                + " was created without UBLK_F_UPDATE_SIZE (kernel too old) — the volume grew but "@
                + block_path_of(id as int) + " cannot follow"@,
            UblkFault::NotWholeSectors { bytes } =>
                "ublk size must be a whole number of 512-byte sectors, got "@ + text::decimal(
                bytes as nat,
            ),
            UblkFault::Shrink { id, current, sectors } => "refusing to shrink ublk device "@
                + signed(id as int) + " from "@ + text::decimal(current as nat) + " to "@
                + text::decimal(sectors as nat)
                + " sectors: a mounted filesystem cannot follow a device that got smaller"@,
            UblkFault::NoInfo { id, why } => "ublk: cannot read "@ + block_path_of(id as int)
                + " to adopt it: "@ + why@,
            UblkFault::NotRecoverable { id } => "ublk: "@ + block_path_of(id as int)
                + " was created without UBLK_F_USER_RECOVERY and cannot be adopted — the flag is fixed at creation, so whoever made this device had to ask for it"@,
            UblkFault::LostInfo { id, why } => "ublk: cannot read "@ + block_path_of(id as int)
                + " while waiting to adopt it: "@ + why@,
            UblkFault::NeverQuiesced { id, state } => "ublk: "@ + block_path_of(id as int)
                + " never quiesced (state "@ + text::decimal(state as nat) + ", wanted "@
                + text::decimal(UBLK_S_DEV_QUIESCED as nat)
                + "): the previous server has stood down but the kernel still holds the device — it may still have I/O in flight"@,
            UblkFault::NoRecovery { id, why } => "ublk: "@ + block_path_of(id as int)
                + " would not begin recovery: "@ + why@
                + " (is the previous server really gone?)"@,
            UblkFault::Control { why } => why@,
            UblkFault::NoNode { id, why } => char_path_of(id) + " missing and sysfs "@
                + char_sysfs_of(id) + " unreadable: "@ + why@,
            UblkFault::BadNode { found } => "bad sysfs dev format: "@ + text::quoted(found@),
            UblkFault::BadMajor { found } => "bad major: "@ + node_parts(found@)[0],
            UblkFault::BadMinor { found } => "bad minor: "@ + node_parts(found@)[1],
            UblkFault::NodeNotMade { id, major, minor, why } => "mknod "@ + char_path_of(id)
                + " ("@ + text::decimal(major as nat) + ":"@ + text::decimal(minor as nat)
                + ") failed: "@ + why@,
            UblkFault::NodeNotOpened { id, why } => "failed to open "@ + char_path_of(id)
                + " after mknod: "@ + why@,
            UblkFault::NotMapped { queue, why } => "mmap ublk queue "@ + text::decimal(
                queue as nat,
            ) + " descriptors failed: "@ + why@,
            UblkFault::NotSpawned { queue, why } => "failed to spawn ublk queue "@
                + text::decimal(queue as nat) + " worker: "@ + why@,
            UblkFault::CommandFailed { op, why } => "ublk ctrl cmd 0x"@ + text::hex(op as nat)
                + " failed: "@ + why@,
        }
    }

    /// Whether a fault's words can be written down: a bad number is one of
    /// two.
    pub open spec fn wf(self) -> bool {
        match self {
            UblkFault::BadMajor { found } => node_parts(found@).len() == 2,
            UblkFault::BadMinor { found } => node_parts(found@).len() == 2,
            _ => true,
        }
    }

    /// The fault in words.
    pub fn to_string(&self) -> (s: String)
        requires
            self.wf(),
        ensures
            s@ == self.message(),
    {
        match self {
            UblkFault::NotRunning => "ublk device is not running — nothing to resize".to_owned(),
            UblkFault::NotResizable { id } => {
                let mut s = "ublk device ".to_owned();
                push_signed(&mut s, *id as i64);
                s.append(" was created without UBLK_F_UPDATE_SIZE (kernel too old) — the volume grew but ");
                let mut p = "/dev/ublkb".to_owned();
                push_signed(&mut p, *id as i64);
                s.append(&p);
                s.append(" cannot follow");
                s
            },
            UblkFault::NotWholeSectors { bytes } => {
                let mut s = "ublk size must be a whole number of 512-byte sectors, got ".to_owned();
                text::push_decimal(&mut s, *bytes);
                s
            },
            UblkFault::Shrink { id, current, sectors } => {
                let mut s = "refusing to shrink ublk device ".to_owned();
                push_signed(&mut s, *id as i64);
                s.append(" from ");
                text::push_decimal(&mut s, *current);
                s.append(" to ");
                text::push_decimal(&mut s, *sectors);
                s.append(" sectors: a mounted filesystem cannot follow a device that got smaller");
                s
            },
            UblkFault::NoInfo { id, why } => {
                let mut s = "ublk: cannot read ".to_owned();
                s.append(&block_path(*id));
                s.append(" to adopt it: ");
                s.append(why);
                s
            },
            UblkFault::NotRecoverable { id } => {
                let mut s = "ublk: ".to_owned();
                s.append(&block_path(*id));
                s.append(" was created without UBLK_F_USER_RECOVERY and cannot be adopted — the flag is fixed at creation, so whoever made this device had to ask for it");
                s
            },
            UblkFault::LostInfo { id, why } => {
                let mut s = "ublk: cannot read ".to_owned();
                s.append(&block_path(*id));
                s.append(" while waiting to adopt it: ");
                s.append(why);
                s
            },
            UblkFault::NeverQuiesced { id, state } => {
                let mut s = "ublk: ".to_owned();
                s.append(&block_path(*id));
                s.append(" never quiesced (state ");
                text::push_decimal(&mut s, *state as u64);
                s.append(", wanted ");
                text::push_decimal(&mut s, UBLK_S_DEV_QUIESCED as u64);
                s.append("): the previous server has stood down but the kernel still holds the device — it may still have I/O in flight");
                s
            },
            UblkFault::NoRecovery { id, why } => {
                let mut s = "ublk: ".to_owned();
                s.append(&block_path(*id));
                s.append(" would not begin recovery: ");
                s.append(why);
                s.append(" (is the previous server really gone?)");
                s
            },
            UblkFault::Control { why } => why.clone(),
            UblkFault::NoNode { id, why } => {
                let mut s = char_path(*id);
                s.append(" missing and sysfs ");
                s.append(&char_sysfs(*id));
                s.append(" unreadable: ");
                s.append(why);
                s
            },
            UblkFault::BadNode { found } => {
                let mut s = "bad sysfs dev format: ".to_owned();
                s.append(&text::quoted_text(found));
                s
            },
            UblkFault::BadMajor { found } => {
                let mut s = "bad major: ".to_owned();
                s.append(&node_part(found, 0));
                s
            },
            UblkFault::BadMinor { found } => {
                let mut s = "bad minor: ".to_owned();
                s.append(&node_part(found, 1));
                s
            },
            UblkFault::NodeNotMade { id, major, minor, why } => {
                let mut s = "mknod ".to_owned();
                s.append(&char_path(*id));
                s.append(" (");
                text::push_decimal(&mut s, *major as u64);
                s.append(":");
                text::push_decimal(&mut s, *minor as u64);
                s.append(") failed: ");
                s.append(why);
                s
            },
            UblkFault::NodeNotOpened { id, why } => {
                let mut s = "failed to open ".to_owned();
                s.append(&char_path(*id));
                s.append(" after mknod: ");
                s.append(why);
                s
            },
            UblkFault::NotMapped { queue, why } => {
                let mut s = "mmap ublk queue ".to_owned();
                text::push_decimal(&mut s, *queue as u64);
                s.append(" descriptors failed: ");
                s.append(why);
                s
            },
            UblkFault::NotSpawned { queue, why } => {
                let mut s = "failed to spawn ublk queue ".to_owned();
                text::push_decimal(&mut s, *queue as u64);
                s.append(" worker: ");
                s.append(why);
                s
            },
            UblkFault::CommandFailed { op, why } => {
                let mut s = "ublk ctrl cmd 0x".to_owned();
                text::push_hex(&mut s, *op as u64);
                s.append(" failed: ");
                s.append(why);
                s
            },
        }
    }
}

/// Whether an error carries a fault's words.
pub open spec fn says(e: DriveError, f: UblkFault) -> bool {
    e matches DriveError::Other(s) && s@ == f.message()
}

/// The error that carries a fault's words.
pub fn error_of(f: &UblkFault) -> (e: DriveError)
    requires
        f.wf(),
    ensures
        says(e, *f),
{
    DriveError::Other(f.to_string())
}

/// One part of a `major:minor` text.
fn node_part(s: &str, i: usize) -> (r: String)
    requires
        i < node_parts(s@).len(),
    ensures
        r@ == node_parts(s@)[i as int],
{
    let trimmed = text::trim_text(s);
    let parts = text::split_all(&text::to_chars(&trimmed), ':');
    text::text_of(&parts[i])
}

/// What a text about the character device's node says.
#[derive(Debug, Clone, Copy, PartialEq, Eq, Structural)]
pub enum NodeText {
    Numbers { major: u32, minor: u32 },
    Bad,
    BadMajor,
    BadMinor,
}

/// What a `major:minor` text says, if it is one.
pub open spec fn node_text(s: Seq<char>) -> NodeText {
    let parts = node_parts(s);
    if parts.len() != 2 {
        NodeText::Bad
    } else {
        match (text::parsed(parts[0], u32::MAX as nat), text::parsed(parts[1], u32::MAX as nat)) {
            (None, _) => NodeText::BadMajor,
            (Some(a), None) => NodeText::BadMinor,
            (Some(a), Some(b)) => NodeText::Numbers { major: a as u32, minor: b as u32 },
        }
    }
}

/// What a `major:minor` text says, if it is one.
pub fn read_node(s: &str) -> (r: NodeText)
    ensures
        r == node_text(s@),
{
    let trimmed = text::trim_text(s);
    let parts = text::split_all(&text::to_chars(&trimmed), ':');
    if parts.len() != 2 {
        return NodeText::Bad;
    }
    match (text::parse_number(&parts[0], u32::MAX as u64), text::parse_number(
        &parts[1],
        u32::MAX as u64,
    )) {
        (None, _) => NodeText::BadMajor,
        (Some(_), None) => NodeText::BadMinor,
        (Some(a), Some(b)) => NodeText::Numbers { major: a as u32, minor: b as u32 },
    }
}

/// The numbers of a block device's node: the first two parts, where both are
/// numbers.
pub open spec fn block_numbers(s: Seq<char>) -> Option<(u32, u32)> {
    let parts = node_parts(s);
    if parts.len() < 2 {
        None
    } else {
        match (text::parsed(parts[0], u32::MAX as nat), text::parsed(parts[1], u32::MAX as nat)) {
            (Some(a), Some(b)) => Some((a as u32, b as u32)),
            _ => None,
        }
    }
}

/// The numbers of a block device's node, where they can be read.
pub fn read_block_node(s: &str) -> (r: Option<(u32, u32)>)
    ensures
        r == block_numbers(s@),
{
    let trimmed = text::trim_text(s);
    let parts = text::split_all(&text::to_chars(&trimmed), ':');
    if parts.len() < 2 {
        return None;
    }
    match (text::parse_number(&parts[0], u32::MAX as u64), text::parse_number(
        &parts[1],
        u32::MAX as u64,
    )) {
        (Some(a), Some(b)) => Some((a as u32, b as u32)),
        _ => None,
    }
}

/// A control command.
#[derive(Debug, Clone, Copy, PartialEq, Eq, Structural)]
pub enum CtrlRequest {
    GetInfo { id: u32 },
    GetFeatures,
    Stop { id: u32 },
    Delete { id: u32 },
    Add { info: UblkCtrlDevInfo },
    SetParams { id: u32, params: UblkParams },
    Start { id: u32, pid: u32 },
    StartRecovery { id: u32 },
    EndRecovery { id: u32, pid: u32 },
    UpdateSize { id: u32, sectors: u64 },
}

impl CtrlRequest {
    /// The command's number.
    pub open spec fn op_of(self) -> u32 {
        match self {
            CtrlRequest::GetInfo { id } => UBLK_U_CMD_GET_DEV_INFO,
            CtrlRequest::GetFeatures => UBLK_U_CMD_GET_FEATURES,
            CtrlRequest::Stop { id } => UBLK_U_CMD_STOP_DEV,
            CtrlRequest::Delete { id } => UBLK_U_CMD_DEL_DEV,
            CtrlRequest::Add { info } => UBLK_U_CMD_ADD_DEV,
            CtrlRequest::SetParams { id, params } => UBLK_U_CMD_SET_PARAMS,
            CtrlRequest::Start { id, pid } => UBLK_U_CMD_START_DEV,
            CtrlRequest::StartRecovery { id } => UBLK_U_CMD_START_USER_RECOVERY,
            CtrlRequest::EndRecovery { id, pid } => UBLK_U_CMD_END_USER_RECOVERY,
            CtrlRequest::UpdateSize { id, sectors } => UBLK_U_CMD_UPDATE_SIZE,
        }
    }

    /// The device that the command is about; all ones for none.
    pub open spec fn device_of(self) -> u32 {
        match self {
            CtrlRequest::GetInfo { id } => id,
            CtrlRequest::GetFeatures => u32::MAX,
            CtrlRequest::Stop { id } => id,
            CtrlRequest::Delete { id } => id,
            CtrlRequest::Add { info } => info.dev_id,
            CtrlRequest::SetParams { id, params } => id,
            CtrlRequest::Start { id, pid } => id,
            CtrlRequest::StartRecovery { id } => id,
            CtrlRequest::EndRecovery { id, pid } => id,
            CtrlRequest::UpdateSize { id, sectors } => id,
        }
    }

    /// The number that the command itself carries: the server's process, or a
    /// size.
    pub open spec fn inline_of(self) -> u64 {
        match self {
            CtrlRequest::Start { id, pid } => pid as u64,
            CtrlRequest::EndRecovery { id, pid } => pid as u64,
            CtrlRequest::UpdateSize { id, sectors } => sectors,
            _ => 0,
        }
    }

    /// What the buffer that goes with the command holds before the call.
    pub open spec fn buffer_of(self) -> Seq<u8> {
        match self {
            CtrlRequest::GetInfo { id } => bytes::zeros(64),
            CtrlRequest::GetFeatures => bytes::zeros(8),
            CtrlRequest::Add { info } => info.layout(),
            CtrlRequest::SetParams { id, params } => params.layout(),
            _ => Seq::empty(),
        }
    }

    /// The command's number.
    pub fn op(&self) -> (op: u32)
        ensures
            op == self.op_of(),
    {
        match self {
            CtrlRequest::GetInfo { .. } => UBLK_U_CMD_GET_DEV_INFO,
            CtrlRequest::GetFeatures => UBLK_U_CMD_GET_FEATURES,
            CtrlRequest::Stop { .. } => UBLK_U_CMD_STOP_DEV,
            CtrlRequest::Delete { .. } => UBLK_U_CMD_DEL_DEV,
            CtrlRequest::Add { .. } => UBLK_U_CMD_ADD_DEV,
            CtrlRequest::SetParams { .. } => UBLK_U_CMD_SET_PARAMS,
            CtrlRequest::Start { .. } => UBLK_U_CMD_START_DEV,
            CtrlRequest::StartRecovery { .. } => UBLK_U_CMD_START_USER_RECOVERY,
            CtrlRequest::EndRecovery { .. } => UBLK_U_CMD_END_USER_RECOVERY,
            CtrlRequest::UpdateSize { .. } => UBLK_U_CMD_UPDATE_SIZE,
        }
    }

    /// The device that the command is about; all ones for none.
    pub fn device(&self) -> (id: u32)
        ensures
            id == self.device_of(),
    {
        match self {
            CtrlRequest::GetInfo { id } => *id,
            CtrlRequest::GetFeatures => u32::MAX,
            CtrlRequest::Stop { id } => *id,
            CtrlRequest::Delete { id } => *id,
            CtrlRequest::Add { info } => info.dev_id,
            CtrlRequest::SetParams { id, .. } => *id,
            CtrlRequest::Start { id, .. } => *id,
            CtrlRequest::StartRecovery { id } => *id,
            CtrlRequest::EndRecovery { id, .. } => *id,
            CtrlRequest::UpdateSize { id, .. } => *id,
        }
    }

    /// The number that the command itself carries.
    pub fn inline_data(&self) -> (d: u64)
        ensures
            d == self.inline_of(),
    {
        match self {
            CtrlRequest::Start { pid, .. } => *pid as u64,
            CtrlRequest::EndRecovery { pid, .. } => *pid as u64,
            CtrlRequest::UpdateSize { sectors, .. } => *sectors,
            _ => 0,
        }
    }

    /// What the buffer that goes with the command holds before the call.
    pub fn buffer(&self) -> (b: Vec<u8>)
        ensures
            b@ == self.buffer_of(),
            b@.len() <= 64,
    {
        let mut b: Vec<u8> = Vec::new();
        match self {
            CtrlRequest::GetInfo { .. } => {
                bytes::push_zeros(&mut b, 64);
            },
            CtrlRequest::GetFeatures => {
                bytes::push_zeros(&mut b, 8);
            },
            CtrlRequest::Add { info } => {
                b = info.as_bytes();
            },
            CtrlRequest::SetParams { params, .. } => {
                b = params.as_bytes();
            },
            _ => {},
        }
        assert(b@ =~= self.buffer_of());
        b
    }

    /// The command's structure, with its buffer at `addr`.
    pub open spec fn structure(self, addr: u64) -> UblkCtrlCmd {
        UblkCtrlCmd {
            dev_id: self.device_of(),
            queue_id: 0xFFFF,
            len: self.buffer_of().len() as u16,
            addr,
            data: self.inline_of(),
            dev_path_len: 0,
        }
    }

    /// The bytes to submit, with the buffer at `addr`.
    pub fn command(&self, addr: u64) -> (b: Vec<u8>)
        ensures
            b@ == ublk_abi::payload_of(self.structure(addr).layout()),
            b@.len() == ublk_abi::PAYLOAD_LEN,
    {
        let mut c: UblkCtrlCmd = UblkCtrlCmd::new(self.device());
        c.addr = addr;
        c.len = self.buffer().len() as u16;
        c.data = self.inline_data();
        ublk_abi::payload(c.as_bytes())
    }

    /// What the buffer says after the call.
    pub open spec fn reply_of(self, b: Seq<u8>) -> Reply {
        match self {
            CtrlRequest::GetInfo { id } => Reply::Info(UblkCtrlDevInfo::held(b)),
            CtrlRequest::Add { info } => Reply::Info(UblkCtrlDevInfo::held(b)),
            CtrlRequest::GetFeatures => Reply::Features(bytes::le_value(b) as u64),
            _ => Reply::Nothing,
        }
    }

    /// What the buffer says after the call.
    pub fn reply(&self, b: &[u8]) -> (r: Reply)
        requires
            b@.len() == self.buffer_of().len(),
        ensures
            r == self.reply_of(b@),
    {
        proof {
            if let CtrlRequest::Add { info } = *self {
                ublk_abi::a_record_reads_back(info);
            }
        }
        match self {
            CtrlRequest::GetInfo { .. } => Reply::Info(UblkCtrlDevInfo::read(b)),
            CtrlRequest::Add { .. } => Reply::Info(UblkCtrlDevInfo::read(b)),
            CtrlRequest::GetFeatures => {
                assert(b@.subrange(0, 8) =~= b@);
                Reply::Features(bytes::get_le(b, 0, 8))
            },
            _ => Reply::Nothing,
        }
    }
}

/// What the kernel wrote back.
#[derive(Debug, Clone, Copy, PartialEq, Eq, Structural)]
pub enum Reply {
    Info(UblkCtrlDevInfo),
    Features(u64),
    Nothing,
}

/// What a submitted control command came to: a negative result is an error,
/// which the system puts in words.
pub fn ctrl_result(op: u32, result: i32, why: String) -> (r: DriveResult<i32>)
    ensures
        match r {
            Ok(v) => result >= 0 && v == result,
            Err(e) => result < 0 && says(e, UblkFault::CommandFailed { op, why }),
        },
{
    if result < 0 {
        Err(error_of(&UblkFault::CommandFailed { op, why }))
    } else {
        Ok(result)
    }
}

/// The state in a device's record, if there is such a device.
pub fn dev_state(record: Option<UblkCtrlDevInfo>) -> (state: Option<u16>)
    ensures
        state == (match record {
            Some(info) => Some(info.state),
            None => None,
        }),
{
    match record {
        Some(info) => Some(info.state),
        None => None,
    }
}

/// The process that serves a device, if there is such a device; zero where
/// nobody serves it.
pub fn server_pid(record: Option<UblkCtrlDevInfo>) -> (pid: Option<i32>)
    ensures
        pid == (match record {
            Some(info) => Some(info.ublksrv_pid),
            None => None,
        }),
{
    match record {
        Some(info) => Some(info.ublksrv_pid),
        None => None,
    }
}

/// Which device is served, with how many queues of what depth.
#[derive(Debug, Clone, Copy, PartialEq, Eq, Structural)]
pub struct Geometry {
    pub id: u32,
    pub queues: u16,
    pub depth: u16,
}

/// Where a run of the server stands: what it waits for.
#[derive(Debug, Clone, Copy, PartialEq, Eq, Structural)]
pub enum Phase {
    Idle,
    /// Adopting: the device's record.
    ReadInfo { id: u32 },
    /// Adopting: the device to quiesce.
    Quiesce { id: u32, info: UblkCtrlDevInfo },
    /// Adopting: recovery to begin.
    Recover { id: u32, info: UblkCtrlDevInfo },
    /// Creating: an orphan at the wanted place to stop.
    StopOrphan { id: u32 },
    /// Creating: an orphan at the wanted place to be deleted.
    DeleteOrphan { id: u32 },
    /// Creating: the kernel's features.
    AskFeatures { id: u32 },
    /// Creating: the device.
    Add,
    /// Creating: its parameters.
    SetParams { geo: Geometry },
    /// The character device to open.
    OpenNode { geo: Geometry, retries: u32 },
    /// The numbers of the character device.
    ReadNode { geo: Geometry },
    /// The node of the character device.
    MakeNode { geo: Geometry, major: u32, minor: u32 },
    /// The character device to open, its node just made.
    OpenMade { geo: Geometry },
    /// The descriptors of all queues to be mapped.
    MapQueues { geo: Geometry },
    /// The workers of all queues to have fetched.
    SpawnQueues { geo: Geometry },
    /// The device to go live.
    GoLive { geo: Geometry },
    /// Whether the block device has a node.
    FindBlock { geo: Geometry },
    /// The numbers of the block device.
    ReadBlock { geo: Geometry },
    /// The node of the block device.
    MakeBlock { geo: Geometry },
    /// The end.
    Serve { geo: Geometry },
    /// The device to stop.
    Stop { geo: Geometry },
    /// The workers to exit, and the character device to be released.
    Release { geo: Geometry },
    /// The device to be deleted.
    Delete { geo: Geometry },
    Over,
}

/// What happened.
pub enum Event {
    Begin,
    /// A control command went through. `late` tells whether the time for
    /// quiescing is over.
    Replied { reply: Reply, late: bool },
    /// A control command failed.
    Refused { why: String },
    /// A file was opened.
    Opened,
    NotOpened { why: String },
    /// A text was read.
    Read { found: String },
    NotRead { why: String },
    /// A node was made.
    Made,
    NotMade { why: String },
    /// All queues are mapped.
    Mapped,
    NotMapped { queue: u16, why: String },
    /// All workers run and have fetched.
    Spawned,
    NotSpawned { queue: u16, why: String },
    /// Whether the block device has a node.
    Found { yes: bool },
    Shutdown,
    /// The workers have exited, and nothing holds the character device.
    Released,
}

/// What is to be done next.
pub enum Action {
    /// Nothing: the event was not the awaited one.
    Ignore,
    Control { request: CtrlRequest },
    ControlAfter { ms: u64, request: CtrlRequest },
    /// Open the character device.
    Open { id: u32 },
    OpenAfter { ms: u64, id: u32 },
    /// Read the numbers of the character device.
    ReadCharNumbers { id: u32 },
    MakeCharNode { id: u32, major: u32, minor: u32 },
    /// Map the descriptors of each queue.
    MapQueues { geo: Geometry },
    /// Start a worker for each queue, and wait until each has fetched.
    Spawn { geo: Geometry },
    /// Look for the block device's node.
    FindBlockNode { id: u32 },
    ReadBlockNumbers { id: u32 },
    MakeBlockNode { id: u32, major: u32, minor: u32 },
    /// Wait for the end.
    Wait,
    /// Join the workers, unmap the queues, close the character device.
    Release,
    /// The run is over.
    Done,
    /// The run is over: it failed.
    Fail { fault: UblkFault },
}

/// A ublk server: what it was asked for, what it knows of its device, and
/// where its run stands.
pub struct UblkServer {
    /// Size of the exported device.
    pub capacity: u64,
    pub block_size: u32,
    /// The server's own process.
    pub pid: u32,
    pub requested_dev_id: Option<u32>,
    pub nr_queues: u16,
    pub queue_depth: u16,
    /// Another process may adopt the device later.
    pub recoverable: bool,
    /// Adopt the device that exists at this place, instead of creating one.
    pub adopt: Option<u32>,
    /// The device's number; negative until there is one.
    pub dev_id: i32,
    /// Whether the kernel agreed to resizing.
    pub resizable: bool,
    /// The size that the kernel believes in.
    pub dev_sectors: u64,
    pub running: bool,
    pub phase: Phase,
}

/// The flags to ask for: the two that every device needs, and of the optional
/// ones those that are wanted and that the kernel offers. A flag that the
/// kernel does not know would cost the device.
pub open spec fn asked_flags(features: u64, recoverable: bool) -> u64 {
    let base = UBLK_F_URING_CMD_COMP_IN_TASK | UBLK_F_CMD_IOCTL_ENCODE;
    let sized = if features & UBLK_F_UPDATE_SIZE != 0 {
        base | UBLK_F_UPDATE_SIZE
    } else {
        base
    };
    if recoverable && features & UBLK_F_USER_RECOVERY != 0 {
        if features & UBLK_F_USER_RECOVERY_REISSUE != 0 {
            sized | UBLK_F_USER_RECOVERY | UBLK_F_USER_RECOVERY_REISSUE
        } else {
            sized | UBLK_F_USER_RECOVERY
        }
    } else {
        sized
    }
}

/// The flags to ask for.
pub fn flags_for(features: u64, recoverable: bool) -> (flags: u64)
    ensures
        flags == asked_flags(features, recoverable),
{
    let mut flags: u64 = UBLK_F_URING_CMD_COMP_IN_TASK | UBLK_F_CMD_IOCTL_ENCODE;
    if features & UBLK_F_UPDATE_SIZE != 0 {
        flags = flags | UBLK_F_UPDATE_SIZE;
    }
    if recoverable && features & UBLK_F_USER_RECOVERY != 0 {
        flags = flags | UBLK_F_USER_RECOVERY;
        if features & UBLK_F_USER_RECOVERY_REISSUE != 0 {
            flags = flags | UBLK_F_USER_RECOVERY_REISSUE;
        }
    }
    flags
}

/// The flags asked for are the two basic ones and such as the kernel offers;
/// each optional one that is wanted and offered is asked for.
pub proof fn only_offered_flags_are_asked_for(features: u64, recoverable: bool)
    ensures
        asked_flags(features, recoverable) & !(features | 0x42) == 0,
        asked_flags(features, recoverable) & 0x42 == 0x42,
        asked_flags(features, recoverable) & UBLK_F_UPDATE_SIZE == features & UBLK_F_UPDATE_SIZE,
        asked_flags(features, recoverable) & UBLK_F_USER_RECOVERY == (if recoverable {
            features & UBLK_F_USER_RECOVERY
        } else {
            0
        }),
        asked_flags(features, recoverable) & UBLK_F_USER_RECOVERY_REISSUE == (if recoverable
            && features & UBLK_F_USER_RECOVERY != 0 {
            features & UBLK_F_USER_RECOVERY_REISSUE
        } else {
            0
        }),
{
    let f = features;
    let r = recoverable;
    let base = 0x2u64 | 0x40u64;
    let sized = if f & 0x400 != 0 {
        base | 0x400u64
    } else {
        base
    };
    let a = if r && f & 0x8 != 0 {
        if f & 0x10 != 0 {
            sized | 0x8u64 | 0x10u64
        } else {
            sized | 0x8u64
        }
    } else {
        sized
    };
    assert(a & !(f | 0x42) == 0 && a & 0x42 == 0x42 && a & 0x400 == f & 0x400 && a & 0x8 == (if r {
        f & 0x8
    } else {
        0
    }) && a & 0x10 == (if r && f & 0x8 != 0 {
        f & 0x10
    } else {
        0
    })) by (bit_vector)
        requires
            base == 0x2u64 | 0x40u64,
            sized == (if f & 0x400 != 0 {
                base | 0x400u64
            } else {
                base
            }),
            a == (if r && f & 0x8 != 0 {
                if f & 0x10 != 0 {
                    sized | 0x8u64 | 0x10u64
                } else {
                    sized | 0x8u64
                }
            } else {
                sized
            }),
    ;
    assert(a == asked_flags(features, recoverable));
}

/// The parameters of a new device: its size in sectors, and its block size as
/// a power of two.
pub open spec fn params_of(capacity: u64, block_size: u32) -> UblkParams {
    let shift = vstd::std_specs::bits::u32_trailing_zeros(block_size) as u8;
    UblkParams {
        types: UBLK_PARAM_TYPE_BASIC | UBLK_PARAM_TYPE_DISCARD,
        basic: UblkParamBasic {
            attrs: 0,
            logical_bs_shift: shift,
            physical_bs_shift: shift,
            io_opt_shift: 12,
            io_min_shift: shift,
            max_sectors: DEFAULT_MAX_IO_BYTES / 512,
            chunk_sectors: 0,
            dev_sectors: capacity / 512,
            virt_boundary_mask: 0,
        },
        discard: UblkParamDiscard {
            discard_alignment: 0,
            discard_granularity: block_size,
            max_discard_sectors: DEFAULT_MAX_IO_BYTES / 512,
            max_write_zeroes_sectors: DEFAULT_MAX_IO_BYTES / 512,
            max_discard_segments: 1,
        },
    }
}

/// The parameters of a new device.
pub fn params_for(capacity: u64, block_size: u32) -> (p: UblkParams)
    ensures
        p == params_of(capacity, block_size),
{
    let shift: u8 = block_size.trailing_zeros() as u8;
    let max_sectors: u32 = DEFAULT_MAX_IO_BYTES / 512;
    UblkParams {
        types: UBLK_PARAM_TYPE_BASIC | UBLK_PARAM_TYPE_DISCARD,
        basic: UblkParamBasic {
            attrs: 0,
            logical_bs_shift: shift,
            physical_bs_shift: shift,
            io_opt_shift: 12,
            io_min_shift: shift,
            max_sectors,
            chunk_sectors: 0,
            dev_sectors: capacity / 512,
            virt_boundary_mask: 0,
        },
        discard: UblkParamDiscard {
            discard_alignment: 0,
            discard_granularity: block_size,
            max_discard_sectors: max_sectors,
            max_write_zeroes_sectors: max_sectors,
            max_discard_segments: 1,
        },
    }
}

/// The record that asks for a new device.
pub open spec fn wanted_info(s: UblkServer, id: u32, features: u64) -> UblkCtrlDevInfo {
    UblkCtrlDevInfo {
        nr_hw_queues: s.nr_queues,
        queue_depth: s.queue_depth,
        max_io_buf_bytes: DEFAULT_MAX_IO_BYTES,
        dev_id: id,
        ublksrv_pid: s.pid as i32,
        flags: asked_flags(features, s.recoverable),
        ..UblkCtrlDevInfo::blank()
    }
}

/// Whether a device outlives this server: it was created so, or adopted.
pub open spec fn hands_over(s: UblkServer) -> bool {
    s.recoverable || s.adopt is Some
}

/// The command that makes the device live.
pub open spec fn go_live_request(s: UblkServer, id: u32) -> CtrlRequest {
    if s.adopt is Some {
        CtrlRequest::EndRecovery { id, pid: s.pid }
    } else {
        CtrlRequest::Start { id, pid: s.pid }
    }
}

/// A server with its device known: what the kernel's record says of it.
pub open spec fn with_device(s: UblkServer, id: u32, flags: u64) -> UblkServer {
    UblkServer {
        dev_id: id as i32,
        resizable: flags & UBLK_F_UPDATE_SIZE != 0,
        dev_sectors: s.capacity / 512,
        ..s
    }
}

/// A failed run.
pub open spec fn failed(s: UblkServer, fault: UblkFault) -> (UblkServer, Action) {
    (UblkServer { phase: Phase::Over, ..s }, Action::Fail { fault })
}

/// The first command of a run: adopting reads the device's record; creating
/// clears the wanted place, or asks for the kernel's features.
pub open spec fn begun(s: UblkServer) -> (UblkServer, Action) {
    match s.adopt {
        Some(id) => (
            UblkServer { phase: Phase::ReadInfo { id }, ..s },
            Action::Control { request: CtrlRequest::GetInfo { id } },
        ),
        None => match s.requested_dev_id {
            Some(id) => if id == u32::MAX {
                (
                    UblkServer { phase: Phase::AskFeatures { id }, ..s },
                    Action::Control { request: CtrlRequest::GetFeatures },
                )
            } else {
                (
                    UblkServer { phase: Phase::StopOrphan { id }, ..s },
                    Action::Control { request: CtrlRequest::Stop { id } },
                )
            },
            None => (
                UblkServer { phase: Phase::AskFeatures { id: u32::MAX }, ..s },
                Action::Control { request: CtrlRequest::GetFeatures },
            ),
        },
    }
}

/// What an adopting server does after a command. Only a device that was
/// created recoverable is taken, only once it is quiesced, and with the
/// queues that the kernel knows it by.
pub open spec fn adopted(s: UblkServer, e: Event) -> (UblkServer, Action) {
    match (s.phase, e) {
        (Phase::ReadInfo { id }, Event::Refused { why }) => failed(s, UblkFault::NoInfo { id, why }),
        (Phase::ReadInfo { id }, Event::Replied { reply: Reply::Info(info), late }) =>
            if info.flags & UBLK_F_USER_RECOVERY == 0 {
                failed(s, UblkFault::NotRecoverable { id })
            } else {
                (
                    UblkServer { phase: Phase::Quiesce { id, info }, ..s },
                    Action::Control { request: CtrlRequest::GetInfo { id } },
                )
            },
        (Phase::Quiesce { id, info }, Event::Refused { why }) => failed(
            s,
            UblkFault::LostInfo { id, why },
        ),
        (Phase::Quiesce { id, info }, Event::Replied { reply: Reply::Info(now), late }) =>
            if now.state == UBLK_S_DEV_QUIESCED {
                (
                    UblkServer { phase: Phase::Recover { id, info }, ..s },
                    Action::Control { request: CtrlRequest::StartRecovery { id } },
                )
            } else if late {
                failed(s, UblkFault::NeverQuiesced { id, state: now.state })
            } else {
                (
                    s,
                    Action::ControlAfter { ms: POLL_MS, request: CtrlRequest::GetInfo { id } },
                )
            },
        (Phase::Recover { id, info }, Event::Refused { why }) => failed(
            s,
            UblkFault::NoRecovery { id, why },
        ),
        (Phase::Recover { id, info }, Event::Replied { reply, late }) => {
            let geo = Geometry { id, queues: info.nr_hw_queues, depth: info.queue_depth };
            (
                UblkServer {
                    phase: Phase::OpenNode { geo, retries: OPEN_RETRIES },
                    ..with_device(s, id, info.flags)
                },
                Action::Open { id },
            )
        },
        _ => (s, Action::Ignore),
    }
}

/// What a creating server does after a command. Clearing the wanted place may
/// fail, and so may asking for features: then none is taken to be offered.
pub open spec fn created(s: UblkServer, e: Event) -> (UblkServer, Action) {
    match (s.phase, e) {
        (Phase::StopOrphan { id }, Event::Refused { why }) => (
            UblkServer { phase: Phase::DeleteOrphan { id }, ..s },
            Action::Control { request: CtrlRequest::Delete { id } },
        ),
        (Phase::StopOrphan { id }, Event::Replied { reply, late }) => (
            UblkServer { phase: Phase::DeleteOrphan { id }, ..s },
            Action::Control { request: CtrlRequest::Delete { id } },
        ),
        (Phase::DeleteOrphan { id }, Event::Refused { why }) => (
            UblkServer { phase: Phase::AskFeatures { id }, ..s },
            Action::Control { request: CtrlRequest::GetFeatures },
        ),
        (Phase::DeleteOrphan { id }, Event::Replied { reply, late }) => (
            UblkServer { phase: Phase::AskFeatures { id }, ..s },
            Action::Control { request: CtrlRequest::GetFeatures },
        ),
        (Phase::AskFeatures { id }, Event::Refused { why }) => (
            UblkServer { phase: Phase::Add, ..s },
            Action::Control { request: CtrlRequest::Add { info: wanted_info(s, id, 0) } },
        ),
        (Phase::AskFeatures { id }, Event::Replied { reply: Reply::Features(f), late }) => (
            UblkServer { phase: Phase::Add, ..s },
            Action::Control { request: CtrlRequest::Add { info: wanted_info(s, id, f) } },
        ),
        (Phase::Add, Event::Refused { why }) => failed(s, UblkFault::Control { why }),
        (Phase::Add, Event::Replied { reply: Reply::Info(info), late }) => {
            let geo = Geometry { id: info.dev_id, queues: s.nr_queues, depth: s.queue_depth };
            (
                UblkServer {
                    phase: Phase::SetParams { geo },
                    ..with_device(s, info.dev_id, info.flags)
                },
                Action::Control {
                    request: CtrlRequest::SetParams {
                        id: info.dev_id,
                        params: params_of(s.capacity, s.block_size),
                    },
                },
            )
        },
        (Phase::SetParams { geo }, Event::Refused { why }) => failed(s, UblkFault::Control { why }),
        (Phase::SetParams { geo }, Event::Replied { reply, late }) => (
            UblkServer { phase: Phase::OpenNode { geo, retries: OPEN_RETRIES }, ..s },
            Action::Open { id: geo.id },
        ),
        _ => (s, Action::Ignore),
    }
}

/// What a server does to get at its queues: the character device is opened,
/// tried again for a while, and its node made where the system has none; then
/// the queues are mapped and their workers started.
pub open spec fn connected(s: UblkServer, e: Event) -> (UblkServer, Action) {
    match (s.phase, e) {
        (Phase::OpenNode { geo, retries }, Event::Opened) => (
            UblkServer { phase: Phase::MapQueues { geo }, ..s },
            Action::MapQueues { geo },
        ),
        (Phase::OpenNode { geo, retries }, Event::NotOpened { why }) => if retries > 0 {
            (
                UblkServer { phase: Phase::OpenNode { geo, retries: (retries - 1) as u32 }, ..s },
                Action::OpenAfter { ms: OPEN_RETRY_MS, id: geo.id },
            )
        } else {
            (
                UblkServer { phase: Phase::ReadNode { geo }, ..s },
                Action::ReadCharNumbers { id: geo.id },
            )
        },
        (Phase::ReadNode { geo }, Event::NotRead { why }) => failed(
            s,
            UblkFault::NoNode { id: geo.id, why },
        ),
        (Phase::ReadNode { geo }, Event::Read { found }) => match node_text(found@) {
            NodeText::Bad => failed(s, UblkFault::BadNode { found }),
            NodeText::BadMajor => failed(s, UblkFault::BadMajor { found }),
            NodeText::BadMinor => failed(s, UblkFault::BadMinor { found }),
            NodeText::Numbers { major, minor } => (
                UblkServer { phase: Phase::MakeNode { geo, major, minor }, ..s },
                Action::MakeCharNode { id: geo.id, major, minor },
            ),
        },
        (Phase::MakeNode { geo, major, minor }, Event::NotMade { why }) => failed(
            s,
            UblkFault::NodeNotMade { id: geo.id, major, minor, why },
        ),
        (Phase::MakeNode { geo, major, minor }, Event::Made) => (
            UblkServer { phase: Phase::OpenMade { geo }, ..s },
            Action::Open { id: geo.id },
        ),
        (Phase::OpenMade { geo }, Event::NotOpened { why }) => failed(
            s,
            UblkFault::NodeNotOpened { id: geo.id, why },
        ),
        (Phase::OpenMade { geo }, Event::Opened) => (
            UblkServer { phase: Phase::MapQueues { geo }, ..s },
            Action::MapQueues { geo },
        ),
        (Phase::MapQueues { geo }, Event::NotMapped { queue, why }) => failed(
            s,
            UblkFault::NotMapped { queue, why },
        ),
        (Phase::MapQueues { geo }, Event::Mapped) => (
            UblkServer { phase: Phase::SpawnQueues { geo }, running: true, ..s },
            Action::Spawn { geo },
        ),
        (Phase::SpawnQueues { geo }, Event::NotSpawned { queue, why }) => failed(
            s,
            UblkFault::NotSpawned { queue, why },
        ),
        (Phase::SpawnQueues { geo }, Event::Spawned) => (
            UblkServer { phase: Phase::GoLive { geo }, ..s },
            Action::Control { request: go_live_request(s, geo.id) },
        ),
        _ => (s, Action::Ignore),
    }
}

/// What a server does once its device is live: it sees to the block device's
/// node, where that can be had; it serves; and at the end it lets a device
/// that outlives it go, and stops and deletes any other.
pub open spec fn served(s: UblkServer, e: Event) -> (UblkServer, Action) {
    match (s.phase, e) {
        (Phase::GoLive { geo }, Event::Refused { why }) => failed(s, UblkFault::Control { why }),
        (Phase::GoLive { geo }, Event::Replied { reply, late }) => (
            UblkServer { phase: Phase::FindBlock { geo }, ..s },
            Action::FindBlockNode { id: geo.id },
        ),
        (Phase::FindBlock { geo }, Event::Found { yes }) => if yes {
            (UblkServer { phase: Phase::Serve { geo }, ..s }, Action::Wait)
        } else {
            (
                UblkServer { phase: Phase::ReadBlock { geo }, ..s },
                Action::ReadBlockNumbers { id: geo.id },
            )
        },
        (Phase::ReadBlock { geo }, Event::NotRead { why }) => (
            UblkServer { phase: Phase::Serve { geo }, ..s },
            Action::Wait,
        ),
        (Phase::ReadBlock { geo }, Event::Read { found }) => match block_numbers(found@) {
            None => (UblkServer { phase: Phase::Serve { geo }, ..s }, Action::Wait),
            Some((major, minor)) => (
                UblkServer { phase: Phase::MakeBlock { geo }, ..s },
                Action::MakeBlockNode { id: geo.id, major, minor },
            ),
        },
        (Phase::MakeBlock { geo }, Event::Made) => (
            UblkServer { phase: Phase::Serve { geo }, ..s },
            Action::Wait,
        ),
        (Phase::MakeBlock { geo }, Event::NotMade { why }) => (
            UblkServer { phase: Phase::Serve { geo }, ..s },
            Action::Wait,
        ),
        (Phase::Serve { geo }, Event::Shutdown) => if hands_over(s) {
            (UblkServer { phase: Phase::Release { geo }, running: false, ..s }, Action::Release)
        } else {
            (
                UblkServer { phase: Phase::Stop { geo }, running: false, ..s },
                Action::Control { request: CtrlRequest::Stop { id: geo.id } },
            )
        },
        (Phase::Stop { geo }, Event::Replied { reply, late }) => (
            UblkServer { phase: Phase::Release { geo }, ..s },
            Action::Release,
        ),
        (Phase::Stop { geo }, Event::Refused { why }) => (
            UblkServer { phase: Phase::Release { geo }, ..s },
            Action::Release,
        ),
        (Phase::Release { geo }, Event::Released) => if hands_over(s) {
            (UblkServer { phase: Phase::Over, ..s }, Action::Done)
        } else {
            (
                UblkServer { phase: Phase::Delete { geo }, ..s },
                Action::Control { request: CtrlRequest::Delete { id: geo.id } },
            )
        },
        (Phase::Delete { geo }, Event::Replied { reply, late }) => (
            UblkServer { phase: Phase::Over, ..s },
            Action::Done,
        ),
        (Phase::Delete { geo }, Event::Refused { why }) => (
            UblkServer { phase: Phase::Over, ..s },
            Action::Done,
        ),
        _ => (s, Action::Ignore),
    }
}

/// What an event leads to.
pub open spec fn next(s: UblkServer, e: Event) -> (UblkServer, Action) {
    match s.phase {
        Phase::Idle => if e is Begin {
            begun(s)
        } else {
            (s, Action::Ignore)
        },
        Phase::ReadInfo { id } => adopted(s, e),
        Phase::Quiesce { id, info } => adopted(s, e),
        Phase::Recover { id, info } => adopted(s, e),
        Phase::StopOrphan { id } => created(s, e),
        Phase::DeleteOrphan { id } => created(s, e),
        Phase::AskFeatures { id } => created(s, e),
        Phase::Add => created(s, e),
        Phase::SetParams { geo } => created(s, e),
        Phase::OpenNode { geo, retries } => connected(s, e),
        Phase::ReadNode { geo } => connected(s, e),
        Phase::MakeNode { geo, major, minor } => connected(s, e),
        Phase::OpenMade { geo } => connected(s, e),
        Phase::MapQueues { geo } => connected(s, e),
        Phase::SpawnQueues { geo } => connected(s, e),
        _ => served(s, e),
    }
}

impl UblkServer {
    /// A server for a device of this size and block size, in process `pid`.
    pub fn new(capacity: u64, block_size: u32, pid: u32) -> (s: Self)
        ensures
            s == (UblkServer {
                capacity,
                block_size,
                pid,
                requested_dev_id: None,
                nr_queues: 1,
                queue_depth: DEFAULT_QUEUE_DEPTH,
                recoverable: false,
                adopt: None,
                dev_id: (-1) as i32,
                resizable: false,
                dev_sectors: 0,
                running: false,
                phase: Phase::Idle,
            }),
    {
        UblkServer {
            capacity,
            block_size,
            pid,
            requested_dev_id: None,
            nr_queues: 1,
            queue_depth: DEFAULT_QUEUE_DEPTH,
            recoverable: false,
            adopt: None,
            dev_id: -1,
            resizable: false,
            dev_sectors: 0,
            running: false,
            phase: Phase::Idle,
        }
    }

    /// Asks for a certain number. A device that nobody serves any more at that
    /// place is deleted first.
    pub fn with_dev_id(self, id: u32) -> (r: Self)
        ensures
            r == (UblkServer { requested_dev_id: Some(id), ..self }),
    {
        let mut s = self;
        s.requested_dev_id = Some(id);
        s
    }

    /// Creates the device so that another process can adopt it later.
    pub fn recoverable(self, yes: bool) -> (r: Self)
        ensures
            r == (UblkServer { recoverable: yes, ..self }),
    {
        let mut s = self;
        s.recoverable = yes;
        s
    }

    /// Serves a device that exists already, whose server has gone.
    pub fn adopting(self, dev_id: u32) -> (r: Self)
        ensures
            r == (UblkServer { adopt: Some(dev_id), ..self }),
    {
        let mut s = self;
        s.adopt = Some(dev_id);
        s
    }

    /// Sets the number of queues, at least one.
    pub fn with_queues(self, nr_queues: u16) -> (r: Self)
        ensures
            r == (UblkServer {
                nr_queues: if nr_queues == 0 {
                    1
                } else {
                    nr_queues
                },
                ..self
            }),
    {
        let mut s = self;
        s.nr_queues = if nr_queues == 0 { 1 } else { nr_queues };
        s
    }

    /// Sets the depth of each queue, at least one.
    pub fn with_queue_depth(self, depth: u16) -> (r: Self)
        ensures
            r == (UblkServer {
                queue_depth: if depth == 0 {
                    1
                } else {
                    depth
                },
                ..self
            }),
    {
        let mut s = self;
        s.queue_depth = if depth == 0 { 1 } else { depth };
        s
    }

    /// Path of the block device.
    pub fn dev_path(&self) -> (s: String)
        ensures
            s@ == block_path_of(self.dev_id as int),
    {
        let mut s = "/dev/ublkb".to_owned();
        push_signed(&mut s, self.dev_id as i64);
        s
    }

    /// Whether the device can be resized in place.
    pub fn resizable(&self) -> (yes: bool)
        ensures
            yes == self.resizable,
    {
        self.resizable
    }

    /// What a resize leads to: the command that carries it out, or nothing
    /// where the device has that size.
    pub open spec fn resize_of(self, bytes: u64) -> Result<Option<CtrlRequest>, UblkFault> {
        let sectors = bytes / 512;
        if self.dev_id < 0 {
            Err(UblkFault::NotRunning)
        } else if !self.resizable {
            Err(UblkFault::NotResizable { id: self.dev_id })
        } else if bytes % 512 != 0 {
            Err(UblkFault::NotWholeSectors { bytes })
        } else if sectors == self.dev_sectors {
            Ok(None)
        } else if sectors < self.dev_sectors {
            Err(UblkFault::Shrink { id: self.dev_id, current: self.dev_sectors, sectors })
        } else {
            Ok(Some(CtrlRequest::UpdateSize { id: self.dev_id as u32, sectors }))
        }
    }

    /// Tells what to tell the kernel so that the device has `new_capacity_bytes`.
    /// A device only grows.
    pub fn update_size(&self, new_capacity_bytes: u64) -> (r: DriveResult<Option<CtrlRequest>>)
        ensures
            match self.resize_of(new_capacity_bytes) {
                Ok(request) => r == Ok::<Option<CtrlRequest>, DriveError>(request),
                Err(fault) => r matches Err(e) && says(e, fault),
            },
    {
        if self.dev_id < 0 {
            return Err(error_of(&UblkFault::NotRunning));
        }
        if !self.resizable {
            return Err(error_of(&UblkFault::NotResizable { id: self.dev_id }));
        }
        if new_capacity_bytes % 512 != 0 {
            return Err(error_of(&UblkFault::NotWholeSectors { bytes: new_capacity_bytes }));
        }
        let sectors: u64 = new_capacity_bytes / 512;
        if sectors == self.dev_sectors {
            return Ok(None);
        }
        if sectors < self.dev_sectors {
            return Err(
                error_of(
                    &UblkFault::Shrink { id: self.dev_id, current: self.dev_sectors, sectors },
                ),
            );
        }
        Ok(Some(CtrlRequest::UpdateSize { id: self.dev_id as u32, sectors }))
    }

    /// Takes note that the kernel has the new size.
    pub fn size_updated(&mut self, sectors: u64)
        ensures
            *final(self) == (UblkServer { dev_sectors: sectors, ..*old(self) }),
    {
        self.dev_sectors = sectors;
    }

    fn fail(&mut self, fault: UblkFault) -> (a: Action)
        ensures
            (*final(self), a) == failed(*old(self), fault),
    {
        self.phase = Phase::Over;
        Action::Fail { fault }
    }

    fn know_device(&mut self, id: u32, flags: u64)
        ensures
            *final(self) == with_device(*old(self), id, flags),
    {
        self.dev_id = id as i32;
        self.resizable = flags & UBLK_F_UPDATE_SIZE != 0;
        self.dev_sectors = self.capacity / 512;
    }

    fn begin(&mut self) -> (a: Action)
        ensures
            (*final(self), a) == begun(*old(self)),
    {
        match self.adopt {
            Some(id) => {
                self.phase = Phase::ReadInfo { id };
                Action::Control { request: CtrlRequest::GetInfo { id } }
            },
            None => {
                let id: u32 = match self.requested_dev_id {
                    Some(id) => id,
                    None => u32::MAX,
                };
                if id != u32::MAX {
                    self.phase = Phase::StopOrphan { id };
                    Action::Control { request: CtrlRequest::Stop { id } }
                } else {
                    self.phase = Phase::AskFeatures { id };
                    Action::Control { request: CtrlRequest::GetFeatures }
                }
            },
        }
    }

    fn adopt_step(&mut self, e: Event) -> (a: Action)
        ensures
            (*final(self), a) == adopted(*old(self), e),
    {
        match (self.phase, e) {
            (Phase::ReadInfo { id }, Event::Refused { why }) => self.fail(
                UblkFault::NoInfo { id, why },
            ),
            (Phase::ReadInfo { id }, Event::Replied { reply: Reply::Info(info), .. }) => {
                if info.flags & UBLK_F_USER_RECOVERY == 0 {
                    return self.fail(UblkFault::NotRecoverable { id });
                }
                self.phase = Phase::Quiesce { id, info };
                Action::Control { request: CtrlRequest::GetInfo { id } }
            },
            (Phase::Quiesce { id, .. }, Event::Refused { why }) => self.fail(
                UblkFault::LostInfo { id, why },
            ),
            (Phase::Quiesce { id, info }, Event::Replied { reply: Reply::Info(now), late }) => {
                if now.state == UBLK_S_DEV_QUIESCED {
                    self.phase = Phase::Recover { id, info };
                    Action::Control { request: CtrlRequest::StartRecovery { id } }
                } else if late {
                    self.fail(UblkFault::NeverQuiesced { id, state: now.state })
                } else {
                    Action::ControlAfter { ms: POLL_MS, request: CtrlRequest::GetInfo { id } }
                }
            },
            (Phase::Recover { id, .. }, Event::Refused { why }) => self.fail(
                UblkFault::NoRecovery { id, why },
            ),
            (Phase::Recover { id, info }, Event::Replied { .. }) => {
                self.know_device(id, info.flags);
                let geo = Geometry { id, queues: info.nr_hw_queues, depth: info.queue_depth };
                self.phase = Phase::OpenNode { geo, retries: OPEN_RETRIES };
                Action::Open { id }
            },
            _ => Action::Ignore,
        }
    }

    fn ask_for_device(&mut self, id: u32, features: u64) -> (a: Action)
        ensures
            *final(self) == (UblkServer { phase: Phase::Add, ..*old(self) }),
            a == (Action::Control {
                request: CtrlRequest::Add { info: wanted_info(*old(self), id, features) },
            }),
    {
        let mut info: UblkCtrlDevInfo = UblkCtrlDevInfo::default();
        info.nr_hw_queues = self.nr_queues;
        info.queue_depth = self.queue_depth;
        info.max_io_buf_bytes = DEFAULT_MAX_IO_BYTES;
        info.dev_id = id;
        info.ublksrv_pid = self.pid as i32;
        info.flags = flags_for(features, self.recoverable);
        self.phase = Phase::Add;
        Action::Control { request: CtrlRequest::Add { info } }
    }

    fn create_step(&mut self, e: Event) -> (a: Action)
        ensures
            (*final(self), a) == created(*old(self), e),
    {
        match (self.phase, e) {
            (Phase::StopOrphan { id }, Event::Refused { .. })
            | (Phase::StopOrphan { id }, Event::Replied { .. }) => {
                self.phase = Phase::DeleteOrphan { id };
                Action::Control { request: CtrlRequest::Delete { id } }
            },
            (Phase::DeleteOrphan { id }, Event::Refused { .. })
            | (Phase::DeleteOrphan { id }, Event::Replied { .. }) => {
                self.phase = Phase::AskFeatures { id };
                Action::Control { request: CtrlRequest::GetFeatures }
            },
            (Phase::AskFeatures { id }, Event::Refused { .. }) => self.ask_for_device(id, 0),
            (Phase::AskFeatures { id }, Event::Replied { reply: Reply::Features(f), .. }) => {
                self.ask_for_device(id, f)
            },
            (Phase::Add, Event::Refused { why }) => self.fail(UblkFault::Control { why }),
            (Phase::Add, Event::Replied { reply: Reply::Info(info), .. }) => {
                self.know_device(info.dev_id, info.flags);
                let geo = Geometry {
                    id: info.dev_id,
                    queues: self.nr_queues,
                    depth: self.queue_depth,
                };
                self.phase = Phase::SetParams { geo };
                Action::Control {
                    request: CtrlRequest::SetParams {
                        id: info.dev_id,
                        params: params_for(self.capacity, self.block_size),
                    },
                }
            },
            (Phase::SetParams { .. }, Event::Refused { why }) => self.fail(
                UblkFault::Control { why },
            ),
            (Phase::SetParams { geo }, Event::Replied { .. }) => {
                self.phase = Phase::OpenNode { geo, retries: OPEN_RETRIES };
                Action::Open { id: geo.id }
            },
            _ => Action::Ignore,
        }
    }

    fn connect_step(&mut self, e: Event) -> (a: Action)
        ensures
            (*final(self), a) == connected(*old(self), e),
    {
        match (self.phase, e) {
            (Phase::OpenNode { geo, .. }, Event::Opened) => {
                self.phase = Phase::MapQueues { geo };
                Action::MapQueues { geo }
            },
            (Phase::OpenNode { geo, retries }, Event::NotOpened { .. }) => {
                if retries > 0 {
                    self.phase = Phase::OpenNode { geo, retries: retries - 1 };
                    Action::OpenAfter { ms: OPEN_RETRY_MS, id: geo.id }
                } else {
                    self.phase = Phase::ReadNode { geo };
                    Action::ReadCharNumbers { id: geo.id }
                }
            },
            (Phase::ReadNode { geo }, Event::NotRead { why }) => self.fail(
                UblkFault::NoNode { id: geo.id, why },
            ),
            (Phase::ReadNode { geo }, Event::Read { found }) => match read_node(&found) {
                NodeText::Bad => self.fail(UblkFault::BadNode { found }),
                NodeText::BadMajor => self.fail(UblkFault::BadMajor { found }),
                NodeText::BadMinor => self.fail(UblkFault::BadMinor { found }),
                NodeText::Numbers { major, minor } => {
                    self.phase = Phase::MakeNode { geo, major, minor };
                    Action::MakeCharNode { id: geo.id, major, minor }
                },
            },
            (Phase::MakeNode { geo, major, minor }, Event::NotMade { why }) => self.fail(
                UblkFault::NodeNotMade { id: geo.id, major, minor, why },
            ),
            (Phase::MakeNode { geo, .. }, Event::Made) => {
                self.phase = Phase::OpenMade { geo };
                Action::Open { id: geo.id }
            },
            (Phase::OpenMade { geo }, Event::NotOpened { why }) => self.fail(
                UblkFault::NodeNotOpened { id: geo.id, why },
            ),
            (Phase::OpenMade { geo }, Event::Opened) => {
                self.phase = Phase::MapQueues { geo };
                Action::MapQueues { geo }
            },
            (Phase::MapQueues { .. }, Event::NotMapped { queue, why }) => self.fail(
                UblkFault::NotMapped { queue, why },
            ),
            (Phase::MapQueues { geo }, Event::Mapped) => {
                self.phase = Phase::SpawnQueues { geo };
                self.running = true;
                Action::Spawn { geo }
            },
            (Phase::SpawnQueues { .. }, Event::NotSpawned { queue, why }) => self.fail(
                UblkFault::NotSpawned { queue, why },
            ),
            (Phase::SpawnQueues { geo }, Event::Spawned) => {
                self.phase = Phase::GoLive { geo };
                let request = match self.adopt {
                    Some(_) => CtrlRequest::EndRecovery { id: geo.id, pid: self.pid },
                    None => CtrlRequest::Start { id: geo.id, pid: self.pid },
                };
                Action::Control { request }
            },
            _ => Action::Ignore,
        }
    }

    /// Whether the device outlives this server.
    fn outlived(&self) -> (yes: bool)
        ensures
            yes == hands_over(*self),
    {
        match self.adopt {
            Some(_) => true,
            None => self.recoverable,
        }
    }

    fn serve_step(&mut self, e: Event) -> (a: Action)
        ensures
            (*final(self), a) == served(*old(self), e),
    {
        match (self.phase, e) {
            (Phase::GoLive { .. }, Event::Refused { why }) => self.fail(UblkFault::Control { why }),
            (Phase::GoLive { geo }, Event::Replied { .. }) => {
                self.phase = Phase::FindBlock { geo };
                Action::FindBlockNode { id: geo.id }
            },
            (Phase::FindBlock { geo }, Event::Found { yes }) => {
                if yes {
                    self.phase = Phase::Serve { geo };
                    Action::Wait
                } else {
                    self.phase = Phase::ReadBlock { geo };
                    Action::ReadBlockNumbers { id: geo.id }
                }
            },
            (Phase::ReadBlock { geo }, Event::NotRead { .. }) => {
                self.phase = Phase::Serve { geo };
                Action::Wait
            },
            (Phase::ReadBlock { geo }, Event::Read { found }) => match read_block_node(&found) {
                None => {
                    self.phase = Phase::Serve { geo };
                    Action::Wait
                },
                Some((major, minor)) => {
                    self.phase = Phase::MakeBlock { geo };
                    Action::MakeBlockNode { id: geo.id, major, minor }
                },
            },
            (Phase::MakeBlock { geo }, Event::Made)
            | (Phase::MakeBlock { geo }, Event::NotMade { .. }) => {
                self.phase = Phase::Serve { geo };
                Action::Wait
            },
            (Phase::Serve { geo }, Event::Shutdown) => {
                self.running = false;
                if self.outlived() {
                    self.phase = Phase::Release { geo };
                    Action::Release
                } else {
                    self.phase = Phase::Stop { geo };
                    Action::Control { request: CtrlRequest::Stop { id: geo.id } }
                }
            },
            (Phase::Stop { geo }, Event::Replied { .. })
            | (Phase::Stop { geo }, Event::Refused { .. }) => {
                self.phase = Phase::Release { geo };
                Action::Release
            },
            (Phase::Release { geo }, Event::Released) => {
                if self.outlived() {
                    self.phase = Phase::Over;
                    Action::Done
                } else {
                    self.phase = Phase::Delete { geo };
                    Action::Control { request: CtrlRequest::Delete { id: geo.id } }
                }
            },
            (Phase::Delete { .. }, Event::Replied { .. })
            | (Phase::Delete { .. }, Event::Refused { .. }) => {
                self.phase = Phase::Over;
                Action::Done
            },
            _ => Action::Ignore,
        }
    }

    /// Takes the next event of a run, and tells what is to be done.
    pub fn run(&mut self, e: Event) -> (a: Action)
        ensures
            (*final(self), a) == next(*old(self), e),
            a matches Action::Fail { fault } ==> fault.wf(),
    {
        match self.phase {
            Phase::Idle => match e {
                Event::Begin => self.begin(),
                _ => Action::Ignore,
            },
            Phase::ReadInfo { .. } | Phase::Quiesce { .. } | Phase::Recover { .. } => {
                self.adopt_step(e)
            },
            Phase::StopOrphan { .. }
            | Phase::DeleteOrphan { .. }
            | Phase::AskFeatures { .. }
            | Phase::Add
            | Phase::SetParams { .. } => self.create_step(e),
            Phase::OpenNode { .. }
            | Phase::ReadNode { .. }
            | Phase::MakeNode { .. }
            | Phase::OpenMade { .. }
            | Phase::MapQueues { .. }
            | Phase::SpawnQueues { .. } => self.connect_step(e),
            _ => self.serve_step(e),
        }
    }
}

/// Whether an action submits a command.
pub open spec fn submits(a: Action, request: CtrlRequest) -> bool {
    match a {
        Action::Control { request: r } => r == request,
        Action::ControlAfter { ms, request: r } => r == request,
        _ => false,
    }
}

/// Whether a run stands where only a creating server comes.
pub open spec fn creating(p: Phase) -> bool {
    match p {
        Phase::StopOrphan { id } => true,
        Phase::DeleteOrphan { id } => true,
        Phase::AskFeatures { id } => true,
        Phase::Add => true,
        Phase::SetParams { geo } => true,
        Phase::Stop { geo } => true,
        Phase::Delete { geo } => true,
        _ => false,
    }
}

/// A server that adopts a device never creates, redefines, stops or deletes
/// one, whatever happens.
pub proof fn an_adopted_device_is_never_redefined(s: UblkServer, e: Event)
    requires
        s.adopt is Some,
        !creating(s.phase),
    ensures
        next(s, e).0.adopt == s.adopt,
        !creating(next(s, e).0.phase),
        forall|id: u32| !submits(next(s, e).1, CtrlRequest::Stop { id }),
        forall|id: u32| !submits(next(s, e).1, CtrlRequest::Delete { id }),
        forall|info: UblkCtrlDevInfo| !submits(next(s, e).1, CtrlRequest::Add { info }),
        forall|id: u32, params: UblkParams|
            !submits(next(s, e).1, CtrlRequest::SetParams { id, params }),
{
}

/// At the end a device that outlives its server is let go of, and neither
/// stopped nor deleted.
pub proof fn a_recoverable_device_is_let_go(s: UblkServer, geo: Geometry)
    requires
        hands_over(s),
        s.phase == (Phase::Serve { geo }),
    ensures
        ({
            let t = next(s, Event::Shutdown);
            let u = next(t.0, Event::Released);
            t.1 is Release && u.1 is Done && u.0.phase is Over && !u.0.running
        }),
{
}

/// At the end any other device is stopped, released and deleted, in this
/// order, whether or not the kernel agrees.
pub proof fn a_finished_device_is_removed(s: UblkServer, geo: Geometry, a: Event, b: Event)
    requires
        !hands_over(s),
        s.phase == (Phase::Serve { geo }),
        a is Replied || a is Refused,
        b is Replied || b is Refused,
    ensures
        ({
            let t = next(s, Event::Shutdown);
            let u = next(t.0, a);
            let v = next(u.0, Event::Released);
            let w = next(v.0, b);
            &&& submits(t.1, CtrlRequest::Stop { id: geo.id })
            &&& u.1 is Release
            &&& submits(v.1, CtrlRequest::Delete { id: geo.id })
            &&& w.1 is Done
            &&& w.0.phase is Over
        }),
{
}

/// Recovery is only asked for once the device has been seen quiesced; a device
/// only goes live when all workers have fetched; and one is only deleted when
/// nothing holds it any more, or to clear the wanted place.
pub proof fn commands_come_in_order(s: UblkServer, e: Event, id: u32, pid: u32)
    ensures
        submits(next(s, e).1, CtrlRequest::StartRecovery { id }) ==> (e matches Event::Replied {
            reply: Reply::Info(now),
            late,
        } && now.state == UBLK_S_DEV_QUIESCED),
        submits(next(s, e).1, CtrlRequest::Start { id, pid }) ==> e is Spawned && pid == s.pid,
        submits(next(s, e).1, CtrlRequest::EndRecovery { id, pid }) ==> e is Spawned && pid
            == s.pid,
        submits(next(s, e).1, CtrlRequest::Delete { id }) ==> e is Released || s.phase is StopOrphan,
{
}

/// An adopted device keeps the queues that the kernel knows it by; its size is
/// that of the volume.
pub proof fn an_adopted_device_keeps_its_queues(s: UblkServer, id: u32, info: UblkCtrlDevInfo, e: Event)
    requires
        s.phase == (Phase::Recover { id, info }),
        e is Replied,
    ensures
        next(s, e).0.phase == (Phase::OpenNode {
            geo: Geometry { id, queues: info.nr_hw_queues, depth: info.queue_depth },
            retries: OPEN_RETRIES,
        }),
        next(s, e).0.dev_sectors == s.capacity / 512,
{
}

/// Once the kernel has taken a resize, asking for that size again changes
/// nothing, and asking for less is refused.
pub proof fn a_device_only_grows(s: UblkServer, bytes: u64, request: CtrlRequest)
    requires
        s.resize_of(bytes) == Ok::<Option<CtrlRequest>, UblkFault>(Some(request)),
    ensures
        request == (CtrlRequest::UpdateSize { id: s.dev_id as u32, sectors: bytes / 512 }),
        bytes / 512 > s.dev_sectors,
        ({
            let t = UblkServer { dev_sectors: bytes / 512, ..s };
            &&& t.resize_of(bytes) == Ok::<Option<CtrlRequest>, UblkFault>(None)
            &&& forall|less: u64|
                less / 512 < bytes / 512 && less % 512 == 0 ==> (#[trigger] t.resize_of(less)
                    matches Err(UblkFault::Shrink { .. }))
        }),
{
}

/// What a request of the kernel asks of the device.
#[allow(inconsistent_fields)]
#[derive(Debug, Clone, Copy, PartialEq, Eq, Structural)]
pub enum QueueOp {
    Read { offset: u64, len: u32 },
    Write { offset: u64, len: u32 },
    Flush,
    Discard { offset: u64, len: u64 },
    WriteZeroes { offset: u64, len: u64 },
    Unknown { op: u8 },
}

/// The operation in a descriptor: its low eight flag bits.
pub open spec fn op_in(d: UblkIoDesc) -> u8 {
    (d.op_flags & 0xFF) as u8
}

/// Whether a request can be carried out: its place is a 64-bit number, and
/// what it moves fits the buffer of its tag.
pub open spec fn servable(d: UblkIoDesc) -> bool {
    &&& d.start_sector * 512 <= u64::MAX
    &&& (op_in(d) == UBLK_IO_OP_READ || op_in(d) == UBLK_IO_OP_WRITE) ==> d.nr_sectors * 512
        <= DEFAULT_MAX_IO_BYTES
}

/// Whether a request can be carried out.
pub fn can_serve(d: &UblkIoDesc) -> (yes: bool)
    ensures
        yes == servable(*d),
{
    let op: u8 = (d.op_flags & 0xFF) as u8;
    let moves: bool = op == UBLK_IO_OP_READ || op == UBLK_IO_OP_WRITE;
    d.start_sector <= u64::MAX / 512 && (!moves || d.nr_sectors as u64 * 512
        <= DEFAULT_MAX_IO_BYTES as u64)
}

/// What a descriptor asks of the device, in bytes.
pub open spec fn queue_op(d: UblkIoDesc) -> QueueOp {
    let offset = (d.start_sector * 512) as u64;
    let len = d.nr_sectors * 512;
    if op_in(d) == UBLK_IO_OP_READ {
        QueueOp::Read { offset, len: len as u32 }
    } else if op_in(d) == UBLK_IO_OP_WRITE {
        QueueOp::Write { offset, len: len as u32 }
    } else if op_in(d) == UBLK_IO_OP_FLUSH {
        QueueOp::Flush
    } else if op_in(d) == UBLK_IO_OP_DISCARD {
        QueueOp::Discard { offset, len: len as u64 }
    } else if op_in(d) == UBLK_IO_OP_WRITE_ZEROES {
        QueueOp::WriteZeroes { offset, len: len as u64 }
    } else {
        QueueOp::Unknown { op: op_in(d) }
    }
}

/// What a descriptor asks of the device.
pub fn plan_request(d: &UblkIoDesc) -> (op: QueueOp)
    requires
        servable(*d),
    ensures
        op == queue_op(*d),
{
    let op: u8 = (d.op_flags & 0xFF) as u8;
    let offset: u64 = d.start_sector * 512;
    let len: u64 = d.nr_sectors as u64 * 512;
    if op == UBLK_IO_OP_READ {
        QueueOp::Read { offset, len: len as u32 }
    } else if op == UBLK_IO_OP_WRITE {
        QueueOp::Write { offset, len: len as u32 }
    } else if op == UBLK_IO_OP_FLUSH {
        QueueOp::Flush
    } else if op == UBLK_IO_OP_DISCARD {
        QueueOp::Discard { offset, len }
    } else if op == UBLK_IO_OP_WRITE_ZEROES {
        QueueOp::WriteZeroes { offset, len }
    } else {
        QueueOp::Unknown { op }
    }
}

/// What the kernel is answered: how many bytes were moved, zero, or an error.
/// Writing zeroes is a discard that may fail; an operation that is not known
/// is not supported.
pub open spec fn answer_to(op: QueueOp, ok: bool) -> int {
    match op {
        QueueOp::Read { offset, len } => if ok {
            len as int
        } else {
            -EIO
        },
        QueueOp::Write { offset, len } => if ok {
            len as int
        } else {
            -EIO
        },
        QueueOp::Flush => if ok {
            0
        } else {
            -EIO
        },
        QueueOp::Discard { offset, len } => if ok {
            0
        } else {
            -EIO
        },
        QueueOp::WriteZeroes { offset, len } => 0,
        QueueOp::Unknown { op } => -ENOTSUP,
    }
}

/// What the kernel is answered, by whether the device did as asked.
pub fn answer(op: &QueueOp, ok: bool) -> (r: i32)
    requires
        *op matches QueueOp::Read { offset, len } ==> len <= i32::MAX,
        *op matches QueueOp::Write { offset, len } ==> len <= i32::MAX,
    ensures
        r == answer_to(*op, ok),
{
    match op {
        QueueOp::Read { len, .. } | QueueOp::Write { len, .. } => if ok {
            *len as i32
        } else {
            -EIO
        },
        QueueOp::Flush | QueueOp::Discard { .. } => if ok {
            0
        } else {
            -EIO
        },
        QueueOp::WriteZeroes { .. } => 0,
        QueueOp::Unknown { .. } => -ENOTSUP,
    }
}

/// A request to carry out, by its tag.
#[derive(Debug, Clone, Copy, PartialEq, Eq, Structural)]
pub struct Job {
    pub tag: u16,
    pub op: QueueOp,
}

/// The requests among completions, tag and result of each: a negative result
/// brings none.
pub open spec fn jobs_of(done: Seq<(u16, i32)>, descs: Seq<UblkIoDesc>) -> Seq<Job>
    decreases done.len(),
{
    if done.len() == 0 {
        Seq::empty()
    } else {
        let rest = jobs_of(done.drop_last(), descs);
        let (tag, result) = done.last();
        if result < 0 {
            rest
        } else {
            rest.push(Job { tag, op: queue_op(descs[tag as int]) })
        }
    }
}

/// The requests among completions. Each tag that brings one has its
/// descriptor.
pub fn jobs(done: &[(u16, i32)], descs: &[UblkIoDesc]) -> (r: Vec<Job>)
    requires
        forall|i: int|
            0 <= i < done@.len() && (#[trigger] done@[i]).1 >= 0 ==> done@[i].0 < descs@.len()
                && servable(descs@[done@[i].0 as int]),
    ensures
        r@ == jobs_of(done@, descs@),
{
    let mut r: Vec<Job> = Vec::new();
    let mut i: usize = 0;
    let n: usize = done.len();
    let m: usize = descs.len();
    while i < n
        invariant
            i <= n == done@.len(),
            m == descs@.len(),
            r@ == jobs_of(done@.take(i as int), descs@),
            forall|i: int|
                0 <= i < done@.len() && (#[trigger] done@[i]).1 >= 0 ==> done@[i].0 < descs@.len()
                    && servable(descs@[done@[i].0 as int]),
        decreases n - i,
    {
        assert(done@.take(i + 1).drop_last() =~= done@.take(i as int));
        let (tag, result) = done[i];
        if result >= 0 {
            r.push(Job { tag, op: plan_request(&descs[tag as usize]) });
        }
        i = i + 1;
    }
    assert(done@.take(n as int) =~= done@);
    r
}

/// What a worker does after it has waited for the kernel.
#[derive(Debug, Clone, Copy, PartialEq, Eq, Structural)]
pub enum WorkerStep {
    /// Look at the completions.
    Collect,
    /// Wait again.
    Again,
    Exit,
}

/// How waiting for the kernel ended: with completions, or with a system error
/// where it has a number.
#[derive(Debug, Clone, Copy, PartialEq, Eq, Structural)]
pub enum Waited {
    Woken,
    Failed(Option<i32>),
}

/// What a worker does after it has waited: an expired wait is where the end of
/// the server is noticed, an interrupted one is taken up again, and any other
/// error ends the worker.
pub fn after_wait(w: Waited, running: bool) -> (step: WorkerStep)
    ensures
        step == (match w {
            Waited::Woken => WorkerStep::Collect,
            Waited::Failed(Some(n)) => if n == EINTR || (n == ETIME && running) {
                WorkerStep::Again
            } else {
                WorkerStep::Exit
            },
            Waited::Failed(None) => WorkerStep::Exit,
        }),
{
    match w {
        Waited::Woken => WorkerStep::Collect,
        Waited::Failed(Some(n)) => if n == EINTR || (n == ETIME && running) {
            WorkerStep::Again
        } else {
            WorkerStep::Exit
        },
        Waited::Failed(None) => WorkerStep::Exit,
    }
}

/// The bytes that answer a request and fetch the next; for the first fetch
/// the result is zero.
pub fn io_command(queue: u16, tag: u16, result: i32, addr: u64) -> (b: Vec<u8>)
    ensures
        b@ == ublk_abi::payload_of((UblkIoCmd { q_id: queue, tag, result, addr }).layout()),
        b@.len() == ublk_abi::PAYLOAD_LEN,
{
    let c = UblkIoCmd { q_id: queue, tag, result, addr };
    ublk_abi::payload(c.as_bytes())
}

/// Size of the descriptors of one queue.
pub fn descriptor_bytes(geo: &Geometry) -> (n: usize)
    ensures
        n == geo.depth * ublk_abi::IO_DESC_LEN,
{
    geo.depth as usize * ublk_abi::IO_DESC_LEN
}

/// A whole request is answered with its length, and nothing it asks for lies
/// outside the sectors it names.
pub proof fn a_request_is_answered_in_full(d: UblkIoDesc)
    requires
        servable(d),
        op_in(d) == UBLK_IO_OP_READ || op_in(d) == UBLK_IO_OP_WRITE,
    ensures
        answer_to(queue_op(d), true) == d.nr_sectors * 512,
        answer_to(queue_op(d), false) == -EIO,
        match queue_op(d) {
            QueueOp::Read { offset, len } => offset == d.start_sector * 512 && len == d.nr_sectors
                * 512,
            QueueOp::Write { offset, len } => offset == d.start_sector * 512 && len
                == d.nr_sectors * 512,
            _ => false,
        },
{
}

/// The numbers among `ids` whose flag is not set.
pub open spec fn unset(ids: Seq<u32>, flags: Seq<bool>) -> Seq<u32>
    decreases ids.len(),
{
    if ids.len() == 0 {
        Seq::empty()
    } else {
        let rest = unset(ids.drop_last(), flags);
        if flags[ids.len() - 1] {
            rest
        } else {
            rest.push(ids.last())
        }
    }
}

/// The numbers among `ids` whose flag is not set.
fn pick_unset(ids: &[u32], flags: &[bool]) -> (r: Vec<u32>)
    requires
        ids@.len() == flags@.len(),
    ensures
        r@ == unset(ids@, flags@),
{
    let mut r: Vec<u32> = Vec::new();
    let mut i: usize = 0;
    let n: usize = ids.len();
    while i < n
        invariant
            i <= n == ids@.len() == flags@.len(),
            r@ == unset(ids@.take(i as int), flags@),
        decreases n - i,
    {
        assert(ids@.take(i + 1).drop_last() =~= ids@.take(i as int));
        if !flags[i] {
            r.push(ids[i]);
        }
        i = i + 1;
    }
    assert(ids@.take(n as int) =~= ids@);
    r
}

/// `unset` lists exactly the numbers whose flag is not set.
proof fn lemma_unset(ids: Seq<u32>, flags: Seq<bool>, id: u32)
    requires
        ids.len() <= flags.len(),
    ensures
        unset(ids, flags).contains(id) <==> exists|i: int|
            0 <= i < ids.len() && #[trigger] ids[i] == id && !flags[i],
    decreases ids.len(),
{
    if ids.len() > 0 {
        let last = ids.len() - 1;
        let rest = unset(ids.drop_last(), flags);
        lemma_unset(ids.drop_last(), flags, id);
        let all = unset(ids, flags);
        if rest.contains(id) {
            let i = choose|i: int|
                0 <= i < ids.drop_last().len() && #[trigger] ids.drop_last()[i] == id && !flags[i];
            assert(ids[i] == id);
            let k = rest.index_of(id);
            assert(all[k] == id);
        }
        if ids[last] == id && !flags[last] {
            assert(all.last() == id);
        }
        if all.contains(id) && !rest.contains(id) {
            let k = all.index_of(id);
            assert(k == rest.len()) by {
                if k < rest.len() {
                    assert(rest[k] == id);
                }
            }
            assert(ids[last] == id && !flags[last]);
        }
        if exists|i: int| 0 <= i < ids.len() && #[trigger] ids[i] == id && !flags[i] {
            let i = choose|i: int| 0 <= i < ids.len() && #[trigger] ids[i] == id && !flags[i];
            if i < last {
                assert(ids.drop_last()[i] == id);
            }
        }
    }
}

/// Which states are live.
pub open spec fn live_flags(states: Seq<Option<u16>>) -> Seq<bool> {
    states.map_values(|s: Option<u16>| s == Some(UBLK_S_DEV_LIVE))
}

/// Whether waiting for devices to come back is over, and which have not: all
/// are live, or the time is up. `states` are those of the devices, in order.
pub fn wait_live(dev_ids: &[u32], states: &[Option<u16>], late: bool) -> (r: Option<Vec<u32>>)
    requires
        dev_ids@.len() == states@.len(),
    ensures
        match r {
            Some(pending) => pending@ == unset(dev_ids@, live_flags(states@)) && (pending@.len()
                == 0 || late),
            None => unset(dev_ids@, live_flags(states@)).len() > 0 && !late,
        },
{
    let mut flags: Vec<bool> = Vec::new();
    let mut i: usize = 0;
    let n: usize = states.len();
    while i < n
        invariant
            i <= n == states@.len(),
            flags@.len() == i,
            forall|j: int| 0 <= j < i ==> flags@[j] == (states@[j] == Some(UBLK_S_DEV_LIVE)),
        decreases n - i,
    {
        let live: bool = match states[i] {
            Some(s) => s == UBLK_S_DEV_LIVE,
            None => false,
        };
        flags.push(live);
        i = i + 1;
    }
    assert(flags@ =~= live_flags(states@));
    let pending = pick_unset(dev_ids, &flags);
    if pending.len() == 0 || late {
        Some(pending)
    } else {
        None
    }
}

/// Waiting ends with nothing pending exactly when every device is live.
pub proof fn nothing_pending_means_all_live(dev_ids: Seq<u32>, states: Seq<Option<u16>>)
    requires
        dev_ids.len() == states.len(),
    ensures
        unset(dev_ids, live_flags(states)).len() == 0 <==> forall|i: int|
            0 <= i < states.len() ==> #[trigger] states[i] == Some(UBLK_S_DEV_LIVE),
{
    let flags = live_flags(states);
    let u = unset(dev_ids, flags);
    if u.len() > 0 {
        assert(u.contains(u[0]));
        lemma_unset(dev_ids, flags, u[0]);
        let i = choose|i: int|
            0 <= i < dev_ids.len() && #[trigger] dev_ids[i] == u[0] && !flags[i];
        assert(states[i] != Some(UBLK_S_DEV_LIVE));
    } else {
        assert forall|i: int| 0 <= i < states.len() implies #[trigger] states[i] == Some(
            UBLK_S_DEV_LIVE,
        ) by {
            lemma_unset(dev_ids, flags, dev_ids[i]);
            assert(!u.contains(dev_ids[i]));
            assert(flags[i]);
        }
    }
}

/// The numbers of the devices among the names of character devices.
pub open spec fn ids_in(names: Seq<String>) -> Seq<u32>
    decreases names.len(),
{
    if names.len() == 0 {
        Seq::empty()
    } else {
        let rest = ids_in(names.drop_last());
        match text::without_prefix(names.last()@, "ublkc"@) {
            None => rest,
            Some(n) => match text::parsed(n, u32::MAX as nat) {
                None => rest,
                Some(id) => rest.push(id as u32),
            },
        }
    }
}

/// The number in the name of a character device.
fn id_in(name: &str) -> (r: Option<u32>)
    ensures
        r == (match text::without_prefix(name@, "ublkc"@) {
            None => None,
            Some(n) => match text::parsed(n, u32::MAX as nat) {
                None => None::<u32>,
                Some(id) => Some(id as u32),
            },
        }),
{
    let v = text::to_chars(name);
    let n = text::strip_prefix(&v, "ublkc")?;
    let id: u64 = text::parse_number(&n, u32::MAX as u64)?;
    Some(id as u32)
}

/// The numbers of the devices, in ascending order.
pub fn devices(names: &Vec<String>) -> (r: Vec<u32>)
    ensures
        r@.to_multiset() == ids_in(names@).to_multiset(),
        forall|i: int, j: int| 0 <= i < j < r@.len() ==> r@[i] <= r@[j],
{
    let mut r: Vec<u32> = Vec::new();
    let mut i: usize = 0;
    while i < names.len()
        invariant
            i <= names@.len(),
            r@ == ids_in(names@.take(i as int)),
        decreases names@.len() - i,
    {
        assert(names@.take(i + 1).drop_last() =~= names@.take(i as int));
        match id_in(&names[i]) {
            Some(id) => {
                r.push(id);
            },
            None => {},
        }
        i = i + 1;
    }
    assert(names@.take(names@.len() as int) =~= names@);
    order::sort_numbers(&mut r);
    r
}

/// Whether a process can be asked to stand down: it is one, it is not this
/// one, and it is the first process of the system only where `init` says so.
pub open spec fn is_server(pid: i32, me: i32, init: bool) -> bool {
    pid > 0 && pid != me && (init || pid != 1)
}

/// The processes behind devices, each once, in the order of the devices.
pub open spec fn servers(pids: Seq<Option<i32>>, me: i32, init: bool) -> Seq<i32>
    decreases pids.len(),
{
    if pids.len() == 0 {
        Seq::empty()
    } else {
        let rest = servers(pids.drop_last(), me, init);
        match pids.last() {
            Some(p) => if is_server(p, me, init) && !rest.contains(p) {
                rest.push(p)
            } else {
                rest
            },
            None => rest,
        }
    }
}

fn holds_pid(v: &Vec<i32>, p: i32) -> (yes: bool)
    ensures
        yes == v@.contains(p),
{
    let mut i: usize = 0;
    while i < v.len()
        invariant
            i <= v@.len(),
            forall|j: int| 0 <= j < i ==> v@[j] != p,
        decreases v@.len() - i,
    {
        if v[i] == p {
            assert(v@[i as int] == p);
            return true;
        }
        i = i + 1;
    }
    false
}

fn holds_id(v: &[u32], id: u32) -> (yes: bool)
    ensures
        yes == v@.contains(id),
{
    let mut i: usize = 0;
    let n: usize = v.len();
    while i < n
        invariant
            i <= n == v@.len(),
            forall|j: int| 0 <= j < i ==> v@[j] != id,
        decreases n - i,
    {
        if v[i] == id {
            assert(v@[i as int] == id);
            return true;
        }
        i = i + 1;
    }
    false
}

fn collect_servers(pids: &[Option<i32>], me: i32, init: bool) -> (r: Vec<i32>)
    ensures
        r@ == servers(pids@, me, init),
{
    let mut r: Vec<i32> = Vec::new();
    let mut i: usize = 0;
    let n: usize = pids.len();
    while i < n
        invariant
            i <= n == pids@.len(),
            r@ == servers(pids@.take(i as int), me, init),
        decreases n - i,
    {
        assert(pids@.take(i + 1).drop_last() =~= pids@.take(i as int));
        match pids[i] {
            Some(p) => {
                if p > 0 && p != me && (init || p != 1) && !holds_pid(&r, p) {
                    r.push(p);
                }
            },
            None => {},
        }
        i = i + 1;
    }
    assert(pids@.take(n as int) =~= pids@);
    r
}

/// The processes to ask to stand down, each once: those behind the devices,
/// but neither this one nor the system's first.
pub fn incumbents(pids: &[Option<i32>], me: i32) -> (r: Vec<i32>)
    ensures
        r@ == servers(pids@, me, false),
{
    collect_servers(pids, me, false)
}

/// The processes to ask are exactly those behind the devices that can be
/// asked, each once. Neither this process nor the system's first is ever
/// among them, nor an orphan's zero.
pub proof fn who_is_asked_to_stand_down(pids: Seq<Option<i32>>, me: i32, init: bool)
    ensures
        servers(pids, me, init).no_duplicates(),
        forall|p: i32| #[trigger]
            servers(pids, me, init).contains(p) <==> is_server(p, me, init) && pids.contains(
                Some(p),
            ),
    decreases pids.len(),
{
    let all = servers(pids, me, init);
    if pids.len() > 0 {
        let rest = servers(pids.drop_last(), me, init);
        who_is_asked_to_stand_down(pids.drop_last(), me, init);
        assert forall|p: i32| #[trigger]
            all.contains(p) <==> is_server(p, me, init) && pids.contains(Some(p)) by {
            if rest.contains(p) {
                let k = rest.index_of(p);
                assert(all[k] == p);
                let i = pids.drop_last().index_of(Some(p));
                assert(pids[i] == Some(p));
            }
            if all.contains(p) && !rest.contains(p) {
                let k = all.index_of(p);
                assert(k == rest.len()) by {
                    if k < rest.len() {
                        assert(rest[k] == p);
                    }
                }
                assert(pids.last() == Some(p));
            }
            if pids.contains(Some(p)) && is_server(p, me, init) {
                let i = pids.index_of(Some(p));
                if i < pids.len() - 1 {
                    assert(pids.drop_last()[i] == Some(p));
                } else if !rest.contains(p) {
                    assert(all.last() == p);
                }
            }
        }
    }
}

/// The devices that would be left without a server, though nobody named them:
/// those of `others` that are not named and have the same servers.
pub open spec fn orphaned(
    named: Seq<u32>,
    servers: Seq<i32>,
    others: Seq<(u32, Option<i32>)>,
) -> Seq<u32>
    decreases others.len(),
{
    if others.len() == 0 {
        Seq::empty()
    } else {
        let rest = orphaned(named, servers, others.drop_last());
        let (id, pid) = others.last();
        match pid {
            Some(p) => if !named.contains(id) && servers.contains(p) {
                rest.push(id)
            } else {
                rest
            },
            None => rest,
        }
    }
}

/// The devices served by the same processes as `dev_ids`, but not in that
/// list. `pids` are the servers of the named devices, `all` are all devices
/// with theirs, and `me` is this process.
pub fn also_served_by(
    dev_ids: &[u32],
    pids: &[Option<i32>],
    all: &[(u32, Option<i32>)],
    me: i32,
) -> (r: Vec<u32>)
    ensures
        r@ == orphaned(dev_ids@, servers(pids@, me, true), all@),
{
    let asked = collect_servers(pids, me, true);
    let mut r: Vec<u32> = Vec::new();
    let mut i: usize = 0;
    let n: usize = all.len();
    while i < n
        invariant
            i <= n == all@.len(),
            asked@ == servers(pids@, me, true),
            r@ == orphaned(dev_ids@, asked@, all@.take(i as int)),
        decreases n - i,
    {
        assert(all@.take(i + 1).drop_last() =~= all@.take(i as int));
        let (id, pid) = all[i];
        match pid {
            Some(p) => {
                if !holds_id(dev_ids, id) && holds_pid(&asked, p) {
                    r.push(id);
                }
            },
            None => {},
        }
        i = i + 1;
    }
    assert(all@.take(n as int) =~= all@);
    r
}

/// A device is left without a server exactly if it is not named and one of
/// the named devices has the same server.
pub proof fn what_standing_down_would_orphan(
    named: Seq<u32>,
    asked: Seq<i32>,
    others: Seq<(u32, Option<i32>)>,
    id: u32,
)
    ensures
        orphaned(named, asked, others).contains(id) <==> !named.contains(id) && exists|i: int|
            0 <= i < others.len() && (#[trigger] others[i]).0 == id && (others[i].1 matches Some(p)
                && asked.contains(p)),
    decreases others.len(),
{
    if others.len() > 0 {
        let last = others.len() - 1;
        let before = others.drop_last();
        let rest = orphaned(named, asked, before);
        let all = orphaned(named, asked, others);
        what_standing_down_would_orphan(named, asked, before, id);
        if rest.contains(id) {
            let i = choose|i: int|
                0 <= i < before.len() && (#[trigger] before[i]).0 == id && (before[i].1 matches Some(
                    p,
                ) && asked.contains(p));
            assert(others[i].0 == id);
            let k = rest.index_of(id);
            assert(all[k] == id);
        }
        if all.contains(id) && !rest.contains(id) {
            let k = all.index_of(id);
            assert(k == rest.len()) by {
                if k < rest.len() {
                    assert(rest[k] == id);
                }
            }
            assert(others[last].0 == id);
        }
        if !named.contains(id) && exists|i: int|
            0 <= i < others.len() && (#[trigger] others[i]).0 == id && (others[i].1 matches Some(p)
                && asked.contains(p)) {
            let i = choose|i: int|
                0 <= i < others.len() && (#[trigger] others[i]).0 == id && (others[i].1 matches Some(
                    p,
                ) && asked.contains(p));
            if i < last {
                assert(before[i].0 == id);
            } else {
                assert(all.last() == id);
            }
        }
    }
}

/// What a look at a device showed.
#[derive(Debug, Clone, Copy, PartialEq, Eq, Structural)]
pub enum Look {
    /// It could not be looked at.
    Failed,
    /// There is no such device.
    Missing,
    State(u16),
}

/// Whether a device can change hands: it is quiesced, or gone.
pub open spec fn settled(l: Look) -> bool {
    l == Look::Missing || l == Look::State(UBLK_S_DEV_QUIESCED)
}

/// Which looks showed a settled device.
pub open spec fn settled_flags(looks: Seq<Look>) -> Seq<bool> {
    looks.map_values(|l: Look| settled(l))
}

/// The processes that are still alive.
pub open spec fn living(pids: Seq<i32>, alive: Seq<bool>) -> Seq<i32>
    decreases pids.len(),
{
    if pids.len() == 0 {
        Seq::empty()
    } else {
        let rest = living(pids.drop_last(), alive);
        if alive[pids.len() - 1] {
            rest.push(pids.last())
        } else {
            rest
        }
    }
}

/// What comes next while servers are asked to stand down.
pub enum StandDown {
    /// Ask these, and wait for the devices.
    Ask(Vec<i32>),
    /// Nothing: all devices can change hands, or there is nobody to ask.
    Settled,
    /// Look again in a while.
    Wait,
    /// Kill these, give them a moment, and look again.
    Kill(Vec<i32>),
    /// Give up on these devices.
    GiveUp(Vec<u32>),
}

/// Tells how standing down begins: the servers behind the devices are asked,
/// each once. Where there is nobody to ask it is done at once. `pids` are the
/// servers of the devices, and `me` is this process.
pub fn begin_standing_down(pids: &[Option<i32>], me: i32) -> (r: StandDown)
    ensures
        ({
            let asked = servers(pids@, me, false);
            match r {
                StandDown::Settled => asked.len() == 0,
                StandDown::Ask(v) => asked.len() > 0 && v@ == asked,
                _ => false,
            }
        }),
{
    let asked = incumbents(pids, me);
    if asked.len() == 0 {
        StandDown::Settled
    } else {
        StandDown::Ask(asked)
    }
}

/// Tells what comes next while the named devices are waited for. Servers are
/// killed only when the time is up and a device is still held, only while
/// they live, and only once. Where nobody was asked there is nothing to wait
/// for.
pub fn stand_down(
    dev_ids: &[u32],
    looks: &[Look],
    late: bool,
    killed: bool,
    pids: &[i32],
    alive: &[bool],
) -> (r: StandDown)
    requires
        dev_ids@.len() == looks@.len(),
        pids@.len() == alive@.len(),
    ensures
        ({
            let pending = unset(dev_ids@, settled_flags(looks@));
            let targets = living(pids@, alive@);
            let held = pids@.len() > 0 && pending.len() > 0;
            match r {
                StandDown::Ask(v) => false,
                StandDown::Settled => !held,
                StandDown::Wait => held && !late,
                StandDown::Kill(v) => held && late && !killed && targets.len() > 0 && v@ == targets,
                StandDown::GiveUp(v) => held && late && (killed || targets.len() == 0) && v@
                    == pending,
            }
        }),
{
    if pids.len() == 0 {
        return StandDown::Settled;
    }
    let mut flags: Vec<bool> = Vec::new();
    let mut i: usize = 0;
    let n: usize = looks.len();
    while i < n
        invariant
            i <= n == looks@.len(),
            flags@.len() == i,
            forall|j: int| 0 <= j < i ==> flags@[j] == settled(looks@[j]),
        decreases n - i,
    {
        let free: bool = match looks[i] {
            Look::Failed => false,
            Look::Missing => true,
            Look::State(s) => s == UBLK_S_DEV_QUIESCED,
        };
        flags.push(free);
        i = i + 1;
    }
    assert(flags@ =~= settled_flags(looks@));
    let pending = pick_unset(dev_ids, &flags);
    if pending.len() == 0 {
        return StandDown::Settled;
    }
    if !late {
        return StandDown::Wait;
    }
    let mut targets: Vec<i32> = Vec::new();
    let mut k: usize = 0;
    let m: usize = pids.len();
    while k < m
        invariant
            k <= m == pids@.len() == alive@.len(),
            targets@ == living(pids@.take(k as int), alive@),
        decreases m - k,
    {
        assert(pids@.take(k + 1).drop_last() =~= pids@.take(k as int));
        if alive[k] {
            targets.push(pids[k]);
        }
        k = k + 1;
    }
    assert(pids@.take(m as int) =~= pids@);
    if !killed && targets.len() > 0 {
        StandDown::Kill(targets)
    } else {
        StandDown::GiveUp(pending)
    }
}

/// Standing down is done at once exactly where no process is behind the devices
/// that can be asked: each has no server, or this process, or the system's
/// first.
pub proof fn nobody_to_ask_is_done_at_once(pids: Seq<Option<i32>>, me: i32)
    ensures
        servers(pids, me, false).len() == 0 <==> forall|i: int|
            0 <= i < pids.len() ==> (#[trigger] pids[i] matches Some(p) ==> !is_server(
                p,
                me,
                false,
            )),
{
    let asked = servers(pids, me, false);
    who_is_asked_to_stand_down(pids, me, false);
    if asked.len() > 0 {
        assert(asked.contains(asked[0]));
        let i = pids.index_of(Some(asked[0]));
        assert(pids[i] == Some(asked[0]));
    }
    if asked.len() == 0 {
        assert forall|i: int| 0 <= i < pids.len() implies (#[trigger] pids[i] matches Some(p)
            ==> !is_server(p, me, false)) by {
            if pids[i] is Some && is_server(pids[i]->0, me, false) {
                assert(pids.contains(Some(pids[i]->0)));
                assert(asked.contains(pids[i]->0));
            }
        }
    }
}

/// Only processes that were asked to stand down are killed: never this one,
/// and never the system's first.
pub proof fn only_incumbents_are_killed(behind: Seq<Option<i32>>, me: i32, alive: Seq<bool>, p: i32)
    requires
        alive.len() == servers(behind, me, false).len(),
        living(servers(behind, me, false), alive).contains(p),
    ensures
        p > 1,
        p != me,
        behind.contains(Some(p)),
{
    who_is_asked_to_stand_down(behind, me, false);
    lemma_living(servers(behind, me, false), alive, p);
}

proof fn lemma_living(pids: Seq<i32>, alive: Seq<bool>, p: i32)
    requires
        living(pids, alive).contains(p),
    ensures
        pids.contains(p),
    decreases pids.len(),
{
    if pids.len() > 0 {
        let rest = living(pids.drop_last(), alive);
        if rest.contains(p) {
            lemma_living(pids.drop_last(), alive, p);
            let i = pids.drop_last().index_of(p);
            assert(pids[i] == p);
        } else {
            let all = living(pids, alive);
            let k = all.index_of(p);
            assert(k == rest.len()) by {
                if k < rest.len() {
                    assert(rest[k] == p);
                }
            }
            assert(pids.last() == p);
        }
    }
}

} // verus!
