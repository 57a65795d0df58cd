//! An NVMe controller that is driven from user space: its registers, its
//! queue entries, and what they are set to when it is brought up.
use crate::bytes;
use crate::text;
use crate::drive::{DriveError, DriveResult};
use vstd::prelude::*;

verus! {

pub const NVME_OPC_READ: u8 = 0x02;

pub const NVME_OPC_WRITE: u8 = 0x01;

pub const NVME_OPC_FLUSH: u8 = 0x00;

/// Dataset management: trim.
pub const NVME_OPC_DSM: u8 = 0x09;

pub const NVME_ADMIN_IDENTIFY: u8 = 0x06;

pub const NVME_ADMIN_CREATE_IO_CQ: u8 = 0x05;

pub const NVME_ADMIN_CREATE_IO_SQ: u8 = 0x01;

/// Size of a submission queue entry.
pub const SUBMISSION_LEN: usize = 64;

/// Size of a completion queue entry.
pub const COMPLETION_LEN: usize = 16;

/// Entries of the admin queues.
pub const ADMIN_DEPTH: u32 = 32;

/// The largest transfer, until the controller tells otherwise.
pub const MAX_TRANSFER: u32 = 131072;

/// How often the status is looked at before the controller counts as dead.
pub const READY_TRIES: u32 = 1000;

/// The controller's registers, from the start of its memory window.
#[derive(Debug, Clone, Copy, PartialEq, Eq, Structural)]
pub struct NvmeRegisters {
    /// Capabilities.
    pub cap: u64,
    /// Version.
    pub vs: u32,
    /// Interrupt mask set.
    pub intms: u32,
    /// Interrupt mask clear.
    pub intmc: u32,
    /// Configuration.
    pub cc: u32,
    /// Status.
    pub csts: u32,
    /// Subsystem reset.
    pub nssr: u32,
    /// Admin queue attributes.
    pub aqa: u32,
    /// Admin submission queue.
    pub asq: u64,
    /// Admin completion queue.
    pub acq: u64,
}

/// A submission queue entry.
#[derive(Debug, Clone, Copy, PartialEq, Eq, Structural)]
pub struct NvmeSubmissionEntry {
    pub opcode: u8,
    pub flags: u8,
    pub command_id: u16,
    pub nsid: u32,
    pub metadata_ptr: u64,
    pub prp1: u64,
    pub prp2: u64,
    pub cdw10: u32,
    pub cdw11: u32,
    pub cdw12: u32,
    pub cdw13: u32,
    pub cdw14: u32,
    pub cdw15: u32,
}

impl Default for NvmeSubmissionEntry {
    fn default() -> (e: Self)
        ensures
            e == (NvmeSubmissionEntry {
                opcode: 0,
                flags: 0,
                command_id: 0,
                nsid: 0,
                metadata_ptr: 0,
                prp1: 0,
                prp2: 0,
                cdw10: 0,
                cdw11: 0,
                cdw12: 0,
                cdw13: 0,
                cdw14: 0,
                cdw15: 0,
            }),
    {
        NvmeSubmissionEntry {
            opcode: 0,
            flags: 0,
            command_id: 0,
            nsid: 0,
            metadata_ptr: 0,
            prp1: 0,
            prp2: 0,
            cdw10: 0,
            cdw11: 0,
            cdw12: 0,
            cdw13: 0,
            cdw14: 0,
            cdw15: 0,
        }
    }
}

impl NvmeSubmissionEntry {
    /// The entry as the controller reads it.
    pub open spec fn layout(self) -> Seq<u8> {
        seq![self.opcode, self.flags] + bytes::le_bytes(self.command_id as nat, 2)
            + bytes::le_bytes(self.nsid as nat, 4) + bytes::zeros(8) + bytes::le_bytes(
            self.metadata_ptr as nat,
            8,
        ) + bytes::le_bytes(self.prp1 as nat, 8) + bytes::le_bytes(self.prp2 as nat, 8)
            + bytes::le_bytes(self.cdw10 as nat, 4) + bytes::le_bytes(self.cdw11 as nat, 4)
            + bytes::le_bytes(self.cdw12 as nat, 4) + bytes::le_bytes(self.cdw13 as nat, 4)
            + bytes::le_bytes(self.cdw14 as nat, 4) + bytes::le_bytes(self.cdw15 as nat, 4)
    }

    /// The entry as the controller reads it.
    pub fn as_bytes(&self) -> (b: Vec<u8>)
        ensures
            b@ == self.layout(),
            b@.len() == SUBMISSION_LEN,
    {
        broadcast use bytes::lemma_le_bytes_len;

        let mut b: Vec<u8> = Vec::new();
        b.push(self.opcode);
        b.push(self.flags);
        bytes::push_le(&mut b, self.command_id as u64, 2);
        bytes::push_le(&mut b, self.nsid as u64, 4);
        bytes::push_zeros(&mut b, 8);
        bytes::push_le(&mut b, self.metadata_ptr, 8);
        bytes::push_le(&mut b, self.prp1, 8);
        bytes::push_le(&mut b, self.prp2, 8);
        bytes::push_le(&mut b, self.cdw10 as u64, 4);
        bytes::push_le(&mut b, self.cdw11 as u64, 4);
        bytes::push_le(&mut b, self.cdw12 as u64, 4);
        bytes::push_le(&mut b, self.cdw13 as u64, 4);
        bytes::push_le(&mut b, self.cdw14 as u64, 4);
        bytes::push_le(&mut b, self.cdw15 as u64, 4);
        assert(b@ =~= self.layout());
        b
    }
}

/// A completion queue entry.
#[derive(Debug, Clone, Copy, PartialEq, Eq, Structural)]
pub struct NvmeCompletionEntry {
    pub result: u32,
    pub sq_head: u16,
    pub sq_id: u16,
    pub command_id: u16,
    /// Status, and the phase bit.
    pub status: u16,
}

impl Default for NvmeCompletionEntry {
    fn default() -> (e: Self)
        ensures
            e == (NvmeCompletionEntry { result: 0, sq_head: 0, sq_id: 0, command_id: 0, status: 0 }),
    {
        NvmeCompletionEntry { result: 0, sq_head: 0, sq_id: 0, command_id: 0, status: 0 }
    }
}

impl NvmeCompletionEntry {
    /// The entry that the controller wrote.
    pub open spec fn held(b: Seq<u8>) -> NvmeCompletionEntry {
        NvmeCompletionEntry {
            result: bytes::le_value(b.subrange(0, 4)) as u32,
            sq_head: bytes::le_value(b.subrange(8, 10)) as u16,
            sq_id: bytes::le_value(b.subrange(10, 12)) as u16,
            command_id: bytes::le_value(b.subrange(12, 14)) as u16,
            status: bytes::le_value(b.subrange(14, 16)) as u16,
        }
    }

    /// The entry that the controller wrote.
    pub fn read(b: &[u8]) -> (e: NvmeCompletionEntry)
        requires
            b@.len() == COMPLETION_LEN,
        ensures
            e == NvmeCompletionEntry::held(b@),
    {
        proof {
            bytes::lemma_radix();
        }
        NvmeCompletionEntry {
            result: bytes::get_le(b, 0, 4) as u32,
            sq_head: bytes::get_le(b, 8, 2) as u16,
            sq_id: bytes::get_le(b, 10, 2) as u16,
            command_id: bytes::get_le(b, 12, 2) as u16,
            status: bytes::get_le(b, 14, 2) as u16,
        }
    }
}

/// A pair of I/O queues, one per core. Doorbells are offsets into the
/// controller's memory window.
#[derive(Debug, Clone, Copy, PartialEq, Eq, Structural)]
pub struct IoQueuePair {
    pub sq_dma_addr: u64,
    pub cq_dma_addr: u64,
    pub sq_doorbell: u64,
    pub cq_doorbell: u64,
    pub sq_tail: u32,
    pub cq_head: u32,
    pub cq_phase: bool,
    pub depth: u32,
    pub core_id: usize,
}

/// A namespace.
#[derive(Debug, Clone, Copy, PartialEq, Eq, Structural)]
pub struct NvmeNamespace {
    pub nsid: u32,
    pub capacity_blocks: u64,
    pub block_size: u32,
}

/// Attributes of admin queues of one depth: each size, counted from zero, in
/// a half of the register.
pub fn admin_attributes(depth: u32) -> (aqa: u32)
    requires
        1 <= depth <= 4096,
    ensures
        aqa == (depth - 1) * 0x1_0000 + (depth - 1),
        aqa as int % 65536 == depth - 1,
        aqa as int / 65536 == depth - 1,
{
    let n: u32 = depth - 1;
    n * 0x1_0000 + n
}

/// The configuration that enables a controller: submission entries of two to
/// the sixth bytes, completion entries of two to the fourth, enabled.
pub fn enable_configuration() -> (cc: u32)
    ensures
        cc == 6 * 0x1_0000 + 4 * 0x10_0000 + 1,
        cc as int % 2 == 1,
        (cc as int / 0x1_0000) % 16 == 6,
        (cc as int / 0x10_0000) % 16 == 4,
{
    0x46_0001
}

/// Major and minor version of a controller.
pub fn version(vs: u32) -> (v: (u32, u32))
    ensures
        v.0 == vs as int / 0x1_0000,
        v.1 == (vs as int / 0x100) % 0x100,
        v.1 < 256,
        v.0 * 65536 + v.1 * 256 <= vs < v.0 * 65536 + v.1 * 256 + 256,
{
    (vs / 0x1_0000, (vs / 0x100) % 0x100)
}

/// How waiting for a controller goes on.
#[derive(Debug, Clone, Copy, PartialEq, Eq, Structural)]
pub enum Ready {
    Yes,
    /// Look again in a millisecond.
    Wait,
    /// It takes too long.
    No,
}

/// Whether the controller is ready, or not ready, as expected, after `tries`
/// looks at its status before this one.
pub fn wait_csts_rdy(csts: u32, expected: bool, tries: u32) -> (r: Ready)
    ensures
        r == (if (csts as int % 2 == 1) == expected {
            Ready::Yes
        } else if tries as int + 1 < READY_TRIES {
            Ready::Wait
        } else {
            Ready::No
        }),
{
    let ready: bool = csts % 2 == 1;
    if ready == expected {
        Ready::Yes
    } else if tries < READY_TRIES - 1 {
        Ready::Wait
    } else {
        Ready::No
    }
}

/// The number of an IOMMU group, from the last part of its path.
pub fn group_number(name: &str) -> (r: DriveResult<u32>)
    ensures
        match text::parsed(name@, u32::MAX as nat) {
            Some(n) => r matches Ok(g) && g == n,
            None => r matches Err(e) && e == DriveError::VfioNotAvailable,
        },
{
    match text::parse_number(&text::to_chars(name), u32::MAX as u64) {
        Some(n) => Ok(n as u32),
        None => Err(DriveError::VfioNotAvailable),
    }
}

} // verus!
