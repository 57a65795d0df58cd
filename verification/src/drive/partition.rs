//! A partition, as a device: a window onto another one.
//!
//! Reads and writes are checked against the window and offset by its start.
//! That is what lets anything that formats a device be pointed at one
//! partition of an image without knowing that it is inside one.
use crate::drive::{DeviceId, DriveError, DriveResult};
use crate::ids;
use crate::ids::Uuid;
use crate::text;
use vstd::prelude::*;

verus! {

/// A window of `len` bytes onto another device, from `start` on.
pub struct PartitionDevice {
    pub id: DeviceId,
    pub start: u64,
    pub len: u64,
}

impl PartitionDevice {
    /// A window onto the device `parent` of `capacity` bytes in blocks of
    /// `block_size`. Start and length must be block-aligned: a partition that
    /// begins mid-block could not be written without a read-modify-write of a
    /// neighbour's bytes.
    pub fn new(parent: &DeviceId, block_size: u32, capacity: u64, start: u64, len: u64) -> (r:
        DriveResult<Self>)
        requires
            block_size > 0,
            start + len <= u64::MAX,
        ensures
            match r {
                Ok(p) => {
                    &&& start % block_size as u64 == 0
                    &&& len % block_size as u64 == 0
                    &&& start + len <= capacity
                    &&& p.start == start
                    &&& p.len == len
                    &&& ids::uuid_version(p.id.uuid.bits) == 4
                    &&& ids::uuid_variant(p.id.uuid.bits) == 2
                    &&& p.id.serial@ == parent.serial@ + seq!['+'] + text::decimal(start as nat)
                    &&& p.id.model@ == parent.model@
                    &&& p.id.path@ == parent.path@ + seq!['@'] + text::decimal(start as nat)
                },
                Err(e) => if start % block_size as u64 != 0 {
                    e == (DriveError::NotAligned { offset: start, block_size })
                } else if len % block_size as u64 != 0 {
                    e == (DriveError::NotAligned { offset: len, block_size })
                } else {
                    start + len > capacity && e == (DriveError::OutOfRange {
                        offset: start,
                        len,
                        capacity,
                    })
                },
            },
    {
        let bs: u64 = block_size as u64;
        if start % bs != 0 {
            return Err(DriveError::NotAligned { offset: start, block_size });
        }
        if len % bs != 0 {
            return Err(DriveError::NotAligned { offset: len, block_size });
        }
        if start + len > capacity {
            return Err(DriveError::OutOfRange { offset: start, len, capacity });
        }
        let mut serial = parent.serial.clone();
        serial.push('+');
        text::push_decimal(&mut serial, start);
        let mut path = parent.path.clone();
        path.push('@');
        text::push_decimal(&mut path, start);
        let id = DeviceId { uuid: Uuid::new_v4(), serial, model: parent.model.clone(), path };
        Ok(PartitionDevice { id, start, len })
    }

    /// Where the window begins on the device.
    pub fn start(&self) -> (n: u64)
        ensures
            n == self.start,
    {
        self.start
    }

    /// The window's size.
    pub fn capacity_bytes(&self) -> (n: u64)
        ensures
            n == self.len,
    {
        self.len
    }

    /// Where a request of `len` bytes at `offset` of the window goes on the
    /// device, whether it reads, writes or discards.
    pub fn translate(&self, offset: u64, len: u64) -> (r: DriveResult<u64>)
        requires
            offset + len <= u64::MAX,
            self.start + self.len <= u64::MAX,
        ensures
            match r {
                Ok(at) => offset + len <= self.len && at == self.start + offset,
                Err(e) => offset + len > self.len && e == (DriveError::OutOfRange {
                    offset,
                    len,
                    capacity: self.len,
                }),
            },
            r is Ok <==> offset + len <= self.len,
            r matches Ok(at) ==> at - self.start == offset && at + len <= self.start + self.len,
    {
        if offset + len > self.len {
            return Err(DriveError::OutOfRange { offset, len, capacity: self.len });
        }
        Ok(self.start + offset)
    }
}

/// What a window lets through stays in it, and so clear of every other window
/// that does not overlap it.
pub proof fn a_window_keeps_to_itself(
    start: int,
    size: int,
    other_start: int,
    other_size: int,
    offset: int,
    len: int,
)
    requires
        0 <= offset,
        0 <= len,
        offset + len <= size,
        start + size <= other_start || other_start + other_size <= start,
    ensures
        start <= start + offset,
        start + offset + len <= start + size,
        start + offset + len <= other_start || other_start + other_size <= start + offset,
{
}

} // verus!
