//! A file as a block device: what its size is, how far a read goes, and what
//! a discard comes to.
use crate::drive::{DriveType, SmartData};
use vstd::prelude::*;

verus! {

/// Block size of a file as a device.
pub const BLOCK_SIZE: u32 = 4096;

pub const ENOTTY: i32 = 25;

pub const ENOSYS: i32 = 38;

pub const EOPNOTSUPP: i32 = 95;

/// A file as a block device.
#[derive(Debug, Clone, Copy, PartialEq, Eq, Structural)]
pub struct FileDevice {
    pub capacity: u64,
    /// The path is a block device, not a regular file.
    pub is_block_device: bool,
}

/// How a range of a file is given back.
#[derive(Debug, Clone, Copy, PartialEq, Eq, Structural)]
pub enum Release {
    Nothing,
    /// The device discards it.
    Discard,
    /// A hole is punched; the file keeps its length.
    PunchHole,
}

impl FileDevice {
    /// A file of this length; a block device has the size that seeking to its
    /// end tells, since its own length is zero.
    pub fn open(is_block_device: bool, len: u64, end: u64) -> (d: Self)
        ensures
            d == (FileDevice {
                capacity: if is_block_device {
                    end
                } else {
                    len
                },
                is_block_device,
            }),
            is_block_device ==> d.capacity == end,
            !is_block_device ==> d.capacity == len,
    {
        FileDevice {
            capacity: if is_block_device {
                end
            } else {
                len
            },
            is_block_device,
        }
    }

    /// Sees to it that the file has at least this size; tells whether it has
    /// to be made longer.
    pub fn open_with_capacity(&mut self, capacity: u64) -> (extend: bool)
        ensures
            extend == (old(self).capacity < capacity),
            *final(self) == (FileDevice {
                capacity: if old(self).capacity < capacity {
                    capacity
                } else {
                    old(self).capacity
                },
                ..*old(self)
            }),
            final(self).capacity >= capacity,
            final(self).capacity >= old(self).capacity,
            final(self).capacity == capacity || final(self).capacity == old(self).capacity,
    {
        if self.capacity < capacity {
            self.capacity = capacity;
            true
        } else {
            false
        }
    }

    /// How a range is given back.
    pub fn release(&self, len: u64) -> (r: Release)
        ensures
            r == (if len == 0 {
                Release::Nothing
            } else if self.is_block_device {
                Release::Discard
            } else {
                Release::PunchHole
            }),
    {
        if len == 0 {
            Release::Nothing
        } else if self.is_block_device {
            Release::Discard
        } else {
            Release::PunchHole
        }
    }

    /// The device's kind.
    pub fn device_type(&self) -> (t: DriveType)
        ensures
            t == DriveType::File,
    {
        DriveType::File
    }

    /// A file is healthy, as far as it can be told.
    pub fn smart_status(&self) -> (d: SmartData)
        ensures
            d.healthy,
            d.media_errors == 0,
            d.temperature_celsius is None,
            d.power_on_hours is None,
            d.available_spare_pct is None,
    {
        SmartData::healthy()
    }
}

/// Whether a discard that failed with this error did what is needed: where it
/// is not supported the range is free all the same, it only keeps its blocks.
pub fn discard_tolerated(errno: Option<i32>) -> (yes: bool)
    ensures
        yes == (errno == Some(EOPNOTSUPP) || errno == Some(ENOSYS) || errno == Some(ENOTTY)),
        yes <==> errno == Some(95i32) || errno == Some(38i32) || errno == Some(25i32),
{
    match errno {
        Some(n) => n == EOPNOTSUPP || n == ENOSYS || n == ENOTTY,
        None => false,
    }
}

} // verus!
