//! A virtual drive: a region of a pool's device, with its own offsets.
use crate::drive::{DeviceId, DriveError, DriveResult, DriveType};
use crate::ids;
use crate::ids::Uuid;
use vstd::prelude::*;

verus! {

/// A virtual drive backed by a region of a parent device.
pub struct VDrive {
    pub id: DeviceId,
    pub pool_uuid: Uuid,
    pub start_offset: u64,
    pub size: u64,
    pub label: String,
}

impl VDrive {
    /// A drive over a region of the pool's device.
    pub fn new(pool_uuid: Uuid, start_offset: u64, size: u64, label: String) -> (d: Self)
        ensures
            d.pool_uuid == pool_uuid,
            d.start_offset == start_offset,
            d.size == size,
            d.label@ == label@,
            ids::uuid_version(d.id.uuid.bits) == 4,
            ids::uuid_variant(d.id.uuid.bits) == 2,
            d.id.serial@ == "vdrive-"@ + label@,
            d.id.model@ == "VDrive"@,
            d.id.path@ == "pool:"@ + pool_uuid.text() + seq![':'] + label@,
    {
        let mut serial = "vdrive-".to_owned();
        serial.append(&label);
        let mut path = "pool:".to_owned();
        path.append(&pool_uuid.to_string());
        path.push(':');
        path.append(&label);
        let id = DeviceId { uuid: Uuid::new_v4(), serial, model: "VDrive".to_owned(), path };
        VDrive { id, pool_uuid, start_offset, size, label }
    }

    /// The pool this drive belongs to.
    pub fn pool_uuid(&self) -> (u: Uuid)
        ensures
            u == self.pool_uuid,
    {
        self.pool_uuid
    }

    /// The drive's label.
    pub fn label(&self) -> (s: &str)
        ensures
            s@ == self.label@,
    {
        self.label.as_str()
    }

    /// Where the drive begins on its parent.
    pub fn start_offset(&self) -> (n: u64)
        ensures
            n == self.start_offset,
    {
        self.start_offset
    }

    /// The drive's size.
    pub fn capacity_bytes(&self) -> (n: u64)
        ensures
            n == self.size,
    {
        self.size
    }

    /// The kind of drive this is.
    pub fn device_type(&self) -> (t: DriveType)
        ensures
            t == DriveType::VDrive,
    {
        DriveType::VDrive
    }

    /// Where a request of `len` bytes at `offset` of the drive goes on the
    /// parent, whether it reads, writes or discards.
    pub fn translate_offset(&self, offset: u64, len: u64) -> (r: DriveResult<u64>)
        requires
            offset + len <= u64::MAX,
            self.start_offset + self.size <= u64::MAX,
        ensures
            match r {
                Ok(at) => offset + len <= self.size && at == self.start_offset + offset,
                Err(e) => offset + len > self.size && e == (DriveError::OutOfRange {
                    offset,
                    len,
                    capacity: self.size,
                }),
            },
            r is Ok <==> offset + len <= self.size,
            r matches Ok(at) ==> at - self.start_offset == offset && at + len <= self.start_offset
                + self.size,
    {
        if offset + len > self.size {
            return Err(DriveError::OutOfRange { offset, len, capacity: self.size });
        }
        Ok(self.start_offset + offset)
    }
}

} // verus!
