//! Who a block device is: serial, model and world-wide name.
//!
//! The identity that survives a drive moving to another bay, slot or host is
//! its serial and world-wide name, not its device name. A partition is the
//! disk it is on: it has no identity of its own worth having.
use crate::bytes;
use crate::text;
use vstd::prelude::*;

verus! {

/// What is known of a disk. Empty strings for what is not.
#[derive(Debug)]
pub struct Identity {
    pub serial: String,
    pub model: String,
    pub wwn: String,
    /// The disk's kernel name; for a partition, that of its disk.
    pub disk: String,
}

/// What the kernel's files say of a disk, as they read. A file that is not
/// there is empty.
pub struct DiskFiles {
    /// `wwid`, where NVMe puts the name.
    pub wwid: String,
    /// `device/wwid`, where SCSI puts it.
    pub device_wwid: String,
    /// `device/serial`.
    pub serial: String,
    /// `device/vpd_pg80`, the unit serial number page.
    pub vpd_pg80: Vec<u8>,
    /// `device/model`.
    pub model: String,
    /// The disk's kernel name.
    pub disk: String,
}

/// The serial in a unit serial number page.
pub open spec fn vpd_serial_of(page: Seq<u8>) -> Seq<char> {
    let len = bytes::be_value(page.subrange(2, 4)) as int;
    let end = if 4 + len < page.len() {
        4 + len
    } else {
        page.len() as int
    };
    if page.len() < 4 || page[1] != 0x80 {
        Seq::empty()
    } else {
        text::trim_start_char(
            text::trim_end_char(text::trimmed(text::lossy(page.subrange(4, end))), '\0'),
            '\0',
        )
    }
}

/// The serial in a VPD page 0x80: a header of four bytes whose last two are
/// the length, then that many characters, padded with spaces.
pub fn vpd_serial(page: &[u8]) -> (s: String)
    ensures
        s@ == vpd_serial_of(page@),
{
    if page.len() < 4 || page[1] != 0x80 {
        return String::new();
    }
    proof {
        bytes::lemma_radix();
    }
    let len: usize = bytes::get_be(page, 2, 2) as usize;
    let total: usize = page.len();
    let end: usize = if len < total - 4 {
        4 + len
    } else {
        total
    };
    let raw = text::lossy_text(&page[4..end]);
    let v = text::to_chars(&text::trim_text(&raw));
    let w = text::drop_end_char(&v, '\0');
    let x = text::drop_start_char(&w, '\0');
    text::text_of(&x)
}

impl Identity {
    /// Whether nothing identifies the disk.
    pub fn is_empty(&self) -> (yes: bool)
        ensures
            yes == (self.serial@.len() == 0 && self.wwn@.len() == 0),
    {
        self.serial.as_str().is_empty() && self.wwn.as_str().is_empty()
    }
}

/// The world-wide name: the namespace's own, or else the device's.
pub open spec fn wwn_of(f: DiskFiles) -> Seq<char> {
    if text::trimmed(f.wwid@).len() > 0 {
        text::trimmed(f.wwid@)
    } else {
        text::trimmed(f.device_wwid@)
    }
}

/// The serial: the one the device states, or else that of its VPD page.
pub open spec fn serial_of(f: DiskFiles) -> Seq<char> {
    if text::trimmed(f.serial@).len() > 0 {
        text::trimmed(f.serial@)
    } else {
        vpd_serial_of(f.vpd_pg80@)
    }
}

/// The identity of a disk, from what its files say; nothing where they give
/// neither serial nor name.
pub fn of_in(f: &DiskFiles) -> (r: Option<Identity>)
    ensures
        match r {
            Some(id) => {
                &&& serial_of(*f).len() > 0 || wwn_of(*f).len() > 0
                &&& id.serial@ == serial_of(*f)
                &&& id.wwn@ == wwn_of(*f)
                &&& id.model@ == text::trimmed(f.model@)
                &&& id.disk@ == f.disk@
            },
            None => serial_of(*f).len() == 0 && wwn_of(*f).len() == 0,
        },
{
    let mut wwn = text::trim_text(&f.wwid);
    if wwn.as_str().is_empty() {
        wwn = text::trim_text(&f.device_wwid);
    }
    let mut serial = text::trim_text(&f.serial);
    if serial.as_str().is_empty() {
        serial = vpd_serial(&f.vpd_pg80);
    }
    let id = Identity { serial, model: text::trim_text(&f.model), wwn, disk: f.disk.clone() };
    if id.is_empty() {
        None
    } else {
        Some(id)
    }
}

} // verus!
