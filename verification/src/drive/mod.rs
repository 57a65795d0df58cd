//! Drives and what is built on them.
use crate::drive::nvmeof_dev::NvmeTcpSpec;
use crate::ids::Uuid;
use crate::text;
use vstd::prelude::*;

pub mod container;
pub mod container_registry;
pub mod crashdev;
pub mod direct;
pub mod discover;
pub mod device_promises;
pub mod dma;
pub mod extent_index;
pub mod filedev;
pub mod freemap;
pub mod handover;
pub mod identity;
pub mod iscsi_dev;
pub mod nbd;
pub mod nvme;
pub mod nvme_pdu;
pub mod nvme_wire;
pub mod nvmeof_dev;
pub mod partition;
pub mod pool;
pub mod pool_promises;
pub mod registry_promises;
pub mod ring_promises;
pub mod sas;
pub mod session_promises;
pub mod slab;
pub mod slab_history;
pub mod slab_promises;
pub mod slab_registry;
pub mod slab_table;
pub mod tier_index;
pub mod transfer;
pub mod ublk;
pub mod ublk_abi;
pub mod ublk_promises;
pub mod uring_channel;
pub mod uring_server;
pub mod vdrive;

verus! {

/// Unique identifier for a physical drive.
pub struct DeviceId {
    pub uuid: Uuid,
    pub serial: String,
    pub model: String,
    pub path: String,
}

impl DeviceId {
    /// Model and serial number.
    pub fn to_string(&self) -> (s: String)
        ensures
            s@ == self.model@ + seq![':'] + self.serial@,
    {
        let mut s = self.model.clone();
        s.push(':');
        s.append(&self.serial);
        s
    }
}

/// Type of physical drive.
#[derive(Debug, Clone, Copy, PartialEq, Eq, Structural)]
pub enum DriveType {
    NVMe,
    SasSsd,
    SasHdd,
    /// Loopback, or development testing.
    File,
    /// Remote iSCSI target.
    Iscsi,
    /// Remote NVMe-TCP namespace attached as a drive.
    NvmeTcp,
    /// A region of a pool.
    VDrive,
}

impl DriveType {
    /// The type in words.
    pub open spec fn name(self) -> Seq<char> {
        match self {
            DriveType::NVMe => "NVMe"@,
            DriveType::SasSsd => "SAS-SSD"@,
            DriveType::SasHdd => "SAS-HDD"@,
            DriveType::File => "File"@,
            DriveType::Iscsi => "iSCSI"@,
            DriveType::NvmeTcp => "NVMe-TCP"@,
            DriveType::VDrive => "VDrive"@,
        }
    }

    /// The type in words.
    pub fn to_string(&self) -> (s: String)
        ensures
            s@ == self.name(),
    {
        match self {
            DriveType::NVMe => "NVMe".to_owned(),
            DriveType::SasSsd => "SAS-SSD".to_owned(),
            DriveType::SasHdd => "SAS-HDD".to_owned(),
            DriveType::File => "File".to_owned(),
            DriveType::Iscsi => "iSCSI".to_owned(),
            DriveType::NvmeTcp => "NVMe-TCP".to_owned(),
            DriveType::VDrive => "VDrive".to_owned(),
        }
    }
}

/// Errors from the drive layer.
#[derive(Debug)]
pub enum DriveError {
    /// A failed input or output operation, in the system's words.
    Io(String),
    NotAligned { offset: u64, block_size: u32 },
    OutOfRange { offset: u64, len: u64, capacity: u64 },
    BufferTooSmall { need: usize, have: usize },
    DeviceNotReady,
    VfioNotAvailable,
    /// Anything else, in words.
    Other(String),
}

impl DriveError {
    /// The error in words.
    pub open spec fn message(self) -> Seq<char> {
        match self {
            DriveError::Io(e) => "I/O error: "@ + e@,
            DriveError::NotAligned { offset, block_size } => "offset "@ + text::decimal(
                offset as nat,
            ) + " not aligned to block size "@ + text::decimal(block_size as nat),
            DriveError::OutOfRange { offset, len, capacity } => "range ["@ + text::decimal(
                offset as nat,
            ) + ".."@ + text::decimal((offset + len) as nat) + "] exceeds capacity "@
                + text::decimal(capacity as nat),
            DriveError::BufferTooSmall { need, have } => "buffer too small: need "@
                + text::decimal(need as nat) + ", have "@ + text::decimal(have as nat),
            DriveError::DeviceNotReady => "device not ready"@,
            DriveError::VfioNotAvailable => "VFIO not available"@,
            DriveError::Other(e) => e@,
        }
    }

    /// The error in words. The end of an out-of-range request has to be a
    /// 64-bit number.
    pub fn to_string(&self) -> (s: String)
        requires
            *self matches DriveError::OutOfRange { offset, len, capacity } ==> offset + len
                <= u64::MAX,
        ensures
            s@ == self.message(),
    {
        match self {
            DriveError::Io(e) => {
                let mut s = "I/O error: ".to_owned();
                s.append(e);
                s
            },
            DriveError::NotAligned { offset, block_size } => {
                let mut s = "offset ".to_owned();
                text::push_decimal(&mut s, *offset);
                s.append(" not aligned to block size ");
                text::push_decimal(&mut s, *block_size as u64);
                s
            },
            DriveError::OutOfRange { offset, len, capacity } => {
                let mut s = "range [".to_owned();
                text::push_decimal(&mut s, *offset);
                s.append("..");
                text::push_decimal(&mut s, *offset + *len);
                s.append("] exceeds capacity ");
                text::push_decimal(&mut s, *capacity);
                s
            },
            DriveError::BufferTooSmall { need, have } => {
                let mut s = "buffer too small: need ".to_owned();
                text::push_decimal(&mut s, *need as u64);
                s.append(", have ");
                text::push_decimal(&mut s, *have as u64);
                s
            },
            DriveError::DeviceNotReady => "device not ready".to_owned(),
            DriveError::VfioNotAvailable => "VFIO not available".to_owned(),
            DriveError::Other(e) => e.clone(),
        }
    }
}

/// What the drive layer returns.
pub type DriveResult<T> = Result<T, DriveError>;

/// SMART health data.
#[derive(Debug, Clone, Copy, PartialEq, Eq, Structural)]
pub struct SmartData {
    pub temperature_celsius: Option<u16>,
    pub power_on_hours: Option<u64>,
    pub media_errors: u64,
    pub available_spare_pct: Option<u8>,
    pub healthy: bool,
}

impl Default for SmartData {
    fn default() -> (d: Self)
        ensures
            d == (SmartData {
                temperature_celsius: None,
                power_on_hours: None,
                media_errors: 0,
                available_spare_pct: None,
                healthy: false,
            }),
    {
        SmartData {
            temperature_celsius: None,
            power_on_hours: None,
            media_errors: 0,
            available_spare_pct: None,
            healthy: false,
        }
    }
}

impl SmartData {
    /// What a drive that cannot be asked reports: health, and nothing else.
    pub fn healthy() -> (d: Self)
        ensures
            d == (SmartData {
                temperature_celsius: None,
                power_on_hours: None,
                media_errors: 0,
                available_spare_pct: None,
                healthy: true,
            }),
    {
        let mut d: SmartData = SmartData::default();
        d.healthy = true;
        d
    }
}

/// A single I/O operation for batch submission.
#[allow(inconsistent_fields)]
#[derive(Debug, Clone, Copy, PartialEq, Eq, Structural)]
pub enum IoOp {
    Read { offset: u64, buf_idx: u32, len: u32 },
    Write { offset: u64, buf_idx: u32, len: u32 },
    Flush,
    Discard { offset: u64, len: u64 },
}

/// Result of a completed I/O operation.
#[derive(Debug)]
pub struct IoCompletion {
    pub op_idx: u32,
    pub result: DriveResult<u32>,
    pub latency_ns: u64,
}

/// What an `iscsi://host:port/iqn` URI names: host, port and target name.
pub open spec fn iscsi_uri(uri: Seq<char>) -> Option<(Seq<char>, u16, Seq<char>)> {
    match text::without_prefix(uri, "iscsi://"@) {
        None => None,
        Some(rest) => match text::split_once(rest, '/') {
            None => None,
            Some((addr, iqn)) => match text::split_once(addr, ':') {
                None => None,
                Some((host, port)) => match text::parsed(port, u16::MAX as nat) {
                    None => None,
                    Some(p) => if host.len() == 0 || iqn.len() == 0 {
                        None
                    } else {
                        Some((host, p as u16, iqn))
                    },
                },
            },
        },
    }
}

/// Parses `iscsi://host:port/iqn` into host, port and target name.
pub fn parse_iscsi_uri(uri: &str) -> (r: Option<(String, u16, String)>)
    ensures
        match r {
            Some((host, port, iqn)) => iscsi_uri(uri@) == Some((host@, port, iqn@)),
            None => iscsi_uri(uri@) is None,
        },
{
    let v = text::to_chars(uri);
    let rest = text::strip_prefix(&v, "iscsi://")?;
    let (addr, iqn) = text::split(&rest, '/')?;
    let (host, port) = text::split(&addr, ':')?;
    let p: u64 = text::parse_number(&port, 65535)?;
    if host.len() == 0 || iqn.len() == 0 {
        return None;
    }
    Some((text::from_chars(&host, 0, host.len()), p as u16, text::from_chars(&iqn, 0, iqn.len())))
}

/// How a drive is opened.
pub enum Route {
    /// As a remote namespace.
    NvmeTcp(NvmeTcpSpec),
    /// As a remote target.
    Iscsi { portal: String, port: u16, iqn: String },
    /// As a block device or a file of this system, whichever its path is.
    Local,
}

/// Whether `needle` stands somewhere in `s`.
pub open spec fn holds_text(s: Seq<char>, needle: Seq<char>) -> bool {
    exists|i: int|
        0 <= i <= s.len() - needle.len() && #[trigger] s.subrange(i, i + needle.len()) == needle
}

fn contains_text(v: &[char], needle: &[char]) -> (yes: bool)
    ensures
        yes == holds_text(v@, needle@),
{
    let n: usize = v.len();
    let m: usize = needle.len();
    if m > n {
        return false;
    }
    let mut i: usize = 0;
    loop
        invariant
            i <= n - m,
            n == v@.len(),
            m == needle@.len(),
            m <= n,
            forall|j: int| 0 <= j < i ==> #[trigger] v@.subrange(j, j + m) != needle@,
        decreases n - m - i,
    {
        if text::chars_match(v, i, needle) {
            assert(v@.subrange(i as int, i + m) == needle@);
            return true;
        }
        if i == n - m {
            return false;
        }
        i = i + 1;
    }
}

/// The schemes of the drives that can be opened.
pub fn supported_uri_schemes() -> (s: &'static str)
    ensures
        s@ == "nvme-tcp://host:port/nqn?nsid=N, iscsi://host:port/iqn"@,
{
    "nvme-tcp://host:port/nqn?nsid=N, iscsi://host:port/iqn"
}

/// What is said of a scheme that is not known.
pub open spec fn unsupported(path: Seq<char>) -> Seq<char> {
    "unsupported drive URI "@ + text::quoted(path) + " (this build understands: "@
        + "nvme-tcp://host:port/nqn?nsid=N, iscsi://host:port/iqn"@ + ")"@
}

/// Tells how a drive is opened, by its path: the addresses of remote drives
/// come first, and a scheme that is none of theirs is refused.
pub fn open_one_drive(path: &str) -> (r: DriveResult<Route>)
    ensures
        match nvmeof_dev::spec_of(path@) {
            Some(v) => r matches Ok(Route::NvmeTcp(s)) && s@ == v,
            None => match iscsi_uri(path@) {
                Some((host, number, name)) => r matches Ok(Route::Iscsi { portal, port, iqn })
                    && portal@ == host && port == number && iqn@ == name,
                None => if holds_text(path@, "://"@) {
                    r matches Err(DriveError::Other(e)) && e@ == unsupported(path@)
                } else {
                    r matches Ok(Route::Local)
                },
            },
        },
{
    match NvmeTcpSpec::parse(path) {
        Some(s) => {
            return Ok(Route::NvmeTcp(s));
        },
        None => {},
    }
    match parse_iscsi_uri(path) {
        Some((portal, port, iqn)) => {
            return Ok(Route::Iscsi { portal, port, iqn });
        },
        None => {},
    }
    let scheme = text::to_chars("://");
    if contains_text(&text::to_chars(path), &scheme) {
        let mut e = "unsupported drive URI ".to_owned();
        e.append(&text::quoted_text(path));
        e.append(" (this build understands: ");
        e.append(supported_uri_schemes());
        e.append(")");
        return Err(DriveError::Other(e));
    }
    Ok(Route::Local)
}

} // verus!
