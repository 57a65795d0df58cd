//! A raw block device that takes whole blocks only.
//!
//! A request that is not whole blocks is widened to them: a read reads the
//! span and cuts it, a write reads the span, patches it and writes it back.
use crate::align;
use crate::bytes;
use crate::drive::identity::Identity;
use crate::drive::{DriveError, DriveResult, DriveType, SmartData};
use crate::fs::ext4_free;
use crate::fs::files;
use crate::text;
use vstd::prelude::*;

verus! {

/// A raw block device.
#[derive(Debug, Clone, Copy, PartialEq, Eq, Structural)]
pub struct SasDevice {
    pub capacity: u64,
    pub block_size: u32,
    pub device_type: DriveType,
}

/// The whole blocks around a request, and where the request begins in them.
#[derive(Debug, Clone, Copy, PartialEq, Eq, Structural)]
pub struct Span {
    pub start: u64,
    pub len: u64,
    pub skew: u64,
}

/// What a write comes to.
#[derive(Debug, Clone, Copy, PartialEq, Eq, Structural)]
pub enum WritePlan {
    /// There is nothing to write.
    Nothing,
    /// The request is whole blocks.
    Whole(Span),
    /// The span is read, patched and written back, one such write at a time.
    Patch(Span),
}

/// The span of a request.
pub open spec fn span_of(block: int, offset: int, len: int) -> (int, int) {
    (ext4_free::window_start(offset, block), ext4_free::window_end(offset, len, block))
}

impl SasDevice {
    /// The device's last block ends at a 64-bit offset.
    pub open spec fn wf(self) -> bool {
        self.capacity + self.block_size <= u64::MAX
    }

    /// Whether a request lies on the device.
    pub open spec fn in_range(self, offset: int, len: int) -> bool {
        offset + len <= self.capacity
    }

    /// The span of a request, as it is asked of the device.
    pub open spec fn spanned(self, offset: int, len: int) -> Span {
        let (start, end) = span_of(ext4_free::unit(self.block_size), offset, len);
        Span { start: start as u64, len: (end - start) as u64, skew: (offset - start) as u64 }
    }

    /// The whole blocks that cover a request.
    pub fn span(&self, offset: u64, len: usize) -> (s: Span)
        requires
            self.wf(),
            self.in_range(offset as int, len as int),
        ensures
            s == self.spanned(offset as int, len as int),
            s.skew + len <= s.len,
            s.start + s.len <= u64::MAX,
    {
        let bs: u64 = if self.block_size == 0 {
            1
        } else {
            self.block_size as u64
        };
        let end: u64 = offset + len as u64;
        proof {
            let b = ext4_free::unit(self.block_size);
            ext4_free::a_window_holds_its_range(offset as int, len as int, b);
            align::div_up_is_least(end as int, b);
            vstd::arithmetic::div_mod::lemma_fundamental_div_mod(offset as int, b);
            let p = offset as int / b;
            assert(p * b == offset - offset as int % b) by (nonlinear_arith)
                requires
                    offset == b * p + offset as int % b,
            ;
        }
        let up: u64 = align::div_ceil(end, bs);
        let skew: u64 = offset % bs;
        let start: u64 = offset - skew;
        Span { start, len: up * bs - start, skew }
    }

    /// Refuses a request that runs past the end of the device.
    pub fn check_range(&self, offset: u64, len: usize) -> (r: DriveResult<()>)
        requires
            offset + len <= u64::MAX,
        ensures
            match r {
                Ok(()) => self.in_range(offset as int, len as int),
                Err(e) => !self.in_range(offset as int, len as int) && e
                    == (DriveError::OutOfRange { offset, len: len as u64, capacity: self.capacity }),
            },
    {
        if offset + len as u64 > self.capacity {
            return Err(
                DriveError::OutOfRange { offset, len: len as u64, capacity: self.capacity },
            );
        }
        Ok(())
    }

    /// What a read comes to: nothing, or the span to read.
    pub fn plan_read(&self, offset: u64, len: usize) -> (r: DriveResult<Option<Span>>)
        requires
            self.wf(),
            offset + len <= u64::MAX,
        ensures
            match r {
                Ok(None) => len == 0,
                Ok(Some(s)) => len > 0 && self.in_range(offset as int, len as int) && s
                    == self.spanned(offset as int, len as int),
                Err(e) => len > 0 && !self.in_range(offset as int, len as int) && e
                    == (DriveError::OutOfRange { offset, len: len as u64, capacity: self.capacity }),
            },
    {
        if len == 0 {
            return Ok(None);
        }
        match self.check_range(offset, len) {
            Err(e) => Err(e),
            Ok(()) => Ok(Some(self.span(offset, len))),
        }
    }

    /// What a write comes to.
    pub fn plan_write(&self, offset: u64, len: usize) -> (r: DriveResult<WritePlan>)
        requires
            self.wf(),
            offset + len <= u64::MAX,
        ensures
            match r {
                Ok(p) => (len == 0 || self.in_range(offset as int, len as int)) && p == (if len
                    == 0 {
                    WritePlan::Nothing
                } else {
                    let s = self.spanned(offset as int, len as int);
                    if s.start == offset && s.len == len {
                        WritePlan::Whole(s)
                    } else {
                        WritePlan::Patch(s)
                    }
                }),
                Err(e) => len > 0 && !self.in_range(offset as int, len as int) && e
                    == (DriveError::OutOfRange { offset, len: len as u64, capacity: self.capacity }),
            },
    {
        if len == 0 {
            return Ok(WritePlan::Nothing);
        }
        match self.check_range(offset, len) {
            Err(e) => {
                return Err(e);
            },
            Ok(()) => {},
        }
        let s: Span = self.span(offset, len);
        if s.start == offset && s.len == len as u64 {
            Ok(WritePlan::Whole(s))
        } else {
            Ok(WritePlan::Patch(s))
        }
    }

    /// Whether a discard is handed to the device: a disk that spins has none.
    pub fn discards(&self) -> (yes: bool)
        ensures
            yes == (self.device_type != DriveType::SasHdd),
    {
        self.device_type != DriveType::SasHdd
    }
}

/// What a read returns, from the span that was read.
pub fn cut(span: &Vec<u8>, skew: usize, len: usize) -> (b: Vec<u8>)
    requires
        skew + len <= span@.len(),
    ensures
        b@ == span@.subrange(skew as int, skew + len),
        b@.len() == len,
        forall|i: int| 0 <= i < len ==> #[trigger] b@[i] == span@[skew + i],
{
    let mut b: Vec<u8> = Vec::new();
    let total: usize = span.len();
    b.extend_from_slice(vstd::slice::slice_subrange(span.as_slice(), skew, skew + len));
    assert(b@ =~= span@.subrange(skew as int, skew + len));
    b
}

/// What is written back, from the span that was read.
pub fn patch(span: Vec<u8>, skew: usize, data: &[u8]) -> (b: Vec<u8>)
    requires
        skew + data@.len() <= span@.len(),
    ensures
        b@ == bytes::splice(span@, skew as int, data@),
        b@.len() == span@.len(),
        b@.subrange(skew as int, skew + data@.len()) == data@,
        b@.take(skew as int) == span@.take(skew as int),
        b@.skip(skew + data@.len()) == span@.skip(skew + data@.len()),
{
    let mut b = span;
    bytes::write_at(&mut b, skew, data);
    b
}

/// A request that is widened changes what it names and nothing else: of the
/// device's bytes, those of the request become the data, and all others stay.
pub proof fn a_widened_write_keeps_its_neighbours(
    disk: Seq<u8>,
    start: int,
    len: int,
    skew: int,
    data: Seq<u8>,
)
    requires
        0 <= start,
        0 <= skew,
        skew + data.len() <= len,
        start + len <= disk.len(),
    ensures
        bytes::splice(disk, start, bytes::splice(disk.subrange(start, start + len), skew, data))
            == bytes::splice(disk, start + skew, data),
{
    let inner = bytes::splice(disk.subrange(start, start + len), skew, data);
    assert(bytes::splice(disk, start, inner) =~= bytes::splice(disk, start + skew, data));
}

/// A widened request consists of whole blocks and covers what was asked for.
pub proof fn a_span_is_whole_blocks(block: int, offset: int, len: int)
    requires
        block > 0,
        0 <= offset,
        0 <= len,
    ensures
        ({
            let (start, end) = span_of(block, offset, len);
            start % block == 0 && end % block == 0 && start <= offset && offset + len <= end
        }),
{
    ext4_free::a_window_holds_its_range(offset, len, block);
}

/// The name of a device: what stands behind the last slash of its path.
pub open spec fn name_in(path: Seq<char>) -> Seq<char> {
    path.skip(files::last_at(path, '/') + 1)
}

/// The name of a device.
pub fn device_name(path: &str) -> (s: String)
    ensures
        s@ == name_in(path@),
{
    let v = text::to_chars(path);
    let n: usize = v.len();
    let mut i: usize = n;
    assert(v@.subrange(0, n as int) =~= v@);
    while i > 0 && v[i - 1] != '/'
        invariant
            i <= n == v@.len(),
            files::last_at(v@, '/') == files::last_at(v@.subrange(0, i as int), '/'),
        decreases i,
    {
        assert(v@.subrange(0, i as int).drop_last() =~= v@.subrange(0, i - 1));
        i = i - 1;
    }
    assert(files::last_at(v@, '/') == i - 1);
    assert(v@.subrange(i as int, n as int) =~= v@.skip(i as int));
    text::from_chars(&v, i, n)
}

/// What is known of a disk, by what is read of it: a text without white space
/// around it, or `unknown`.
pub open spec fn known(read: Seq<char>) -> Seq<char> {
    if text::trimmed(read).len() == 0 {
        "unknown"@
    } else {
        text::trimmed(read)
    }
}

fn known_text(read: &str) -> (s: String)
    ensures
        s@ == known(read@),
{
    let t = text::trim_text(read);
    if t.as_str().is_empty() {
        "unknown".to_owned()
    } else {
        t
    }
}

/// Serial and model of a device: those of its disk where they are known, and
/// else what the system's files say, `serial` and `model` as they read.
pub fn device_identity(disk: &Option<Identity>, serial: &str, model: &str) -> (r: (String, String))
    ensures
        r.0@ == (match *disk {
            Some(i) => if i.serial@.len() > 0 {
                i.serial@
            } else {
                known(serial@)
            },
            None => known(serial@),
        }),
        r.1@ == (match *disk {
            Some(i) => if i.model@.len() > 0 {
                i.model@
            } else {
                known(model@)
            },
            None => known(model@),
        }),
{
    match disk {
        Some(i) => {
            let s = if i.serial.as_str().is_empty() {
                known_text(serial)
            } else {
                i.serial.clone()
            };
            let m = if i.model.as_str().is_empty() {
                known_text(model)
            } else {
                i.model.clone()
            };
            (s, m)
        },
        None => (known_text(serial), known_text(model)),
    }
}

/// The kind of a device, by its rotational flag as it reads.
pub fn detect_drive_type(rotational: &str) -> (t: DriveType)
    ensures
        t == (if text::trimmed(rotational@) == "0"@ {
            DriveType::SasSsd
        } else {
            DriveType::SasHdd
        }),
{
    if text::same_text(&text::trim_text(rotational), "0") {
        DriveType::SasSsd
    } else {
        DriveType::SasHdd
    }
}

/// A temperature in degrees, from one in thousandths as it reads. What 16
/// bits cannot hold is cut to them.
pub open spec fn degrees(read: Seq<char>) -> Option<u16> {
    match text::parsed(text::trimmed(read), u64::MAX as nat) {
        Some(n) => Some((n as u64 / 1000) as u16),
        None => None,
    }
}

/// The first of the temperatures that can be read.
pub open spec fn first_degrees(reads: Seq<String>) -> Option<u16>
    decreases reads.len(),
{
    if reads.len() == 0 {
        None
    } else {
        match degrees(reads[0]@) {
            Some(t) => Some(t),
            None => first_degrees(reads.drop_first()),
        }
    }
}

fn temperature(reads: &Vec<String>) -> (r: Option<u16>)
    ensures
        r == first_degrees(reads@),
{
    let mut i: usize = 0;
    assert(reads@.skip(0) =~= reads@);
    while i < reads.len()
        invariant
            i <= reads@.len(),
            first_degrees(reads@) == first_degrees(reads@.skip(i as int)),
        decreases reads@.len() - i,
    {
        assert(reads@.skip(i as int)[0] == reads@[i as int]);
        assert(reads@.skip(i as int).drop_first() =~= reads@.skip(i + 1));
        let t = text::to_chars(&text::trim_text(&reads[i]));
        match text::parse_number(&t, u64::MAX) {
            Some(n) => {
                return Some(#[verifier::truncate] ((n / 1000) as u16));
            },
            None => {},
        }
        i = i + 1;
    }
    None
}

/// Health of a device, from the system's files as they read: its state, how
/// many errors it counted, and its temperatures in thousandths of a degree.
pub fn smart_status(state: &str, errors: &str, temperatures: &Vec<String>) -> (d: SmartData)
    ensures
        d == (SmartData {
            temperature_celsius: first_degrees(temperatures@),
            power_on_hours: None,
            media_errors: match text::parsed(text::trimmed(errors@), u64::MAX as nat) {
                Some(n) => n as u64,
                None => 0,
            },
            available_spare_pct: None,
            healthy: text::trimmed(state@).len() == 0 || text::trimmed(state@) == "running"@,
        }),
{
    let s = text::trim_text(state);
    let healthy: bool = s.as_str().is_empty() || text::same_text(&s, "running");
    let media_errors: u64 = match text::parse_number(
        &text::to_chars(&text::trim_text(errors)),
        u64::MAX,
    ) {
        Some(n) => n,
        None => 0,
    };
    SmartData {
        temperature_celsius: temperature(temperatures),
        power_on_hours: None,
        media_errors,
        available_spare_pct: None,
        healthy,
    }
}

} // verus!
