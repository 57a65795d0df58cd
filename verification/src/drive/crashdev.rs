//! A block device that loses what a power cut would.
//!
//! It keeps the whole device in memory. Every write lands in a volatile
//! cache: reads see it at once, but it reaches the durable image only at a
//! flush, the way a drive with a write-back cache behaves. Cutting the power
//! then gives the durable image with some of the unflushed writes applied, in
//! their original order, because a drive may persist any part of its cache
//! before the power goes. A discard keeps the old data, as most drives may.
use crate::bytes;
use crate::drive::{DeviceId, DriveError, DriveResult, DriveType};
use crate::ids;
use crate::ids::Uuid;
use vstd::prelude::*;

verus! {

/// One write: where, and what.
pub struct CachedWrite {
    pub offset: usize,
    pub data: Vec<u8>,
}

/// A device in memory, with a volatile write cache.
pub struct CrashDevice {
    id: DeviceId,
    block: u32,
    /// What survives a power cut for certain.
    durable: Vec<u8>,
    /// What reads see: the durable image with every cached write applied.
    current: Vec<u8>,
    /// Writes since the last flush, in order.
    cached: Vec<CachedWrite>,
    flushes: u64,
}

/// What a crash device holds.
pub struct CrashState {
    pub durable: Seq<u8>,
    pub current: Seq<u8>,
    pub cached: Seq<CachedWrite>,
    pub flushes: u64,
}

/// `image` with those of the first `n` writes applied that `kept` marks, in
/// order.
pub open spec fn applied(
    image: Seq<u8>,
    writes: Seq<CachedWrite>,
    kept: Seq<bool>,
    n: nat,
) -> Seq<u8>
    decreases n,
{
    if n == 0 {
        image
    } else {
        let before = applied(image, writes, kept, (n - 1) as nat);
        if kept[n - 1] {
            bytes::splice(before, writes[n - 1].offset as int, writes[n - 1].data@)
        } else {
            before
        }
    }
}

/// A mark for every one of `n` writes, the same for each.
pub open spec fn all_marked(n: nat, kept: bool) -> Seq<bool> {
    Seq::new(n, |i: int| kept)
}

/// Whether every write lies in an image of `len` bytes.
pub open spec fn writes_inside(writes: Seq<CachedWrite>, len: nat) -> bool {
    forall|i: int|
        0 <= i < writes.len() ==> (#[trigger] writes[i]).offset + writes[i].data@.len() <= len
}

proof fn lemma_applied_len(image: Seq<u8>, writes: Seq<CachedWrite>, kept: Seq<bool>, n: nat)
    requires
        n <= writes.len(),
        writes_inside(writes, image.len()),
    ensures
        applied(image, writes, kept, n).len() == image.len(),
    decreases n,
{
    if n > 0 {
        lemma_applied_len(image, writes, kept, (n - 1) as nat);
        assert(writes[n - 1].offset + writes[n - 1].data@.len() <= image.len());
    }
}

proof fn lemma_applied_prefix(
    image: Seq<u8>,
    writes: Seq<CachedWrite>,
    kept: Seq<bool>,
    more: Seq<CachedWrite>,
    marks: Seq<bool>,
    n: nat,
)
    requires
        n <= writes.len() <= more.len(),
        n <= kept.len() <= marks.len(),
        forall|i: int| 0 <= i < n ==> #[trigger] writes[i] == more[i],
        forall|i: int| 0 <= i < n ==> #[trigger] kept[i] == marks[i],
    ensures
        applied(image, writes, kept, n) == applied(image, more, marks, n),
    decreases n,
{
    if n > 0 {
        lemma_applied_prefix(image, writes, kept, more, marks, (n - 1) as nat);
        assert(writes[n - 1] == more[n - 1]);
        assert(kept[n - 1] == marks[n - 1]);
    }
}

impl View for CrashDevice {
    type V = CrashState;

    closed spec fn view(&self) -> CrashState {
        CrashState {
            durable: self.durable@,
            current: self.current@,
            cached: self.cached@,
            flushes: self.flushes,
        }
    }
}

impl CrashDevice {
    /// Reads see the durable image with every cached write applied.
    pub closed spec fn wf(&self) -> bool {
        &&& writes_inside(self.cached@, self.durable@.len())
        &&& self.current@ == applied(
            self.durable@,
            self.cached@,
            all_marked(self.cached@.len(), true),
            self.cached@.len(),
        )
        &&& self.current@.len() == self.durable@.len()
    }

    /// Whether the device goes under the name of all such devices, with an
    /// identity of its own, and has blocks of 4096 bytes.
    pub open spec fn is_named(&self) -> bool {
        &&& self.spec_id().serial@ == "CRASH"@
        &&& self.spec_id().model@ == "crash-sim"@
        &&& self.spec_id().path@ == "crash://"@
        &&& ids::uuid_version(self.spec_id().uuid.bits) == 4
        &&& ids::uuid_variant(self.spec_id().uuid.bits) == 2
        &&& self.spec_block() == 4096
    }

    /// The device's identity.
    pub closed spec fn spec_id(&self) -> DeviceId {
        self.id
    }

    /// The device's block size.
    pub closed spec fn spec_block(&self) -> u32 {
        self.block
    }

    /// A zeroed device of `bytes`.
    pub fn new(bytes: usize) -> (d: Self)
        ensures
            d.wf(),
            d.is_named(),
            d@.durable == bytes::zeros(bytes as nat),
            d@.current == bytes::zeros(bytes as nat),
            d@.cached.len() == 0,
            d@.flushes == 0,
    {
        let mut image: Vec<u8> = Vec::new();
        bytes::push_zeros(&mut image, bytes);
        assert(image@ =~= bytes::zeros(bytes as nat));
        Self::from_image(image)
    }

    /// A device that holds `image`, all of it durable.
    pub fn from_image(image: Vec<u8>) -> (d: Self)
        ensures
            d.wf(),
            d.is_named(),
            d@.durable == image@,
            d@.current == image@,
            d@.cached.len() == 0,
            d@.flushes == 0,
    {
        let current = image.clone();
        assert(current@ =~= image@);
        CrashDevice {
            id: DeviceId {
                uuid: Uuid::new_v4(),
                serial: "CRASH".to_owned(),
                model: "crash-sim".to_owned(),
                path: "crash://".to_owned(),
            },
            block: 4096,
            durable: image,
            current,
            cached: Vec::new(),
            flushes: 0,
        }
    }

    /// Cuts the power: a new device that holds the durable image with those
    /// cached writes applied that `kept` marks.
    pub fn crash(&self, kept: &[bool]) -> (d: CrashDevice)
        requires
            self.wf(),
            kept@.len() == self@.cached.len(),
        ensures
            d.wf(),
            d.is_named(),
            d@.durable == applied(self@.durable, self@.cached, kept@, kept@.len()),
            d@.current == d@.durable,
            d@.cached.len() == 0,
            d@.flushes == 0,
    {
        let mut image = self.durable.clone();
        assert(image@ =~= self.durable@);
        let mut i: usize = 0;
        while i < kept.len()
            invariant
                i <= kept@.len() == self.cached@.len(),
                writes_inside(self.cached@, self.durable@.len()),
                image@ == applied(self.durable@, self.cached@, kept@, i as nat),
                image@.len() == self.durable@.len(),
            decreases kept@.len() - i,
        {
            if kept[i] {
                let w = &self.cached[i];
                assert(self.cached@[i as int].offset + self.cached@[i as int].data@.len()
                    <= self.durable@.len());
                bytes::write_at(&mut image, w.offset, &w.data);
            }
            i = i + 1;
        }
        CrashDevice::from_image(image)
    }

    /// Writes waiting in the cache.
    pub fn cached_writes(&self) -> (n: usize)
        ensures
            n == self@.cached.len(),
    {
        self.cached.len()
    }

    /// How often the cache was flushed.
    pub fn flushes(&self) -> (n: u64)
        ensures
            n == self@.flushes,
    {
        self.flushes
    }

    /// The device's size.
    pub fn capacity_bytes(&self) -> (n: usize)
        ensures
            n == self@.current.len(),
    {
        self.current.len()
    }

    /// The device's block size.
    pub fn block_size(&self) -> (n: u32)
        ensures
            n == self.spec_block(),
    {
        self.block
    }

    /// The device's identity.
    pub fn id(&self) -> (id: &DeviceId)
        ensures
            *id == self.spec_id(),
    {
        &self.id
    }

    /// The kind of drive this stands in for.
    pub fn device_type(&self) -> (t: DriveType)
        ensures
            t == DriveType::File,
    {
        DriveType::File
    }

    /// Reads `len` bytes at `offset`: what was written last, flushed or not.
    pub fn read(&self, offset: usize, len: usize) -> (r: DriveResult<Vec<u8>>)
        requires
            self.wf(),
            offset + len <= usize::MAX,
        ensures
            match r {
                Ok(buf) => offset + len <= self@.current.len() && buf@ == self@.current.subrange(
                    offset as int,
                    offset + len,
                ),
                Err(e) => offset + len > self@.current.len() && e == (DriveError::OutOfRange {
                    offset: offset as u64,
                    len: len as u64,
                    capacity: self@.current.len() as u64,
                }),
            },
            r is Ok <==> offset + len <= self@.current.len(),
            r matches Ok(buf) ==> buf@.len() == len && forall|i: int|
                0 <= i < len ==> #[trigger] buf@[i] == self@.current[offset + i],
    {
        let end: usize = offset + len;
        if end > self.current.len() {
            return Err(
                DriveError::OutOfRange {
                    offset: offset as u64,
                    len: len as u64,
                    capacity: self.current.len() as u64,
                },
            );
        }
        let mut buf: Vec<u8> = Vec::new();
        buf.extend_from_slice(&self.current[offset..end]);
        assert(buf@ =~= self@.current.subrange(offset as int, offset + len));
        Ok(buf)
    }

    /// Writes `buf` at `offset`, into the cache.
    pub fn write(&mut self, offset: usize, buf: &[u8]) -> (r: DriveResult<usize>)
        requires
            old(self).wf(),
            offset + buf@.len() <= usize::MAX,
        ensures
            final(self).wf(),
            final(self).spec_id() == old(self).spec_id(),
            final(self).spec_block() == old(self).spec_block(),
            match r {
                Ok(n) => {
                    &&& offset + buf@.len() <= old(self)@.current.len()
                    &&& n == buf@.len()
                    &&& final(self)@.current == bytes::splice(
                        old(self)@.current,
                        offset as int,
                        buf@,
                    )
                    &&& final(self)@.durable == old(self)@.durable
                    &&& final(self)@.cached.len() == old(self)@.cached.len() + 1
                    &&& final(self)@.cached.drop_last() == old(self)@.cached
                    &&& final(self)@.cached.last().offset == offset
                    &&& final(self)@.cached.last().data@ == buf@
                    &&& final(self)@.flushes == old(self)@.flushes
                },
                Err(e) => {
                    &&& offset + buf@.len() > old(self)@.current.len()
                    &&& e == (DriveError::OutOfRange {
                        offset: offset as u64,
                        len: buf@.len() as u64,
                        capacity: old(self)@.current.len() as u64,
                    })
                    &&& final(self)@ == old(self)@
                },
            },
    {
        let end: usize = offset + buf.len();
        if end > self.current.len() {
            return Err(
                DriveError::OutOfRange {
                    offset: offset as u64,
                    len: buf.len() as u64,
                    capacity: self.current.len() as u64,
                },
            );
        }
        let ghost before = self.cached@;
        bytes::write_at(&mut self.current, offset, buf);
        let mut data: Vec<u8> = Vec::new();
        data.extend_from_slice(buf);
        assert(data@ =~= buf@);
        self.cached.push(CachedWrite { offset, data });
        proof {
            let n = before.len();
            lemma_applied_prefix(
                self.durable@,
                before,
                all_marked(n, true),
                self.cached@,
                all_marked(n + 1, true),
                n,
            );
            assert(self.cached@.drop_last() =~= before);
        }
        Ok(buf.len())
    }

    /// Makes every cached write durable.
    pub fn flush(&mut self)
        requires
            old(self).wf(),
            old(self)@.flushes < u64::MAX,
        ensures
            final(self).wf(),
            final(self).spec_id() == old(self).spec_id(),
            final(self).spec_block() == old(self).spec_block(),
            final(self)@.durable == old(self)@.current,
            final(self)@.current == old(self)@.current,
            final(self)@.cached.len() == 0,
            final(self)@.flushes == old(self)@.flushes + 1,
    {
        let durable = self.current.clone();
        assert(durable@ =~= self.current@);
        self.durable = durable;
        self.cached = Vec::new();
        self.flushes = self.flushes + 1;
    }
}

/// What a device holds is its durable image with all of its cached writes: a
/// power cut that keeps them all loses nothing.
pub proof fn what_is_read_is_the_cache_on_the_image(d: CrashDevice)
    requires
        d.wf(),
    ensures
        applied(d@.durable, d@.cached, all_marked(d@.cached.len(), true), d@.cached.len())
            == d@.current,
        d@.current.len() == d@.durable.len(),
{
}

/// What was flushed survives: a power cut right after a flush loses nothing,
/// whatever the drive did with its cache.
pub proof fn what_was_flushed_survives(st: CrashState, kept: Seq<bool>)
    requires
        st.cached.len() == 0,
        st.durable == st.current,
        kept.len() == st.cached.len(),
    ensures
        applied(st.durable, st.cached, kept, kept.len()) == st.current,
{
}

/// A power cut that keeps nothing of the cache leaves the durable image.
pub proof fn keeping_nothing_leaves_the_durable_image(
    image: Seq<u8>,
    writes: Seq<CachedWrite>,
    n: nat,
)
    requires
        n <= writes.len(),
    ensures
        applied(image, writes, all_marked(writes.len(), false), n) == image,
    decreases n,
{
    if n > 0 {
        keeping_nothing_leaves_the_durable_image(image, writes, (n - 1) as nat);
    }
}

/// A byte that no cached write touches is after a power cut what it was at
/// the last flush.
pub proof fn an_unwritten_byte_survives(
    image: Seq<u8>,
    writes: Seq<CachedWrite>,
    kept: Seq<bool>,
    n: nat,
    p: int,
)
    requires
        n <= writes.len(),
        writes_inside(writes, image.len()),
        0 <= p < image.len(),
        forall|i: int|
            0 <= i < n ==> p < (#[trigger] writes[i]).offset || writes[i].offset
                + writes[i].data@.len() <= p,
    ensures
        applied(image, writes, kept, n)[p] == image[p],
    decreases n,
{
    if n > 0 {
        an_unwritten_byte_survives(image, writes, kept, (n - 1) as nat, p);
        lemma_applied_len(image, writes, kept, (n - 1) as nat);
        let w = writes[n - 1];
        assert(p < w.offset || w.offset + w.data@.len() <= p);
    }
}

} // verus!
