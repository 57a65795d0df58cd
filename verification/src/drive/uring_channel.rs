//! Rings in shared memory between a client and the server of a device.
//!
//! The memory of one client holds, from its start: the header (one page), the
//! submission queue (commands of 64 bytes), the completion queue (32 bytes
//! each) and, from the next page on, one data buffer per entry.
//!
//! Producer and consumer indices run freely and wrap around; an entry's slot
//! is its index modulo the depth of the queue.
use crate::{align, bytes};
use vstd::prelude::*;

verus! {

/// "URNG".
pub const RING_MAGIC: u32 = 0x55524E47;

/// Protocol version.
pub const RING_VERSION: u16 = 1;

/// Default depth of both queues.
pub const DEFAULT_QUEUE_DEPTH: u16 = 64;

/// Default size of a data buffer.
pub const DEFAULT_BUF_SIZE: u32 = 1048576;

pub const OP_READ: u8 = 0;

pub const OP_WRITE: u8 = 1;

pub const OP_FLUSH: u8 = 2;

pub const OP_DISCARD: u8 = 3;

/// Size of the header.
pub const HEADER_LEN: usize = 4096;

/// Size of a command.
pub const COMMAND_LEN: usize = 64;

/// Size of a completion.
pub const COMPLETION_LEN: usize = 32;

/// The header of the shared memory.
#[derive(Debug, Clone, Copy, PartialEq, Eq, Structural)]
pub struct RingHeader {
    pub magic: u32,
    pub version: u16,
    /// Number of entries of each queue.
    pub queue_depth: u16,
    /// Size of each data buffer.
    pub buf_size: u32,
    /// Where the client puts its next command.
    pub sq_tail: u32,
    /// Where the server takes the next command.
    pub sq_head: u32,
    /// Where the server puts its next completion.
    pub cq_tail: u32,
    /// Where the client takes the next completion.
    pub cq_head: u32,
    pub sq_offset: u32,
    pub cq_offset: u32,
    pub data_offset: u32,
    /// Size of the shared memory.
    pub total_size: u64,
    /// Size of the device.
    pub capacity: u64,
    pub block_size: u32,
}

/// A command of the client.
#[derive(Debug, Clone, Copy, PartialEq, Eq, Structural)]
pub struct RingCommand {
    /// Comes back in the completion.
    pub tag: u16,
    pub op: u8,
    pub flags: u8,
    /// Which data buffer to use.
    pub buf_idx: u16,
    /// Place on the device.
    pub offset: u64,
    /// How many bytes to move.
    pub length: u32,
}

/// What became of a command.
#[derive(Debug, Clone, Copy, PartialEq, Eq, Structural)]
pub struct RingCompletion {
    pub tag: u16,
    /// Zero, or a negative error number.
    pub status: i16,
    /// How many bytes a read moved; zero of anything else.
    pub result: u32,
}

impl RingHeader {
    /// The header as it lies in memory: each index on a cache line of its own.
    pub open spec fn layout(self) -> Seq<u8> {
        bytes::le_bytes(self.magic as nat, 4) + bytes::le_bytes(self.version as nat, 2)
            + bytes::le_bytes(self.queue_depth as nat, 2) + bytes::le_bytes(
            self.buf_size as nat,
            4,
        ) + bytes::zeros(52) + bytes::le_bytes(self.sq_tail as nat, 4) + bytes::zeros(60)
            + bytes::le_bytes(self.sq_head as nat, 4) + bytes::zeros(60) + bytes::le_bytes(
            self.cq_tail as nat,
            4,
        ) + bytes::zeros(60) + bytes::le_bytes(self.cq_head as nat, 4) + bytes::zeros(60)
            + bytes::le_bytes(self.sq_offset as nat, 4) + bytes::le_bytes(self.cq_offset as nat, 4)
            + bytes::le_bytes(self.data_offset as nat, 4) + bytes::zeros(4) + bytes::le_bytes(
            self.total_size as nat,
            8,
        ) + bytes::le_bytes(self.capacity as nat, 8) + bytes::le_bytes(self.block_size as nat, 4)
            + bytes::zeros(3740)
    }

    /// The header as it lies in memory.
    pub fn as_bytes(&self) -> (b: Vec<u8>)
        ensures
            b@ == self.layout(),
            b@.len() == HEADER_LEN,
    {
        broadcast use bytes::lemma_le_bytes_len;

        let mut b: Vec<u8> = Vec::new();
        bytes::push_le(&mut b, self.magic as u64, 4);
        bytes::push_le(&mut b, self.version as u64, 2);
        bytes::push_le(&mut b, self.queue_depth as u64, 2);
        bytes::push_le(&mut b, self.buf_size as u64, 4);
        bytes::push_zeros(&mut b, 52);
        bytes::push_le(&mut b, self.sq_tail as u64, 4);
        bytes::push_zeros(&mut b, 60);
        bytes::push_le(&mut b, self.sq_head as u64, 4);
        bytes::push_zeros(&mut b, 60);
        bytes::push_le(&mut b, self.cq_tail as u64, 4);
        bytes::push_zeros(&mut b, 60);
        bytes::push_le(&mut b, self.cq_head as u64, 4);
        bytes::push_zeros(&mut b, 60);
        bytes::push_le(&mut b, self.sq_offset as u64, 4);
        bytes::push_le(&mut b, self.cq_offset as u64, 4);
        bytes::push_le(&mut b, self.data_offset as u64, 4);
        bytes::push_zeros(&mut b, 4);
        bytes::push_le(&mut b, self.total_size, 8);
        bytes::push_le(&mut b, self.capacity, 8);
        bytes::push_le(&mut b, self.block_size as u64, 4);
        bytes::push_zeros(&mut b, 3740);
        assert(b@ =~= self.layout());
        b
    }
}

impl RingCommand {
    /// The command as it lies in memory.
    pub open spec fn layout(self) -> Seq<u8> {
        bytes::le_bytes(self.tag as nat, 2) + seq![self.op, self.flags] + bytes::le_bytes(
            self.buf_idx as nat,
            2,
        ) + bytes::zeros(2) + bytes::le_bytes(self.offset as nat, 8) + bytes::le_bytes(
            self.length as nat,
            4,
        ) + bytes::zeros(44)
    }

    /// The command that lies in memory.
    pub open spec fn held(b: Seq<u8>) -> RingCommand {
        RingCommand {
            tag: bytes::le_value(b.subrange(0, 2)) as u16,
            op: b[2],
            flags: b[3],
            buf_idx: bytes::le_value(b.subrange(4, 6)) as u16,
            offset: bytes::le_value(b.subrange(8, 16)) as u64,
            length: bytes::le_value(b.subrange(16, 20)) as u32,
        }
    }

    /// The command as it lies in memory.
    pub fn as_bytes(&self) -> (b: Vec<u8>)
        ensures
            b@ == self.layout(),
            b@.len() == COMMAND_LEN,
    {
        broadcast use bytes::lemma_le_bytes_len;

        let mut b: Vec<u8> = Vec::new();
        bytes::push_le(&mut b, self.tag as u64, 2);
        b.push(self.op);
        b.push(self.flags);
        bytes::push_le(&mut b, self.buf_idx as u64, 2);
        bytes::push_zeros(&mut b, 2);
        bytes::push_le(&mut b, self.offset, 8);
        bytes::push_le(&mut b, self.length as u64, 4);
        bytes::push_zeros(&mut b, 44);
        assert(b@ =~= self.layout());
        b
    }

    /// The command that lies in memory.
    pub fn read(b: &[u8]) -> (c: RingCommand)
        requires
            b@.len() == COMMAND_LEN,
        ensures
            c == RingCommand::held(b@),
    {
        proof {
            bytes::lemma_radix();
        }
        RingCommand {
            tag: bytes::get_le(b, 0, 2) as u16,
            op: b[2],
            flags: b[3],
            buf_idx: bytes::get_le(b, 4, 2) as u16,
            offset: bytes::get_le(b, 8, 8),
            length: bytes::get_le(b, 16, 4) as u32,
        }
    }
}

/// A command reads back as it was written.
pub proof fn a_command_reads_back(c: RingCommand)
    ensures
        c.layout().len() == COMMAND_LEN,
        RingCommand::held(c.layout()) == c,
{
    broadcast use bytes::lemma_le_bytes_len;

    bytes::lemma_radix();
    let b = c.layout();
    assert(b.subrange(0, 2) =~= bytes::le_bytes(c.tag as nat, 2));
    assert(b.subrange(4, 6) =~= bytes::le_bytes(c.buf_idx as nat, 2));
    assert(b.subrange(8, 16) =~= bytes::le_bytes(c.offset as nat, 8));
    assert(b.subrange(16, 20) =~= bytes::le_bytes(c.length as nat, 4));
    bytes::le_round_trip(c.tag as nat, 2);
    bytes::le_round_trip(c.buf_idx as nat, 2);
    bytes::le_round_trip(c.offset as nat, 8);
    bytes::le_round_trip(c.length as nat, 4);
}

impl RingCompletion {
    /// The completion as it lies in memory.
    pub open spec fn layout(self) -> Seq<u8> {
        bytes::le_bytes(self.tag as nat, 2) + bytes::le_bytes(self.status as u16 as nat, 2)
            + bytes::le_bytes(self.result as nat, 4) + bytes::zeros(24)
    }

    /// The completion that lies in memory.
    pub open spec fn held(b: Seq<u8>) -> RingCompletion {
        RingCompletion {
            tag: bytes::le_value(b.subrange(0, 2)) as u16,
            status: (bytes::le_value(b.subrange(2, 4)) as u16) as i16,
            result: bytes::le_value(b.subrange(4, 8)) as u32,
        }
    }

    /// The completion as it lies in memory.
    pub fn as_bytes(&self) -> (b: Vec<u8>)
        ensures
            b@ == self.layout(),
            b@.len() == COMPLETION_LEN,
    {
        broadcast use bytes::lemma_le_bytes_len;

        let mut b: Vec<u8> = Vec::new();
        bytes::push_le(&mut b, self.tag as u64, 2);
        bytes::push_le(&mut b, self.status as u16 as u64, 2);
        bytes::push_le(&mut b, self.result as u64, 4);
        bytes::push_zeros(&mut b, 24);
        assert(b@ =~= self.layout());
        b
    }

    /// The completion that lies in memory.
    pub fn read(b: &[u8]) -> (c: RingCompletion)
        requires
            b@.len() == COMPLETION_LEN,
        ensures
            c == RingCompletion::held(b@),
    {
        proof {
            bytes::lemma_radix();
        }
        RingCompletion {
            tag: bytes::get_le(b, 0, 2) as u16,
            status: (bytes::get_le(b, 2, 2) as u16) as i16,
            result: bytes::get_le(b, 4, 4) as u32,
        }
    }
}

/// A completion reads back as it was written.
pub proof fn a_completion_reads_back(c: RingCompletion)
    ensures
        c.layout().len() == COMPLETION_LEN,
        RingCompletion::held(c.layout()) == c,
{
    broadcast use bytes::lemma_le_bytes_len;

    bytes::lemma_radix();
    let b = c.layout();
    let s = c.status;
    assert(b.subrange(0, 2) =~= bytes::le_bytes(c.tag as nat, 2));
    assert(b.subrange(2, 4) =~= bytes::le_bytes(s as u16 as nat, 2));
    assert(b.subrange(4, 8) =~= bytes::le_bytes(c.result as nat, 4));
    bytes::le_round_trip(c.tag as nat, 2);
    bytes::le_round_trip(s as u16 as nat, 2);
    bytes::le_round_trip(c.result as nat, 4);
    assert((s as u16) as i16 == s) by (bit_vector);
}

/// Where the completion queue begins.
pub open spec fn cq_start(queue_depth: u16) -> int {
    HEADER_LEN + queue_depth * COMMAND_LEN
}

/// Where the data buffers begin: on the page after the completion queue.
pub open spec fn data_start(queue_depth: u16) -> int {
    align::round_up(cq_start(queue_depth) + queue_depth * COMPLETION_LEN, 4096)
}

/// Size of the shared memory.
pub open spec fn total_len(queue_depth: u16, buf_size: u32) -> int {
    data_start(queue_depth) + queue_depth * buf_size
}

fn place_queues(queue_depth: u16) -> (r: (u32, u32))
    ensures
        r.0 == cq_start(queue_depth),
        r.1 == data_start(queue_depth),
        r.1 <= 0x80_0000,
{
    let cq_offset: u32 = 4096 + (queue_depth as u32) * 64;
    let end: u32 = cq_offset + (queue_depth as u32) * 32;
    proof {
        align::round_up_is_least_multiple(end as int, 4096);
    }
    (cq_offset, align::align_up(end as u64, 4096) as u32)
}

fn memory_size(queue_depth: u16, buf_size: u32) -> (n: u64)
    ensures
        n == total_len(queue_depth, buf_size),
{
    let (_, data) = place_queues(queue_depth);
    assert(queue_depth * buf_size <= 0xFFFF * 0xFFFF_FFFF) by (nonlinear_arith)
        requires
            queue_depth <= 0xFFFF,
            buf_size <= 0xFFFF_FFFF,
    ;
    data as u64 + (queue_depth as u64) * (buf_size as u64)
}

/// The header of a new shared memory.
pub fn ring_header_init(queue_depth: u16, buf_size: u32, capacity: u64, block_size: u32) -> (h:
    RingHeader)
    ensures
        h == (RingHeader {
            magic: RING_MAGIC,
            version: RING_VERSION,
            queue_depth,
            buf_size,
            sq_tail: 0,
            sq_head: 0,
            cq_tail: 0,
            cq_head: 0,
            sq_offset: HEADER_LEN as u32,
            cq_offset: cq_start(queue_depth) as u32,
            data_offset: data_start(queue_depth) as u32,
            total_size: total_len(queue_depth, buf_size) as u64,
            capacity,
            block_size,
        }),
        h.cq_offset == cq_start(queue_depth),
        h.data_offset == data_start(queue_depth),
        h.total_size == total_len(queue_depth, buf_size),
{
    let (cq_offset, data_offset) = place_queues(queue_depth);
    RingHeader {
        magic: RING_MAGIC,
        version: RING_VERSION,
        queue_depth,
        buf_size,
        sq_tail: 0,
        sq_head: 0,
        cq_tail: 0,
        cq_head: 0,
        sq_offset: HEADER_LEN as u32,
        cq_offset,
        data_offset,
        total_size: memory_size(queue_depth, buf_size),
        capacity,
        block_size,
    }
}

/// Size of the shared memory.
pub fn shm_total_size(queue_depth: u16, buf_size: u32) -> (n: usize)
    requires
        total_len(queue_depth, buf_size) <= usize::MAX,
    ensures
        n == total_len(queue_depth, buf_size),
{
    memory_size(queue_depth, buf_size) as usize
}

/// Where the data buffer `idx` begins in the shared memory.
pub fn data_buf_ptr(header: &RingHeader, idx: u16) -> (at: u64)
    ensures
        at == header.data_offset + idx * header.buf_size,
{
    assert(idx * header.buf_size <= 0xFFFF * 0xFFFF_FFFF) by (nonlinear_arith)
        requires
            idx <= 0xFFFF,
            header.buf_size <= 0xFFFF_FFFF,
    ;
    header.data_offset as u64 + (idx as u64) * (header.buf_size as u64)
}

/// Where the data buffer begins that a command names for `len` bytes: one that
/// the pool has, and that holds so many.
pub fn buffer_at(header: &RingHeader, idx: u16, len: u32) -> (at: Option<u64>)
    ensures
        at == (if idx < header.queue_depth && len <= header.buf_size {
            Some((header.data_offset + idx * header.buf_size) as u64)
        } else {
            None
        }),
        at matches Some(p) ==> p - header.data_offset == idx * header.buf_size && idx
            < header.queue_depth && len <= header.buf_size,
{
    if idx < header.queue_depth && len <= header.buf_size {
        Some(data_buf_ptr(header, idx))
    } else {
        None
    }
}

/// The parts of the shared memory do not overlap: the queues lie between the
/// header and the buffers, the buffers begin on a page, and each buffer lies
/// inside the memory, apart from any other.
pub proof fn the_parts_do_not_overlap(queue_depth: u16, buf_size: u32, i: u16, j: u16)
    requires
        i < j < queue_depth,
    ensures
        HEADER_LEN + queue_depth * COMMAND_LEN <= cq_start(queue_depth),
        cq_start(queue_depth) + queue_depth * COMPLETION_LEN <= data_start(queue_depth),
        data_start(queue_depth) % 4096 == 0,
        data_start(queue_depth) + i * buf_size + buf_size <= data_start(queue_depth) + j * buf_size,
        data_start(queue_depth) + j * buf_size + buf_size <= total_len(queue_depth, buf_size),
{
    align::round_up_is_least_multiple(
        cq_start(queue_depth) + queue_depth * COMPLETION_LEN,
        4096,
    );
    assert(i * buf_size + buf_size <= j * buf_size) by (nonlinear_arith)
        requires
            i + 1 <= j,
            buf_size >= 0,
    ;
    assert(j * buf_size + buf_size <= queue_depth * buf_size) by (nonlinear_arith)
        requires
            j + 1 <= queue_depth,
            buf_size >= 0,
    ;
}

/// How far `tail` is ahead of `head`, on a circle of 32-bit numbers.
pub open spec fn ahead(tail: u32, head: u32) -> int {
    if tail >= head {
        tail - head
    } else {
        tail - head + 0x1_0000_0000
    }
}

/// The number after `n`, on a circle of 32-bit numbers.
pub open spec fn after(n: u32) -> u32 {
    if n == u32::MAX {
        0
    } else {
        (n + 1) as u32
    }
}

/// The slot to fill and the next tail, unless the queue is full.
pub open spec fn room(depth: u16, tail: u32, head: u32) -> Option<(u32, u32)> {
    if ahead(tail, head) >= depth {
        None
    } else {
        Some(((tail as int % depth as int) as u32, after(tail)))
    }
}

/// The slot to empty and the next head, unless the queue is empty.
pub open spec fn waiting(depth: u16, tail: u32, head: u32) -> Option<(u32, u32)> {
    if head == tail {
        None
    } else {
        Some(((head as int % depth as int) as u32, after(head)))
    }
}

/// The slot to fill and the next tail, unless the queue is full.
pub fn reserve(depth: u16, tail: u32, head: u32) -> (r: Option<(u32, u32)>)
    ensures
        r == room(depth, tail, head),
        r matches Some((slot, next)) ==> slot < depth,
{
    if tail.wrapping_sub(head) >= depth as u32 {
        return None;
    }
    Some((tail % depth as u32, tail.wrapping_add(1)))
}

/// The slot to empty and the next head, unless the queue is empty. A queue
/// without slots is empty.
pub fn consume(depth: u16, tail: u32, head: u32) -> (r: Option<(u32, u32)>)
    requires
        depth > 0 || head == tail,
    ensures
        r == waiting(depth, tail, head),
        r matches Some((slot, next)) ==> slot < depth,
{
    if head == tail {
        return None;
    }
    Some((head % depth as u32, head.wrapping_add(1)))
}

/// Puts a command into the submission queue, unless it is full.
pub fn sq_push(header: &mut RingHeader, sq: &mut Vec<RingCommand>, cmd: &RingCommand) -> (ok: bool)
    requires
        old(sq)@.len() >= old(header).queue_depth,
    ensures
        match room(old(header).queue_depth, old(header).sq_tail, old(header).sq_head) {
            None => !ok && *final(header) == *old(header) && final(sq)@ == old(sq)@,
            Some((slot, tail)) => ok && *final(header) == (RingHeader {
                sq_tail: tail,
                ..*old(header)
            }) && final(sq)@ == old(sq)@.update(slot as int, *cmd),
        },
{
    match reserve(header.queue_depth, header.sq_tail, header.sq_head) {
        None => false,
        Some((slot, tail)) => {
            sq.set(slot as usize, *cmd);
            header.sq_tail = tail;
            true
        },
    }
}

/// Takes the oldest command out of the submission queue.
pub fn sq_pop(header: &mut RingHeader, sq: &Vec<RingCommand>) -> (r: Option<RingCommand>)
    requires
        sq@.len() >= old(header).queue_depth,
        old(header).queue_depth > 0 || old(header).sq_head == old(header).sq_tail,
    ensures
        match waiting(old(header).queue_depth, old(header).sq_tail, old(header).sq_head) {
            None => r is None && *final(header) == *old(header),
            Some((slot, head)) => r == Some(sq@[slot as int]) && *final(header) == (RingHeader {
                sq_head: head,
                ..*old(header)
            }),
        },
{
    match consume(header.queue_depth, header.sq_tail, header.sq_head) {
        None => None,
        Some((slot, head)) => {
            let cmd: RingCommand = sq[slot as usize];
            header.sq_head = head;
            Some(cmd)
        },
    }
}

/// Puts a completion into the completion queue, unless it is full.
pub fn cq_push(header: &mut RingHeader, cq: &mut Vec<RingCompletion>, comp: &RingCompletion) -> (ok:
    bool)
    requires
        old(cq)@.len() >= old(header).queue_depth,
    ensures
        match room(old(header).queue_depth, old(header).cq_tail, old(header).cq_head) {
            None => !ok && *final(header) == *old(header) && final(cq)@ == old(cq)@,
            Some((slot, tail)) => ok && *final(header) == (RingHeader {
                cq_tail: tail,
                ..*old(header)
            }) && final(cq)@ == old(cq)@.update(slot as int, *comp),
        },
{
    match reserve(header.queue_depth, header.cq_tail, header.cq_head) {
        None => false,
        Some((slot, tail)) => {
            cq.set(slot as usize, *comp);
            header.cq_tail = tail;
            true
        },
    }
}

/// Takes the oldest completion out of the completion queue.
pub fn cq_pop(header: &mut RingHeader, cq: &Vec<RingCompletion>) -> (r: Option<RingCompletion>)
    requires
        cq@.len() >= old(header).queue_depth,
        old(header).queue_depth > 0 || old(header).cq_head == old(header).cq_tail,
    ensures
        match waiting(old(header).queue_depth, old(header).cq_tail, old(header).cq_head) {
            None => r is None && *final(header) == *old(header),
            Some((slot, head)) => r == Some(cq@[slot as int]) && *final(header) == (RingHeader {
                cq_head: head,
                ..*old(header)
            }),
        },
{
    match consume(header.queue_depth, header.cq_tail, header.cq_head) {
        None => None,
        Some((slot, head)) => {
            let comp: RingCompletion = cq[slot as usize];
            header.cq_head = head;
            Some(comp)
        },
    }
}

/// Whether the submission queue is full.
pub fn sq_full(header: &RingHeader) -> (yes: bool)
    ensures
        yes == (ahead(header.sq_tail, header.sq_head) >= header.queue_depth),
{
    header.sq_tail.wrapping_sub(header.sq_head) >= header.queue_depth as u32
}

/// Whether the completion queue is empty.
pub fn cq_empty(header: &RingHeader) -> (yes: bool)
    ensures
        yes == (header.cq_head == header.cq_tail),
{
    header.cq_head == header.cq_tail
}

/// The index `i` places after `head`, on a circle of 32-bit numbers.
pub open spec fn along(head: u32, i: int) -> int {
    (head + i) % 0x1_0000_0000
}

/// The entries between `head` and `tail`, oldest first.
pub open spec fn entries<T>(slots: Seq<T>, depth: u16, tail: u32, head: u32) -> Seq<T> {
    Seq::new(ahead(tail, head) as nat, |i: int| slots[along(head, i) % (depth as int)])
}

/// Whether the entries after `head` have slots of their own: the indices do
/// not wrap around on the way, or they wrap at a multiple of the depth.
pub open spec fn own_slots(depth: u16, head: u32) -> bool {
    depth > 0 && (head + depth <= 0x1_0000_0000 || 0x1_0000_0000int % (depth as int) == 0)
}

proof fn lemma_slots_differ(depth: u16, head: u32, i: int, j: int)
    requires
        own_slots(depth, head),
        0 <= i < j < depth,
    ensures
        along(head, i) % (depth as int) != along(head, j) % (depth as int),
{
    let d = depth as int;
    let n = 0x1_0000_0000int;
    let a = head + i;
    let b = head + j;
    if head + depth <= n {
        assert(a % n == a && b % n == b);
    } else {
        lemma_mod_of_multiple(a, n, d);
        lemma_mod_of_multiple(b, n, d);
    }
    if a % d == b % d {
        vstd::arithmetic::div_mod::lemma_fundamental_div_mod(a, d);
        vstd::arithmetic::div_mod::lemma_fundamental_div_mod(b, d);
        let qa = a / d;
        let qb = b / d;
        assert(b - a == d * (qb - qa)) by (nonlinear_arith)
            requires
                a == d * qa + a % d,
                b == d * qb + b % d,
                a % d == b % d,
        ;
        assert(false) by (nonlinear_arith)
            requires
                b - a == d * (qb - qa),
                0 < b - a < d,
        ;
    }
}

proof fn lemma_mod_of_multiple(a: int, n: int, d: int)
    requires
        d > 0,
        n > 0,
        n % d == 0,
    ensures
        (a % n) % d == a % d,
{
    vstd::arithmetic::div_mod::lemma_fundamental_div_mod(a, n);
    vstd::arithmetic::div_mod::lemma_fundamental_div_mod(n, d);
    let q = a / n;
    let k = n / d;
    assert(a == d * (k * q) + a % n) by (nonlinear_arith)
        requires
            a == n * q + a % n,
            n == d * k,
    ;
    vstd::arithmetic::div_mod::lemma_mod_multiples_vanish(k * q, a % n, d);
}

/// A queue hands its entries out in the order they came in: putting one in
/// adds it behind the others and changes none of them.
pub proof fn a_queue_keeps_its_order<T>(slots: Seq<T>, depth: u16, tail: u32, head: u32, x: T)
    requires
        own_slots(depth, head),
        slots.len() >= depth,
        ahead(tail, head) < depth,
    ensures
        room(depth, tail, head) matches Some((slot, next)) && entries(
            slots.update(slot as int, x),
            depth,
            next,
            head,
        ) == entries(slots, depth, tail, head).push(x),
{
    let d = depth as int;
    let (slot, next) = room(depth, tail, head).unwrap();
    let n = ahead(tail, head);
    assert(along(head, n) == tail);
    assert(ahead(next, head) == n + 1);
    let new = slots.update(slot as int, x);
    let left = entries(new, depth, next, head);
    let right = entries(slots, depth, tail, head).push(x);
    assert forall|i: int| 0 <= i < n + 1 implies left[i] == right[i] by {
        if i < n {
            lemma_slots_differ(depth, head, i, n);
            let at = along(head, i) % d;
            assert(0 <= at < d);
            assert(new[at] == slots[at]);
        } else {
            assert(along(head, i) % d == slot);
        }
    }
    assert(left =~= right);
}

/// What is taken out of a queue is its oldest entry, and the others stay.
pub proof fn the_oldest_leaves_first<T>(slots: Seq<T>, depth: u16, tail: u32, head: u32)
    requires
        depth > 0,
        head != tail,
    ensures
        waiting(depth, tail, head) matches Some((slot, next)) && slots[slot as int] == entries(
            slots,
            depth,
            tail,
            head,
        )[0] && entries(slots, depth, tail, next) == entries(slots, depth, tail, head).drop_first(),
{
    let (slot, next) = waiting(depth, tail, head).unwrap();
    assert(along(head, 0) == head);
    assert(ahead(tail, next) == ahead(tail, head) - 1);
    let left = entries(slots, depth, tail, next);
    let right = entries(slots, depth, tail, head).drop_first();
    assert forall|i: int| 0 <= i < left.len() implies left[i] == right[i] by {
        assert(along(next, i) == along(head, i + 1));
    }
    assert(left =~= right);
}

/// What a command asks of the device.
#[allow(inconsistent_fields)]
#[derive(Debug, Clone, Copy, PartialEq, Eq, Structural)]
pub enum RingOp {
    Read { offset: u64, len: u32, buf_idx: u16 },
    Write { offset: u64, len: u32, buf_idx: u16 },
    Flush,
    Discard { offset: u64, len: u64 },
    Unknown,
}

impl RingCommand {
    /// What the command asks of the device.
    pub open spec fn asks(self) -> RingOp {
        if self.op == OP_READ {
            RingOp::Read { offset: self.offset, len: self.length, buf_idx: self.buf_idx }
        } else if self.op == OP_WRITE {
            RingOp::Write { offset: self.offset, len: self.length, buf_idx: self.buf_idx }
        } else if self.op == OP_FLUSH {
            RingOp::Flush
        } else if self.op == OP_DISCARD {
            RingOp::Discard { offset: self.offset, len: self.length as u64 }
        } else {
            RingOp::Unknown
        }
    }

    /// What the command asks of the device.
    pub fn request(&self) -> (op: RingOp)
        ensures
            op == self.asks(),
    {
        if self.op == OP_READ {
            RingOp::Read { offset: self.offset, len: self.length, buf_idx: self.buf_idx }
        } else if self.op == OP_WRITE {
            RingOp::Write { offset: self.offset, len: self.length, buf_idx: self.buf_idx }
        } else if self.op == OP_FLUSH {
            RingOp::Flush
        } else if self.op == OP_DISCARD {
            RingOp::Discard { offset: self.offset, len: self.length as u64 }
        } else {
            RingOp::Unknown
        }
    }

    /// The completion, by how many bytes the device moved, if it did as asked.
    /// Only a read tells how many; an operation that is not known is not
    /// supported.
    pub open spec fn answered(self, moved: Option<u32>) -> RingCompletion {
        let (status, result) = if self.asks() is Unknown {
            (-95, 0u32)
        } else {
            match moved {
                None => (-5, 0u32),
                Some(n) => (
                    0,
                    if self.asks() is Read {
                        n
                    } else {
                        0
                    },
                ),
            }
        };
        RingCompletion { tag: self.tag, status: status as i16, result }
    }

    /// The completion, by how many bytes the device moved, if it did as asked.
    pub fn complete(&self, moved: Option<u32>) -> (c: RingCompletion)
        ensures
            c == self.answered(moved),
    {
        let (status, result): (i16, u32) = match (self.request(), moved) {
            (RingOp::Unknown, _) => (-95, 0),
            (_, None) => (-5, 0),
            (RingOp::Read { .. }, Some(n)) => (0, n),
            (_, Some(_)) => (0, 0),
        };
        RingCompletion { tag: self.tag, status, result }
    }
}

} // verus!
