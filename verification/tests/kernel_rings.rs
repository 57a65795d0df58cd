use stormblock::drive::direct::{after_write, Completion, Failure, Ring, Written, EINTR, WAKE};
use stormblock::drive::identity::Identity;
use stormblock::drive::nbd::{
    DeviceOp, NbdAction, NbdFault, NbdSession, NBD_CMD_DISC, NBD_CMD_READ, NBD_CMD_WRITE, NBD_EIO,
    NBD_MAGIC, NBD_OK, NBD_OPTS_MAGIC, NBD_OPT_EXPORT_NAME, NBD_REQUEST_MAGIC,
    NBD_SIMPLE_REPLY_MAGIC,
};
use stormblock::drive::nvme::{
    admin_attributes, enable_configuration, group_number, version, wait_csts_rdy,
    NvmeCompletionEntry, NvmeSubmissionEntry, Ready,
};
use stormblock::drive::sas::{
    cut, detect_drive_type, device_identity, device_name, patch, smart_status, SasDevice, WritePlan,
};
use stormblock::drive::uring_channel::{
    buffer_at, cq_empty, cq_pop, cq_push, data_buf_ptr, ring_header_init, shm_total_size, sq_full, sq_pop,
    sq_push, RingCommand, RingCompletion, RingHeader, RingOp, COMMAND_LEN, COMPLETION_LEN,
    HEADER_LEN, OP_DISCARD, OP_FLUSH, OP_READ, OP_WRITE, RING_MAGIC, RING_VERSION,
};
use stormblock::drive::uring_server::{
    client_header, listener_step, worker_step, RequestFault, Step, UringServer, Woken,
};
use stormblock::drive::DriveType;

fn rings(depth: usize) -> (Vec<RingCommand>, Vec<RingCompletion>) {
    (
        vec![RingCommand { tag: 0, op: 0, flags: 0, buf_idx: 0, offset: 0, length: 0 }; depth],
        vec![RingCompletion { tag: 0, status: 0, result: 0 }; depth],
    )
}

#[test]
fn ring_header_init_and_validate() {
    let header = ring_header_init(4, 4096, 1024 * 1024, 512);
    assert_eq!(header.magic, RING_MAGIC);
    assert_eq!(header.version, RING_VERSION);
    assert_eq!(header.queue_depth, 4);
    assert_eq!(header.buf_size, 4096);
    assert_eq!(header.capacity, 1024 * 1024);
    assert_eq!(header.block_size, 512);
    assert_eq!(header.sq_offset, 4096);
}

#[test]
fn sq_push_pop_roundtrip() {
    let mut header = ring_header_init(4, 4096, 1024 * 1024, 512);
    let (mut sq, _) = rings(4);

    let cmd = RingCommand { tag: 42, op: OP_READ, flags: 0, buf_idx: 1, offset: 8192, length: 4096 };

    assert!(sq_push(&mut header, &mut sq, &cmd));

    let popped = sq_pop(&mut header, &sq).unwrap();
    assert_eq!(popped.tag, 42);
    assert_eq!(popped.op, OP_READ);
    assert_eq!(popped.buf_idx, 1);
    assert_eq!(popped.offset, 8192);
    assert_eq!(popped.length, 4096);

    // Queue should be empty now
    assert!(sq_pop(&mut header, &sq).is_none());
}

#[test]
fn cq_push_pop_roundtrip() {
    let mut header = ring_header_init(4, 4096, 1024 * 1024, 512);
    let (_, mut cq) = rings(4);

    let comp = RingCompletion { tag: 42, status: 0, result: 4096 };

    assert!(cq_push(&mut header, &mut cq, &comp));

    let popped = cq_pop(&mut header, &cq).unwrap();
    assert_eq!(popped.tag, 42);
    assert_eq!(popped.status, 0);
    assert_eq!(popped.result, 4096);

    assert!(cq_pop(&mut header, &cq).is_none());
}

#[test]
fn ring_full_empty_detection() {
    let mut header = ring_header_init(4, 4096, 1024 * 1024, 512);
    let (mut sq, mut cq) = rings(4);

    // SQ starts empty
    assert!(!sq_full(&header));
    assert!(cq_empty(&header));

    // Fill the SQ (depth=4)
    for i in 0..4u16 {
        let cmd = RingCommand { tag: i, op: OP_WRITE, flags: 0, buf_idx: i, offset: 0, length: 0 };
        assert!(sq_push(&mut header, &mut sq, &cmd));
    }

    assert!(sq_full(&header));

    // Can't push when full
    let extra = RingCommand { tag: 99, op: OP_READ, flags: 0, buf_idx: 0, offset: 0, length: 0 };
    assert!(!sq_push(&mut header, &mut sq, &extra));

    // Pop one: should no longer be full
    let first = sq_pop(&mut header, &sq).unwrap();
    assert_eq!(first.tag, 0, "the oldest leaves first");
    assert!(!sq_full(&header));

    // CQ: push one, should no longer be empty
    let comp = RingCompletion { tag: 0, status: 0, result: 0 };
    assert!(cq_push(&mut header, &mut cq, &comp));
    assert!(!cq_empty(&header));

    // Pop it
    let _ = cq_pop(&mut header, &cq).unwrap();
    assert!(cq_empty(&header));
}

#[test]
fn data_buf_ptr_offsets() {
    let header = ring_header_init(4, 4096, 1024 * 1024, 512);
    let d_off = header.data_offset as u64;

    let p0 = data_buf_ptr(&header, 0);
    assert_eq!(p0, d_off);

    let p1 = data_buf_ptr(&header, 1);
    assert_eq!(p1 - p0, 4096);

    let p3 = data_buf_ptr(&header, 3);
    assert_eq!(p3 - p0, 3 * 4096);
    assert!(p3 + 4096 <= shm_total_size(4, 4096) as u64);

    assert_eq!(buffer_at(&header, 3, 4096), Some(p3));
    assert_eq!(buffer_at(&header, 4, 1), None, "there is no such buffer");
    assert_eq!(buffer_at(&header, 0, 4097), None, "it does not hold so much");
}

#[test]
fn struct_sizes() {
    let command = RingCommand { tag: 1, op: 2, flags: 3, buf_idx: 4, offset: 5, length: 6 };
    assert_eq!(command.as_bytes().len(), 64);
    let completion = RingCompletion { tag: 1, status: -5, result: 6 };
    assert_eq!(completion.as_bytes().len(), 32);
    let header: RingHeader = ring_header_init(4, 4096, 1024 * 1024, 512);
    assert_eq!(header.as_bytes().len(), 4096);
    assert_eq!((COMMAND_LEN, COMPLETION_LEN, HEADER_LEN), (64, 32, 4096));
}

#[test]
fn ring_entries_read_back() {
    let c = RingCommand { tag: 7, op: OP_DISCARD, flags: 1, buf_idx: 3, offset: 1 << 40, length: 99 };
    assert_eq!(RingCommand::read(&c.as_bytes()), c);
    let c = RingCompletion { tag: 7, status: -5, result: 12 };
    assert_eq!(RingCompletion::read(&c.as_bytes()), c);
}

#[test]
fn ring_commands_ask_for_one_operation() {
    let mut c = RingCommand { tag: 7, op: OP_READ, flags: 0, buf_idx: 3, offset: 512, length: 9 };
    assert_eq!(c.request(), RingOp::Read { offset: 512, len: 9, buf_idx: 3 });
    c.op = OP_WRITE;
    assert_eq!(c.request(), RingOp::Write { offset: 512, len: 9, buf_idx: 3 });
    c.op = OP_FLUSH;
    assert_eq!(c.request(), RingOp::Flush);
    c.op = OP_DISCARD;
    assert_eq!(c.request(), RingOp::Discard { offset: 512, len: 9 });
    c.op = 77;
    assert_eq!(c.request(), RingOp::Unknown);
    assert_eq!(c.complete(Some(9)).status, -95, "not supported");
    c.op = OP_READ;
    assert_eq!(c.complete(Some(9)), RingCompletion { tag: 7, status: 0, result: 9 });
    assert_eq!(c.complete(None), RingCompletion { tag: 7, status: -5, result: 0 });
    c.op = OP_WRITE;
    assert_eq!(c.complete(Some(9)), RingCompletion { tag: 7, status: 0, result: 0 });
    c.op = OP_FLUSH;
    assert_eq!(c.complete(Some(0)), RingCompletion { tag: 7, status: 0, result: 0 });
}

#[test]
fn server_add_volume() {
    let mut server = UringServer::new("/tmp/test-uring.sock");
    server.add_volume("test-vol".to_string(), 11);
    assert_eq!(server.device_of("test-vol"), Some(11));
    assert_eq!(server.device_of("other"), None);
    server.add_volume("test-vol".to_string(), 12);
    assert_eq!(server.device_of("test-vol"), Some(12), "the last one counts");
}

#[test]
fn a_client_is_given_the_volume_it_names() {
    let mut server = UringServer::new("/tmp/s.sock");
    server.add_volume("test".to_string(), 5);
    match server.handle_client(br#"{"volume":"test"}"#) {
        Ok((name, device)) => assert_eq!((name.as_str(), device), ("test", 5)),
        Err(e) => panic!("{}", e.to_string()),
    }
    match server.handle_client(br#"{"volume":"nope"}"#) {
        Err(RequestFault::NotFound(n)) => assert_eq!(n, "nope"),
        _ => panic!("an unknown volume"),
    }
    assert!(matches!(server.handle_client(br#"{"x":1}"#), Err(RequestFault::MissingVolume)));
    assert!(matches!(server.handle_client(br#"{"volume":1}"#), Err(RequestFault::MissingVolume)));
    assert!(matches!(server.handle_client(b"not json"), Err(RequestFault::NotJson(_))));
    // The judgement itself, for any way the request was read.
    assert!(server.grant(Ok(Some("test".to_string()))).is_ok());
    assert!(matches!(server.grant(Ok(None)), Err(RequestFault::MissingVolume)));
    assert!(matches!(server.grant(Err("bad".to_string())), Err(RequestFault::NotJson(_))));
    server.start();
    assert!(server.running);
    server.stop();
    assert!(!server.running);
    assert_eq!(client_header(1 << 20, 512).capacity, 1 << 20);
    assert_eq!(worker_step(Woken::Signalled), Step::Serve);
    assert_eq!(worker_step(Woken::Failed), Step::Exit);
    assert!(matches!(worker_step(Woken::TimedOut), Step::Again(_)));
    assert_eq!(listener_step(Woken::Signalled), Step::Serve);
    assert!(matches!(listener_step(Woken::WouldBlock), Step::Again(_)));
}

fn request(cmd: u16, handle: u64, offset: u64, len: u32) -> Vec<u8> {
    let mut b = Vec::new();
    b.extend_from_slice(&NBD_REQUEST_MAGIC.to_be_bytes());
    b.extend_from_slice(&0u16.to_be_bytes());
    b.extend_from_slice(&cmd.to_be_bytes());
    b.extend_from_slice(&handle.to_be_bytes());
    b.extend_from_slice(&offset.to_be_bytes());
    b.extend_from_slice(&len.to_be_bytes());
    b
}

fn reply(error: u32, handle: u64) -> Vec<u8> {
    let mut b = Vec::new();
    b.extend_from_slice(&NBD_SIMPLE_REPLY_MAGIC.to_be_bytes());
    b.extend_from_slice(&error.to_be_bytes());
    b.extend_from_slice(&handle.to_be_bytes());
    b
}

/// Feeds a session in the pieces that it wants; what the last one led to.
fn wire(s: &mut NbdSession, bytes: Vec<u8>) -> NbdAction {
    let mut at = 0;
    loop {
        let n = s.wanted();
        let act = s.feed(bytes[at..at + n].to_vec());
        at += n;
        if at == bytes.len() || !matches!(act, NbdAction::Read) {
            return act;
        }
    }
}

fn exported() -> NbdSession {
    let mut s = NbdSession::new(4 * 1024 * 1024);
    assert!(matches!(s.feed(vec![0; 4]), NbdAction::Read));
    let mut opt = Vec::new();
    opt.extend_from_slice(&NBD_OPTS_MAGIC.to_be_bytes());
    opt.extend_from_slice(&NBD_OPT_EXPORT_NAME.to_be_bytes());
    opt.extend_from_slice(&0u32.to_be_bytes());
    match wire(&mut s, opt) {
        NbdAction::Send(b) => {
            assert_eq!(&b[0..8], &(4u64 * 1024 * 1024).to_be_bytes());
            assert_eq!(b.len(), 8 + 2 + 124);
        }
        _ => panic!("the export is announced"),
    }
    s
}

#[test]
fn nbd_handshake_and_io() {
    let mut disk = vec![0u8; 4 * 1024 * 1024];
    let s = NbdSession::new(4 * 1024 * 1024);
    let hello = s.greeting();
    assert_eq!(&hello[0..8], &NBD_MAGIC.to_be_bytes());
    assert_eq!(&hello[8..16], &NBD_OPTS_MAGIC.to_be_bytes());
    assert_eq!(hello.len(), 18);
    assert_eq!(s.wanted(), 4);

    let mut s = exported();

    // Write 4KB at offset 0
    let data = vec![0xAB_u8; 4096];
    assert_eq!(s.wanted(), 4, "the magic comes by itself");
    assert!(matches!(wire(&mut s, request(NBD_CMD_WRITE, 1, 0, 4096)), NbdAction::Read));
    assert_eq!(s.wanted(), 4096);
    match s.feed(data.clone()) {
        NbdAction::Run(DeviceOp::Write { offset, data }) => {
            disk[offset as usize..offset as usize + data.len()].copy_from_slice(&data)
        }
        _ => panic!("a write"),
    }
    assert_eq!(s.complete(true, &[]), reply(NBD_OK, 1));

    // Read 4KB at offset 0
    let got = match wire(&mut s, request(NBD_CMD_READ, 2, 0, 4096)) {
        NbdAction::Run(DeviceOp::Read { offset, len }) => {
            disk[offset as usize..offset as usize + len as usize].to_vec()
        }
        _ => panic!("a read"),
    };
    let mut want = reply(NBD_OK, 2);
    want.extend_from_slice(&data);
    assert_eq!(s.complete(true, &got), want);

    // A device that fails is reported under the same handle.
    assert!(matches!(wire(&mut s, request(NBD_CMD_READ, 9, 0, 512)), NbdAction::Run(_)));
    assert_eq!(s.complete(false, &[]), reply(NBD_EIO, 9));

    // Disconnect
    assert!(matches!(wire(&mut s, request(NBD_CMD_DISC, 3, 0, 0)), NbdAction::Close));
}

#[test]
fn nbd_refuses_what_is_not_its_protocol() {
    let mut s = exported();
    let mut bad = request(NBD_CMD_READ, 1, 0, 1);
    bad[0] ^= 1;
    assert!(matches!(wire(&mut s, bad), NbdAction::Fail(NbdFault::BadRequestMagic(_))));
    let mut s = exported();
    let unknown = wire(&mut s, request(77, 5, 0, 0));
    assert!(matches!(unknown, NbdAction::Send(b) if b == reply(22, 5)));
    let mut s = NbdSession::new(1);
    s.feed(vec![0; 4]);
    assert!(matches!(s.feed(vec![0; 8]), NbdAction::Fail(NbdFault::BadOptionMagic(0))));
}

#[test]
fn a_direct_request_is_answered_once() {
    let mut r = Ring::new();
    assert_eq!(r.to_submit(), None);
    r.arrive(100);
    r.arrive(200);
    let (passed, _) = r.to_submit().unwrap();
    r.refused();
    let (tag, op) = r.to_submit().unwrap();
    assert_eq!(op, 100, "what found no room is still first");
    assert_ne!(tag, passed);
    r.submitted();
    assert_eq!(r.completed(tag), Completion::Done { op: 100 });
    assert_eq!(r.completed(tag), Completion::Unknown, "answered already");
    assert_eq!(r.completed(WAKE), Completion::Wake { again: true });
    assert!(matches!(r.failed(Some(EINTR)), Failure::Retry));
    r.hang_up();
    assert!(!r.finished(), "one request still waits");
    match r.failed(Some(5)) {
        Failure::FailAll { pending, exit } => {
            assert_eq!(pending, vec![200]);
            assert!(exit);
        }
        Failure::Retry => panic!("no interruption"),
    }
    assert!(r.finished());
    assert_eq!(after_write(0, 5, 10, true), Written::Rest { from: 5 });
    assert_eq!(after_write(5, 5, 10, false), Written::Done);
    assert_eq!(after_write(5, 0, 10, false), Written::Stuck);
}

#[test]
fn a_write_that_is_not_whole_blocks_keeps_its_neighbours() {
    let d = SasDevice { capacity: 1 << 20, block_size: 4096, device_type: DriveType::SasSsd };
    let mut disk: Vec<u8> = (0..1usize << 20).map(|i| (i % 13) as u8).collect();
    let before = disk.clone();
    let data = vec![0xEEu8; 1024];
    match d.plan_write(4096 + 100, 1024).unwrap() {
        WritePlan::Patch(s) => {
            assert_eq!((s.start, s.len, s.skew), (4096, 4096, 100));
            let at = s.start as usize;
            let span = disk[at..at + s.len as usize].to_vec();
            let b = patch(span, s.skew as usize, &data);
            disk[at..at + b.len()].copy_from_slice(&b);
        }
        _ => panic!("the edges have to be read"),
    }
    assert_eq!(&disk[4196..4196 + 1024], &data[..]);
    assert_eq!(&disk[..4196], &before[..4196]);
    assert_eq!(&disk[5220..], &before[5220..]);
    let s = d.plan_read(4196, 1024).unwrap().unwrap();
    let span = disk[s.start as usize..(s.start + s.len) as usize].to_vec();
    assert_eq!(cut(&span, s.skew as usize, 1024), data);
    assert!(matches!(d.plan_write(8192, 4096), Ok(WritePlan::Whole(_))));
    assert!(matches!(d.plan_write(8192, 0), Ok(WritePlan::Nothing)));
    assert!(d.plan_read(1 << 20, 1).is_err());
    assert!(d.discards());
}

#[test]
fn a_disk_is_known_by_what_the_kernel_says() {
    assert_eq!(device_name("/dev/disk/sda"), "sda");
    assert_eq!(device_name("sda"), "sda");
    assert_eq!(detect_drive_type("0\n"), DriveType::SasSsd);
    assert_eq!(detect_drive_type("1\n"), DriveType::SasHdd);
    assert_eq!(detect_drive_type(""), DriveType::SasHdd);
    let id = Identity {
        serial: "S1".to_string(),
        model: String::new(),
        wwn: String::new(),
        disk: "sda".to_string(),
    };
    let (serial, model) = device_identity(&Some(id), "other", "M2");
    assert_eq!((serial.as_str(), model.as_str()), ("S1", "M2"));
    let s = smart_status("running\n", "3\n", &vec!["x".to_string(), "41000\n".to_string()]);
    assert!(s.healthy);
    assert_eq!(s.media_errors, 3);
    assert_eq!(s.temperature_celsius, Some(41));
    assert!(!smart_status("offline", "", &vec![]).healthy);
}

#[test]
fn nvme_entries_have_their_fixed_size() {
    let mut e = NvmeSubmissionEntry::default();
    e.opcode = 2;
    e.command_id = 0x0102;
    e.cdw10 = 0xdead;
    let b = e.as_bytes();
    assert_eq!(b.len(), 64);
    assert_eq!((b[0], b[2], b[3]), (2, 2, 1));
    assert_eq!(&b[40..44], &0xdeadu32.to_le_bytes());
    let mut c = [0u8; 16];
    c[12] = 9;
    assert_eq!(NvmeCompletionEntry::read(&c).command_id, 9);
    assert_eq!(NvmeCompletionEntry::default().status, 0);
    assert_eq!(admin_attributes(32), 31 << 16 | 31);
    assert_eq!(enable_configuration() & 1, 1);
    assert_eq!(version(0x0001_0400), (1, 4));
    assert_eq!(wait_csts_rdy(1, true, 5), Ready::Yes);
    assert_eq!(wait_csts_rdy(0, true, 5), Ready::Wait);
    assert_eq!(wait_csts_rdy(0, true, 999), Ready::No);
    assert_eq!(group_number("17").ok(), Some(17));
    assert!(group_number("x").is_err());
}

/// A disk that takes whole blocks only, behind the device's plans.
struct BlockDisk {
    dev: SasDevice,
    bytes: Vec<u8>,
}

impl BlockDisk {
    fn new(len: usize) -> BlockDisk {
        let dev =
            SasDevice { capacity: len as u64, block_size: 4096, device_type: DriveType::SasSsd };
        BlockDisk { dev, bytes: vec![0; len] }
    }

    fn blocks(&self, start: u64, len: u64) -> std::ops::Range<usize> {
        assert_eq!((start % 4096, len % 4096), (0, 0), "not whole blocks");
        start as usize..(start + len) as usize
    }

    fn read(&self, offset: u64, len: usize) -> Option<Vec<u8>> {
        let s = self.dev.plan_read(offset, len).ok()??;
        Some(cut(&self.bytes[self.blocks(s.start, s.len)].to_vec(), s.skew as usize, len))
    }

    fn write(&mut self, offset: u64, data: &[u8]) -> Option<usize> {
        let (s, span) = match self.dev.plan_write(offset, data.len()).ok()? {
            WritePlan::Nothing => return Some(0),
            WritePlan::Whole(s) => (s, data.to_vec()),
            WritePlan::Patch(s) => {
                let before = self.bytes[self.blocks(s.start, s.len)].to_vec();
                (s, patch(before, s.skew as usize, data))
            }
        };
        let at = self.blocks(s.start, s.len);
        self.bytes[at].copy_from_slice(&span);
        Some(data.len())
    }
}

fn pattern(n: usize, seed: u8) -> Vec<u8> {
    (0..n).map(|i| (i as u8).wrapping_mul(31).wrapping_add(seed)).collect()
}

#[test]
fn whole_blocks_round_trip_through_the_ring() {
    let mut dev = BlockDisk::new(8 << 20);
    let data = pattern(1 << 20, 7);
    assert_eq!(dev.write(4096, &data).unwrap(), data.len());
    assert_eq!(dev.read(4096, data.len()).unwrap(), data);
}

/// A request that is not whole blocks is widened by the device; the bytes
/// around it are left exactly as they were.
#[test]
fn partial_blocks_are_read_modify_written() {
    let mut dev = BlockDisk::new(1 << 20);
    let base = pattern(3 * 4096, 1);
    dev.write(0, &base).unwrap();
    let patch = pattern(5000, 99);
    assert_eq!(dev.write(1000, &patch).unwrap(), 5000, "spans a block boundary");
    let mut want = base.clone();
    want[1000..6000].copy_from_slice(&patch);
    assert_eq!(dev.read(0, 3 * 4096).unwrap(), want);
    assert_eq!(dev.read(4093, 7).unwrap(), want[4093..4100].to_vec(), "a read across a boundary");
    assert!(dev.write((1 << 20) - 10, &[1u8; 20]).is_none(), "past the end is refused");
}
