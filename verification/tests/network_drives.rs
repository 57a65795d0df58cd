use stormblock::drive::iscsi_dev::{
    self, read_capacity, read_response, unmap_result, write_result, Arrival, IscsiDevice,
    IsidCounter, LoginFault, LoginNext, ScsiFault, Session,
};
use stormblock::drive::nvme_pdu::{after_completion, sane, DataReader, Part};
use stormblock::drive::nvmeof_dev::{
    self, decode_identify_ctrl, decode_identify_ns, default_host_nqn, plan_discard, plan_transfer,
    set_default_host_nqn, AttachFault, CommandFault, CommonHeader, DataNext, DataPdu, DataResponse,
    HostIdentity, NvmeTcpSpec, NvmeofDevice, HOST_NQN,
};
use stormblock::ids::Uuid;

fn same_spec(a: &NvmeTcpSpec, b: &NvmeTcpSpec) -> bool {
    a.addr == b.addr && a.nqn == b.nqn && a.nsid == b.nsid && a.host_nqn == b.host_nqn
}

#[test]
fn isid_counter_increments() {
    let mut counter = IsidCounter::new();
    let a = counter.take();
    let b = counter.take();
    assert!(b > a);
}

#[test]
fn uri_parses_and_roundtrips() {
    let s = NvmeTcpSpec::parse("nvme-tcp://10.0.0.5:4420/nqn.2024.io.stormblock:vol1?nsid=3")
        .unwrap();
    assert_eq!(s.addr, "10.0.0.5:4420");
    assert_eq!(s.nqn, "nqn.2024.io.stormblock:vol1");
    assert_eq!(s.nsid, 3);
    assert!(same_spec(&NvmeTcpSpec::parse(&s.uri()).unwrap(), &s));

    let d = NvmeTcpSpec::parse("nvme-tcp://host:4420/nqn.x").unwrap();
    assert_eq!(d.nsid, 1, "nsid defaults to 1");

    assert!(NvmeTcpSpec::parse("iscsi://host:3260/iqn").is_none());
    assert!(NvmeTcpSpec::parse("nvme-tcp://hostnoport/nqn.x").is_none());
    assert!(NvmeTcpSpec::parse("nvme-tcp://host:4420/").is_none());
    // A colon alone names no port, and neither does a word behind one.
    assert!(NvmeTcpSpec::parse("nvme-tcp://host:/nqn.x").is_none());
    assert!(NvmeTcpSpec::parse("nvme-tcp://:/nqn.x").is_none());
    assert!(NvmeTcpSpec::parse("nvme-tcp://host:http/nqn.x").is_none());
    assert!(NvmeTcpSpec::parse("nvme-tcp://host:44x20/nqn.x").is_none());
    assert_eq!(NvmeTcpSpec::parse("nvme-tcp://[fe80::1]:4420/nqn.x").unwrap().addr, "[fe80::1]:4420");
    assert!(NvmeTcpSpec::parse("nvme-tcp://host:4420/nqn?nsid=bogus").is_none());
}

#[test]
fn identify_ns_decodes_size_and_block() {
    let mut data = vec![0u8; 4096];
    data[0..8].copy_from_slice(&1_000_000u64.to_le_bytes()); // NSZE
    data[26] = 0x01; // FLBAS index 1
    data[128 + 4 + 2] = 12; // LBAF[1].LBADS = 12: 4096
    let (nsze, bs) = decode_identify_ns(&data).unwrap();
    assert_eq!(nsze, 1_000_000);
    assert_eq!(bs, 4096);

    data[128 + 4 + 2] = 3; // absurd LBADS
    assert!(decode_identify_ns(&data).is_none());
    assert!(decode_identify_ns(&[0u8; 10]).is_none());
}

#[test]
fn identify_ctrl_decodes_serial_model() {
    let mut data = vec![0u8; 4096];
    data[4..24].copy_from_slice(b"SN-1234             ");
    data[24..64].copy_from_slice(b"StormBlock Volume                       ");
    let (sn, mn) = decode_identify_ctrl(&data);
    assert_eq!(sn, "SN-1234");
    assert_eq!(mn, "StormBlock Volume");
}

#[test]
fn device_id_uuid_is_stable_for_a_spec() {
    let s = NvmeTcpSpec::parse("nvme-tcp://h:4420/nqn.a?nsid=2").unwrap();
    let a = Uuid::for_url(&s.uri());
    let b = Uuid::for_url(&s.uri());
    assert_eq!(a, b);
}

#[test]
fn a_uri_can_name_the_host() {
    let s = NvmeTcpSpec::parse(
        "nvme-tcp://10.0.0.5:4420/nqn.2026-09.lo.g16:stormcos?nsid=7&hostnqn=nqn.2026-09.lo.storm:host-C2NR0Q2",
    )
    .expect("parses");
    assert_eq!(s.nsid, 7);
    assert_eq!(s.host_nqn.as_deref(), Some("nqn.2026-09.lo.storm:host-C2NR0Q2"));
    assert_eq!(s.effective_host_nqn(HOST_NQN), "nqn.2026-09.lo.storm:host-C2NR0Q2");
    // Round-trips, so a spec that came from a URI can be written back out.
    assert!(same_spec(&NvmeTcpSpec::parse(&s.uri()).unwrap(), &s));
}

#[test]
fn a_uri_without_a_host_falls_back() {
    let s = NvmeTcpSpec::parse("nvme-tcp://10.0.0.5:4420/nqn.x?nsid=1").unwrap();
    assert_eq!(s.host_nqn, None);
    let mut host = HostIdentity::new();
    let default = default_host_nqn(&mut host, None);
    assert!(!s.effective_host_nqn(&default).is_empty());
    assert!(same_spec(&NvmeTcpSpec::parse(&s.uri()).unwrap(), &s));
}

#[test]
fn an_empty_host_is_ignored() {
    let s = NvmeTcpSpec::parse("nvme-tcp://10.0.0.5:4420/nqn.x?hostnqn=").unwrap();
    assert_eq!(s.host_nqn, None);
}

#[test]
fn the_hosts_name_is_set_once() {
    let mut host = HostIdentity::new();
    assert_eq!(set_default_host_nqn(&mut host, "nqn.one"), "nqn.one");
    assert_eq!(set_default_host_nqn(&mut host, "nqn.two"), "nqn.one");
    assert_eq!(default_host_nqn(&mut host, Some("nqn.env")), "nqn.one");
    let mut host = HostIdentity::new();
    assert_eq!(default_host_nqn(&mut host, Some("nqn.env")), "nqn.env");
    let mut host = HostIdentity::new();
    assert_eq!(default_host_nqn(&mut host, None), HOST_NQN);
}

fn identified(blocks: u64, shift: u8) -> Vec<u8> {
    let mut ns = vec![0u8; 4096];
    ns[0..8].copy_from_slice(&blocks.to_le_bytes());
    ns[130] = shift;
    ns
}

#[test]
fn a_namespace_becomes_a_device() {
    let ctrl = vec![b' '; 4096];
    let spec = NvmeTcpSpec::parse("nvme-tcp://h:4420/nqn.a?nsid=2").unwrap();
    let uri = spec.uri();
    let d = NvmeofDevice::attach(spec, &ctrl, &identified(1000, 9)).ok().unwrap();
    assert_eq!((d.capacity, d.block_size), (512_000, 512));
    assert_eq!(d.id.uuid, Uuid::for_url(&uri));
    assert!(d.check_aligned(512, 1024).is_ok());
    assert!(d.check_aligned(100, 512).is_err());
    assert!(d.check_aligned(512_000, 512).is_err());

    let spec = NvmeTcpSpec::parse("nvme-tcp://h:4420/nqn.a").unwrap();
    assert_eq!(NvmeofDevice::attach(spec, &ctrl, &identified(0, 9)).err(), Some(AttachFault::ZeroSize));
    let spec = NvmeTcpSpec::parse("nvme-tcp://h:4420/nqn.a").unwrap();
    assert_eq!(NvmeofDevice::attach(spec, &ctrl, &[]).err(), Some(AttachFault::Unparseable));
}

#[test]
fn a_read_collects_its_data() {
    let mut r = DataResponse::new();
    assert_eq!(r.step(DataPdu::Data { flags: 0, datal: 2, payload: vec![1, 2] }), DataNext::More);
    // The last PDU, with success: no completion follows.
    assert_eq!(
        r.step(DataPdu::Data { flags: 0x0c, datal: 2, payload: vec![3, 4] }),
        DataNext::Done
    );
    assert_eq!(r.finish(4), Ok(vec![1, 2, 3, 4]));

    let mut r = DataResponse::new();
    assert_eq!(
        r.step(DataPdu::Data { flags: 0x04, datal: 1, payload: vec![9] }),
        DataNext::More,
        "the status is still to come"
    );
    assert_eq!(r.step(DataPdu::Completion { status: 0 }), DataNext::Done);
    assert_eq!(r.finish(2), Err(CommandFault::ShortRead { wanted: 2, got: 1 }));

    let mut r = DataResponse::new();
    assert!(matches!(r.step(DataPdu::Completion { status: 7 }), DataNext::Failed(_)));
    let mut r = DataResponse::new();
    assert_eq!(
        r.step(DataPdu::Other { pdu_type: 0x42 }),
        DataNext::Failed(CommandFault::Unexpected(0x42))
    );
    assert_eq!(CommandFault::Unexpected(66).to_string(), "unexpected PDU type 66 in data response");
    assert_eq!(CommandFault::Status(0x2f).to_string(), "command failed: status 0x2f");
    assert_eq!(CommandFault::ReadStatus(1).to_string(), "read failed: status 0x1");
    assert_eq!(CommandFault::NotACompletion(4).to_string(), "expected CapsuleResp, got PDU type 4");
    assert_eq!(
        CommandFault::ShortRead { wanted: 4, got: 1 }.to_string(),
        "short read: wanted 4, got 1"
    );
    assert!(nvmeof_dev::completion_result(0).is_ok());
    assert_eq!(nvmeof_dev::completion_result(5), Err(CommandFault::Status(5)));
}

#[test]
fn a_transfer_is_cut_into_chunks_that_cover_it() {
    let chunks = plan_transfer(4096, 307_200, 512);
    let mut at = 0;
    for c in &chunks {
        assert_eq!(c.from, at);
        assert_eq!(c.slba * 512, 4096 + at);
        at += c.len;
        assert!(c.len <= 131072);
        assert!(c.nlb as u64 * 512 == c.len);
    }
    assert_eq!(at, 307_200);
    assert_eq!(plan_discard(4096, 8192, 512), vec![(8, 16)]);
}

#[test]
fn nvme_tcp_headers_are_laid_out() {
    let h = CommonHeader { pdu_type: 4, flags: 0, hlen: 72, pdo: 0, plen: 72 };
    assert_eq!(h.to_bytes(), vec![4, 0, 72, 0, 72, 0, 0, 0]);
    assert_eq!(CommonHeader::from_bytes(&h.to_bytes()), h);
    assert_eq!(nvmeof_dev::ic_request().len(), 128);
    assert!(nvmeof_dev::ic_accepted(&[1, 0, 128, 0, 128, 0, 0, 0]));
    assert!(!nvmeof_dev::ic_accepted(&[4, 0, 128, 0, 128, 0, 0, 0]));
    assert_eq!(nvmeof_dev::next_cid(u16::MAX), 1);
    assert_eq!(nvmeof_dev::next_cid(7), 8);
    let sqe = nvmeof_dev::read_command(3, 1, 0x1_0000_0002, 8);
    assert_eq!((sqe.len(), sqe[0], sqe[2], sqe[4]), (64, 2, 3, 1));
    assert_eq!(&sqe[40..48], &0x1_0000_0002u64.to_le_bytes());
    assert_eq!(sqe[48], 7, "the count is zero-based");
    assert_eq!(nvmeof_dev::write_command(3, 1, 0, 1)[0], 1);
    assert_eq!(nvmeof_dev::flush_command(3, 1)[0], 0);
    let (sqe, range) = nvmeof_dev::deallocate_command(3, 1, 5, 6);
    assert_eq!((sqe[0], sqe[44]), (9, 4));
    assert_eq!((range.len(), range[4], range[8]), (16, 6, 5));
    let data = nvmeof_dev::connect_data(1, "nqn.sub", "nqn.host");
    assert_eq!(&data[256..263], b"nqn.sub");
    assert_eq!(&data[512..520], b"nqn.host");
    let mut cqe = [0u8; 16];
    cqe[14] = 0x05;
    assert_eq!(nvmeof_dev::cqe_status(&cqe), 4, "the phase bit is not the status");
}

fn bhs(op: u8) -> Vec<u8> {
    let mut h = vec![0u8; 48];
    h[0] = op;
    h
}

#[test]
fn isids_differ_between_sessions() {
    let mut c = IsidCounter::new();
    let a = Session::new(c.take());
    let b = Session::new(c.take());
    assert_ne!(a.qualifier, b.qualifier);
    assert_ne!(a.login_request(1, 0, 1, 0)[8..14], b.login_request(1, 0, 1, 0)[8..14]);
}

#[test]
fn a_login_goes_through_both_stages() {
    let mut s = Session::new(0);
    let mut h = bhs(iscsi_dev::OP_LOGIN_RESPONSE);
    h[1] = 0x81; // transit to the operational stage
    assert_eq!(s.login_step(&h, &[], false), LoginNext::Operational);
    h[1] = 0x87; // transit to full feature
    h[15] = 9; // session handle
    assert_eq!(s.login_step(&h, b"MaxRecvDataSegmentLength=4096\0", true), LoginNext::Open);
    assert_eq!(s.tsih, 9);
    h[36] = 2;
    assert_eq!(s.login_step(&h, &[], true), LoginNext::Failed(LoginFault::Refused(2)));
    assert_eq!(
        s.login_step(&bhs(iscsi_dev::OP_NOP_IN), &[], false),
        LoginNext::Failed(LoginFault::NotALoginResponse(iscsi_dev::OP_NOP_IN))
    );
}

#[test]
fn an_unsolicited_ping_is_answered() {
    let mut h = bhs(iscsi_dev::OP_NOP_IN);
    h[16..20].copy_from_slice(&[0xff; 4]);
    h[20..24].copy_from_slice(&77u32.to_be_bytes());
    assert_eq!(read_response(&h), Arrival::Answer(77));
    h[20..24].copy_from_slice(&[0xff; 4]);
    assert_eq!(read_response(&h), Arrival::Skip);
    h[16..20].copy_from_slice(&[0, 0, 0, 1]);
    assert_eq!(read_response(&h), Arrival::Deliver);
    assert_eq!(read_response(&bhs(iscsi_dev::OP_DATA_IN)), Arrival::Deliver);
}

#[test]
fn scsi_answers_are_judged() {
    let mut h = bhs(iscsi_dev::OP_SCSI_RESPONSE);
    assert!(write_result(&h).is_ok() && unmap_result(&h).is_ok());
    h[3] = 2;
    assert_eq!(write_result(&h), Err(ScsiFault::Status(2)));
    assert_eq!(write_result(&bhs(iscsi_dev::OP_DATA_IN)), Err(ScsiFault::NotAResponse(iscsi_dev::OP_DATA_IN)));
    assert!(iscsi_dev::logged_out(&bhs(iscsi_dev::OP_LOGOUT_RESPONSE)));
    let mut data = Vec::new();
    let mut h = bhs(iscsi_dev::OP_DATA_IN);
    assert_eq!(iscsi_dev::data_step(&mut data, &h, &[1, 2]), iscsi_dev::DataNext::More);
    h[1] = 0x81; // final, with status
    assert_eq!(iscsi_dev::data_step(&mut data, &h, &[3]), iscsi_dev::DataNext::Done);
    assert_eq!(data, vec![1, 2, 3]);
    assert_eq!(
        iscsi_dev::data_step(&mut data, &bhs(iscsi_dev::OP_NOP_IN), &[]),
        iscsi_dev::DataNext::Unexpected(iscsi_dev::OP_NOP_IN)
    );
}

#[test]
fn a_capacity_is_read_from_its_last_block() {
    let mut d = Vec::new();
    d.extend_from_slice(&999u32.to_be_bytes());
    d.extend_from_slice(&512u32.to_be_bytes());
    assert_eq!(read_capacity(&d), Some((1000, 512)));
    assert_eq!(read_capacity(&d[..4]), None);
}

#[test]
fn an_iscsi_transfer_goes_in_steps() {
    let d = IscsiDevice::attach("h", 3260, "iqn.a", 1000, 512, &[]);
    assert_eq!(d.capacity, 512_000);
    assert_eq!((d.portal(), d.iqn()), ("h:3260", "iqn.a"));
    let tag = d.id.serial.strip_prefix("iscsi-").unwrap();
    assert!(tag.len() == 8 && tag.chars().all(|c| c.is_ascii_hexdigit()), "{tag}");
    let other = IscsiDevice::attach("h", 3260, "iqn.a", 1000, 512, &[]);
    assert_ne!(d.id.serial, other.id.serial, "each drive has a number of its own");
    assert!(d.check_offset(512).is_ok() && d.check_offset(100).is_err());
    let mut done = 0;
    let mut steps = 0;
    while let Some((lba, count)) = iscsi_dev::read_step(512, done, 204_800, 512) {
        assert_eq!(lba, (512 + done) / 512);
        done += iscsi_dev::read_taken(count as usize * 512, done, 204_800);
        steps += 1;
    }
    assert_eq!((done, steps), (204_800, 4));
    assert_eq!(iscsi_dev::write_step(0, 0, 100_000, 512), Some((0, 65536)));
    assert_eq!(iscsi_dev::write_step(0, 65536, 100_000, 512), Some((128, 34464)));
    assert_eq!(iscsi_dev::write_step(0, 100_000, 100_000, 512), None);
    let large: u32 = 131072;
    assert_eq!(iscsi_dev::write_step(131072, 0, 65536, large), Some((1, 65536)), "blocks of any size");
    assert_eq!(iscsi_dev::discard_step(1024, 2048, 512), Some((2, 4)));
}

/// A response as it comes over the wire, fed in the pieces that are asked for.
fn read_all(wire: &[u8]) -> (Result<Vec<u8>, CommandFault>, usize) {
    let mut reader = DataReader::new();
    let mut at = 0;
    loop {
        let n = reader.wanted();
        let piece = wire[at..at + n].to_vec();
        at += n;
        if reader.part == Part::Header {
            assert!(sane(&CommonHeader::from_bytes(&piece)));
        }
        match reader.feed(piece) {
            DataNext::More => {}
            DataNext::Done => return (Ok(reader.response.data), at),
            DataNext::Failed(f) => return (Err(f), at),
        }
    }
}

fn data_pdu(flags: u8, payload: &[u8], datal: u32) -> Vec<u8> {
    let plen = 24 + payload.len() as u32;
    let mut b = (CommonHeader { pdu_type: 0x07, flags, hlen: 24, pdo: 24, plen }).to_bytes();
    let mut head = [0u8; 16];
    head[8..12].copy_from_slice(&datal.to_le_bytes());
    b.extend_from_slice(&head);
    b.extend_from_slice(payload);
    b
}

fn completion_pdu(status: u16, extra: usize) -> Vec<u8> {
    let plen = 24 + extra as u32;
    let mut b = (CommonHeader { pdu_type: 0x05, flags: 0, hlen: 24, pdo: 0, plen }).to_bytes();
    let mut cqe = [0u8; 16];
    cqe[14..16].copy_from_slice(&status.to_le_bytes());
    b.extend_from_slice(&cqe);
    b.extend_from_slice(&vec![0xEE; extra]);
    b
}

#[test]
fn a_data_response_is_read_from_the_wire() {
    // Two PDUs, the second of which stands for the completion too.
    let mut wire = data_pdu(0, b"storm", 5);
    wire.extend_from_slice(&data_pdu(0x0C, b"block", 5));
    assert_eq!(read_all(&wire), (Ok(b"stormblock".to_vec()), wire.len()));

    // A payload longer than it counts, an empty one, and a completion behind.
    let mut wire = data_pdu(0, b"storm...", 5);
    wire.extend_from_slice(&data_pdu(0, b"", 0));
    wire.extend_from_slice(&data_pdu(0x04, b"!", 1));
    wire.extend_from_slice(&completion_pdu(0, 3));
    assert_eq!(read_all(&wire), (Ok(b"storm!".to_vec()), wire.len()));

    // A completion that fails, before data and behind it.
    assert_eq!(read_all(&completion_pdu(0x4002, 0)).0, Err(CommandFault::Status(0x4002)));
    let mut wire = data_pdu(0x04, b"x", 1);
    wire.extend_from_slice(&completion_pdu(0x4002, 0));
    assert_eq!(read_all(&wire).0, Err(CommandFault::ReadStatus(0x4002)));

    // What has no place there ends it at its header.
    let mut wire = data_pdu(0x04, b"x", 1);
    let so_far = wire.len();
    wire.extend_from_slice(&data_pdu(0, b"y", 1));
    assert_eq!(read_all(&wire), (Err(CommandFault::NotACompletion(7)), so_far + 8));
    let strange = (CommonHeader { pdu_type: 9, flags: 0, hlen: 8, pdo: 0, plen: 8 }).to_bytes();
    assert_eq!(read_all(&strange), (Err(CommandFault::Unexpected(9)), 8));
}

#[test]
fn a_header_may_claim_too_little() {
    let mut h = CommonHeader { pdu_type: 7, flags: 0, hlen: 24, pdo: 0, plen: 23 };
    assert!(!sane(&h));
    h.plen = 24;
    assert!(sane(&h));
    h.pdu_type = 5;
    assert_eq!(after_completion(&h), Ok(0));
    h.plen = 31;
    assert_eq!(after_completion(&h), Ok(7));
    h.pdu_type = 6;
    assert_eq!(after_completion(&h), Err(CommandFault::NotACompletion(6)));
}

#[test]
fn an_iscsi_header_says_what_follows_it() {
    let mut h = [0u8; 48];
    h[4] = 2;
    h[5..8].copy_from_slice(&[1, 0, 1]);
    assert_eq!(iscsi_dev::lengths(&h), (8, 0x10001, 3));
    assert_eq!(iscsi_dev::padding(8), 0);
    assert_eq!(iscsi_dev::padding(9), 3);
    assert_eq!(iscsi_dev::padding(11), 1);
}
