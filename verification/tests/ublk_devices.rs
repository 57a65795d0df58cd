use stormblock::drive::ublk::{
    after_wait, also_served_by, answer, block_path, char_path, ctrl_result, dev_state, devices,
    begin_standing_down, flags_for, incumbents, io_command, jobs, params_for, plan_request, read_block_node, read_node,
    server_pid, stand_down, wait_live, Action, CtrlRequest, Event, Geometry, Job, Look, NodeText,
    QueueOp, Reply, StandDown, UblkServer, Waited, WorkerStep, EINTR, EIO, ENODEV, ENOTSUP,
};
use stormblock::drive::ublk_abi::{
    ublk_ctrl_cmd, UblkCtrlCmd, UblkCtrlDevInfo, UblkIoCmd, UblkIoDesc, UblkParamBasic,
    UblkParamDiscard, UblkParams, IO_DESC_LEN, UBLK_F_UPDATE_SIZE, UBLK_F_USER_RECOVERY,
    UBLK_F_USER_RECOVERY_REISSUE, UBLK_IO_OP_DISCARD, UBLK_IO_OP_FLUSH, UBLK_IO_OP_READ,
    UBLK_IO_OP_WRITE, UBLK_IO_OP_WRITE_ZEROES, UBLK_S_DEV_LIVE, UBLK_S_DEV_QUIESCED,
    UBLK_U_CMD_ADD_DEV, UBLK_U_CMD_DEL_DEV, UBLK_U_CMD_END_USER_RECOVERY,
    UBLK_U_CMD_GET_DEV_INFO, UBLK_U_CMD_GET_FEATURES, UBLK_U_CMD_SET_PARAMS,
    UBLK_U_CMD_START_DEV, UBLK_U_CMD_START_USER_RECOVERY, UBLK_U_CMD_STOP_DEV,
    UBLK_U_CMD_UPDATE_SIZE,
};

fn a_params() -> UblkParams {
    params_for(1 << 20, 4096)
}

#[test]
fn ublk_abi_struct_sizes() {
    let basic: UblkParamBasic = a_params().basic;
    let discard: UblkParamDiscard = a_params().discard;
    assert_eq!(UblkCtrlDevInfo::default().as_bytes().len(), 64);
    assert_eq!(UblkCtrlCmd::new(0).as_bytes().len(), 32);
    assert_eq!(UblkIoCmd { q_id: 0, tag: 0, result: 0, addr: 0 }.as_bytes().len(), 16);
    assert_eq!(IO_DESC_LEN, 24);
    assert_eq!(basic.as_bytes().len(), 32);
    assert_eq!(discard.as_bytes().len(), 24);
    assert_eq!(a_params().as_bytes().len(), 64);
}

/// The command numbers against the hex an strace shows, so the encoder and
/// the kernel's ABI cannot drift apart unnoticed.
#[test]
fn ctrl_command_numbers_match_the_ioctl_encoding() {
    assert_eq!(UBLK_U_CMD_ADD_DEV, 0xC020_7504);
    assert_eq!(UBLK_U_CMD_DEL_DEV, 0xC020_7505);
    assert_eq!(UBLK_U_CMD_START_DEV, 0xC020_7506);
    assert_eq!(UBLK_U_CMD_STOP_DEV, 0xC020_7507);
    assert_eq!(UBLK_U_CMD_SET_PARAMS, 0xC020_7508);
    assert_eq!(UBLK_U_CMD_GET_FEATURES, 0x8020_7513);
    assert_ne!(UBLK_U_CMD_GET_FEATURES, ublk_ctrl_cmd(0x13));
    assert_eq!(UBLK_U_CMD_UPDATE_SIZE, 0xC020_7515);
    assert_eq!(UBLK_F_UPDATE_SIZE, 1 << 10);

    assert_eq!(UBLK_U_CMD_START_USER_RECOVERY, 0xC020_7510);
    assert_eq!(UBLK_U_CMD_END_USER_RECOVERY, 0xC020_7511);
    assert_eq!(UBLK_U_CMD_GET_DEV_INFO, 0x8020_7502);
    assert_ne!(UBLK_U_CMD_GET_DEV_INFO, ublk_ctrl_cmd(0x02));
    assert_eq!(UBLK_F_USER_RECOVERY, 1 << 3);
    assert_eq!(UBLK_F_USER_RECOVERY_REISSUE, 1 << 4);
    assert_eq!(ublk_ctrl_cmd(0x04), UBLK_U_CMD_ADD_DEV);
}

/// The two options are independent and neither is on by default.
#[test]
fn recovery_is_opt_in_at_both_ends() {
    let plain = UblkServer::new(1 << 20, 4096, 1);
    assert!(!plain.recoverable, "a device is not recoverable unless asked");
    assert!(plain.adopt.is_none());

    let made = UblkServer::new(1 << 20, 4096, 1).recoverable(true).with_dev_id(0);
    assert!(made.recoverable);
    assert!(made.adopt.is_none(), "creating, not adopting");

    let taken = UblkServer::new(1 << 20, 4096, 1).adopting(7);
    assert_eq!(taken.adopt, Some(7));
    assert!(!taken.recoverable, "adoption does not create anything");
}

#[test]
fn ublk_ctrl_cmd_layout() {
    let cmd = UblkCtrlCmd::new(42);
    assert_eq!(cmd.dev_id, 42);
    assert_eq!(cmd.queue_id, 0xFFFF); // -1 required by kernel
    assert_eq!(cmd.addr, 0);
    assert_eq!(cmd.len, 0);
    let bytes = cmd.as_bytes();
    assert_eq!(bytes.len(), 32);
    // dev_id at offset 0, little-endian
    assert_eq!(bytes[0], 42);
    assert_eq!(bytes[1], 0);
    // queue_id at offset 4, should be 0xFFFF
    assert_eq!(bytes[4], 0xFF);
    assert_eq!(bytes[5], 0xFF);
    // len at offset 6
    assert_eq!(bytes[6], 0);
    // addr at offset 8
    assert_eq!(bytes[8], 0);
}

#[test]
fn ublk_io_cmd_layout() {
    let cmd = UblkIoCmd { q_id: 0, tag: 7, result: 0, addr: 0xDEAD_BEEF };
    let bytes = cmd.as_bytes();
    assert_eq!(bytes.len(), 16);
    // tag at offset 2 (after q_id u16), little-endian
    assert_eq!(bytes[2], 7);
    assert_eq!(bytes[3], 0);
    let wrapped = io_command(0, 7, -5, 0xDEAD_BEEF);
    assert_eq!(&wrapped[4..8], &(-5i32).to_le_bytes());
}

#[test]
fn a_device_record_reads_back() {
    let info = UblkCtrlDevInfo {
        nr_hw_queues: 2,
        queue_depth: 64,
        state: UBLK_S_DEV_LIVE,
        max_io_buf_bytes: 524288,
        dev_id: 9,
        ublksrv_pid: -1,
        flags: 0x40,
        ublksrv_flags: 0,
        owner_uid: 3,
        owner_gid: 4,
    };
    assert_eq!(UblkCtrlDevInfo::read(&info.as_bytes()), info);
}

/// Answers every action as a kernel without faults would, and lists the
/// commands; ends where the server waits, fails or is done.
fn play(s: &mut UblkServer, first: Event, info: UblkCtrlDevInfo) -> (Vec<u32>, Action) {
    let mut ops = Vec::new();
    let mut a = s.run(first);
    loop {
        let e = match a {
            Action::Control { request } | Action::ControlAfter { ms: _, request } => {
                ops.push(request.op());
                let reply = match request {
                    CtrlRequest::GetInfo { .. } => Reply::Info(info),
                    CtrlRequest::GetFeatures => Reply::Features(0x7ff),
                    CtrlRequest::Add { info: mut asked } => {
                        asked.dev_id = 5;
                        Reply::Info(asked)
                    }
                    _ => Reply::Nothing,
                };
                Event::Replied { reply, late: false }
            }
            Action::Open { .. } | Action::OpenAfter { .. } => Event::Opened,
            Action::ReadCharNumbers { .. } | Action::ReadBlockNumbers { .. } => {
                Event::Read { found: "250:5\n".to_string() }
            }
            Action::MakeCharNode { .. } | Action::MakeBlockNode { .. } => Event::Made,
            Action::MapQueues { .. } => Event::Mapped,
            Action::Spawn { .. } => Event::Spawned,
            Action::FindBlockNode { .. } => Event::Found { yes: true },
            Action::Release => Event::Released,
            other => return (ops, other),
        };
        a = s.run(e);
    }
}

#[test]
fn a_device_is_made_served_and_removed() {
    let mut s = UblkServer::new(1 << 20, 4096, 77);
    let (ops, a) = play(&mut s, Event::Begin, UblkCtrlDevInfo::default());
    assert!(matches!(a, Action::Wait));
    assert_eq!(
        ops,
        vec![UBLK_U_CMD_GET_FEATURES, UBLK_U_CMD_ADD_DEV, UBLK_U_CMD_SET_PARAMS, UBLK_U_CMD_START_DEV]
    );
    assert!(s.running);
    assert_eq!(s.dev_path(), "/dev/ublkb5");
    assert!(s.resizable());
    let (ops, a) = play(&mut s, Event::Shutdown, UblkCtrlDevInfo::default());
    assert!(matches!(a, Action::Done));
    assert_eq!(ops, vec![UBLK_U_CMD_STOP_DEV, UBLK_U_CMD_DEL_DEV]);
}

#[test]
fn an_adopted_device_is_taken_over_as_it_is() {
    let info = UblkCtrlDevInfo {
        nr_hw_queues: 3,
        queue_depth: 32,
        state: UBLK_S_DEV_QUIESCED,
        dev_id: 9,
        flags: UBLK_F_USER_RECOVERY | UBLK_F_UPDATE_SIZE,
        ..UblkCtrlDevInfo::default()
    };
    let mut s = UblkServer::new(1 << 20, 4096, 77).adopting(9);
    let (ops, a) = play(&mut s, Event::Begin, info);
    assert!(matches!(a, Action::Wait));
    assert!(ops.contains(&UBLK_U_CMD_START_USER_RECOVERY));
    assert_eq!(ops.last(), Some(&UBLK_U_CMD_END_USER_RECOVERY));
    assert!(!ops.contains(&UBLK_U_CMD_ADD_DEV) && !ops.contains(&UBLK_U_CMD_SET_PARAMS));

    let mut s = UblkServer::new(1 << 20, 4096, 77).adopting(9);
    let (_, a) = play(&mut s, Event::Begin, UblkCtrlDevInfo { flags: 0, ..info });
    match a {
        Action::Fail { fault } => assert!(fault.to_string().contains('9')),
        _ => panic!("a device that cannot be recovered"),
    }
}

#[test]
fn a_device_only_grows() {
    let mut s = UblkServer::new(1 << 20, 4096, 77);
    assert!(s.update_size(2 << 20).is_err(), "not running");
    play(&mut s, Event::Begin, UblkCtrlDevInfo::default());
    assert_eq!(s.update_size(1 << 20).ok(), Some(None), "nothing to do");
    match s.update_size(2 << 20) {
        Ok(Some(CtrlRequest::UpdateSize { id, sectors })) => assert_eq!((id, sectors), (5, 4096)),
        _ => panic!("the device grows"),
    }
    s.size_updated(4096);
    assert!(s.update_size(1 << 20).is_err(), "and never shrinks");
    assert!(s.update_size((2 << 20) + 1).is_err(), "by whole sectors");
}

#[test]
fn only_offered_flags_are_asked_for() {
    assert_eq!(flags_for(0, true) & UBLK_F_USER_RECOVERY, 0);
    assert_ne!(flags_for(u64::MAX, true) & UBLK_F_USER_RECOVERY, 0);
    assert_eq!(flags_for(u64::MAX, false) & UBLK_F_USER_RECOVERY, 0);
    assert_ne!(flags_for(u64::MAX, false) & UBLK_F_UPDATE_SIZE, 0);
}

fn desc(op: u8, nr_sectors: u32, start_sector: u64) -> UblkIoDesc {
    UblkIoDesc { op_flags: op as u32, nr_sectors, start_sector, addr: 0 }
}

#[test]
fn requests_are_read_and_answered() {
    let r = plan_request(&desc(UBLK_IO_OP_READ, 8, 3));
    assert_eq!(r, QueueOp::Read { offset: 1536, len: 4096 });
    assert_eq!(answer(&r, true), 4096);
    assert_eq!(answer(&r, false), -EIO);
    let w = plan_request(&desc(UBLK_IO_OP_WRITE, 1, 0));
    assert_eq!((w, answer(&w, true)), (QueueOp::Write { offset: 0, len: 512 }, 512));
    let f = plan_request(&desc(UBLK_IO_OP_FLUSH, 0, 0));
    assert_eq!((f, answer(&f, true)), (QueueOp::Flush, 0));
    assert_eq!(plan_request(&desc(UBLK_IO_OP_DISCARD, 8, 8)), QueueOp::Discard { offset: 4096, len: 4096 });
    assert_eq!(
        plan_request(&desc(UBLK_IO_OP_WRITE_ZEROES, 8, 8)),
        QueueOp::WriteZeroes { offset: 4096, len: 4096 }
    );
    let u = plan_request(&desc(77, 1, 1));
    assert_eq!(u, QueueOp::Unknown { op: 77 });
    assert_eq!(answer(&u, true), -ENOTSUP);
    let descs = vec![desc(UBLK_IO_OP_FLUSH, 0, 0), desc(UBLK_IO_OP_READ, 1, 1)];
    assert_eq!(
        jobs(&[(1, 0), (0, -ENODEV)], &descs),
        vec![Job { tag: 1, op: QueueOp::Read { offset: 512, len: 512 } }]
    );
    assert_eq!(after_wait(Waited::Woken, true), WorkerStep::Collect);
    assert_eq!(after_wait(Waited::Failed(Some(EINTR)), true), WorkerStep::Again);
    assert_eq!(after_wait(Waited::Failed(Some(EIO)), true), WorkerStep::Exit);
}

#[test]
fn control_answers_are_judged() {
    assert_eq!(ctrl_result(UBLK_U_CMD_STOP_DEV, 3, String::new()).ok(), Some(3));
    match ctrl_result(UBLK_U_CMD_STOP_DEV, -ENODEV, "No such device".to_string()) {
        Err(e) => assert!(e.to_string().contains("No such device")),
        Ok(_) => panic!("a refusal"),
    }
    assert_eq!(read_node("250:7\n"), NodeText::Numbers { major: 250, minor: 7 });
    assert_eq!(read_node("nonsense"), NodeText::Bad);
    assert_eq!(read_node("x:1"), NodeText::BadMajor);
    assert_eq!(read_node("1:x"), NodeText::BadMinor);
    assert_eq!(read_block_node("259:3"), Some((259, 3)));
    assert_eq!(read_block_node("?"), None);
    assert_eq!((block_path(3).as_str(), char_path(3).as_str()), ("/dev/ublkb3", "/dev/ublkc3"));
    assert_eq!(dev_state(None), None);
    let info = UblkCtrlDevInfo { state: 2, ublksrv_pid: 44, ..UblkCtrlDevInfo::default() };
    assert_eq!((dev_state(Some(info)), server_pid(Some(info))), (Some(2), Some(44)));
    let geo = Geometry { id: 1, queues: 1, depth: 4 };
    assert_eq!(geo.depth, 4);
}

#[test]
fn a_handover_waits_for_every_device() {
    let ids = [1, 2];
    assert_eq!(wait_live(&ids, &[Some(UBLK_S_DEV_LIVE), Some(UBLK_S_DEV_LIVE)], false), Some(vec![]));
    assert_eq!(wait_live(&ids, &[Some(UBLK_S_DEV_LIVE), None], false), None);
    assert_eq!(wait_live(&ids, &[Some(UBLK_S_DEV_LIVE), None], true), Some(vec![2]));
    let names: Vec<String> = ["ublkc3", "sda", "ublkc10", "ublkcx"].iter().map(|s| s.to_string()).collect();
    assert_eq!(devices(&names), vec![3, 10]);
}

#[test]
fn only_other_servers_are_asked_to_stand_down() {
    let mut got = incumbents(&[Some(5), Some(9), Some(5), None, Some(7), Some(0)], 7);
    got.sort();
    assert_eq!(got, vec![5, 9]);
    let also = also_served_by(&[1], &[Some(5)], &[(1, Some(5)), (2, Some(5)), (3, Some(9))], 7);
    assert_eq!(also, vec![2]);
    assert!(matches!(
        stand_down(&[1], &[Look::State(UBLK_S_DEV_QUIESCED)], false, false, &[5], &[true]),
        StandDown::Settled
    ));
    assert!(matches!(
        stand_down(&[1], &[Look::State(UBLK_S_DEV_LIVE)], false, false, &[5], &[true]),
        StandDown::Wait
    ));
    match stand_down(&[1], &[Look::State(UBLK_S_DEV_LIVE)], true, false, &[5, 6], &[true, false]) {
        StandDown::Kill(p) => assert_eq!(p, vec![5]),
        _ => panic!("those that still live are killed"),
    }
    match stand_down(&[1], &[Look::State(UBLK_S_DEV_LIVE)], true, true, &[5], &[true]) {
        StandDown::GiveUp(d) => assert_eq!(d, vec![1]),
        _ => panic!("and then it is given up"),
    }
    match begin_standing_down(&[Some(5), Some(9), Some(5), None, Some(7), Some(1)], 7) {
        StandDown::Ask(mut p) => {
            p.sort();
            assert_eq!(p, vec![5, 9]);
        }
        _ => panic!("they are asked"),
    }
}

#[test]
fn standing_down_is_done_at_once_with_nobody_to_ask() {
    for pids in [vec![], vec![None], vec![Some(0), Some(7), Some(1)]] {
        assert!(matches!(begin_standing_down(&pids, 7), StandDown::Settled));
    }
    assert!(matches!(
        stand_down(&[1], &[Look::State(UBLK_S_DEV_LIVE)], false, false, &[], &[]),
        StandDown::Settled
    ));
}
