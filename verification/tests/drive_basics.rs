use stormblock::align;
use stormblock::bytes;
use stormblock::drive::dma::{align_up, DmaBuf};
use stormblock::drive::freemap::{FreeMap, CHUNK};
use stormblock::drive::handover::{Device, Record};
use stormblock::drive::identity::{of_in, vpd_serial, DiskFiles, Identity};
use stormblock::drive::{
    open_one_drive, parse_iscsi_uri, supported_uri_schemes, DeviceId, DriveError, DriveType, Route,
    SmartData,
};
use stormblock::ids::Uuid;
use stormblock::order;
use stormblock::text;

#[test]
fn alloc_and_write() {
    let mut buf = DmaBuf::allocate(4096);
    assert_eq!(buf.len(), 4096);
    assert_eq!(buf.capacity(), 4096);

    buf.set(0, 0xAB);
    buf.set(4095, 0xCD);
    assert_eq!(buf.as_slice()[0], 0xAB);
    assert_eq!(buf.as_slice()[4095], 0xCD);
}

#[test]
fn alloc_rounds_up() {
    let buf = DmaBuf::allocate(100);
    assert_eq!(buf.len(), 100);
    assert_eq!(buf.capacity(), 4096);
    assert!(!buf.is_empty());
}

#[test]
fn zeroed_buffer() {
    let buf = DmaBuf::zeroed(8192);
    assert!(buf.as_slice().iter().all(|&b| b == 0));
    assert_eq!(buf.len(), 8192);
}

#[test]
fn align_up_works() {
    assert_eq!(align_up(0, 4096), 0);
    assert_eq!(align_up(1, 4096), 4096);
    assert_eq!(align_up(4096, 4096), 4096);
    assert_eq!(align_up(4097, 4096), 8192);
}

#[test]
fn rounding_up_gives_the_least_multiple() {
    for v in [0u64, 1, 511, 512, 513, 1_000_000] {
        let r = align::align_up(v, 512);
        assert_eq!(r % 512, 0);
        assert!(r >= v && r < v + 512);
    }
    assert_eq!(align::align_up(7, 0), 7);
    assert_eq!(align::div_ceil(10, 3), 4);
    assert_eq!(align::div_ceil(9, 3), 3);
    assert_eq!(align::div_ceil(0, 3), 0);
}

/// The same answer as a scan, whatever was allocated and freed.
#[test]
fn first_free_is_first_fit() {
    let n = 3 * CHUNK + 123;
    let mut m = FreeMap::new(n, true);
    let mut naive = vec![true; n];
    let mut least = 0usize;
    let mut x: u64 = 0x9E3779B97F4A7C15;
    for step in 0..200_000usize {
        x ^= x << 13;
        x ^= x >> 7;
        x ^= x << 17;
        if step % 3 == 0 {
            let i = (x as usize) % n;
            m.set(i, true);
            naive[i] = true;
            least = least.min(i);
        } else if let Some(i) = m.first_free() {
            while !naive[least] {
                least += 1;
            }
            assert_eq!(i, least, "step {step}");
            m.set(i, false);
            naive[i] = false;
        }
    }
    assert_eq!(m.count_free(), naive.iter().filter(|b| **b).count());
    assert_eq!(m.first_free(), naive.iter().position(|b| *b));
}

#[test]
fn a_full_map_has_nothing_free_and_growing_adds_free_slots_at_the_end() {
    let mut m = FreeMap::new(CHUNK + 5, false);
    assert_eq!(m.first_free(), None);
    m.resize(CHUNK + 10, true);
    assert_eq!(m.first_free(), Some(CHUNK + 5));
    assert_eq!(m.count_free(), 5);
    m.set(3, true);
    m.set(3, true);
    assert_eq!(m.count_free(), 6, "setting a free slot free again changes nothing");
    assert_eq!(m.first_free(), Some(3));
}

#[test]
fn a_free_map_knows_its_bounds() {
    let mut m = FreeMap::new(10, true);
    assert_eq!(m.len(), 10);
    assert!(!m.is_empty());
    assert!(m.is_free(9));
    assert!(!m.is_free(10), "past the end nothing is free");
    m.set(10, true);
    assert_eq!(m.len(), 10);
    m.resize(4, true);
    assert_eq!(m.len(), 4);
    assert_eq!(m.count_free(), 4);
    assert!(FreeMap::new(0, true).is_empty());
}

fn a_record() -> Record {
    Record {
        slabs: vec!["/dev/sda4".to_string()],
        meta: None,
        flow_over: None,
        devices: vec![
            Device { dev_id: 0, volume: "stormpump".to_string() },
            Device { dev_id: 2, volume: "sbregistry".to_string() },
            Device { dev_id: 1, volume: "stormblock".to_string() },
        ],
    }
}

#[test]
fn volumes_come_back_in_device_order() {
    // Written in whatever order the exports were assembled; read back in
    // the order the kernel numbered them, because that is the order an
    // adopting server has to hand them over in.
    assert_eq!(
        a_record().volumes_in_device_order(),
        vec!["stormpump", "stormblock", "sbregistry"]
    );
}

#[test]
fn devices_with_one_id_keep_their_order() {
    let mut rec = a_record();
    rec.devices.push(Device { dev_id: 0, volume: "second".to_string() });
    assert_eq!(
        rec.volumes_in_device_order(),
        vec!["stormpump", "second", "stormblock", "sbregistry"]
    );
    rec.devices.clear();
    assert!(rec.volumes_in_device_order().is_empty());
}

fn scsi_files() -> DiskFiles {
    let mut pg80 = vec![0x00, 0x80, 0x00, 0x14];
    pg80.extend_from_slice(b"     WD-WX11D28JFS6T");
    DiskFiles {
        wwid: String::new(),
        device_wwid: "naa.50014ee2b5d3a1f0\n".to_string(),
        serial: String::new(),
        vpd_pg80: pg80,
        model: "WDC WD20EFRX-68E\n".to_string(),
        disk: "sda".to_string(),
    }
}

fn nvme_files() -> DiskFiles {
    DiskFiles {
        wwid: "eui.0025385b71b0c2d4\n".to_string(),
        device_wwid: String::new(),
        serial: "S4EWNX0R123456  \n".to_string(),
        vpd_pg80: vec![],
        model: "Samsung SSD 970\n".to_string(),
        disk: "nvme0n1".to_string(),
    }
}

fn same(a: &Identity, b: &Identity) -> bool {
    a.serial == b.serial && a.model == b.model && a.wwn == b.wwn && a.disk == b.disk
}

#[test]
fn a_scsi_disk_and_its_partition_are_the_same_drive() {
    let disk = of_in(&scsi_files()).unwrap();
    assert_eq!(disk.serial, "WD-WX11D28JFS6T", "the serial is VPD page 0x80");
    assert_eq!(disk.wwn, "naa.50014ee2b5d3a1f0");
    assert_eq!(disk.model, "WDC WD20EFRX-68E");
    assert_eq!(disk.disk, "sda");
    // A partition has no files of its own: it is asked for through its disk's.
    assert!(same(&of_in(&scsi_files()).unwrap(), &disk), "a partition is its disk");
}

#[test]
fn an_nvme_namespace_and_its_partition_are_the_same_drive() {
    let ns = of_in(&nvme_files()).unwrap();
    assert_eq!(ns.serial, "S4EWNX0R123456");
    assert_eq!(ns.wwn, "eui.0025385b71b0c2d4");
    assert!(same(&of_in(&nvme_files()).unwrap(), &ns));
}

#[test]
fn something_sysfs_does_not_know_has_no_identity() {
    let nothing = DiskFiles {
        wwid: String::new(),
        device_wwid: String::new(),
        serial: String::new(),
        vpd_pg80: vec![],
        model: String::new(),
        disk: "loop7".to_string(),
    };
    assert!(of_in(&nothing).is_none());
}

#[test]
fn a_vpd_page_is_read_with_care() {
    assert_eq!(vpd_serial(&[0, 0x80, 0]), "", "too short");
    assert_eq!(vpd_serial(&[0, 0x83, 0, 1, b'A']), "", "another page");
    assert_eq!(vpd_serial(&[0, 0x80, 0, 9, b'A', b'B']), "AB", "a length past the end");
    assert_eq!(vpd_serial(&[0, 0x80, 0, 3, 0, b'Z', 0]), "Z", "padded with zeros");
    assert_eq!(vpd_serial(&[0, 0x80, 0, 2, 0xff, b'Q']), "\u{fffd}Q");
}

#[test]
fn an_identity_needs_a_serial_or_a_name() {
    let mut f = scsi_files();
    f.vpd_pg80 = vec![];
    f.device_wwid = " \n".to_string();
    assert!(of_in(&f).is_none(), "a model alone identifies nothing");
    f.device_wwid = "naa.1".to_string();
    let id = of_in(&f).unwrap();
    assert!(!id.is_empty());
    assert_eq!(id.serial, "");
}

#[test]
fn iscsi_uri_parses() {
    let (h, p, iqn) = parse_iscsi_uri("iscsi://10.0.0.1:3260/iqn.2024.io.stormblock:v1").unwrap();
    assert_eq!(h, "10.0.0.1");
    assert_eq!(p, 3260);
    assert_eq!(iqn, "iqn.2024.io.stormblock:v1");
    assert!(parse_iscsi_uri("iscsi://noport/iqn").is_none());
    assert!(parse_iscsi_uri("nvme-tcp://h:4420/nqn").is_none());
}

#[test]
fn a_path_is_routed_by_its_scheme() {
    match open_one_drive("nvme-tcp://10.0.0.5:4420/nqn.x?nsid=3") {
        Ok(Route::NvmeTcp(s)) => assert_eq!((s.addr.as_str(), s.nsid), ("10.0.0.5:4420", 3)),
        _ => panic!("an NVMe/TCP address"),
    }
    match open_one_drive("iscsi://h:3260/iqn.y") {
        Ok(Route::Iscsi { portal, port, iqn }) => {
            assert_eq!((portal.as_str(), port, iqn.as_str()), ("h", 3260, "iqn.y"))
        }
        _ => panic!("an iSCSI address"),
    }
    assert!(matches!(open_one_drive("/dev/sda"), Ok(Route::Local)));
    assert!(open_one_drive("nvme-tcp://nonsense").is_err());
    assert!(open_one_drive("iscsi://nonsense").is_err());
    assert!(open_one_drive("http://somewhere").is_err());
    assert!(supported_uri_schemes().contains("nvme-tcp"));
}

#[test]
fn drive_errors_read_as_sentences() {
    let e = DriveError::NotAligned { offset: 100, block_size: 512 };
    assert!(e.to_string().contains("100") && e.to_string().contains("512"));
    let e = DriveError::OutOfRange { offset: 8, len: 9, capacity: 10 };
    assert!(e.to_string().contains("10"));
    assert!(DriveError::Io("gone".to_string()).to_string().contains("gone"));
    assert!(DriveError::BufferTooSmall { need: 5, have: 3 }.to_string().contains('5'));
    assert!(!DriveError::DeviceNotReady.to_string().is_empty());
    assert!(!DriveError::VfioNotAvailable.to_string().is_empty());
    assert_eq!(DriveError::Other("slab full".to_string()).to_string(), "slab full");
}

#[test]
fn a_device_is_named_by_its_model_and_serial() {
    let id = DeviceId {
        uuid: Uuid::nil(),
        serial: "SN1".to_string(),
        model: "M".to_string(),
        path: "/dev/x".to_string(),
    };
    assert_eq!(id.to_string(), "M:SN1");
    assert_eq!(DriveType::NVMe.to_string(), "NVMe");
    assert!(SmartData::healthy().healthy);
    assert!(!SmartData::default().healthy);
}

#[test]
fn numbers_are_laid_out_in_both_orders() {
    let mut b = Vec::new();
    bytes::push_le(&mut b, 0x0102, 2);
    bytes::push_be(&mut b, 0x0304, 2);
    bytes::push_zeros(&mut b, 1);
    assert_eq!(b, vec![2, 1, 3, 4, 0]);
    assert_eq!(bytes::get_le(&b, 0, 2), 0x0102);
    assert_eq!(bytes::get_be(&b, 2, 2), 0x0304);
    assert!(bytes::matches_at(&b, 1, &[1, 3]));
    bytes::write_at(&mut b, 3, &[9, 9]);
    assert_eq!(b, vec![2, 1, 3, 9, 9]);
}

#[test]
fn numbers_are_written_in_words() {
    assert_eq!(text::decimal_text(0), "0");
    assert_eq!(text::decimal_text(u64::MAX), "18446744073709551615");
    let mut s = String::new();
    text::push_decimal_wide(&mut s, u128::MAX);
    assert_eq!(s, u128::MAX.to_string());
    let mut s = String::new();
    text::push_hex(&mut s, 0xbeef);
    assert_eq!(s, "beef");
    let digits: Vec<char> = "65536".chars().collect();
    assert_eq!(text::parse_number(&digits, 65535), None);
    assert_eq!(text::parse_number(&digits, 65536), Some(65536));
    assert_eq!(text::trim_text("\t a b \n"), "a b");
}

#[test]
fn runs_are_coalesced_in_order() {
    assert_eq!(order::sorted_distinct(&[5, 1, 5, 2]), vec![1, 2, 5]);
    assert_eq!(order::coalesce(&[7, 3, 4, 5, 9, 8]), vec![(3, 5), (7, 9)]);
    assert_eq!(order::last_max(&[3, 9, 9, 1]), Some(2));
    assert_eq!(order::last_max(&[]), None);
}

#[test]
fn uuids_are_read_and_written() {
    let u = Uuid::parse("8aa6b985-3f4d-4130-99cb-154b56dcb68b").unwrap();
    assert_eq!(u.bits, 0x8aa6b985_3f4d_4130_99cb_154b56dcb68b);
    assert_eq!(u.to_string(), "8aa6b985-3f4d-4130-99cb-154b56dcb68b");
    let mut b = vec![0u8; 3];
    u.push(&mut b);
    assert_eq!(b.len(), 19);
    assert_eq!(Uuid::read(&b, 3), u);
    assert!(Uuid::parse("not one").is_none());
    assert!(Uuid::nil().is_nil() && !u.is_nil());
    let v = Uuid::new_v4();
    assert_eq!(v.bits >> 76 & 0xf, 4, "a random identifier says so");
    assert_ne!(v, Uuid::new_v4());
    // The name-based identifier of a well-known address.
    assert_eq!(
        Uuid::for_url("http://example.com/").to_string(),
        uuid::Uuid::new_v5(&uuid::Uuid::NAMESPACE_URL, b"http://example.com/").to_string()
    );
}

#[test]
fn a_guid_swaps_its_first_three_fields() {
    let u = Uuid::parse("00112233-4455-6677-8899-aabbccddeeff").unwrap();
    let g = u.to_guid_bytes();
    assert_eq!(
        g,
        vec![0x33, 0x22, 0x11, 0x00, 0x55, 0x44, 0x77, 0x66, 0x88, 0x99, 0xaa, 0xbb, 0xcc, 0xdd, 0xee, 0xff]
    );
    assert_eq!(Uuid::read_guid(&g, 0), u);
}
