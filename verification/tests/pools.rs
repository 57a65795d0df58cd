use stormblock::drive::crashdev::CrashDevice;
use stormblock::drive::discover::{
    slabs_in_partitions, SearchAction, SearchEvent, SearchRun, Table, TableEntry, WHOLE_DRIVE,
};
use stormblock::drive::filedev::{self, FileDevice, Release};
use stormblock::drive::partition::PartitionDevice;
use stormblock::drive::pool::{
    DiskPool, PoolError, PoolHeader, VDriveEntry, VDriveState, MAX_VDRIVES, POOL_ALIGNMENT,
    POOL_DATA_OFFSET, VDRIVE_ENTRY_SIZE,
};
use stormblock::drive::transfer::{next_zero_chunk, plan_zeroes, Transfer};
use stormblock::drive::vdrive::VDrive;
use stormblock::drive::{DeviceId, DriveError, DriveType};
use stormblock::ids::Uuid;

/// A pool's header and table as a device would hold them.
struct Stored {
    header: Vec<u8>,
    table: Vec<u8>,
}

fn store(pool: &DiskPool) -> Stored {
    let (header, table) = pool.persist();
    Stored { header, table }
}

fn reopen(stored: &Stored) -> DiskPool {
    let header = PoolHeader::from_bytes(&stored.header).unwrap();
    assert!(header.max_vdrives as usize * VDRIVE_ENTRY_SIZE <= stored.table.len());
    DiskPool::open(header, &stored.table, "/dev/pool")
}

#[test]
fn pool_format_and_open() {
    let pool = DiskPool::format(100 * 1024 * 1024, "/dev/pool", 1).unwrap();
    let uuid = pool.pool_uuid();
    assert_eq!(pool.entries.len(), 0);
    assert!(pool.free_space() > 0);

    // Re-open
    let pool2 = reopen(&store(&pool));
    assert_eq!(pool2.pool_uuid(), uuid);
    assert_eq!(pool2.entries.len(), 0);
}

#[test]
fn pool_create_and_delete_vdrive() {
    let mut pool = DiskPool::format(100 * 1024 * 1024, "/dev/pool", 1).unwrap();

    let entry = pool.create_vdrive(10 * 1024 * 1024, "data0", 2).unwrap();
    assert_eq!(entry.label, "data0");
    assert_eq!(entry.state, VDriveState::Active);
    assert_eq!(pool.entries.len(), 1);

    // Re-open and verify persistence
    let pool2 = reopen(&store(&pool));
    assert_eq!(pool2.entries.len(), 1);
    assert_eq!(pool2.entries[0].uuid, entry.uuid);
    assert_eq!(pool2.entries[0].label, "data0");

    // Delete
    pool.delete_vdrive(entry.uuid, 3).unwrap();
    assert_eq!(pool.entries.len(), 0);
}

#[test]
fn pool_multiple_vdrives() {
    let mut pool = DiskPool::format(100 * 1024 * 1024, "/dev/pool", 1).unwrap();

    let e1 = pool.create_vdrive(20 * 1024 * 1024, "v1", 2).unwrap();
    let e2 = pool.create_vdrive(20 * 1024 * 1024, "v2", 2).unwrap();
    let e3 = pool.create_vdrive(20 * 1024 * 1024, "v3", 2).unwrap();

    assert_eq!(pool.entries.len(), 3);
    assert!(e2.start_offset > e1.start_offset);
    assert!(e3.start_offset > e2.start_offset);

    // Free space should have decreased
    let free = pool.free_space();
    assert!(free < 100 * 1024 * 1024 - POOL_DATA_OFFSET);
}

#[test]
fn pool_vdrive_io() {
    let mut pool = DiskPool::format(100 * 1024 * 1024, "/dev/pool", 1).unwrap();
    let mut disk = vec![0u8; 100 * 1024 * 1024];

    let entry = pool.create_vdrive(10 * 1024 * 1024, "io-test", 2).unwrap();
    let vdrive = pool.open_vdrive(&entry.uuid).unwrap();

    // Write and read
    let data = vec![0xFE_u8; 4096];
    let at = vdrive.translate_offset(0, 4096).unwrap() as usize;
    disk[at..at + 4096].copy_from_slice(&data);
    let from = vdrive.translate_offset(0, 4096).unwrap() as usize;
    assert_eq!(&disk[from..from + 4096], &data[..]);
    assert_eq!(at as u64, entry.start_offset);
}

#[test]
fn pool_fragmentation() {
    let mut pool = DiskPool::format(100 * 1024 * 1024, "/dev/pool", 1).unwrap();

    // Create 3 VDrives, delete the middle one, allocate in the gap
    let e1 = pool.create_vdrive(10 * 1024 * 1024, "a", 2).unwrap();
    let e2 = pool.create_vdrive(10 * 1024 * 1024, "b", 2).unwrap();
    let _e3 = pool.create_vdrive(10 * 1024 * 1024, "c", 2).unwrap();

    pool.delete_vdrive(e2.uuid, 3).unwrap();
    assert_eq!(pool.entries.len(), 2);

    // New VDrive should fit in the gap left by e2
    let e4 = pool.create_vdrive(10 * 1024 * 1024, "d", 4).unwrap();
    assert_eq!(e4.start_offset, e2.start_offset);
    assert_eq!(pool.entries.len(), 3);

    // VDrive too big for the gap should go at end
    pool.delete_vdrive(e1.uuid, 5).unwrap();
    // Now there's a gap at e1 position (10MB) and space after e3
    let _e5 = pool.create_vdrive(5 * 1024 * 1024, "small", 6).unwrap();
}

#[test]
fn pool_in_array_prevents_delete() {
    let mut pool = DiskPool::format(100 * 1024 * 1024, "/dev/pool", 1).unwrap();

    let entry = pool.create_vdrive(10 * 1024 * 1024, "locked", 2).unwrap();
    pool.set_vdrive_in_array(entry.uuid, Uuid::new_v4()).unwrap();

    assert_eq!(pool.delete_vdrive(entry.uuid, 3), Err(PoolError::InArray(entry.uuid)));
    pool.set_vdrive_active(entry.uuid).unwrap();
    assert_eq!(pool.delete_vdrive(entry.uuid, 4), Ok(()));
}

#[test]
fn pool_header_roundtrip() {
    let header = PoolHeader {
        pool_uuid: Uuid::new_v4(),
        total_capacity: 100 * 1024 * 1024,
        data_offset: POOL_DATA_OFFSET,
        alignment: POOL_ALIGNMENT,
        vdrive_count: 2,
        max_vdrives: MAX_VDRIVES,
        create_time: 1234567890,
        update_time: 1234567900,
    };

    let bytes = header.to_bytes();
    let decoded = PoolHeader::from_bytes(&bytes).unwrap();
    assert_eq!(decoded.pool_uuid, header.pool_uuid);
    assert_eq!(decoded.total_capacity, header.total_capacity);
    assert_eq!(decoded.vdrive_count, 2);
    assert_eq!(decoded, header);

    assert_eq!(PoolHeader::from_bytes(&bytes[..8]), Err(PoolError::HeaderTooShort));
    let mut b = bytes.clone();
    b[0] ^= 1;
    assert_eq!(PoolHeader::from_bytes(&b), Err(PoolError::BadMagic));
    let mut b = bytes.clone();
    b[8] = 7;
    assert_eq!(PoolHeader::from_bytes(&b), Err(PoolError::BadVersion(7)));
    let mut b = bytes.clone();
    b[20] ^= 1;
    assert_eq!(PoolHeader::from_bytes(&b), Err(PoolError::HeaderCrc));
}

#[test]
fn vdrive_entry_roundtrip() {
    let entry = VDriveEntry {
        uuid: Uuid::new_v4(),
        start_offset: 1024 * 1024,
        size: 10 * 1024 * 1024,
        state: VDriveState::Active,
        array_uuid: Uuid::nil(),
        label: "test-drive".to_string(),
        create_time: 1234567890,
        checksum: 0,
    };

    let bytes = entry.to_bytes();
    let decoded = VDriveEntry::from_bytes(&bytes).unwrap();
    assert_eq!(decoded.uuid, entry.uuid);
    assert_eq!(decoded.start_offset, entry.start_offset);
    assert_eq!(decoded.size, entry.size);
    assert_eq!(decoded.label, "test-drive");

    let mut b = bytes.clone();
    b[20] ^= 1;
    assert!(VDriveEntry::from_bytes(&b).is_none(), "a spoilt entry is no entry");
}

#[test]
fn a_pool_says_why_it_refuses() {
    assert_eq!(DiskPool::format(1000, "/dev/p", 1).err(), Some(PoolError::DeviceTooSmall(1000)));
    let mut pool = DiskPool::format_as(20 * 1024 * 1024, "/dev/p", Uuid { bits: 9 }, 1).unwrap();
    assert_eq!(pool.pool_uuid(), Uuid { bits: 9 });
    assert_eq!(pool.device_path(), "/dev/p");
    assert_eq!(pool.data_offset(), POOL_DATA_OFFSET);
    assert_eq!(pool.total_capacity(), 20 * 1024 * 1024);
    assert_eq!(pool.data_capacity(), 19 * 1024 * 1024);
    assert_eq!(pool.largest_free_region(), 19 * 1024 * 1024);
    assert_eq!(
        pool.create_vdrive(64 * 1024 * 1024, "big", 2).err(),
        Some(PoolError::NoSpace { size: 64 * 1024 * 1024, largest: 19 * 1024 * 1024 })
    );
    let unknown = Uuid { bits: 1 };
    assert_eq!(pool.delete_vdrive(unknown, 2), Err(PoolError::NotFound(unknown)));
    assert_eq!(pool.open_vdrive(&unknown).err(), Some(PoolError::NotFound(unknown)));
    assert_eq!(pool.set_vdrive_active(unknown), Err(PoolError::NotFound(unknown)));
    assert!(pool.get_vdrive(&unknown).is_none());
    let e = pool.create_vdrive_as(100, "tiny", Uuid { bits: 2 }, 2).unwrap();
    assert_eq!(e.size, POOL_ALIGNMENT, "sizes are rounded up");
    assert_eq!(pool.allocated(), POOL_ALIGNMENT);
    assert_eq!(pool.free_space(), 18 * 1024 * 1024);
    assert_eq!(pool.vdrive_count(), 1);
    assert_eq!(pool.list_vdrives().len(), 1);
    assert!(PoolError::NotFound(unknown).to_string().contains(&unknown.to_string()));
    assert!(!PoolError::MaxVDrives.to_string().is_empty());
}

#[test]
fn a_pool_holds_no_more_than_its_table() {
    let mut pool = DiskPool::format(1024 * 1024 * 1024, "/dev/p", 1).unwrap();
    for i in 0..MAX_VDRIVES {
        pool.create_vdrive_as(1, "d", Uuid { bits: i as u128 + 1 }, 2).unwrap();
    }
    assert_eq!(pool.create_vdrive(1, "one too many", 3).err(), Some(PoolError::MaxVDrives));
    assert_eq!(reopen(&store(&pool)).entries.len(), MAX_VDRIVES as usize);
}

#[test]
fn a_new_drive_overlaps_no_other_and_leaves_its_room() {
    let mut pool = DiskPool::format(100 * 1024 * 1024, "/dev/pool", 1).unwrap();
    let mut ids = Vec::new();
    for i in 0..9u64 {
        ids.push(pool.create_vdrive((i % 3 + 1) * 3_000_000, "x", i).unwrap().uuid);
        if i % 4 == 3 {
            let gone = ids.remove(1);
            let before = pool.free_space();
            let size = pool.get_vdrive(&gone).unwrap().size;
            pool.delete_vdrive(gone, i).unwrap();
            assert_eq!(pool.free_space(), before + size);
        }
        for a in pool.list_vdrives() {
            for b in pool.list_vdrives() {
                if a.uuid != b.uuid {
                    assert!(a.start_offset + a.size <= b.start_offset || b.start_offset + b.size <= a.start_offset);
                }
            }
        }
    }
}

#[test]
fn vdrive_offset_translation() {
    let mut parent = vec![0u8; 10 * 1024 * 1024];

    // VDrive at offset 1MB, size 2MB
    let vdrive = VDrive::new(Uuid::new_v4(), 1024 * 1024, 2 * 1024 * 1024, "test".to_string());

    assert_eq!(vdrive.capacity_bytes(), 2 * 1024 * 1024);
    assert_eq!(vdrive.device_type(), DriveType::VDrive);
    assert_eq!(vdrive.label(), "test");

    // Write at VDrive offset 0 (parent offset 1MB)
    let data = vec![0xAB_u8; 4096];
    let at = vdrive.translate_offset(0, 4096).unwrap() as usize;
    parent[at..at + 4096].copy_from_slice(&data);

    // Verify it's at parent offset 1MB
    assert_eq!(&parent[1024 * 1024..1024 * 1024 + 4096], &data[..]);
}

#[test]
fn vdrive_bounds_check() {
    let vdrive = VDrive::new(Uuid::new_v4(), 1024 * 1024, 2 * 1024 * 1024, "bounded".to_string());

    // Write beyond VDrive boundary should fail
    let result = vdrive.translate_offset(2 * 1024 * 1024, 4096);
    assert!(matches!(
        result,
        Err(DriveError::OutOfRange { offset: 2097152, len: 4096, capacity: 2097152 })
    ));
}

fn parent() -> DeviceId {
    DeviceId {
        uuid: Uuid { bits: 3 },
        serial: "SN".to_string(),
        model: "M".to_string(),
        path: "/dev/sda".to_string(),
    }
}

#[test]
fn a_window_reads_and_writes_only_its_own_bytes() {
    let mut disk = vec![0u8; 1024 * 1024];
    let part = PartitionDevice::new(&parent(), 4096, 1024 * 1024, 8192, 8192).unwrap();

    let at = part.translate(0, 4096).unwrap() as usize;
    disk[at..at + 4096].copy_from_slice(&[0xAB; 4096]);

    // It landed at the window's start, and nowhere else.
    assert!(disk[4096..8192].iter().all(|&b| b == 0), "wrote before the window");
    assert!(disk[8192..12288].iter().all(|&b| b == 0xAB));
    assert!(disk[12288..].iter().all(|&b| b == 0));
}

#[test]
fn a_window_cannot_be_read_or_written_past_its_end() {
    let part = PartitionDevice::new(&parent(), 4096, 1024 * 1024, 8192, 8192).unwrap();
    assert_eq!(part.capacity_bytes(), 8192);
    assert_eq!(part.start(), 8192);
    assert!(part.translate(4096, 8192).is_err());
    assert!(part.translate(8192, 512).is_err());
}

#[test]
fn an_unaligned_window_is_refused() {
    assert!(PartitionDevice::new(&parent(), 4096, 1024 * 1024, 100, 8192).is_err());
    assert!(PartitionDevice::new(&parent(), 4096, 1024 * 1024, 8192, 100).is_err());
    assert!(PartitionDevice::new(&parent(), 4096, 1024 * 1024, 8192, 1024 * 1024).is_err());
}

#[test]
fn only_flushed_writes_are_certain_to_survive() {
    let mut d = CrashDevice::new(1 << 20);
    d.write(0, &[1u8; 4096]).unwrap();
    d.flush();
    d.write(4096, &[2u8; 4096]).unwrap();
    assert_eq!(d.cached_writes(), 1);
    assert_eq!(d.flushes(), 1);
    // Keep none of the cache: only the flushed write survives.
    let after = d.crash(&[false]);
    let b = after.read(0, 8192).unwrap();
    assert!(b[..4096].iter().all(|&x| x == 1));
    assert!(b[4096..].iter().all(|&x| x == 0));
    // Keep all of it: both survive.
    let after = d.crash(&[true]);
    let b = after.read(0, 8192).unwrap();
    assert!(b[4096..].iter().all(|&x| x == 2));
}

#[test]
fn a_crash_device_keeps_to_its_bounds() {
    let mut d = CrashDevice::from_image(vec![7u8; 8192]);
    assert_eq!(d.capacity_bytes(), 8192);
    assert_eq!(d.device_type(), DriveType::File);
    assert_eq!(d.block_size(), 4096);
    assert_eq!(
        (d.id().serial.as_str(), d.id().model.as_str(), d.id().path.as_str()),
        ("CRASH", "crash-sim", "crash://")
    );
    assert!(d.read(8000, 4096).is_err());
    assert!(d.write(8190, &[0u8; 4]).is_err());
    d.write(1, &[1]).unwrap();
    d.write(1, &[2]).unwrap();
    assert_eq!(d.read(0, 3).unwrap(), vec![7, 2, 7], "what was written last is read");
    assert_eq!(d.crash(&[true, false]).read(0, 3).unwrap(), vec![7, 1, 7]);
}

#[test]
fn every_usable_partition_is_looked_at() {
    let entries = vec![
        TableEntry { first_lba: 0, last_lba: 10, name: "unused".to_string() },
        TableEntry { first_lba: 8, last_lba: 15, name: String::new() },
        TableEntry { first_lba: 9, last_lba: 12, name: "unaligned".to_string() },
        TableEntry { first_lba: 16, last_lba: 31, name: "data".to_string() },
        TableEntry { first_lba: 4096, last_lba: 8191, name: "past the end".to_string() },
    ];
    let found = slabs_in_partitions(&entries, 512, &parent(), 4096, 1024 * 1024);
    let got: Vec<(String, u64, u64)> =
        found.iter().map(|c| (c.label.clone(), c.part.start(), c.part.capacity_bytes())).collect();
    assert_eq!(
        got,
        vec![("partition 2".to_string(), 4096, 4096), ("data".to_string(), 8192, 8192)]
    );
    let p = parent();
    assert_eq!(found[1].part.id.serial, format!("{}+8192", p.serial));
    assert_eq!(found[1].part.id.path, format!("{}@8192", p.path));
    assert_eq!(found[1].part.id.model, p.model);
    assert_ne!(found[0].part.id.uuid, found[1].part.id.uuid);
}

#[test]
fn a_drive_that_is_a_slab_is_not_searched() {
    let begin = || SearchRun::new(parent(), 4096, 1024 * 1024).step(SearchEvent::Begin);
    let (run, action) = begin();
    assert!(matches!(action, SearchAction::OpenWhole { label } if label == WHOLE_DRIVE));
    let (run, action) = run.step(SearchEvent::Opened);
    assert!(matches!(action, SearchAction::Finished));
    assert!(matches!(run.step(SearchEvent::Opened).1, SearchAction::Ignore));

    let (run, action) = begin().0.step(SearchEvent::NoSlab);
    assert!(matches!(action, SearchAction::ReadTable));
    assert!(matches!(run.step(SearchEvent::Table { table: None }).1, SearchAction::Finished));

    // All partitions are tried, whatever came of those before.
    let entries = vec![
        TableEntry { first_lba: 8, last_lba: 15, name: "data".to_string() },
        TableEntry { first_lba: 16, last_lba: 23, name: "esp".to_string() },
        TableEntry { first_lba: 24, last_lba: 31, name: String::new() },
    ];
    let (run, _) = begin().0.step(SearchEvent::NoSlab);
    let (run, action) = run.step(SearchEvent::Table { table: Some(Table { lba: 512, entries }) });
    assert!(matches!(&action, SearchAction::OpenPart { part } if part.label == "data"));
    let (run, action) = run.step(SearchEvent::Opened);
    assert!(matches!(&action, SearchAction::OpenPart { part } if part.label == "esp"));
    let (run, action) = run.step(SearchEvent::NoSlab);
    assert!(matches!(&action, SearchAction::OpenPart { part } if part.label == "partition 3"));
    assert!(matches!(run.step(SearchEvent::Opened).1, SearchAction::Finished));
}

#[test]
fn the_largest_free_region_is_what_fits() {
    const MIB: u64 = 1024 * 1024;
    let mut pool = DiskPool::format_as(20 * MIB, "/dev/p", Uuid { bits: 9 }, 1).unwrap();
    let sizes = [3 * MIB, 5 * MIB, 2 * MIB, 4 * MIB];
    for (i, size) in sizes.iter().enumerate() {
        pool.create_vdrive_as(*size, "d", Uuid { bits: 20 + i as u128 }, 2).unwrap();
    }
    assert_eq!(pool.largest_free_region(), 5 * MIB, "what is behind the last");
    pool.delete_vdrive(Uuid { bits: 21 }, 3).unwrap();
    pool.delete_vdrive(Uuid { bits: 22 }, 3).unwrap();
    assert_eq!(pool.largest_free_region(), 7 * MIB, "two holes side by side");
    assert!(pool.create_vdrive_as(7 * MIB + 1, "x", Uuid { bits: 30 }, 4).is_err());
    let e = pool.create_vdrive_as(7 * MIB, "y", Uuid { bits: 31 }, 4).unwrap();
    assert_eq!(e.start_offset, 4 * MIB);
    assert_eq!(pool.largest_free_region(), 5 * MIB);
}

#[test]
fn a_file_has_at_least_the_size_it_is_given() {
    assert_eq!(filedev::BLOCK_SIZE, 4096);
    let mut d = FileDevice::open(false, 5_000, 0);
    assert_eq!(d.capacity, 5_000);
    assert!(d.open_with_capacity(10_000), "it has to be made longer");
    assert_eq!(d.capacity, 10_000);
    assert!(!d.open_with_capacity(8_000));
    assert_eq!(d.capacity, 10_000);
    assert_eq!(d.device_type(), DriveType::File);
    assert_eq!(d.release(4096), Release::PunchHole);
    assert_eq!(d.release(0), Release::Nothing);
    assert!(d.smart_status().healthy);
    let b = FileDevice::open(true, 0, 1 << 30);
    assert_eq!(b.capacity, 1 << 30, "a block device is as long as seeking tells");
    assert_eq!(b.release(4096), Release::Discard);
    assert!(filedev::discard_tolerated(Some(filedev::EOPNOTSUPP)));
    assert!(!filedev::discard_tolerated(Some(5)) && !filedev::discard_tolerated(None));
}

/// A file that moves at most `most` bytes at a time.
struct Slow {
    data: Vec<u8>,
    most: usize,
}

impl Slow {
    fn write(&mut self, offset: u64, buf: &[u8]) -> usize {
        let mut t = Transfer::new(offset, buf.len());
        while let Some((at, left)) = t.rest() {
            let n = left.min(self.most);
            self.data[at as usize..at as usize + n].copy_from_slice(&buf[t.done..t.done + n]);
            if !t.moved(n) {
                break;
            }
        }
        t.done
    }

    fn read(&self, offset: u64, len: usize) -> Vec<u8> {
        let mut t = Transfer::new(offset, len);
        let mut out = Vec::new();
        while let Some((at, left)) = t.rest() {
            let n = left.min(self.most).min(self.data.len() - at as usize);
            out.extend_from_slice(&self.data[at as usize..at as usize + n]);
            if !t.moved(n) {
                break;
            }
        }
        out
    }
}

/// One call, one whole buffer, even past what a single transfer moves.
#[test]
fn transfers_larger_than_one_tokio_buffer_complete() {
    const BIG: usize = 5 * 1024 * 1024;
    let mut dev = Slow { data: vec![0u8; 8 * 1024 * 1024], most: 2 * 1024 * 1024 };

    let pattern: Vec<u8> = (0..BIG).map(|i| (i % 251) as u8).collect();
    assert_eq!(dev.write(0, &pattern), BIG, "short write reported as complete");

    let back = dev.read(0, BIG);
    assert_eq!(back.len(), BIG, "short read reported as complete");
    assert_eq!(back, pattern);

    // A read that runs off the end is legitimately short, and says so.
    assert_eq!(dev.read(8 * 1024 * 1024 - 1024, 4096).len(), 1024);
}

#[test]
fn roundtrip_write_read() {
    let mut d = FileDevice::open(false, 0, 0);
    assert!(d.open_with_capacity(1024 * 1024));
    assert_eq!(d.capacity, 1024 * 1024);
    assert_eq!(d.device_type(), DriveType::File);
    let mut dev = Slow { data: vec![0u8; d.capacity as usize], most: 1000 };

    // Write a pattern at offset 0, and a different one at offset 4096.
    assert_eq!(dev.write(0, &[0xABu8; 4096]), 4096);
    assert_eq!(dev.write(4096, &[0xCDu8; 4096]), 4096);

    let read = dev.read(0, 4096);
    assert_eq!(read.len(), 4096);
    assert!(read.iter().all(|&b| b == 0xAB));
    let read = dev.read(4096, 4096);
    assert_eq!(read.len(), 4096);
    assert!(read.iter().all(|&b| b == 0xCD));
}

#[test]
fn a_zero_plan_covers_what_it_is_asked_for() {
    let p = plan_zeroes(true, 4096, 1000, 20_000);
    assert_eq!(p.head, (1000, 3096));
    assert_eq!(p.discard, Some((4096, 16384)));
    assert_eq!(p.tail, (20480, 520));
    let p = plan_zeroes(false, 4096, 1000, 20_000);
    assert_eq!((p.head, p.discard, p.tail), ((1000, 20_000), None, (21_000, 0)));
    assert_eq!(next_zero_chunk(1000, 3 << 20, 0), Some((1000, 1 << 20)));
    assert_eq!(next_zero_chunk(1000, 100, 100), None);
    assert_eq!(next_zero_chunk(1000, (1 << 20) + 5, 1 << 20), Some((1000 + (1 << 20), 5)));
}
