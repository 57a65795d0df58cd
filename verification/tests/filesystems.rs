use stormblock::drive::filedev::BLOCK_SIZE;
use stormblock::fs::disk::{
    detect, plan_stamp, probe, stamp, stamp_backup, stamp_gpt, stamp_mbr, Look, Stamp,
};
use stormblock::fs::ext4::{
    self, backup_places, journal_for, label_field, layout_of, logical_sector_size, FsProfile,
    Problem, SealBlocker, Superblock,
};
use stormblock::fs::ext4_free::{
    aligned_span, bitmap_block, block_uninit, free_runs, parse_superblock, read_at, scan, ScanFault,
    Scanner, BG_BLOCK_UNINIT, EXT4_MAGIC, INCOMPAT_64BIT, INCOMPAT_META_BG, INCOMPAT_RECOVER,
    STATE_CLEANLY_UNMOUNTED, SUPERBLOCK_LEN,
};
use stormblock::fs::files::{entry_path, parent_of, place, SeedFile};
use stormblock::fs::info::FsInfo;
use stormblock::fs::survey::{pretty_name, window_of, Entry, FoundFs, PartitionEntry, Trouble, Walk};
use stormblock::fs::xfs::{
    self, check_format, looks_like_xfs, read_layout, sb_offsets, sector_size, stamp_label,
    stamp_uuid, EntryKind, XfsCheck, XfsFault, XfsParams,
};
use stormblock::ids::Uuid;

/// A 4 KiB-block, 64bit ext4 superblock with 32768 blocks/group.
fn sample_sb() -> Vec<u8> {
    let mut sb = vec![0u8; SUPERBLOCK_LEN];
    sb[0x04..0x08].copy_from_slice(&65536u32.to_le_bytes()); // blocks_count_lo
    sb[0x14..0x18].copy_from_slice(&0u32.to_le_bytes()); // first_data_block
    sb[0x18..0x1C].copy_from_slice(&2u32.to_le_bytes()); // 1024<<2 = 4096
    sb[0x20..0x24].copy_from_slice(&32768u32.to_le_bytes()); // blocks_per_group
    sb[0x38..0x3A].copy_from_slice(&EXT4_MAGIC.to_le_bytes());
    sb[0x3A..0x3C].copy_from_slice(&STATE_CLEANLY_UNMOUNTED.to_le_bytes());
    sb[0x60..0x64].copy_from_slice(&INCOMPAT_64BIT.to_le_bytes());
    sb[0xFE..0x100].copy_from_slice(&64u16.to_le_bytes()); // desc_size
    sb
}

#[test]
fn parses_a_plain_superblock() {
    let l = parse_superblock(&sample_sb()).ok().unwrap();
    assert_eq!(l.block_size, 4096);
    assert_eq!(l.blocks_count, 65536);
    assert_eq!(l.blocks_per_group, 32768);
    assert_eq!(l.desc_size, 64);
    assert_eq!(l.group_count, 2);
    assert_eq!(l.gdt_block, 1);
    assert!(l.clean);
    assert_eq!(l.size_bytes(), 65536 * 4096);
}

/// A 1 KiB-block ext3 superblock: no `64bit`, so 32-byte group descriptors,
/// and `first_data_block` 1 because the superblock itself occupies block 1.
fn sample_ext3_sb() -> Vec<u8> {
    let mut sb = vec![0u8; SUPERBLOCK_LEN];
    sb[0x04..0x08].copy_from_slice(&262_144u32.to_le_bytes()); // blocks_count_lo
    sb[0x14..0x18].copy_from_slice(&1u32.to_le_bytes()); // first_data_block
    sb[0x18..0x1C].copy_from_slice(&0u32.to_le_bytes()); // 1024<<0 = 1024
    sb[0x20..0x24].copy_from_slice(&8192u32.to_le_bytes()); // blocks_per_group
    sb[0x38..0x3A].copy_from_slice(&EXT4_MAGIC.to_le_bytes());
    sb[0x3A..0x3C].copy_from_slice(&STATE_CLEANLY_UNMOUNTED.to_le_bytes());
    sb[0x5C..0x60].copy_from_slice(&0x0004u32.to_le_bytes());
    sb
}

#[test]
fn parses_an_ext3_superblock() {
    let l = parse_superblock(&sample_ext3_sb()).ok().unwrap();
    assert_eq!(l.block_size, 1024);
    assert_eq!(l.blocks_count, 262_144);
    assert_eq!(l.blocks_per_group, 8192);
    assert!(!l.sixty_four_bit);
    assert_eq!(l.desc_size, 32, "a non-64bit filesystem has 32-byte descriptors");
    assert_eq!(l.first_data_block, 1, "1 KiB blocks put the superblock in block 1");
    assert_eq!(l.gdt_block, 2);
    assert_eq!(l.group_count, 32);
    assert!(l.clean);

    // A journal that still needs replaying is not scannable, however clean
    // the state word claims to be: the bitmaps on disk predate the replay.
    let mut sb = sample_ext3_sb();
    sb[0x60..0x64].copy_from_slice(&INCOMPAT_RECOVER.to_le_bytes());
    assert!(!parse_superblock(&sb).ok().unwrap().clean);
}

#[test]
fn a_32_byte_descriptor_has_no_high_half() {
    let layout = parse_superblock(&sample_ext3_sb()).ok().unwrap();
    let mut desc = vec![0u8; 32];
    desc[0x00..0x04].copy_from_slice(&5u32.to_le_bytes()); // bg_block_bitmap_lo
    assert_eq!(bitmap_block(&desc, &layout).ok(), Some(5));

    // The same descriptor with 64bit bytes appended stays a 32-byte read
    // for this filesystem, because the layout says the descriptors are 32.
    assert!(!layout.sixty_four_bit);
    desc.extend_from_slice(&[0xff; 32]);
    assert_eq!(bitmap_block(&desc, &layout).ok(), Some(5));
}

#[test]
fn rejects_non_ext4_and_unsupported_layouts() {
    let mut sb = sample_sb();
    sb[0x38..0x3A].copy_from_slice(&0u16.to_le_bytes());
    assert!(parse_superblock(&sb).is_err());

    let mut sb = sample_sb();
    sb[0x60..0x64].copy_from_slice(&(INCOMPAT_64BIT | INCOMPAT_META_BG).to_le_bytes());
    assert!(parse_superblock(&sb).is_err());
}

#[test]
fn recovery_pending_is_not_clean() {
    let mut sb = sample_sb();
    sb[0x60..0x64].copy_from_slice(&(INCOMPAT_64BIT | INCOMPAT_RECOVER).to_le_bytes());
    assert!(!parse_superblock(&sb).ok().unwrap().clean);
}

#[test]
fn free_runs_are_lsb_first_and_bounded() {
    // 0b0000_0011: blocks 0,1 in use; 2..8 free.
    let bitmap = vec![0b0000_0011u8, 0x00];
    let runs = free_runs(&bitmap, 0, 16, 4096);
    assert_eq!(runs, vec![(2 * 4096, 14 * 4096)]);

    // Bits beyond blocks_in_group are ignored.
    let runs = free_runs(&bitmap, 0, 4, 4096);
    assert_eq!(runs, vec![(2 * 4096, 2 * 4096)]);
}

#[test]
fn missing_bitmap_bytes_count_as_in_use() {
    assert_eq!(free_runs(&[], 0, 8, 4096), vec![]);
}

#[test]
fn aligned_span_never_offers_slot_zero() {
    let slot = 4 * 1024 * 1024;
    assert_eq!(aligned_span(0, 16 * slot, slot), Some((slot, 15 * slot)));
    assert_eq!(aligned_span(slot + 1, slot - 2, slot), None);
    assert_eq!(aligned_span(2 * slot, 3 * slot, slot), Some((2 * slot, 3 * slot)));
}

/// A run holding no whole aligned slot must yield `None` without evaluating
/// `last - first`.
#[test]
fn a_run_with_no_whole_slot_never_underflows() {
    let slot = 4 * 1024 * 1024;
    for (start, len) in [
        (slot + 1, slot - 2),  // straddles one boundary, shorter than a slot
        (slot + 1, 1),         // a single byte mid-slot
        (3 * slot - 1, 2),     // spans a boundary by one byte either side
        (slot, 0),             // empty run on a boundary
        (0, 1),                // inside slot 0, which is never offered
        (0, slot),             // exactly slot 0, still never offered
        (u64::MAX / 2 + 1, 3), // far offset, still no whole slot
    ] {
        assert_eq!(aligned_span(start, len, slot), None, "start={start} len={len}");
    }
}

fn fault(sb: &[u8]) -> ScanFault {
    parse_superblock(sb).err().unwrap()
}

#[test]
fn a_superblock_is_refused_with_its_reason() {
    assert_eq!(fault(&[0u8; 10]).to_string(), "short superblock read (10 bytes)");
    assert_eq!(
        fault(&vec![0u8; SUPERBLOCK_LEN]).to_string(),
        "not an ext2/3/4 filesystem (magic 0x0000)"
    );
    let mut sb = sample_sb();
    sb[0x18] = 40;
    assert_eq!(fault(&sb).to_string(), "implausible s_log_block_size 40");
    let mut sb = sample_sb();
    sb[0x60..0x64].copy_from_slice(&(INCOMPAT_64BIT | INCOMPAT_META_BG).to_le_bytes());
    assert_eq!(fault(&sb).to_string(), "META_BG layout is not supported by the mk trim scanner");
    let mut sb = sample_sb();
    sb[0x20..0x24].copy_from_slice(&0u32.to_le_bytes());
    assert_eq!(fault(&sb).to_string(), "nonsensical geometry: blocks=65536, per_group=0, first=0");
    let mut sb = sample_sb();
    sb[0x20..0x24].copy_from_slice(&40_000u32.to_le_bytes());
    assert_eq!(
        fault(&sb).to_string(),
        "blocks_per_group 40000 exceeds one bitmap block (32768 bits)"
    );
    let mut sb = sample_sb();
    sb[0xFE..0x100].copy_from_slice(&16u16.to_le_bytes());
    assert_eq!(fault(&sb).to_string(), "bad s_desc_size 16 for a 64bit filesystem");
}

/// A volume of 64 blocks of 4 KiB in one group, whose first 20 blocks and
/// block 40 are in use.
fn small_volume() -> Vec<u8> {
    let mut sb = sample_sb();
    sb[0x04..0x08].copy_from_slice(&64u32.to_le_bytes());
    let mut image = vec![0u8; 64 * 4096];
    image[1024..2048].copy_from_slice(&sb);
    image[4096..4100].copy_from_slice(&3u32.to_le_bytes()); // bitmap in block 3
    for b in (0..20).chain(40..41) {
        image[3 * 4096 + b / 8] |= 1 << (b % 8);
    }
    image
}

#[test]
fn free_space_is_what_the_bitmaps_say() {
    let map = scan(&small_volume(), 16384).ok().unwrap();
    assert_eq!(map.runs, vec![(20 * 4096, 20 * 4096), (41 * 4096, 23 * 4096)]);
    assert_eq!(map.free_bytes, 43 * 4096);
    // Of the second run only what is in whole slots: blocks 44 to 63.
    assert_eq!(map.reclaimable_bytes, 40 * 4096);
    assert_eq!((map.groups_scanned, map.groups_skipped), (1, 0));
}

#[test]
fn an_uninitialised_group_is_skipped() {
    let mut image = small_volume();
    image[4096 + 0x12..4096 + 0x14].copy_from_slice(&BG_BLOCK_UNINIT.to_le_bytes());
    assert!(block_uninit(&image[4096..4096 + 64]));
    let map = scan(&image, 16384).ok().unwrap();
    assert_eq!((map.groups_scanned, map.groups_skipped), (0, 1));
    assert!(map.runs.is_empty());
}

#[test]
fn a_scan_never_reads_past_its_volume() {
    let mut image = small_volume();
    image[4096..4100].copy_from_slice(&64u32.to_le_bytes());
    assert_eq!(
        scan(&image, 16384).err().unwrap().to_string(),
        "group bitmap block 64 out of range (fs has 64 blocks)"
    );
    let image = small_volume();
    assert_eq!(
        scan(&image[..63 * 4096], 16384).err().unwrap().to_string(),
        "filesystem claims 262144 bytes but the volume is 258048 — refusing to scan"
    );
    assert!(matches!(Scanner::begin(&[], 0, 1), Err(ScanFault::ShortSuperblock { len: 0 })));
    let w = read_at(5000, 100, 4096, 1 << 20).ok().unwrap();
    assert_eq!((w.start, w.len, w.skip), (4096, 4096, 904));
    assert_eq!(
        read_at(8000, 1000, 512, 8192).err().unwrap().to_string(),
        "read 8000+1000 runs past the end of the volume (8192 bytes)"
    );
}

#[test]
fn nonsense_is_reported_rather_than_parsed() {
    let blank = vec![0u8; 1 << 20];
    assert!(scan(&blank, 4096).is_err(), "zeros are not a filesystem");
    assert!(detect(&blank).is_none());
}

fn superblock() -> Superblock {
    Superblock {
        block_size: 4096,
        blocks_count: 65536,
        inodes_count: 16384,
        blocks_per_group: 32768,
        first_data_block: 0,
        group_count: 2,
        state: ext4::VALID_FS,
        uuid: Uuid { bits: 77 },
        label: "golden".to_string(),
        feature_compat: ext4::COMPAT_HAS_JOURNAL,
        feature_incompat: ext4::INCOMPAT_64BIT | ext4::INCOMPAT_CSUM_SEED,
        feature_ro_compat: ext4::RO_COMPAT_METADATA_CSUM,
        checksum_seed: 5,
    }
}

#[test]
fn a_layout_says_what_the_superblock_does() {
    let l = layout_of(&superblock());
    assert_eq!(l.profile_name(), "ext4");
    assert!(l.clean && l.has_journal && l.metadata_csum && l.sixty_four_bit && l.csum_seed);
    assert!(!l.needs_recovery);
    assert_eq!(l.size_bytes(), 65536 * 4096);
    let info = l.fs_info();
    assert_eq!((info.kind.as_str(), info.label.as_str(), info.uuid), ("ext4", "golden", Some(Uuid { bits: 77 })));
    let mut sb = superblock();
    sb.feature_incompat = 0;
    sb.feature_ro_compat = 0;
    assert_eq!(layout_of(&sb).profile_name(), "ext3");
    sb.feature_compat = 0;
    assert_eq!(layout_of(&sb).profile_name(), "ext2");
    assert_eq!(FsProfile::Ext3.name(), "ext3");
}

#[test]
fn stamping_a_uuid_leaves_every_checksum_valid() {
    let fresh = Uuid::new_v4();
    let mut sb = superblock();
    ext4::stamp_uuid(&mut sb, fresh, 99);
    assert_eq!(sb.uuid, fresh);
    assert_eq!(sb.label, "golden", "a UUID stamp must not disturb the label");
    // The checksums are seeded, so the new UUID does not reach them.
    assert_eq!(sb.checksum_seed, 5);
    let l = layout_of(&sb);
    assert!(l.metadata_csum && l.clean);
}

/// A filesystem formatted without the seed still has to be re-identifiable:
/// the seed gets pinned from its current UUID first.
#[test]
fn stamping_pins_a_seed_when_the_filesystem_lacks_one() {
    let mut sb = superblock();
    sb.feature_incompat = ext4::INCOMPAT_64BIT;
    let before = layout_of(&sb);
    assert!(before.metadata_csum && !before.csum_seed);

    let fresh = Uuid::new_v4();
    ext4::stamp_uuid(&mut sb, fresh, 1234);

    let after = layout_of(&sb);
    assert_eq!(after.uuid, fresh);
    assert!(after.csum_seed, "the seed must be pinned, not left to drift");
    assert_eq!(sb.checksum_seed, 1234);
}

/// The guard has to catch a filesystem a consumer would end up mounting
/// read-only.
#[test]
fn seal_guard_catches_a_dirty_superblock() {
    assert!(ext4::seal_blockers(&layout_of(&superblock()), &vec![]).is_empty());

    // What an unclean unmount leaves behind.
    let mut sb = superblock();
    sb.state = ext4::VALID_FS | ext4::ERROR_FS;
    sb.feature_incompat |= ext4::INCOMPAT_RECOVER;

    let blockers = ext4::seal_blockers(&layout_of(&sb), &vec![]);
    assert!(blockers.iter().any(|b| matches!(b, SealBlocker::ErrorFlagSet)), "{blockers:?}");
    assert!(blockers.iter().any(|b| matches!(b, SealBlocker::RecoveryPending)), "{blockers:?}");
    assert!(!layout_of(&sb).clean);

    sb.state = ext4::ORPHAN_FS;
    let problems = vec![
        Problem { code: "bad-inode".to_string(), message: "7".to_string(), serious: true },
        Problem { code: "cosmetic".to_string(), message: "8".to_string(), serious: false },
    ];
    let words: Vec<String> =
        ext4::seal_blockers(&layout_of(&sb), &problems).iter().map(|b| b.to_string()).collect();
    assert!(words.contains(&"fsck: bad-inode: 7".to_string()), "{words:?}");
    assert!(!words.iter().any(|w| w.contains("cosmetic")), "{words:?}");
    assert!(words.iter().any(|w| w.contains("ORPHAN_FS")) && words.iter().any(|w| w.contains("VALID_FS")));
}

#[test]
fn a_filesystem_is_shaped_by_its_volume() {
    assert_eq!(journal_for(None, 8 << 20), Some(false), "too small for a journal");
    assert_eq!(journal_for(None, (8 << 20) + 1), None);
    assert_eq!(journal_for(Some(true), 1), Some(true));
    assert!(logical_sector_size(BLOCK_SIZE) >= 512);
    assert_eq!(backup_places(&superblock(), &[true, true]), vec![(1, 32768 * 4096)]);
    assert_eq!(label_field("ab")[..3], [b'a', b'b', 0]);
    assert_eq!(label_field("a label that is much too long").len(), ext4::LABEL_LEN);
}

/// A GPT on a device of `n` sectors, with both headers checked by CRC-32.
fn gpt(n: usize, guid: Uuid) -> Vec<u8> {
    let mut image = vec![0u8; n * 512];
    for (me, other) in [(1usize, n - 1), (n - 1, 1usize)] {
        let mut h = vec![0u8; 512];
        h[0..8].copy_from_slice(b"EFI PART");
        h[8..12].copy_from_slice(&0x0001_0000u32.to_le_bytes());
        h[12..16].copy_from_slice(&92u32.to_le_bytes());
        h[24..32].copy_from_slice(&(me as u64).to_le_bytes());
        h[32..40].copy_from_slice(&(other as u64).to_le_bytes());
        h[56..72].copy_from_slice(&guid.to_guid_bytes());
        let sum = crc32fast::hash(&h[..92]);
        h[16..20].copy_from_slice(&sum.to_le_bytes());
        image[me * 512..me * 512 + 512].copy_from_slice(&h);
    }
    image
}

fn header_verifies(h: &[u8]) -> bool {
    let mut b = h[..92].to_vec();
    b[16..20].copy_from_slice(&[0; 4]);
    h[16..20] == crc32fast::hash(&b).to_le_bytes()
}

#[test]
fn gpt_is_detected_and_restamped_with_valid_crcs() {
    let old = Uuid::new_v4();
    let mut image = gpt(32768, old);
    let fs = detect(&image).expect("a gpt");
    assert_eq!(fs.kind, "gpt");
    assert_eq!(fs.uuid, Some(old));
    let plan = stamp(&fs);
    let new = plan.identity().unwrap();
    assert_ne!(Some(new), fs.uuid);
    match plan {
        Stamp::Gpt { lba, guid } => {
            let at = lba as usize;
            let s = stamp_gpt(image[at..at + at].to_vec(), lba, guid, image.len() as u64).unwrap();
            image[at..at + at].copy_from_slice(&s.header);
            let backup = s.backup.unwrap() as usize;
            let b = stamp_backup(image[backup..backup + at].to_vec(), guid, s.covered).unwrap();
            image[backup..backup + at].copy_from_slice(&b);
        }
        _ => panic!("a GPT is stamped as one"),
    }
    let again = detect(&image).unwrap();
    assert_eq!(again.uuid, Some(new));
    // Both headers still verify.
    for at in [512usize, 32767 * 512] {
        assert!(header_verifies(&image[at..at + 512]), "header at {at}");
        assert_eq!(&image[at + 56..at + 72], &new.to_guid_bytes()[..]);
    }
}

#[test]
fn mbr_and_iso_are_told_apart_from_a_blank() {
    let mut d = vec![0u8; 16 * 1024 * 1024];
    assert!(detect(&d).is_none(), "blank is nothing");
    d[440..444].copy_from_slice(&0x1234_5678u32.to_le_bytes());
    d[446 + 4] = 0x83;
    d[510] = 0x55;
    d[511] = 0xAA;
    let fs = detect(&d).unwrap();
    assert_eq!(fs.kind, "mbr");
    assert_eq!(fs.uuid, Some(Uuid { bits: 0x1234_5678 }));
    let plan = plan_stamp(&fs, Uuid::new_v4(), 0x9abc_def0);
    let new = plan.identity().unwrap();
    assert_ne!(Some(new), fs.uuid);
    match plan {
        Stamp::Mbr { sig } => {
            let b = stamp_mbr(d[..512].to_vec(), sig);
            d[..512].copy_from_slice(&b);
        }
        _ => panic!("an MBR is stamped as one"),
    }
    assert_eq!(detect(&d).unwrap().uuid, Some(new));

    let mut d2 = vec![0u8; 16 * 1024 * 1024];
    d2[0x8000] = 1;
    d2[0x8001..0x8006].copy_from_slice(b"CD001");
    d2[0x8000 + 40..0x8000 + 46].copy_from_slice(b"STORM ");
    let fs = detect(&d2).unwrap();
    assert_eq!(fs.kind, "iso9660");
    assert_eq!(fs.label, "STORM");
    assert!(stamp(&fs).identity().is_none(), "nothing to stamp on an iso");
}

#[test]
fn a_filesystem_goes_before_what_the_disk_looks_like() {
    let disk = FsInfo::bare("mbr", None, String::new(), None);
    assert_eq!(probe(Some(layout_of(&superblock())), Some(disk)).unwrap().kind, "ext4");
    let disk = FsInfo::bare("mbr", None, String::new(), None);
    assert_eq!(probe(None, Some(disk)).unwrap().kind, "mbr");
    assert!(probe(None, None).is_none());
    assert!(Look::Pallet.after().is_some());
    assert!(!Look::Iso.fits(1000));
}

fn xfs_sb(uuid: Uuid, label: &str) -> Vec<u8> {
    let mut sb = vec![0u8; 512];
    sb[0..4].copy_from_slice(b"XFSB");
    sb[4..8].copy_from_slice(&4096u32.to_be_bytes());
    sb[8..16].copy_from_slice(&131072u64.to_be_bytes());
    sb[32..48].copy_from_slice(&uuid.bits.to_be_bytes());
    sb[84..88].copy_from_slice(&32768u32.to_be_bytes());
    sb[88..92].copy_from_slice(&4u32.to_be_bytes());
    sb[96..100].copy_from_slice(&16384u32.to_be_bytes());
    sb[100..102].copy_from_slice(&0xb4a5u16.to_be_bytes());
    sb[102..104].copy_from_slice(&512u16.to_be_bytes());
    sb[108..108 + label.len()].copy_from_slice(label.as_bytes());
    let sum = crc32c::crc32c(&sb);
    sb[224..228].copy_from_slice(&sum.to_le_bytes());
    sb
}

/// Read back; restamp and relabel and read back again.
#[test]
fn format_read_stamp_and_walk() {
    let uuid = Uuid::new_v4();
    let mut groups = vec![xfs_sb(uuid, "data"); 4];
    assert!(check_format(512 << 20, "data").is_ok());
    assert_eq!(sector_size(&groups[0], 0).ok(), Some(512));
    let l = read_layout(&groups[0]).ok().unwrap();
    assert_eq!((l.uuid, l.meta_uuid, l.label.as_str(), l.version), (uuid, uuid, "data", 5));
    assert!(!l.in_progress && !l.needs_repair && !l.meta_uuid_feature);
    assert!(xfs::seal_blockers(&l).is_empty());
    assert_eq!(XfsCheck::default().entries, 0, "a blank has an empty root");

    let fresh = Uuid::new_v4();
    for sb in groups.iter_mut() {
        stamp_uuid(sb, fresh);
        assert!(stamp_label(sb, "claim-1").is_ok());
    }
    let l2 = read_layout(&groups[0]).ok().unwrap();
    assert_eq!(l2.uuid, fresh);
    assert_eq!(l2.meta_uuid, uuid, "the metadata keeps the UUID it was formatted with");
    assert!(l2.meta_uuid_feature);
    assert_eq!(l2.label, "claim-1");
    // Every secondary superblock agrees with the primary.
    let offsets = sb_offsets(&l2);
    assert_eq!(offsets.len(), 4);
    assert_eq!(offsets.last(), Some(&0), "the primary is written last");
    for at in offsets {
        let s = read_layout(&groups[(at / (32768 * 4096)) as usize]).ok().unwrap();
        assert_eq!((s.uuid, s.meta_uuid, s.label.as_str()), (fresh, uuid, "claim-1"), "superblock at {at}");
    }
    // A label that does not fit leaves all as it is.
    let before = groups[0].clone();
    let refused = stamp_label(&mut groups[0], "thirteen bytes").err().unwrap();
    assert_eq!(refused.to_string(), "an XFS label is at most 12 bytes: \"thirteen bytes\"");
    assert_eq!(groups[0], before);
    // Stamping again keeps the original metadata UUID.
    let third = Uuid::new_v4();
    stamp_uuid(&mut groups[0], third);
    let l3 = read_layout(&groups[0]).ok().unwrap();
    assert_eq!((l3.uuid, l3.meta_uuid), (third, uuid));
    let info = xfs::fs_info(&l3);
    assert_eq!((info.kind.as_str(), info.uuid), ("xfs", Some(third)));
}

#[test]
fn too_small_and_not_xfs_are_refused() {
    assert!(check_format(64 << 20, &XfsParams::default().label).err().unwrap().to_string().contains("300 MB"));
    assert!(read_layout(&[0u8; 512]).is_err());
    assert!(!looks_like_xfs(64 << 20, Some(vec![0u8; 512])));
    assert!(!looks_like_xfs(64 << 20, None));
    assert!(looks_like_xfs(1 << 30, Some(xfs_sb(Uuid::nil(), ""))));
    assert_eq!(
        check_format(1 << 30, "a label too long").err().unwrap().to_string(),
        "an XFS label is at most 12 bytes: \"a label too long\""
    );
    let mut bad = xfs_sb(Uuid::nil(), "");
    bad[40] ^= 1;
    assert!(matches!(read_layout(&bad), Err(XfsFault::BadCrc)));
    assert!(matches!(sector_size(&[0u8; 512], 0), Err(XfsFault::NoSuperblock { at: 0 })));
    bad[102..104].copy_from_slice(&7u16.to_be_bytes());
    assert!(matches!(sector_size(&bad, 4096), Err(XfsFault::BadSector { at: 4096, size: 7 })));
}

#[test]
fn an_xfs_walk_is_counted() {
    let mut c = XfsCheck::default();
    for e in [
        EntryKind::Directory,
        EntryKind::File { size: 100 },
        EntryKind::Symlink,
        EntryKind::Other,
        EntryKind::File { size: 11 },
    ] {
        c.note(e);
    }
    assert_eq!((c.entries, c.directories, c.files, c.symlinks, c.file_bytes), (5, 1, 2, 1, 111));
    let mut sb = xfs_sb(Uuid::nil(), "");
    sb[126] = 1;
    sb[216..220].copy_from_slice(&0x10u32.to_be_bytes());
    sb[224..228].copy_from_slice(&[0; 4]);
    let sum = crc32c::crc32c(&sb);
    sb[224..228].copy_from_slice(&sum.to_le_bytes());
    let l = read_layout(&sb).ok().unwrap();
    assert!(l.in_progress && l.needs_repair);
    assert_eq!(xfs::seal_blockers(&l).len(), 2);
}

#[test]
fn parents_are_derived_the_way_a_shell_would() {
    assert_eq!(parent_of("/etc/conf.d/net").as_deref(), Some("/etc/conf.d"));
    assert_eq!(parent_of("/etc/hostname").as_deref(), Some("/etc"));
    assert_eq!(parent_of("/boot.toml"), None);
    assert_eq!(parent_of("/"), None);
}

#[test]
fn relative_paths_and_missing_files_are_refused() {
    let bad = SeedFile::new("etc/hostname".to_string(), b"x".to_vec());
    assert!(place(&bad).err().unwrap().to_string().contains("etc/hostname"));
    let good = SeedFile::new("/etc/hostname".to_string(), b"x".to_vec());
    assert_eq!(place(&good).ok(), Some(Some("/etc".to_string())));
    let root = SeedFile::new("/boot.toml".to_string(), vec![]);
    assert_eq!(place(&root).ok(), Some(None));
    assert_eq!(entry_path("/etc", "hosts").as_deref(), Some("/etc/hosts"));
    assert_eq!(entry_path("/", "etc").as_deref(), Some("/etc"));
    assert_eq!(entry_path("/etc", ".."), None);
    assert_eq!(entry_path("/etc", "."), None);
}

#[test]
fn os_release_names() {
    let r = b"NAME=\"Rocky Linux\"\nVERSION=\"9.4 (Blue Onyx)\"\nPRETTY_NAME=\"Rocky Linux 9.4 (Blue Onyx)\"\n";
    assert_eq!(pretty_name(r).as_deref(), Some("Rocky Linux 9.4 (Blue Onyx)"));
    assert_eq!(pretty_name(b"NAME=Alpine\n").as_deref(), Some("Alpine"));
    assert_eq!(pretty_name(b"ID=x\n"), None);
}

#[test]
fn a_walk_counts_and_descends() {
    let mut w = Walk::new();
    let root = w.next_dir().unwrap();
    w.take(
        &root,
        &vec![
            Entry { name: ".".to_string(), is_dir: true },
            Entry { name: "..".to_string(), is_dir: true },
            Entry { name: "etc".to_string(), is_dir: true },
            Entry { name: "init".to_string(), is_dir: false },
        ],
    );
    assert_eq!(w.next_dir().as_deref(), Some("/etc"));
    assert_eq!(w.next_dir(), None);
    assert_eq!((w.found.entries, w.found.directories, w.found.files), (2, 1, 1));

    let mut f = FoundFs::new(Some((2, "root".to_string())), 4096, 1 << 20, "ext4");
    f.identify(Uuid { bits: 8 }, "L".to_string());
    f.holds_system(b"PRETTY_NAME=\"X 1\"\n");
    f.was_walked(w.found);
    assert_eq!((f.partition, f.os.as_deref(), f.uuid), (Some(2), Some("X 1"), Uuid { bits: 8 }));
    assert_eq!(f.walked, Some(w.found));
    f.failed(&Trouble::Walking { dir: Some("/etc".to_string()), why: "gone".to_string() });
    assert_eq!(f.error.as_deref(), Some("walking /etc: gone"));
    let e = PartitionEntry { used: true, first_lba: 8, last_lba: 15 };
    assert_eq!(window_of(&e, 512), Some((4096, 4096)));
    assert_eq!(window_of(&PartitionEntry { used: false, ..e }, 512), None);
}
