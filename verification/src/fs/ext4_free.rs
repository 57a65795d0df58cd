//! Reading the blocks that an ext2, ext3 or ext4 filesystem is not using.
//!
//! Three structures are read, common to all three kinds: the superblock, the
//! group descriptors and the block bitmaps. A number that makes no sense ends
//! the scan, and so does a layout whose descriptors lie elsewhere, since a wrong
//! answer discards live data.
use crate::{align, bytes, text};
use vstd::prelude::*;

verus! {

/// Where the superblock begins.
pub const SUPERBLOCK_OFFSET: u64 = 1024;

/// Size of the superblock.
pub const SUPERBLOCK_LEN: usize = 1024;

pub const EXT4_MAGIC: u16 = 0xEF53;

/// The journal has to be replayed.
pub const INCOMPAT_RECOVER: u32 = 0x0004;

pub const INCOMPAT_META_BG: u32 = 0x0010;

pub const INCOMPAT_64BIT: u32 = 0x0080;

/// The group's block bitmap is not initialised.
pub const BG_BLOCK_UNINIT: u16 = 0x0002;

/// The filesystem was unmounted cleanly.
pub const STATE_CLEANLY_UNMOUNTED: u16 = 0x0001;

/// The two bytes at `off`, as a number.
pub open spec fn u16_at(b: Seq<u8>, off: int) -> u16 {
    bytes::le_value(b.subrange(off, off + 2)) as u16
}

/// The four bytes at `off`, as a number.
pub open spec fn u32_at(b: Seq<u8>, off: int) -> u32 {
    bytes::le_value(b.subrange(off, off + 4)) as u32
}

/// The two bytes at `off`, as a number.
pub fn le16(b: &[u8], off: usize) -> (v: u16)
    requires
        off + 2 <= b@.len(),
    ensures
        v == u16_at(b@, off as int),
{
    proof {
        bytes::lemma_radix();
    }
    bytes::get_le(b, off, 2) as u16
}

/// The four bytes at `off`, as a number.
pub fn le32(b: &[u8], off: usize) -> (v: u32)
    requires
        off + 4 <= b@.len(),
    ensures
        v == u32_at(b@, off as int),
{
    proof {
        bytes::lemma_radix();
    }
    bytes::get_le(b, off, 4) as u32
}

/// What ends a scan.
#[derive(Debug, Clone, Copy, PartialEq, Eq, Structural)]
#[allow(inconsistent_fields)]
pub enum ScanFault {
    ShortSuperblock { len: usize },
    NotExt { magic: u16 },
    BlockSize { log: u32 },
    MetaBg,
    Geometry { blocks: u64, per_group: u64, first: u64 },
    TooManyBits { per_group: u64, bits: u64 },
    DescSize { size: u64 },
    ShortDescriptor,
    BitmapBlock { block: u64, blocks: u64 },
    PastEnd { offset: u128, len: usize, capacity: u64 },
    TooLarge { claims: u128, capacity: u64 },
}

impl ScanFault {
    /// The fault in words.
    pub open spec fn message(self) -> Seq<char> {
        match self {
            ScanFault::ShortSuperblock { len } => "short superblock read ("@ + text::decimal(
                len as nat,
            ) + " bytes)"@,
            ScanFault::NotExt { magic } => "not an ext2/3/4 filesystem (magic 0x"@
                + text::hex_digits(magic as nat, 4) + ")"@,
            ScanFault::BlockSize { log } => "implausible s_log_block_size "@ + text::decimal(
                log as nat,
            ),
            ScanFault::MetaBg => "META_BG layout is not supported by the mk trim scanner"@,
            ScanFault::Geometry { blocks, per_group, first } => "nonsensical geometry: blocks="@
                + text::decimal(blocks as nat) + ", per_group="@ + text::decimal(per_group as nat)
                + ", first="@ + text::decimal(first as nat),
            ScanFault::TooManyBits { per_group, bits } => "blocks_per_group "@ + text::decimal(
                per_group as nat,
            ) + " exceeds one bitmap block ("@ + text::decimal(bits as nat) + " bits)"@,
            ScanFault::DescSize { size } => "bad s_desc_size "@ + text::decimal(size as nat)
                + " for a 64bit filesystem"@,
            ScanFault::ShortDescriptor => "short group descriptor"@,
            ScanFault::BitmapBlock { block, blocks } => "group bitmap block "@ + text::decimal(
                block as nat,
            ) + " out of range (fs has "@ + text::decimal(blocks as nat) + " blocks)"@,
            ScanFault::PastEnd { offset, len, capacity } => "read "@ + text::decimal(offset as nat)
                + "+"@ + text::decimal(len as nat) + " runs past the end of the volume ("@
                + text::decimal(capacity as nat) + " bytes)"@,
            ScanFault::TooLarge { claims, capacity } => "filesystem claims "@ + text::decimal(
                claims as nat,
            ) + " bytes but the volume is "@ + text::decimal(capacity as nat)
                + " — refusing to scan"@,
        }
    }

    /// The fault in words.
    pub fn to_string(&self) -> (s: String)
        ensures
            s@ == self.message(),
    {
        match self {
            ScanFault::ShortSuperblock { len } => {
                let mut s = "short superblock read (".to_owned();
                text::push_decimal(&mut s, *len as u64);
                s.append(" bytes)");
                s
            },
            ScanFault::NotExt { magic } => {
                let mut s = "not an ext2/3/4 filesystem (magic 0x".to_owned();
                text::push_hex_digits(&mut s, *magic as u128, 4);
                s.append(")");
                s
            },
            ScanFault::BlockSize { log } => {
                let mut s = "implausible s_log_block_size ".to_owned();
                text::push_decimal(&mut s, *log as u64);
                s
            },
            ScanFault::MetaBg => {
                "META_BG layout is not supported by the mk trim scanner".to_owned()
            },
            ScanFault::Geometry { blocks, per_group, first } => {
                let mut s = "nonsensical geometry: blocks=".to_owned();
                text::push_decimal(&mut s, *blocks);
                s.append(", per_group=");
                text::push_decimal(&mut s, *per_group);
                s.append(", first=");
                text::push_decimal(&mut s, *first);
                s
            },
            ScanFault::TooManyBits { per_group, bits } => {
                let mut s = "blocks_per_group ".to_owned();
                text::push_decimal(&mut s, *per_group);
                s.append(" exceeds one bitmap block (");
                text::push_decimal(&mut s, *bits);
                s.append(" bits)");
                s
            },
            ScanFault::DescSize { size } => {
                let mut s = "bad s_desc_size ".to_owned();
                text::push_decimal(&mut s, *size);
                s.append(" for a 64bit filesystem");
                s
            },
            ScanFault::ShortDescriptor => "short group descriptor".to_owned(),
            ScanFault::BitmapBlock { block, blocks } => {
                let mut s = "group bitmap block ".to_owned();
                text::push_decimal(&mut s, *block);
                s.append(" out of range (fs has ");
                text::push_decimal(&mut s, *blocks);
                s.append(" blocks)");
                s
            },
            ScanFault::PastEnd { offset, len, capacity } => {
                let mut s = "read ".to_owned();
                text::push_decimal_wide(&mut s, *offset);
                s.append("+");
                text::push_decimal(&mut s, *len as u64);
                s.append(" runs past the end of the volume (");
                text::push_decimal(&mut s, *capacity);
                s.append(" bytes)");
                s
            },
            ScanFault::TooLarge { claims, capacity } => {
                let mut s = "filesystem claims ".to_owned();
                text::push_decimal_wide(&mut s, *claims);
                s.append(" bytes but the volume is ");
                text::push_decimal(&mut s, *capacity);
                s.append(" — refusing to scan");
                s
            },
        }
    }
}

/// What the scan needs of the superblock.
#[derive(Debug, Clone, Copy, PartialEq, Eq, Structural)]
pub struct Ext4Layout {
    pub block_size: u64,
    pub blocks_count: u64,
    pub first_data_block: u64,
    pub blocks_per_group: u64,
    pub desc_size: u64,
    pub sixty_four_bit: bool,
    /// First block of the group descriptor table.
    pub gdt_block: u64,
    pub group_count: u64,
    /// Unmounted cleanly, and no journal to replay.
    pub clean: bool,
}

impl Ext4Layout {
    /// What every layout that was read keeps to.
    pub open spec fn wf(self) -> bool {
        &&& 1024 <= self.block_size <= 65536
        &&& self.first_data_block < self.blocks_count
        &&& self.first_data_block <= u32::MAX
        &&& 0 < self.blocks_per_group <= self.block_size * 8
        &&& 32 <= self.desc_size <= self.block_size
        &&& self.gdt_block == self.first_data_block + 1
        &&& self.group_count == align::div_up(
            self.blocks_count - self.first_data_block,
            self.blocks_per_group as int,
        )
    }

    /// Size of the filesystem.
    pub fn size_bytes(&self) -> (n: u64)
        requires
            self.blocks_count * self.block_size <= u64::MAX,
        ensures
            n == self.blocks_count * self.block_size,
    {
        self.blocks_count * self.block_size
    }
}

/// Two to the power `n`.
pub open spec fn two_to(n: nat) -> nat
    decreases n,
{
    if n == 0 {
        1
    } else {
        2 * two_to((n - 1) as nat)
    }
}

/// Whether `d` is a power of two.
pub open spec fn power_of_two(d: nat) -> bool
    decreases d,
{
    d == 1 || (d > 0 && d % 2 == 0 && power_of_two(d / 2))
}

fn is_power_of_two(d: u64) -> (yes: bool)
    ensures
        yes == power_of_two(d as nat),
    decreases d,
{
    d == 1 || (d > 0 && d % 2 == 0 && is_power_of_two(d / 2))
}

/// How many blocks a superblock tells of, by whether it tells in 64 bits.
pub open spec fn blocks_in(sb: Seq<u8>, wide: bool) -> u64 {
    if wide {
        (u32_at(sb, 0x150) * 0x1_0000_0000 + u32_at(sb, 0x04)) as u64
    } else {
        u32_at(sb, 0x04) as u64
    }
}

/// What a superblock says, or what is wrong with it.
pub open spec fn layout_of(sb: Seq<u8>) -> Result<Ext4Layout, ScanFault> {
    let incompat = u32_at(sb, 0x60);
    let wide = incompat & INCOMPAT_64BIT != 0;
    let log = u32_at(sb, 0x18);
    let block_size = (1024 * two_to(log as nat)) as u64;
    let blocks = blocks_in(sb, wide);
    let first = u32_at(sb, 0x14) as u64;
    let per_group = u32_at(sb, 0x20) as u64;
    let desc_size = if wide {
        u16_at(sb, 0xFE) as u64
    } else {
        32
    };
    if sb.len() < SUPERBLOCK_LEN {
        Err(ScanFault::ShortSuperblock { len: sb.len() as usize })
    } else if u16_at(sb, 0x38) != EXT4_MAGIC {
        Err(ScanFault::NotExt { magic: u16_at(sb, 0x38) })
    } else if log > 6 {
        Err(ScanFault::BlockSize { log })
    } else if incompat & INCOMPAT_META_BG != 0 {
        Err(ScanFault::MetaBg)
    } else if blocks == 0 || per_group == 0 || blocks <= first {
        Err(ScanFault::Geometry { blocks, per_group, first })
    } else if per_group > block_size * 8 {
        Err(ScanFault::TooManyBits { per_group, bits: (block_size * 8) as u64 })
    } else if wide && (desc_size < 64 || desc_size > block_size || !power_of_two(
        desc_size as nat,
    )) {
        Err(ScanFault::DescSize { size: desc_size })
    } else {
        Ok(
            Ext4Layout {
                block_size,
                blocks_count: blocks,
                first_data_block: first,
                blocks_per_group: per_group,
                desc_size,
                sixty_four_bit: wide,
                gdt_block: (first + 1) as u64,
                group_count: align::div_up(blocks - first, per_group as int) as u64,
                clean: u16_at(sb, 0x3A) & STATE_CLEANLY_UNMOUNTED != 0 && incompat
                    & INCOMPAT_RECOVER == 0,
            },
        )
    }
}

fn block_size_for(log: u32) -> (n: u64)
    requires
        log <= 6,
    ensures
        n == 1024 * two_to(log as nat),
        1024 <= n <= 65536,
{
    reveal_with_fuel(two_to, 7);
    let mut n: u64 = 1024;
    let mut i: u32 = 0;
    while i < log
        invariant
            i <= log <= 6,
            n == 1024 * two_to(i as nat),
            n <= 65536,
            two_to(6) == 64,
            i < 6 ==> n <= 32768,
        decreases log - i,
    {
        n = n * 2;
        i = i + 1;
        proof {
            reveal_with_fuel(two_to, 7);
        }
    }
    n
}

/// Reads the superblock: the kibibyte at offset 1024.
pub fn parse_superblock(sb: &[u8]) -> (r: Result<Ext4Layout, ScanFault>)
    ensures
        r == layout_of(sb@),
        r matches Ok(layout) ==> layout.wf(),
{
    if sb.len() < SUPERBLOCK_LEN {
        return Err(ScanFault::ShortSuperblock { len: sb.len() });
    }
    let magic: u16 = le16(sb, 0x38);
    if magic != EXT4_MAGIC {
        return Err(ScanFault::NotExt { magic });
    }
    let log: u32 = le32(sb, 0x18);
    if log > 6 {
        return Err(ScanFault::BlockSize { log });
    }
    let block_size: u64 = block_size_for(log);
    let incompat: u32 = le32(sb, 0x60);
    if incompat & INCOMPAT_META_BG != 0 {
        return Err(ScanFault::MetaBg);
    }
    let wide: bool = incompat & INCOMPAT_64BIT != 0;
    let needs_recovery: bool = incompat & INCOMPAT_RECOVER != 0;
    let low: u32 = le32(sb, 0x04);
    let blocks: u64 = if wide {
        let high: u32 = le32(sb, 0x150);
        high as u64 * 0x1_0000_0000 + low as u64
    } else {
        low as u64
    };
    let first: u64 = le32(sb, 0x14) as u64;
    let per_group: u64 = le32(sb, 0x20) as u64;
    if blocks == 0 || per_group == 0 || blocks <= first {
        return Err(ScanFault::Geometry { blocks, per_group, first });
    }
    if per_group > block_size * 8 {
        return Err(ScanFault::TooManyBits { per_group, bits: block_size * 8 });
    }
    let desc_size: u64 = if wide {
        let d: u64 = le16(sb, 0xFE) as u64;
        if d < 64 || d > block_size || !is_power_of_two(d) {
            return Err(ScanFault::DescSize { size: d });
        }
        d
    } else {
        32
    };
    let state: u16 = le16(sb, 0x3A);
    Ok(
        Ext4Layout {
            block_size,
            blocks_count: blocks,
            first_data_block: first,
            blocks_per_group: per_group,
            desc_size,
            sixty_four_bit: wide,
            gdt_block: first + 1,
            group_count: align::div_ceil(blocks - first, per_group),
            clean: state & STATE_CLEANLY_UNMOUNTED != 0 && !needs_recovery,
        },
    )
}

/// The block that a group descriptor names for the group's bitmap.
pub open spec fn bitmap_named(desc: Seq<u8>, wide: bool) -> u64 {
    if wide && desc.len() >= 36 {
        (u32_at(desc, 0x20) * 0x1_0000_0000 + u32_at(desc, 0)) as u64
    } else {
        u32_at(desc, 0) as u64
    }
}

/// The block of a group's bitmap, from its descriptor.
pub fn bitmap_block(desc: &[u8], layout: &Ext4Layout) -> (r: Result<u64, ScanFault>)
    ensures
        r == (if desc@.len() < 32 {
            Err(ScanFault::ShortDescriptor)
        } else {
            let block = bitmap_named(desc@, layout.sixty_four_bit);
            if block == 0 || block >= layout.blocks_count {
                Err(ScanFault::BitmapBlock { block, blocks: layout.blocks_count })
            } else {
                Ok(block)
            }
        }),
{
    if desc.len() < 32 {
        return Err(ScanFault::ShortDescriptor);
    }
    let low: u64 = le32(desc, 0) as u64;
    let high: u64 = if layout.sixty_four_bit && desc.len() >= 36 {
        le32(desc, 0x20) as u64
    } else {
        0
    };
    let block: u64 = high * 0x1_0000_0000 + low;
    if block == 0 || block >= layout.blocks_count {
        return Err(ScanFault::BitmapBlock { block, blocks: layout.blocks_count });
    }
    Ok(block)
}

/// Whether a descriptor says that its group's bitmap is not initialised.
pub open spec fn uninit(desc: Seq<u8>) -> bool {
    desc.len() >= 20 && u16_at(desc, 0x12) & BG_BLOCK_UNINIT != 0
}

/// Whether a descriptor says that its group's bitmap is not initialised.
pub fn block_uninit(desc: &[u8]) -> (yes: bool)
    ensures
        yes == uninit(desc@),
{
    desc.len() >= 20 && le16(desc, 0x12) & BG_BLOCK_UNINIT != 0
}

/// Whether bit `i` of a bitmap is there and clear: the block is free. Bits
/// that are missing count as set.
pub open spec fn is_free(bitmap: Seq<u8>, i: int) -> bool {
    i / 8 < bitmap.len() && (bitmap[i / 8] >> ((i % 8) as u8)) & 1 == 0
}

fn bit_free(bitmap: &[u8], i: u64) -> (yes: bool)
    ensures
        yes == is_free(bitmap@, i as int),
{
    let byte: u64 = i / 8;
    if byte < bitmap.len() as u64 {
        (bitmap[byte as usize] >> ((i % 8) as u8)) & 1 == 0
    } else {
        false
    }
}

/// Whether a block lies in one of the runs, each a first block and a count.
pub open spec fn in_blocks(runs: Seq<(u64, u64)>, block: int) -> bool {
    exists|i: int| 0 <= i < runs.len() && (#[trigger] runs[i]).0 <= block < runs[i].0 + runs[i].1
}

/// Whether runs are in ascending order, not empty, and apart by at least one.
pub open spec fn apart(runs: Seq<(u64, u64)>) -> bool {
    &&& forall|i: int| 0 <= i < runs.len() ==> (#[trigger] runs[i]).1 > 0
    &&& forall|i: int, j: int|
        0 <= i < j < runs.len() ==> (#[trigger] runs[i]).0 + runs[i].1 < (#[trigger] runs[j]).0
}

/// Whether `runs` are the maximal runs of free blocks of a group: its first
/// block is `first`, and it has `n` of them.
pub open spec fn are_free_blocks(
    runs: Seq<(u64, u64)>,
    bitmap: Seq<u8>,
    first: int,
    n: int,
) -> bool {
    &&& apart(runs)
    &&& forall|b: int|
        #[trigger] in_blocks(runs, b) <==> first <= b < first + n && is_free(bitmap, b - first)
}

/// Runs of blocks, in bytes.
pub open spec fn scaled(runs: Seq<(u64, u64)>, block_size: int) -> Seq<(u64, u64)> {
    runs.map_values(
        |r: (u64, u64)| ((r.0 * block_size) as u64, (r.1 * block_size) as u64),
    )
}

/// The maximal runs of free blocks of a group.
fn free_blocks(bitmap: &[u8], first: u64, n: u64) -> (runs: Vec<(u64, u64)>)
    requires
        first + n <= u64::MAX,
    ensures
        are_free_blocks(runs@, bitmap@, first as int, n as int),
{
    let mut runs: Vec<(u64, u64)> = Vec::new();
    let mut start: Option<u64> = None;
    let mut i: u64 = 0;
    assert forall|b: int| #[trigger] in_blocks(runs@, b) implies false by {}
    while i < n
        invariant
            i <= n,
            first + n <= u64::MAX,
            apart(runs@),
            forall|k: int| 0 <= k < runs@.len() ==> (#[trigger] runs@[k]).0 + runs@[k].1 <= first + i,
            match start {
                Some(s) => {
                    &&& first <= s < first + i
                    &&& forall|k: int|
                        0 <= k < runs@.len() ==> (#[trigger] runs@[k]).0 + runs@[k].1 < s
                    &&& forall|b: int|
                        #[trigger] in_blocks(runs@, b) <==> first <= b < s && is_free(
                            bitmap@,
                            b - first,
                        )
                    &&& forall|b: int| s <= b < first + i ==> #[trigger] is_free(bitmap@, b - first)
                },
                None => {
                    &&& i > 0 ==> !is_free(bitmap@, i - 1)
                    &&& forall|k: int|
                        i > 0 && 0 <= k < runs@.len() ==> (#[trigger] runs@[k]).0 + runs@[k].1
                            < first + i
                    &&& i == 0 ==> runs@.len() == 0
                    &&& forall|b: int|
                        #[trigger] in_blocks(runs@, b) <==> first <= b < first + i && is_free(
                            bitmap@,
                            b - first,
                        )
                },
            },
        decreases n - i,
    {
        let free: bool = bit_free(bitmap, i);
        let block: u64 = first + i;
        let ghost before = runs@;
        assert(is_free(bitmap@, block - first) == free);
        if free {
            match start {
                Some(_) => {},
                None => {
                    start = Some(block);
                },
            }
        } else {
            match start {
                Some(s) => {
                    runs.push((s, block - s));
                    proof {
                        lemma_one_more(before, runs@, bitmap@, first as int, s, block);
                    }
                    start = None;
                },
                None => {},
            }
        }
        i = i + 1;
    }
    match start {
        Some(s) => {
            let ghost before = runs@;
            let end: u64 = first + n;
            runs.push((s, end - s));
            proof {
                lemma_one_more(before, runs@, bitmap@, first as int, s, end);
            }
        },
        None => {},
    }
    runs
}

proof fn lemma_one_more(
    before: Seq<(u64, u64)>,
    after: Seq<(u64, u64)>,
    bitmap: Seq<u8>,
    first: int,
    s: u64,
    end: u64,
)
    requires
        apart(before),
        first <= s < end,
        after == before.push((s, (end - s) as u64)),
        forall|k: int| 0 <= k < before.len() ==> (#[trigger] before[k]).0 + before[k].1 < s,
        forall|b: int|
            #[trigger] in_blocks(before, b) <==> first <= b < s && is_free(bitmap, b - first),
        forall|b: int| s <= b < end ==> #[trigger] is_free(bitmap, b - first),
    ensures
        apart(after),
        forall|k: int| 0 <= k < after.len() ==> (#[trigger] after[k]).0 + after[k].1 <= end,
        forall|b: int|
            #[trigger] in_blocks(after, b) <==> first <= b < end && is_free(bitmap, b - first),
{
    assert forall|b: int|
        #[trigger] in_blocks(after, b) <==> first <= b < end && is_free(bitmap, b - first) by {
        let last = before.len() as int;
        assert(after[last].0 == s);
        if in_blocks(before, b) {
            let k = choose|k: int|
                0 <= k < before.len() && (#[trigger] before[k]).0 <= b < before[k].0 + before[k].1;
            assert(after[k].0 <= b < after[k].0 + after[k].1);
        }
        if in_blocks(after, b) {
            let k = choose|k: int|
                0 <= k < after.len() && (#[trigger] after[k]).0 <= b < after[k].0 + after[k].1;
            if k < last {
                assert(before[k].0 <= b < before[k].0 + before[k].1);
                assert(in_blocks(before, b));
            } else {
                assert(is_free(bitmap, b - first));
            }
        }
        if s <= b < end {
            assert(after[last].0 <= b < after[last].0 + after[last].1);
        }
    }
}

/// The free byte ranges of a group, from its bitmap: start and length of each
/// maximal run of free blocks, relative to the start of the volume. Bit `i`,
/// least significant first, is that of block `group_first_block + i`; a set
/// bit means in use.
pub fn free_runs(
    bitmap: &[u8],
    group_first_block: u64,
    blocks_in_group: u64,
    block_size: u64,
) -> (runs: Vec<(u64, u64)>)
    requires
        group_first_block + blocks_in_group <= u64::MAX,
        (group_first_block + blocks_in_group) * block_size <= u64::MAX,
    ensures
        exists|blocks: Seq<(u64, u64)>| #[trigger]
            are_free_blocks(
                blocks,
                bitmap@,
                group_first_block as int,
                blocks_in_group as int,
            ) && runs@ == scaled(blocks, block_size as int),
{
    let blocks = free_blocks(bitmap, group_first_block, blocks_in_group);
    let mut runs: Vec<(u64, u64)> = Vec::new();
    let mut i: usize = 0;
    let ghost end: int = group_first_block + blocks_in_group;
    while i < blocks.len()
        invariant
            i <= blocks@.len(),
            are_free_blocks(
                blocks@,
                bitmap@,
                group_first_block as int,
                blocks_in_group as int,
            ),
            end == group_first_block + blocks_in_group,
            end * block_size <= u64::MAX,
            runs@ == scaled(blocks@.take(i as int), block_size as int),
        decreases blocks@.len() - i,
    {
        let (start, count) = blocks[i];
        proof {
            lemma_run_bound(blocks@, bitmap@, group_first_block as int, blocks_in_group as int, i as int);
            assert(start * block_size <= end * block_size && count * block_size <= end
                * block_size) by (nonlinear_arith)
                requires
                    start <= end,
                    count <= end,
                    block_size >= 0,
            ;
            assert(blocks@.take(i + 1) =~= blocks@.take(i as int).push(blocks@[i as int]));
        }
        runs.push((start * block_size, count * block_size));
        i = i + 1;
        assert(runs@ =~= scaled(blocks@.take(i as int), block_size as int));
    }
    assert(blocks@.take(blocks@.len() as int) =~= blocks@);
    runs
}

proof fn lemma_run_bound(blocks: Seq<(u64, u64)>, bitmap: Seq<u8>, first: int, n: int, i: int)
    requires
        are_free_blocks(blocks, bitmap, first, n),
        0 <= i < blocks.len(),
    ensures
        first <= blocks[i].0,
        blocks[i].0 + blocks[i].1 <= first + n,
{
    let r = blocks[i];
    assert(in_blocks(blocks, r.0 as int));
    assert(r.0 <= r.0 + r.1 - 1);
    assert(in_blocks(blocks, r.0 + r.1 - 1));
}

/// Whether a byte lies in one of the ranges.
pub open spec fn in_runs(runs: Seq<(u64, u64)>, x: int) -> bool {
    in_blocks(runs, x)
}

/// A byte lies in the free ranges of a group exactly if its block is one of
/// the group's and is free.
pub proof fn free_bytes_are_those_of_free_blocks(
    blocks: Seq<(u64, u64)>,
    bitmap: Seq<u8>,
    first: int,
    n: int,
    block_size: int,
    x: int,
)
    requires
        are_free_blocks(blocks, bitmap, first, n),
        block_size > 0,
        0 <= first,
        0 <= n,
        (first + n) * block_size <= u64::MAX,
        0 <= x,
    ensures
        in_runs(scaled(blocks, block_size), x) <==> first <= x / block_size < first + n && is_free(
            bitmap,
            x / block_size - first,
        ),
{
    let runs = scaled(blocks, block_size);
    let b = x / block_size;
    vstd::arithmetic::div_mod::lemma_fundamental_div_mod(x, block_size);
    assert forall|i: int| 0 <= i < blocks.len() implies (runs[i].0 <= x < runs[i].0 + runs[i].1 <==> (
    #[trigger] blocks[i]).0 <= b < blocks[i].0 + blocks[i].1) && runs[i].0 == blocks[i].0
        * block_size && runs[i].1 == blocks[i].1 * block_size by {
        lemma_run_bound(blocks, bitmap, first, n, i);
        lemma_scale(blocks[i].0 as int, blocks[i].1 as int, first + n, block_size, x);
    }
    if in_runs(runs, x) {
        let i = choose|i: int|
            0 <= i < runs.len() && (#[trigger] runs[i]).0 <= x < runs[i].0 + runs[i].1;
        assert(blocks[i].0 <= b < blocks[i].0 + blocks[i].1);
        assert(in_blocks(blocks, b));
    }
    if in_blocks(blocks, b) {
        let i = choose|i: int|
            0 <= i < blocks.len() && (#[trigger] blocks[i]).0 <= b < blocks[i].0 + blocks[i].1;
        assert(runs[i].0 <= x < runs[i].0 + runs[i].1);
    }
}

proof fn lemma_scale(start: int, count: int, end: int, bs: int, x: int)
    requires
        0 <= start,
        0 <= count,
        start + count <= end,
        end * bs <= u64::MAX,
        bs > 0,
        0 <= x,
    ensures
        0 <= start * bs <= u64::MAX,
        0 <= count * bs <= u64::MAX,
        start * bs <= x < start * bs + count * bs <==> start <= x / bs < start + count,
{
    vstd::arithmetic::div_mod::lemma_fundamental_div_mod(x, bs);
    let q = x / bs;
    let r = x % bs;
    assert(0 <= start * bs <= end * bs && 0 <= count * bs <= end * bs) by (nonlinear_arith)
        requires
            0 <= start <= end,
            0 <= count <= end,
            bs > 0,
    ;
    assert(start * bs <= x <==> start <= q) by (nonlinear_arith)
        requires
            x == bs * q + r,
            0 <= r < bs,
            bs > 0,
    ;
    let e = start + count;
    assert(x < e * bs <==> q < e) by (nonlinear_arith)
        requires
            x == bs * q + r,
            0 <= r < bs,
            bs > 0,
    ;
    assert(e * bs == start * bs + count * bs) by (nonlinear_arith)
        requires
            e == start + count,
    ;
}

/// The whole slots inside a range, the first one left out: start and length.
pub open spec fn span_of(start: int, len: int, slot_size: int) -> Option<(int, int)> {
    if slot_size == 0 {
        None
    } else {
        let up = align::div_up(start, slot_size);
        let first = (if up < 1 {
            1
        } else {
            up
        }) * slot_size;
        let last = (start + len) / slot_size * slot_size;
        if last > first {
            Some((first, last - first))
        } else {
            None
        }
    }
}

/// The whole slots inside a free range, if it holds any. Slot 0 is never
/// offered: the superblock and the group descriptors live there.
pub fn aligned_span(start: u64, len: u64, slot_size: u64) -> (r: Option<(u64, u64)>)
    requires
        start + len <= u64::MAX,
    ensures
        match r {
            Some((s, l)) => span_of(start as int, len as int, slot_size as int) == Some(
                (s as int, l as int),
            ),
            None => span_of(start as int, len as int, slot_size as int) is None,
        },
{
    if slot_size == 0 {
        return None;
    }
    let up: u64 = align::div_ceil(start, slot_size);
    let k: u64 = if up < 1 {
        1
    } else {
        up
    };
    proof {
        assert(k as int * slot_size <= 0xFFFF_FFFF_FFFF_FFFF * 0xFFFF_FFFF_FFFF_FFFF) by (
        nonlinear_arith)
            requires
                0 <= k <= 0xFFFF_FFFF_FFFF_FFFF,
                0 <= slot_size <= 0xFFFF_FFFF_FFFF_FFFF,
        ;
        vstd::arithmetic::div_mod::lemma_fundamental_div_mod(
            (start + len) as int,
            slot_size as int,
        );
        let e = (start + len) as int;
        let q = e / slot_size as int;
        assert(q * slot_size == e - e % (slot_size as int)) by (nonlinear_arith)
            requires
                e == slot_size * q + e % (slot_size as int),
        ;
    }
    let first: u128 = k as u128 * slot_size as u128;
    let last: u64 = ((start + len) / slot_size) * slot_size;
    if (last as u128) > first {
        Some((first as u64, last - first as u64))
    } else {
        None
    }
}

/// What is offered lies inside the range, consists of whole slots, leaves the
/// first slot out, and holds every other whole slot of the range.
pub proof fn a_span_is_the_whole_slots_of_a_range(start: int, len: int, slot_size: int)
    requires
        0 <= start,
        0 <= len,
        slot_size > 0,
    ensures
        match span_of(start, len, slot_size) {
            Some((s, l)) => {
                &&& s % slot_size == 0
                &&& l % slot_size == 0
                &&& l > 0
                &&& s >= slot_size
                &&& start <= s
                &&& s + l <= start + len
                &&& forall|k: int|
                    k >= 1 && start <= #[trigger] (k * slot_size) && k * slot_size + slot_size
                        <= start + len ==> s <= k * slot_size && k * slot_size + slot_size <= s + l
            },
            None => forall|k: int|
                k >= 1 && start <= #[trigger] (k * slot_size) ==> k * slot_size + slot_size > start
                    + len,
        },
{
    let up = align::div_up(start, slot_size);
    align::div_up_is_least(start, slot_size);
    let f = if up < 1 {
        1
    } else {
        up
    };
    let e = start + len;
    let q = e / slot_size;
    vstd::arithmetic::div_mod::lemma_fundamental_div_mod(e, slot_size);
    let first = f * slot_size;
    let last = q * slot_size;
    vstd::arithmetic::div_mod::lemma_mod_multiples_basic(f, slot_size);
    vstd::arithmetic::div_mod::lemma_mod_multiples_basic(q - f, slot_size);
    assert(last - first == (q - f) * slot_size && last <= e < last + slot_size) by (
    nonlinear_arith)
        requires
            first == f * slot_size,
            last == q * slot_size,
            e == slot_size * q + e % slot_size,
            0 <= e % slot_size < slot_size,
    ;
    assert(first >= slot_size && first >= up * slot_size) by (nonlinear_arith)
        requires
            first == f * slot_size,
            f >= 1,
            f >= up,
            slot_size > 0,
    ;
    assert forall|k: int|
        k >= 1 && start <= #[trigger] (k * slot_size) && k * slot_size + slot_size <= e implies first
        <= k * slot_size && k * slot_size + slot_size <= last by {
        assert(k >= up);
        assert(first <= k * slot_size && k * slot_size + slot_size <= last) by (nonlinear_arith)
            requires
                k >= f,
                first == f * slot_size,
                last == q * slot_size,
                k * slot_size + slot_size <= e,
                e < last + slot_size,
                slot_size > 0,
        ;
    }
}

/// The part of a device to read for a range of bytes: whole blocks of the
/// device, and where the range begins in them.
#[derive(Debug, Clone, Copy, PartialEq, Eq, Structural)]
pub struct Window {
    pub start: u64,
    pub len: u64,
    pub skip: u64,
}

/// Where the window of a range begins.
pub open spec fn window_start(offset: int, block: int) -> int {
    offset / block * block
}

/// Where the window of a range ends.
pub open spec fn window_end(offset: int, len: int, block: int) -> int {
    align::div_up(offset + len, block) * block
}

/// A device's block size, at least one.
pub open spec fn unit(block_size: u32) -> int {
    if block_size == 0 {
        1
    } else {
        block_size as int
    }
}

/// The window of a range: the least one of whole blocks around it. One that
/// runs past the end of the device is refused.
pub fn read_at(offset: u64, len: usize, block_size: u32, capacity: u64) -> (r: Result<
    Window,
    ScanFault,
>)
    ensures
        ({
            let start = window_start(offset as int, unit(block_size));
            let end = window_end(offset as int, len as int, unit(block_size));
            r == (if end > capacity {
                Err(ScanFault::PastEnd { offset: offset as u128, len, capacity })
            } else {
                Ok(
                    Window {
                        start: start as u64,
                        len: (end - start) as u64,
                        skip: (offset - start) as u64,
                    },
                )
            })
        }),
{
    let bs: u64 = if block_size == 0 {
        1
    } else {
        block_size as u64
    };
    let ghost b = unit(block_size);
    let ghost e = offset + len;
    let wanted: u128 = offset as u128 + len as u128;
    let rest: u128 = wanted % bs as u128;
    proof {
        vstd::arithmetic::div_mod::lemma_fundamental_div_mod(e, b);
        vstd::arithmetic::div_mod::lemma_fundamental_div_mod(offset as int, b);
        let q = e / b;
        let m = e % b;
        assert(q * b == e - m && (q + 1) * b == e - m + b) by (nonlinear_arith)
            requires
                e == b * q + m,
        ;
        let p = offset as int / b;
        let o = offset as int % b;
        assert(p * b == offset - o) by (nonlinear_arith)
            requires
                offset == b * p + o,
        ;
    }
    let end: u128 = if rest == 0 {
        wanted
    } else {
        wanted - rest + bs as u128
    };
    let skip: u64 = offset % bs;
    let start: u64 = offset - skip;
    if end > capacity as u128 {
        return Err(ScanFault::PastEnd { offset: offset as u128, len, capacity });
    }
    Ok(Window { start, len: end as u64 - start, skip })
}

/// A window holds its range, consists of whole blocks and lies on the device.
pub proof fn a_window_holds_its_range(offset: int, len: int, block: int)
    requires
        0 <= offset,
        0 <= len,
        block > 0,
    ensures
        window_start(offset, block) <= offset,
        offset + len <= window_end(offset, len, block),
        window_start(offset, block) % block == 0,
        window_end(offset, len, block) % block == 0,
        offset - window_start(offset, block) < block,
        window_end(offset, len, block) - (offset + len) < block,
{
    vstd::arithmetic::div_mod::lemma_fundamental_div_mod(offset, block);
    align::div_up_is_least(offset + len, block);
    vstd::arithmetic::div_mod::lemma_mod_multiples_basic(offset / block, block);
    vstd::arithmetic::div_mod::lemma_mod_multiples_basic(
        align::div_up(offset + len, block),
        block,
    );
    let p = offset / block;
    assert(p * block == offset - offset % block) by (nonlinear_arith)
        requires
            offset == block * p + offset % block,
    ;
}

/// What a scan found.
pub struct FreeMap {
    /// Free byte ranges, start and length, relative to the volume.
    pub runs: Vec<(u64, u64)>,
    /// How many bytes the filesystem takes for free.
    pub free_bytes: u64,
    /// Of those, the bytes in whole slots: what a discard can give back.
    pub reclaimable_bytes: u64,
    /// Groups left out because their bitmap is not initialised.
    pub groups_skipped: u64,
    pub groups_scanned: u64,
    pub layout: Option<Ext4Layout>,
}

/// First block of a group.
pub open spec fn group_first(l: Ext4Layout, g: int) -> int {
    l.first_data_block + g * l.blocks_per_group
}

/// First block after the groups before `g`.
pub open spec fn group_edge(l: Ext4Layout, g: int) -> int {
    if group_first(l, g) < l.blocks_count {
        group_first(l, g)
    } else {
        l.blocks_count as int
    }
}

/// How many blocks a group has.
pub open spec fn group_len(l: Ext4Layout, g: int) -> int {
    group_edge(l, g + 1) - group_edge(l, g)
}

/// Whether a byte belongs to a free block of a group, by the group's bitmap.
pub open spec fn group_free(l: Ext4Layout, g: int, bitmap: Seq<u8>, x: int) -> bool {
    let b = x / l.block_size as int;
    group_first(l, g) <= b < group_first(l, g) + group_len(l, g) && is_free(
        bitmap,
        b - group_first(l, g),
    )
}

/// Where a group's descriptor lies.
pub open spec fn desc_at(l: Ext4Layout, g: int) -> int {
    l.gdt_block * l.block_size + g * l.desc_size
}

/// How many bytes are in the ranges together.
pub open spec fn total(runs: Seq<(u64, u64)>) -> int
    decreases runs.len(),
{
    if runs.len() == 0 {
        0
    } else {
        total(runs.drop_last()) + runs.last().1
    }
}

/// How many bytes are in whole slots of the ranges together.
pub open spec fn span_total(runs: Seq<(u64, u64)>, slot_size: int) -> int
    decreases runs.len(),
{
    if runs.len() == 0 {
        0
    } else {
        span_total(runs.drop_last(), slot_size) + (match span_of(
            runs.last().0 as int,
            runs.last().1 as int,
            slot_size,
        ) {
            Some((s, l)) => l,
            None => 0,
        })
    }
}

/// Whether ranges are in ascending order, not empty, and end by `hi`.
pub open spec fn ordered(runs: Seq<(u64, u64)>, hi: int) -> bool {
    &&& forall|i: int| 0 <= i < runs.len() ==> (#[trigger] runs[i]).1 > 0
    &&& forall|i: int| 0 <= i < runs.len() ==> (#[trigger] runs[i]).0 + runs[i].1 <= hi
    &&& forall|i: int, j: int|
        0 <= i < j < runs.len() ==> (#[trigger] runs[i]).0 + runs[i].1 <= (#[trigger] runs[j]).0
}

proof fn lemma_total(runs: Seq<(u64, u64)>, hi: int)
    requires
        ordered(runs, hi),
    ensures
        0 <= total(runs),
        runs.len() > 0 ==> total(runs) <= hi,
    decreases runs.len(),
{
    if runs.len() > 0 {
        let rest = runs.drop_last();
        let last = runs.last();
        assert forall|i: int| 0 <= i < rest.len() implies (#[trigger] rest[i]).0 + rest[i].1
            <= last.0 by {
            assert(runs[i].0 + runs[i].1 <= runs[runs.len() - 1].0);
        }
        assert(ordered(rest, last.0 as int));
        lemma_total(rest, last.0 as int);
    }
}

proof fn lemma_span_total(runs: Seq<(u64, u64)>, slot_size: int)
    requires
        0 <= slot_size,
    ensures
        0 <= span_total(runs, slot_size) <= total(runs),
    decreases runs.len(),
{
    if runs.len() > 0 {
        lemma_span_total(runs.drop_last(), slot_size);
        if slot_size > 0 {
            a_span_is_the_whole_slots_of_a_range(
                runs.last().0 as int,
                runs.last().1 as int,
                slot_size,
            );
        }
    }
}

/// A scan under way: the groups before `group` are done.
pub struct Scanner {
    pub layout: Ext4Layout,
    pub capacity: u64,
    pub slot_size: u64,
    pub group: u64,
    pub map: FreeMap,
}

proof fn lemma_group(l: Ext4Layout, g: int)
    requires
        l.wf(),
        0 <= g < l.group_count,
    ensures
        group_first(l, g) < l.blocks_count,
        group_edge(l, g) == group_first(l, g),
        0 < group_len(l, g) <= l.blocks_per_group,
        group_first(l, g) + group_len(l, g) == group_edge(l, g + 1),
        group_edge(l, g + 1) <= l.blocks_count,
        group_len(l, g) == (if l.blocks_per_group <= l.blocks_count - group_first(l, g) {
            l.blocks_per_group as int
        } else {
            l.blocks_count - group_first(l, g)
        }),
{
    align::div_up_is_least(l.blocks_count - l.first_data_block, l.blocks_per_group as int);
    assert(g * l.blocks_per_group < l.blocks_count - l.first_data_block);
    assert((g + 1) * l.blocks_per_group == g * l.blocks_per_group + l.blocks_per_group) by (
    nonlinear_arith);
}

proof fn lemma_group_zero(l: Ext4Layout)
    requires
        l.wf(),
    ensures
        group_edge(l, 0) == l.first_data_block,
{
    assert(0 * l.blocks_per_group == 0) by (nonlinear_arith);
}

proof fn lemma_bytes(l: Ext4Layout, capacity: u64, b: int)
    requires
        l.blocks_count * l.block_size <= capacity,
        0 <= b <= l.blocks_count,
        l.wf(),
    ensures
        0 <= b * l.block_size <= capacity,
{
    assert(0 <= b * l.block_size <= l.blocks_count * l.block_size) by (nonlinear_arith)
        requires
            0 <= b <= l.blocks_count,
            l.block_size >= 0,
    ;
}

impl Scanner {
    /// What a scan under way keeps: the filesystem fits the volume, and the
    /// ranges found are in order and lie in the groups that are done.
    pub open spec fn wf(&self) -> bool {
        &&& self.layout.wf()
        &&& self.layout.blocks_count * self.layout.block_size <= self.capacity
        &&& self.group <= self.layout.group_count
        &&& ordered(
            self.map.runs@,
            group_edge(self.layout, self.group as int) * self.layout.block_size,
        )
        &&& self.map.free_bytes == total(self.map.runs@)
        &&& self.map.groups_skipped + self.map.groups_scanned == self.group
        &&& self.map.layout == Some(self.layout)
    }

    /// Begins the scan of a volume with its superblock. A filesystem that
    /// claims more than the volume holds is refused.
    pub fn begin(sb: &[u8], capacity: u64, slot_size: u64) -> (r: Result<Scanner, ScanFault>)
        ensures
            match layout_of(sb@) {
                Err(fault) => r matches Err(f) && f == fault,
                Ok(layout) => {
                    let claims = layout.blocks_count * layout.block_size;
                    if claims > capacity {
                        r matches Err(f) && f == (ScanFault::TooLarge {
                            claims: claims as u128,
                            capacity,
                        })
                    } else {
                        r matches Ok(s) && s.wf() && s.layout == layout && s.capacity == capacity
                            && s.slot_size == slot_size && s.group == 0 && s.map.runs@.len() == 0
                            && s.map.groups_skipped == 0
                    }
                },
            },
    {
        let layout: Ext4Layout = match parse_superblock(sb) {
            Ok(layout) => layout,
            Err(fault) => {
                return Err(fault);
            },
        };
        proof {
            assert(layout.blocks_count * layout.block_size <= 0xFFFF_FFFF_FFFF_FFFF * 65536) by (
            nonlinear_arith)
                requires
                    0 <= layout.blocks_count <= 0xFFFF_FFFF_FFFF_FFFF,
                    0 <= layout.block_size <= 65536,
            ;
            lemma_group_zero(layout);
        }
        let claims: u128 = layout.blocks_count as u128 * layout.block_size as u128;
        if claims > capacity as u128 {
            return Err(ScanFault::TooLarge { claims, capacity });
        }
        Ok(
            Scanner {
                layout,
                capacity,
                slot_size,
                group: 0,
                map: FreeMap {
                    runs: Vec::new(),
                    free_bytes: 0,
                    reclaimable_bytes: 0,
                    groups_skipped: 0,
                    groups_scanned: 0,
                    layout: Some(layout),
                },
            },
        )
    }

    /// Where the next group's descriptor lies, and its size; nothing when all
    /// groups are done. One that no 64-bit offset reaches is past the end.
    pub fn next_descriptor(&self) -> (r: Result<Option<(u64, usize)>, ScanFault>)
        requires
            self.wf(),
        ensures
            r == (if self.group == self.layout.group_count {
                Ok(None)
            } else if desc_at(self.layout, self.group as int) > u64::MAX {
                Err(
                    ScanFault::PastEnd {
                        offset: desc_at(self.layout, self.group as int) as u128,
                        len: self.layout.desc_size as usize,
                        capacity: self.capacity,
                    },
                )
            } else {
                Ok(
                    Some(
                        (
                            desc_at(self.layout, self.group as int) as u64,
                            self.layout.desc_size as usize,
                        ),
                    ),
                )
            }),
            r matches Ok(Some((at, n))) ==> at - self.layout.gdt_block * self.layout.block_size
                == self.group * self.layout.desc_size && n == self.layout.desc_size,
            r is Ok ==> (r == Ok::<Option<(u64, usize)>, ScanFault>(None) <==> self.group
                == self.layout.group_count),
    {
        if self.group == self.layout.group_count {
            return Ok(None);
        }
        let l: &Ext4Layout = &self.layout;
        proof {
            assert(l.gdt_block * l.block_size <= 0x1_0000_0000 * 65536 && self.group * l.desc_size
                <= 0xFFFF_FFFF_FFFF_FFFF * 65536) by (nonlinear_arith)
                requires
                    0 <= l.gdt_block <= 0x1_0000_0000,
                    0 <= l.block_size <= 65536,
                    0 <= self.group <= 0xFFFF_FFFF_FFFF_FFFF,
                    0 <= l.desc_size <= 65536,
            ;
        }
        let at: u128 = l.gdt_block as u128 * l.block_size as u128 + self.group as u128
            * l.desc_size as u128;
        let len: usize = l.desc_size as usize;
        if at > u64::MAX as u128 {
            return Err(ScanFault::PastEnd { offset: at, len, capacity: self.capacity });
        }
        Ok(Some((at as u64, len)))
    }

    /// Takes the next group's descriptor, and tells where its bitmap, one
    /// block, lies. A group whose bitmap is not initialised is left out.
    pub fn take_descriptor(&mut self, desc: &[u8]) -> (r: Result<Option<u64>, ScanFault>)
        requires
            old(self).wf(),
            old(self).group < old(self).layout.group_count,
        ensures
            final(self).wf(),
            final(self).layout == old(self).layout,
            final(self).capacity == old(self).capacity,
            final(self).slot_size == old(self).slot_size,
            final(self).map.runs@ == old(self).map.runs@,
            final(self).group == old(self).group + (if uninit(desc@) {
                1int
            } else {
                0
            }),
            final(self).map.groups_skipped == old(self).map.groups_skipped + (if uninit(desc@) {
                1int
            } else {
                0
            }),
            final(self).map.groups_scanned == old(self).map.groups_scanned,
            r == (if uninit(desc@) {
                Ok(None)
            } else if desc@.len() < 32 {
                Err(ScanFault::ShortDescriptor)
            } else {
                let block = bitmap_named(desc@, old(self).layout.sixty_four_bit);
                if block == 0 || block >= old(self).layout.blocks_count {
                    Err(ScanFault::BitmapBlock { block, blocks: old(self).layout.blocks_count })
                } else {
                    Ok(Some((block * old(self).layout.block_size) as u64))
                }
            }),
            r matches Ok(Some(at)) ==> at == bitmap_named(desc@, old(self).layout.sixty_four_bit)
                * old(self).layout.block_size && at + old(self).layout.block_size
                <= old(self).capacity,
    {
        if block_uninit(desc) {
            proof {
                self.lemma_edge();
            }
            self.map.groups_skipped = self.map.groups_skipped + 1;
            self.group = self.group + 1;
            return Ok(None);
        }
        match bitmap_block(desc, &self.layout) {
            Err(fault) => Err(fault),
            Ok(block) => {
                proof {
                    lemma_bytes(self.layout, self.capacity, block as int);
                    lemma_bytes(self.layout, self.capacity, block + 1);
                    assert((block + 1) * self.layout.block_size == block * self.layout.block_size
                        + self.layout.block_size) by (nonlinear_arith);
                }
                Ok(Some(block * self.layout.block_size))
            },
        }
    }

    proof fn lemma_edge(&self)
        requires
            self.wf(),
            self.group < self.layout.group_count,
        ensures
            ordered(
                self.map.runs@,
                group_edge(self.layout, self.group + 1) * self.layout.block_size,
            ),
            group_edge(self.layout, self.group as int) * self.layout.block_size <= group_edge(
                self.layout,
                self.group + 1,
            ) * self.layout.block_size,
    {
        let l = self.layout;
        let g = self.group as int;
        lemma_group(l, g);
        assert(group_edge(l, g) * l.block_size <= group_edge(l, g + 1) * l.block_size) by (
        nonlinear_arith)
            requires
                group_edge(l, g) <= group_edge(l, g + 1),
                l.block_size >= 0,
        ;
    }

    /// Takes the bitmap of the next group: its free ranges are added.
    pub fn take_bitmap(&mut self, bitmap: &[u8])
        requires
            old(self).wf(),
            old(self).group < old(self).layout.group_count,
        ensures
            final(self).wf(),
            final(self).layout == old(self).layout,
            final(self).capacity == old(self).capacity,
            final(self).slot_size == old(self).slot_size,
            final(self).group == old(self).group + 1,
            final(self).map.groups_skipped == old(self).map.groups_skipped,
            final(self).map.groups_scanned == old(self).map.groups_scanned + 1,
            forall|x: int|
                0 <= x ==> (#[trigger] in_runs(final(self).map.runs@, x) <==> in_runs(
                    old(self).map.runs@,
                    x,
                ) || group_free(old(self).layout, old(self).group as int, bitmap@, x)),
    {
        let l: Ext4Layout = self.layout;
        let ghost g = self.group as int;
        proof {
            lemma_group(l, g);
            self.lemma_edge();
            lemma_bytes(l, self.capacity, group_edge(l, g + 1));
        }
        let first: u64 = l.first_data_block + self.group * l.blocks_per_group;
        let rest: u64 = l.blocks_count - first;
        let count: u64 = if l.blocks_per_group <= rest {
            l.blocks_per_group
        } else {
            rest
        };
        let found = free_runs(bitmap, first, count, l.block_size);
        let ghost blocks = choose|blocks: Seq<(u64, u64)>| #[trigger]
            are_free_blocks(blocks, bitmap@, first as int, count as int) && found@ == scaled(
                blocks,
                l.block_size as int,
            );
        let ghost before = self.map.runs@;
        let ghost hi = group_edge(l, g + 1) * l.block_size;
        proof {
            lemma_scaled_order(blocks, bitmap@, first as int, count as int, l.block_size as int);
        }
        let mut i: usize = 0;
        while i < found.len()
            invariant
                i <= found@.len(),
                hi == group_edge(l, g + 1) * l.block_size,
                hi <= self.capacity,
                l == self.layout,
                l == old(self).layout,
                self.capacity == old(self).capacity,
                self.slot_size == old(self).slot_size,
                self.group == old(self).group,
                self.map.groups_skipped == old(self).map.groups_skipped,
                self.map.groups_scanned == old(self).map.groups_scanned,
                self.map.layout == old(self).map.layout,
                before == old(self).map.runs@,
                ordered(before, first * l.block_size),
                first * l.block_size <= hi,
                ordered(found@, hi),
                forall|k: int| 0 <= k < found@.len() ==> (#[trigger] found@[k]).0 >= first
                    * l.block_size,
                self.map.runs@ == before + found@.take(i as int),
                self.map.free_bytes == total(self.map.runs@),
            decreases found@.len() - i,
        {
            let (start, len) = found[i];
            let ghost next = before + found@.take(i + 1);
            proof {
                assert(found@.take(i + 1) =~= found@.take(i as int).push(found@[i as int]));
                assert(next =~= self.map.runs@.push((start, len)));
                assert(next.drop_last() =~= self.map.runs@);
                lemma_joined(before, found@.take(i + 1), first * l.block_size, hi);
                lemma_total(next, hi);
            }
            self.map.free_bytes = self.map.free_bytes + len;
            self.map.runs.push((start, len));
            i = i + 1;
        }
        proof {
            assert(found@.take(found@.len() as int) =~= found@);
            lemma_joined(before, found@, first * l.block_size, hi);
            assert forall|x: int| 0 <= x implies (#[trigger] in_runs(self.map.runs@, x) <==> in_runs(
                before,
                x,
            ) || group_free(l, g, bitmap@, x)) by {
                lemma_in_joined(before, found@, x);
                free_bytes_are_those_of_free_blocks(
                    blocks,
                    bitmap@,
                    first as int,
                    count as int,
                    l.block_size as int,
                    x,
                );
            }
        }
        self.map.groups_scanned = self.map.groups_scanned + 1;
        self.group = self.group + 1;
    }

    /// Ends the scan: ranges that touch become one, and what whole slots hold
    /// is counted.
    pub fn finish(self) -> (map: FreeMap)
        requires
            self.wf(),
        ensures
            map.layout == Some(self.layout),
            map.free_bytes == total(map.runs@),
            map.groups_skipped == self.map.groups_skipped,
            map.groups_scanned == self.map.groups_scanned,
            apart(map.runs@),
            forall|x: int| #[trigger] in_runs(map.runs@, x) <==> in_runs(self.map.runs@, x),
            map.reclaimable_bytes == span_total(map.runs@, self.slot_size as int),
    {
        let capacity: u64 = self.capacity;
        proof {
            if self.group < self.layout.group_count {
                lemma_group(self.layout, self.group as int);
            }
            lemma_bytes(self.layout, self.capacity, group_edge(self.layout, self.group as int));
        }
        let merged = merge(&self.map.runs, Ghost(capacity as int));
        let mut reclaimable: u64 = 0;
        let mut i: usize = 0;
        let slot_size: u64 = self.slot_size;
        while i < merged.len()
            invariant
                i <= merged@.len(),
                ordered(merged@, capacity as int),
                reclaimable == span_total(merged@.take(i as int), slot_size as int),
            decreases merged@.len() - i,
        {
            let (start, len) = merged[i];
            proof {
                let now = merged@.take(i + 1);
                assert(now.drop_last() =~= merged@.take(i as int));
                assert(now.last() == merged@[i as int]);
                lemma_span_total(now, slot_size as int);
                assert(ordered(now, capacity as int));
                lemma_total(now, capacity as int);
            }
            match aligned_span(start, len, slot_size) {
                Some((_, l)) => {
                    reclaimable = reclaimable + l;
                },
                None => {},
            }
            i = i + 1;
        }
        assert(merged@.take(merged@.len() as int) =~= merged@);
        FreeMap {
            runs: merged,
            free_bytes: self.map.free_bytes,
            reclaimable_bytes: reclaimable,
            groups_skipped: self.map.groups_skipped,
            groups_scanned: self.map.groups_scanned,
            layout: Some(self.layout),
        }
    }
}

proof fn lemma_scaled_order(blocks: Seq<(u64, u64)>, bitmap: Seq<u8>, first: int, n: int, bs: int)
    requires
        are_free_blocks(blocks, bitmap, first, n),
        bs > 0,
        0 <= first,
        0 <= n,
        (first + n) * bs <= u64::MAX,
    ensures
        ordered(scaled(blocks, bs), (first + n) * bs),
        forall|k: int| 0 <= k < blocks.len() ==> (#[trigger] scaled(blocks, bs)[k]).0 >= first * bs,
{
    let runs = scaled(blocks, bs);
    assert forall|i: int| 0 <= i < runs.len() implies (#[trigger] runs[i]).1 > 0 && runs[i].0
        + runs[i].1 <= (first + n) * bs && runs[i].0 >= first * bs && runs[i].0 == blocks[i].0 * bs
        && runs[i].1 == blocks[i].1 * bs by {
        lemma_run_bound(blocks, bitmap, first, n, i);
        let s = blocks[i].0 as int;
        let c = blocks[i].1 as int;
        lemma_scale(s, c, first + n, bs, 0);
        assert(c * bs > 0 && s * bs + c * bs <= (first + n) * bs && s * bs >= first * bs) by (
        nonlinear_arith)
            requires
                c > 0,
                bs > 0,
                s >= first,
                s + c <= first + n,
        ;
    }
    assert forall|i: int, j: int| 0 <= i < j < runs.len() implies (#[trigger] runs[i]).0 + runs[i].1
        <= (#[trigger] runs[j]).0 by {
        let a = blocks[i].0 as int;
        let c = blocks[i].1 as int;
        let b = blocks[j].0 as int;
        assert(blocks[i].0 + blocks[i].1 < blocks[j].0);
        assert(a * bs + c * bs <= b * bs) by (nonlinear_arith)
            requires
                a + c < b,
                bs > 0,
        ;
    }
}

proof fn lemma_joined(a: Seq<(u64, u64)>, b: Seq<(u64, u64)>, mid: int, hi: int)
    requires
        ordered(a, mid),
        ordered(b, hi),
        forall|k: int| 0 <= k < b.len() ==> (#[trigger] b[k]).0 >= mid,
        mid <= hi,
    ensures
        ordered(a + b, hi),
{
    let all = a + b;
    assert forall|i: int| 0 <= i < all.len() implies (#[trigger] all[i]).1 > 0 && all[i].0
        + all[i].1 <= hi by {
        if i < a.len() {
            assert(all[i] == a[i]);
        } else {
            assert(all[i] == b[i - a.len()]);
        }
    }
    assert forall|i: int, j: int| 0 <= i < j < all.len() implies (#[trigger] all[i]).0 + all[i].1
        <= (#[trigger] all[j]).0 by {
        if j < a.len() {
            assert(all[i] == a[i] && all[j] == a[j]);
        } else if i < a.len() {
            assert(all[i] == a[i] && all[j] == b[j - a.len()]);
        } else {
            assert(all[i] == b[i - a.len()] && all[j] == b[j - a.len()]);
        }
    }
}

proof fn lemma_in_joined(a: Seq<(u64, u64)>, b: Seq<(u64, u64)>, x: int)
    ensures
        in_runs(a + b, x) <==> in_runs(a, x) || in_runs(b, x),
{
    let all = a + b;
    if in_runs(all, x) {
        let i = choose|i: int|
            0 <= i < all.len() && (#[trigger] all[i]).0 <= x < all[i].0 + all[i].1;
        if i < a.len() {
            assert(a[i].0 <= x < a[i].0 + a[i].1);
        } else {
            assert(b[i - a.len()].0 <= x < b[i - a.len()].0 + b[i - a.len()].1);
        }
    }
    if in_runs(a, x) {
        let i = choose|i: int| 0 <= i < a.len() && (#[trigger] a[i]).0 <= x < a[i].0 + a[i].1;
        assert(all[i].0 <= x < all[i].0 + all[i].1);
    }
    if in_runs(b, x) {
        let i = choose|i: int| 0 <= i < b.len() && (#[trigger] b[i]).0 <= x < b[i].0 + b[i].1;
        assert(all[i + a.len()].0 <= x < all[i + a.len()].0 + all[i + a.len()].1);
    }
}

/// Makes ranges that touch one.
fn merge(runs: &Vec<(u64, u64)>, hi: Ghost<int>) -> (merged: Vec<(u64, u64)>)
    requires
        ordered(runs@, hi@),
        hi@ <= u64::MAX,
    ensures
        apart(merged@),
        ordered(merged@, hi@),
        total(merged@) == total(runs@),
        forall|x: int| #[trigger] in_runs(merged@, x) <==> in_runs(runs@, x),
{
    let mut merged: Vec<(u64, u64)> = Vec::new();
    let mut i: usize = 0;
    while i < runs.len()
        invariant
            i <= runs@.len(),
            ordered(runs@, hi@),
            hi@ <= u64::MAX,
            apart(merged@),
            merged@.len() == 0 <==> i == 0,
            total(merged@) == total(runs@.take(i as int)),
            i > 0 ==> merged@.last().0 + merged@.last().1 == runs@[i - 1].0 + runs@[i - 1].1,
            forall|k: int| 0 <= k < merged@.len() ==> (#[trigger] merged@[k]).0 + merged@[k].1 <= hi@,
            forall|x: int| #[trigger] in_runs(merged@, x) <==> in_runs(runs@.take(i as int), x),
        decreases runs@.len() - i,
    {
        let (start, len) = runs[i];
        let n: usize = merged.len();
        let ghost before = merged@;
        let ghost seen = runs@.take(i as int);
        proof {
            assert(runs@.take(i + 1) =~= seen + seq![runs@[i as int]]);
            assert(runs@.take(i + 1).drop_last() =~= seen);
            if i > 0 {
                assert(runs@[i - 1].0 + runs@[i - 1].1 <= runs@[i as int].0);
            }
            assert(runs@[i as int].0 + runs@[i as int].1 <= hi@);
        }
        if n > 0 && merged[n - 1].0 + merged[n - 1].1 == start {
            let (first, had) = merged[n - 1];
            merged.set(n - 1, (first, had + len));
            proof {
                assert(merged@.drop_last() =~= before.drop_last());
                assert forall|x: int| #[trigger] in_runs(merged@, x) <==> in_runs(
                    runs@.take(i + 1),
                    x,
                ) by {
                    lemma_in_joined(seen, seq![runs@[i as int]], x);
                    lemma_in_one(runs@[i as int], x);
                    lemma_in_grown(before, merged@, len, x);
                }
            }
        } else {
            merged.push((start, len));
            proof {
                assert(merged@.drop_last() =~= before);
                assert forall|x: int| #[trigger] in_runs(merged@, x) <==> in_runs(
                    runs@.take(i + 1),
                    x,
                ) by {
                    lemma_in_joined(seen, seq![runs@[i as int]], x);
                    lemma_in_joined(before, seq![runs@[i as int]], x);
                    assert(merged@ =~= before + seq![runs@[i as int]]);
                }
                assert forall|a: int, b: int| 0 <= a < b < merged@.len() implies (
                #[trigger] merged@[a]).0 + merged@[a].1 < (#[trigger] merged@[b]).0 by {
                    if b == n && a < n - 1 {
                        assert(before[a].0 + before[a].1 < before[n - 1].0);
                    }
                }
            }
        }
        i = i + 1;
    }
    assert(runs@.take(runs@.len() as int) =~= runs@);
    merged
}

proof fn lemma_in_one(r: (u64, u64), x: int)
    ensures
        in_runs(seq![r], x) <==> r.0 <= x < r.0 + r.1,
{
    let s = seq![r];
    assert(s[0] == r);
}

proof fn lemma_in_grown(before: Seq<(u64, u64)>, after: Seq<(u64, u64)>, len: u64, x: int)
    requires
        before.len() > 0,
        before.last().1 + len <= u64::MAX,
        after == before.update(
            before.len() - 1,
            (before.last().0, (before.last().1 + len) as u64),
        ),
    ensures
        in_runs(after, x) <==> in_runs(before, x) || before.last().0 + before.last().1 <= x
            < before.last().0 + before.last().1 + len,
{
    let last = before.len() - 1;
    if in_runs(before, x) {
        let i = choose|i: int|
            0 <= i < before.len() && (#[trigger] before[i]).0 <= x < before[i].0 + before[i].1;
        assert(after[i].0 <= x < after[i].0 + after[i].1);
    }
    if in_runs(after, x) {
        let i = choose|i: int|
            0 <= i < after.len() && (#[trigger] after[i]).0 <= x < after[i].0 + after[i].1;
        if i < last {
            assert(before[i].0 <= x < before[i].0 + before[i].1);
        } else if x < before[last].0 + before[last].1 {
            assert(before[last].0 <= x < before[last].0 + before[last].1);
        }
    }
    if before[last].0 + before[last].1 <= x < before[last].0 + before[last].1 + len {
        assert(after[last].0 <= x < after[last].0 + after[last].1);
    }
}

/// What a look at one group of a volume in memory comes to: a fault, nothing
/// where its bitmap is not initialised, or its bitmap.
pub open spec fn group_bitmap(image: Seq<u8>, l: Ext4Layout, g: int) -> Result<
    Option<Seq<u8>>,
    ScanFault,
> {
    let at = desc_at(l, g);
    let desc = image.subrange(at, at + l.desc_size);
    let block = bitmap_named(desc, l.sixty_four_bit);
    if at + l.desc_size > image.len() {
        Err(
            ScanFault::PastEnd {
                offset: at as u128,
                len: l.desc_size as usize,
                capacity: image.len() as u64,
            },
        )
    } else if uninit(desc) {
        Ok(None)
    } else if block == 0 || block >= l.blocks_count {
        Err(ScanFault::BitmapBlock { block, blocks: l.blocks_count })
    } else {
        Ok(Some(image.subrange(block * l.block_size, block * l.block_size + l.block_size)))
    }
}

/// How many of the first `n` groups have a bitmap.
pub open spec fn with_bitmap(image: Seq<u8>, l: Ext4Layout, n: nat) -> nat
    decreases n,
{
    if n == 0 {
        0
    } else {
        with_bitmap(image, l, (n - 1) as nat) + if group_bitmap(image, l, n - 1) matches Ok(
            Some(_),
        ) {
            1nat
        } else {
            0nat
        }
    }
}

/// How many of the first `n` groups are left out, their bitmap not initialised.
pub open spec fn without_bitmap(image: Seq<u8>, l: Ext4Layout, n: nat) -> nat
    decreases n,
{
    if n == 0 {
        0
    } else {
        without_bitmap(image, l, (n - 1) as nat) + if group_bitmap(image, l, n - 1) matches Ok(
            None,
        ) {
            1nat
        } else {
            0nat
        }
    }
}

/// Whether a byte of a volume in memory belongs to a free block of one of the
/// first `n` groups.
pub open spec fn free_byte(image: Seq<u8>, l: Ext4Layout, n: int, x: int) -> bool {
    exists|g: int|
        0 <= g < n && (#[trigger] group_bitmap(image, l, g) matches Ok(Some(bitmap)) && group_free(
            l,
            g,
            bitmap,
            x,
        ))
}

/// The superblock of a volume in memory, and whether it can be scanned.
pub open spec fn scannable(image: Seq<u8>) -> Result<Ext4Layout, ScanFault> {
    if image.len() < 2048 {
        Err(ScanFault::PastEnd { offset: 1024, len: SUPERBLOCK_LEN, capacity: image.len() as u64 })
    } else {
        match layout_of(image.subrange(1024, 2048)) {
            Err(fault) => Err(fault),
            Ok(l) => if l.blocks_count * l.block_size > image.len() {
                Err(
                    ScanFault::TooLarge {
                        claims: (l.blocks_count * l.block_size) as u128,
                        capacity: image.len() as u64,
                    },
                )
            } else {
                Ok(l)
            },
        }
    }
}

fn part(image: &[u8], at: u64, len: usize) -> (r: Result<Vec<u8>, ScanFault>)
    ensures
        match r {
            Ok(b) => at + len <= image@.len() && b@ == image@.subrange(at as int, at + len),
            Err(f) => at + len > image@.len() && f == (ScanFault::PastEnd {
                offset: at as u128,
                len,
                capacity: image@.len() as u64,
            }),
        },
{
    let total: usize = image.len();
    proof {
        vstd::arithmetic::div_mod::lemma_div_basics(at as int);
        vstd::arithmetic::div_mod::lemma_div_basics(at + len);
        assert(at as int % 1 == 0 && (at + len) % 1 == 0);
        assert(window_start(at as int, 1) == at && window_end(at as int, len as int, 1) == at + len)
            by (nonlinear_arith)
            requires
                at as int / 1 == at,
                (at + len) / 1 == at + len,
                (at + len) % 1 == 0,
        ;
    }
    match read_at(at, len, 1, total as u64) {
        Err(f) => Err(f),
        Ok(w) => {
            let from: usize = at as usize;
            let s: &[u8] = vstd::slice::slice_subrange(image, from, from + len);
            let mut b: Vec<u8> = Vec::new();
            b.extend_from_slice(s);
            assert(b@ =~= image@.subrange(at as int, at + len));
            Ok(b)
        },
    }
}

/// Scans a volume that is in memory.
pub fn scan(image: &[u8], slot_size: u64) -> (r: Result<FreeMap, ScanFault>)
    ensures
        match r {
            Err(fault) => match scannable(image@) {
                Err(f) => f == fault,
                Ok(l) => exists|g: int|
                    0 <= g < l.group_count && #[trigger] group_bitmap(image@, l, g) == Err::<
                        Option<Seq<u8>>,
                        ScanFault,
                    >(fault) && forall|h: int|
                        0 <= h < g ==> #[trigger] group_bitmap(image@, l, h) is Ok,
            },
            Ok(map) => scannable(image@) matches Ok(l) && {
                &&& forall|g: int| 0 <= g < l.group_count ==> #[trigger] group_bitmap(
                    image@,
                    l,
                    g,
                ) is Ok
                &&& apart(map.runs@)
                &&& forall|x: int|
                    0 <= x ==> (#[trigger] in_runs(map.runs@, x) <==> free_byte(
                        image@,
                        l,
                        l.group_count as int,
                        x,
                    ))
                &&& map.layout == Some(l)
                &&& map.reclaimable_bytes == span_total(map.runs@, slot_size as int)
                &&& map.free_bytes == total(map.runs@)
                &&& map.groups_scanned == with_bitmap(image@, l, l.group_count as nat)
                &&& map.groups_skipped == without_bitmap(image@, l, l.group_count as nat)
                &&& map.groups_skipped + map.groups_scanned == l.group_count
            },
        },
{
    let sb = match part(image, SUPERBLOCK_OFFSET, SUPERBLOCK_LEN) {
        Ok(sb) => sb,
        Err(f) => {
            return Err(f);
        },
    };
    let mut scanner = match Scanner::begin(&sb, image.len() as u64, slot_size) {
        Ok(s) => s,
        Err(f) => {
            return Err(f);
        },
    };
    let ghost l = scanner.layout;
    let total: usize = image.len();
    loop
        invariant
            scanner.wf(),
            scanner.layout == l,
            scannable(image@) == Ok::<Ext4Layout, ScanFault>(l),
            scanner.capacity == total == image@.len(),
            scanner.slot_size == slot_size,
            scanner.map.groups_scanned == with_bitmap(image@, l, scanner.group as nat),
            scanner.map.groups_skipped == without_bitmap(image@, l, scanner.group as nat),
            forall|g: int| 0 <= g < scanner.group ==> #[trigger] group_bitmap(image@, l, g) is Ok,
            forall|x: int|
                0 <= x ==> (#[trigger] in_runs(scanner.map.runs@, x) <==> free_byte(
                    image@,
                    l,
                    scanner.group as int,
                    x,
                )),
        ensures
            scanner.wf(),
            scanner.layout == l,
            scanner.slot_size == slot_size,
            scanner.group == l.group_count,
            scanner.map.groups_scanned == with_bitmap(image@, l, scanner.group as nat),
            scanner.map.groups_skipped == without_bitmap(image@, l, scanner.group as nat),
            forall|g: int| 0 <= g < scanner.group ==> #[trigger] group_bitmap(image@, l, g) is Ok,
            forall|x: int|
                0 <= x ==> (#[trigger] in_runs(scanner.map.runs@, x) <==> free_byte(
                    image@,
                    l,
                    scanner.group as int,
                    x,
                )),
        decreases scanner.layout.group_count - scanner.group,
    {
        let ghost g = scanner.group as int;
        let ghost before = scanner.map.runs@;
        let (at, len) = match scanner.next_descriptor() {
            Ok(Some(place)) => place,
            Ok(None) => {
                break;
            },
            Err(f) => {
                assert(group_bitmap(image@, l, g) == Err::<Option<Seq<u8>>, ScanFault>(f));
                return Err(f);
            },
        };
        let desc = match part(image, at, len) {
            Ok(d) => d,
            Err(f) => {
                assert(group_bitmap(image@, l, g) == Err::<Option<Seq<u8>>, ScanFault>(f));
                return Err(f);
            },
        };
        match scanner.take_descriptor(&desc) {
            Err(f) => {
                assert(group_bitmap(image@, l, g) == Err::<Option<Seq<u8>>, ScanFault>(f));
                return Err(f);
            },
            Ok(None) => {
                assert(group_bitmap(image@, l, g) == Ok::<Option<Seq<u8>>, ScanFault>(None));
                proof {
                    assert forall|x: int| 0 <= x implies (#[trigger] in_runs(
                        scanner.map.runs@,
                        x,
                    ) <==> free_byte(image@, l, scanner.group as int, x)) by {
                        lemma_free_byte(image@, l, g, x);
                    }
                }
            },
            Ok(Some(place)) => {
                let size: usize = scanner.layout.block_size as usize;
                let bitmap = match part(image, place, size) {
                    Ok(b) => b,
                    Err(f) => {
                        return Err(f);
                    },
                };
                assert(group_bitmap(image@, l, g) == Ok::<Option<Seq<u8>>, ScanFault>(
                    Some(bitmap@),
                ));
                scanner.take_bitmap(&bitmap);
                proof {
                    assert forall|x: int| 0 <= x implies (#[trigger] in_runs(
                        scanner.map.runs@,
                        x,
                    ) <==> free_byte(image@, l, scanner.group as int, x)) by {
                        lemma_free_byte(image@, l, g, x);
                        assert(in_runs(before, x) <==> free_byte(image@, l, g, x));
                    }
                }
            },
        }
    }
    Ok(scanner.finish())
}

proof fn lemma_free_byte(image: Seq<u8>, l: Ext4Layout, g: int, x: int)
    requires
        0 <= g,
    ensures
        free_byte(image, l, g + 1, x) <==> free_byte(image, l, g, x) || (group_bitmap(image, l, g)
            matches Ok(Some(bitmap)) && group_free(l, g, bitmap, x)),
{
    if free_byte(image, l, g, x) {
        let h = choose|h: int|
            0 <= h < g && (#[trigger] group_bitmap(image, l, h) matches Ok(Some(bitmap))
                && group_free(l, h, bitmap, x));
        assert(0 <= h < g + 1);
    }
}

} // verus!
