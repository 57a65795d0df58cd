//! Which byte of a volume is free, said in terms of the volume alone.
//!
//! An ext2, ext3 or ext4 filesystem is blocks in groups. The descriptors of the
//! groups stand one behind the other in the block behind the first; each names
//! the block of its group's bitmap, and each bit of that is one block.
use crate::bytes;
use crate::fs::ext4_free;
use crate::fs::ext4_free::{Ext4Layout, ScanFault};
use vstd::prelude::*;

verus! {

/// The descriptors of two groups never share a byte: the first stands where the
/// block behind the first data block begins, and each of the others directly
/// behind the one before.
pub proof fn descriptors_stand_back_to_back(l: Ext4Layout, g: int, h: int)
    requires
        l.wf(),
        0 <= g < h,
    ensures
        ext4_free::desc_at(l, 0) == (l.first_data_block + 1) * l.block_size,
        ext4_free::desc_at(l, g + 1) == ext4_free::desc_at(l, g) + l.desc_size,
        ext4_free::desc_at(l, g) + l.desc_size <= ext4_free::desc_at(l, h),
{
    let d = l.desc_size as int;
    assert(0 * d == 0) by (nonlinear_arith);
    assert((g + 1) * d == g * d + d && (g + 1) * d <= h * d) by (nonlinear_arith)
        requires
            0 <= g < h,
            0 <= d,
    ;
}

/// Groups follow each other without a gap, from the first data block on; each
/// has as many blocks as the superblock says, but the last, which ends with the
/// filesystem. Every block is in exactly one.
pub proof fn groups_share_out_the_blocks(l: Ext4Layout, b: int)
    requires
        l.wf(),
        l.first_data_block <= b < l.blocks_count,
    ensures
        ({
            let g = (b - l.first_data_block) / l.blocks_per_group as int;
            &&& 0 <= g < l.group_count
            &&& ext4_free::group_first(l, g) <= b < ext4_free::group_first(l, g)
                + ext4_free::group_len(l, g)
            &&& b - ext4_free::group_first(l, g) == (b - l.first_data_block)
                % l.blocks_per_group as int
            &&& forall|h: int|
                0 <= h < l.group_count && ext4_free::group_first(l, h) <= b
                    < ext4_free::group_first(l, h) + #[trigger] ext4_free::group_len(l, h) ==> h == g
        }),
{
    let per = l.blocks_per_group as int;
    let n = b - l.first_data_block;
    let g = n / per;
    let all = l.blocks_count - l.first_data_block;
    vstd::arithmetic::div_mod::lemma_fundamental_div_mod(n, per);
    vstd::arithmetic::div_mod::lemma_div_pos_is_pos(n, per);
    crate::align::div_up_is_least(all, per);
    assert(g * per == n - n % per && (g + 1) * per == n - n % per + per) by (nonlinear_arith)
        requires
            n == per * g + n % per,
    ;
    if g >= l.group_count {
        let c = l.group_count as int;
        assert(c * per <= g * per) by (nonlinear_arith)
            requires
                c <= g,
                per > 0,
        ;
    }
    assert forall|h: int|
        0 <= h < l.group_count && ext4_free::group_first(l, h) <= b < ext4_free::group_first(l, h)
            + #[trigger] ext4_free::group_len(l, h) implies h == g by {
        assert((h + 1) * per == h * per + per) by (nonlinear_arith);
        if h < g {
            assert((h + 1) * per <= g * per) by (nonlinear_arith)
                requires
                    h + 1 <= g,
                    per > 0,
            ;
        }
        if h > g {
            assert((g + 1) * per <= h * per) by (nonlinear_arith)
                requires
                    g + 1 <= h,
                    per > 0,
            ;
        }
    }
}

/// The bit of a byte that counts `2` to the power `k`.
pub open spec fn bit_of(byte: u8, k: int) -> int {
    (byte as int / ext4_free::two_to(k as nat) as int) % 2
}

/// Whether a group's descriptor says that its bitmap is not there: the second
/// flag of the number in bytes 18 and 19.
pub open spec fn says_uninitialised(image: Seq<u8>, at: int) -> bool {
    (bytes::le_value(image.subrange(at + 18, at + 20)) / 2) % 2 == 1
}

/// The block that the descriptor at `at` names: the number in its first four
/// bytes, and above that the one in bytes 32 to 35 where the filesystem counts
/// in 64 bits.
pub open spec fn block_named_at(image: Seq<u8>, at: int, wide: bool) -> int {
    let low = bytes::le_value(image.subrange(at, at + 4)) as int;
    if wide {
        low + 0x1_0000_0000 * bytes::le_value(image.subrange(at + 32, at + 36))
    } else {
        low
    }
}

/// A byte of a volume is free exactly if its block is one of the filesystem's
/// and the bit of that block is clear: in the bitmap that the descriptor of the
/// block's own group names, the bit that counts the blocks of the group, eight
/// to a byte and least significant first. A group whose bitmap is not there has
/// nothing free.
pub proof fn a_block_is_judged_by_its_own_bit(image: Seq<u8>, l: Ext4Layout, x: int)
    requires
        l.wf(),
        l.sixty_four_bit ==> l.desc_size >= 64,
        l.blocks_count * l.block_size <= image.len(),
        forall|g: int| 0 <= g < l.group_count ==> #[trigger] ext4_free::group_bitmap(image, l, g)
            is Ok,
        0 <= x,
    ensures
        ext4_free::free_byte(image, l, l.group_count as int, x) <==> {
            let b = x / l.block_size as int;
            let n = b - l.first_data_block;
            let g = n / l.blocks_per_group as int;
            let i = n % l.blocks_per_group as int;
            let at = (l.first_data_block + 1) * l.block_size + g * l.desc_size;
            &&& l.first_data_block <= b < l.blocks_count
            &&& !says_uninitialised(image, at)
            &&& bit_of(
                image[block_named_at(image, at, l.sixty_four_bit) * l.block_size + i / 8],
                i % 8,
            ) == 0
        },
{
    let b = x / l.block_size as int;
    let n = b - l.first_data_block;
    let per = l.blocks_per_group as int;
    let g = n / per;
    let i = n % per;
    vstd::arithmetic::div_mod::lemma_div_pos_is_pos(x, l.block_size as int);
    if l.first_data_block <= b < l.blocks_count {
        groups_share_out_the_blocks(l, b);
        lemma_own_group(image, l, g, i);
        if ext4_free::free_byte(image, l, l.group_count as int, x) {
            let h = choose|h: int|
                0 <= h < l.group_count && (#[trigger] ext4_free::group_bitmap(image, l, h)
                    matches Ok(Some(bitmap)) && ext4_free::group_free(l, h, bitmap, x));
            assert(ext4_free::group_len(l, h) == ext4_free::group_len(l, h));
            assert(h == g);
        }
    } else if ext4_free::free_byte(image, l, l.group_count as int, x) {
        let h = choose|h: int|
            0 <= h < l.group_count && (#[trigger] ext4_free::group_bitmap(image, l, h) matches Ok(
                Some(bitmap),
            ) && ext4_free::group_free(l, h, bitmap, x));
        lemma_inside(l, h, b);
    }
}

proof fn lemma_inside(l: Ext4Layout, h: int, b: int)
    requires
        l.wf(),
        0 <= h < l.group_count,
        ext4_free::group_first(l, h) <= b < ext4_free::group_first(l, h) + ext4_free::group_len(
            l,
            h,
        ),
    ensures
        l.first_data_block <= b < l.blocks_count,
{
    assert(0 <= h * l.blocks_per_group) by (nonlinear_arith)
        requires
            0 <= h,
    ;
    crate::align::div_up_is_least(l.blocks_count - l.first_data_block, l.blocks_per_group as int);
    assert(h * l.blocks_per_group < l.blocks_count - l.first_data_block);
}

/// What the look at the group `g` comes to, in terms of the volume.
proof fn lemma_own_group(image: Seq<u8>, l: Ext4Layout, g: int, i: int)
    requires
        l.wf(),
        l.sixty_four_bit ==> l.desc_size >= 64,
        l.blocks_count * l.block_size <= image.len(),
        0 <= g < l.group_count,
        0 <= i < l.blocks_per_group,
        ext4_free::group_bitmap(image, l, g) is Ok,
    ensures
        ({
            let at = (l.first_data_block + 1) * l.block_size + g * l.desc_size;
            match ext4_free::group_bitmap(image, l, g) {
                Ok(Some(bitmap)) => {
                    &&& !says_uninitialised(image, at)
                    &&& ext4_free::is_free(bitmap, i) <==> bit_of(
                        image[block_named_at(image, at, l.sixty_four_bit) * l.block_size + i / 8],
                        i % 8,
                    ) == 0
                },
                Ok(None) => says_uninitialised(image, at),
                Err(_) => false,
            }
        }),
{
    bytes::lemma_radix();
    let bs = l.block_size as int;
    let at = (l.first_data_block + 1) * bs + g * l.desc_size;
    assert(at == ext4_free::desc_at(l, g));
    assert(0 <= g * l.desc_size && 0 <= (l.first_data_block + 1) * bs) by (nonlinear_arith)
        requires
            0 <= g,
            0 <= l.desc_size,
            0 <= bs,
            0 <= l.first_data_block,
    ;
    let desc = image.subrange(at, at + l.desc_size);
    assert(at + l.desc_size <= image.len());
    assert(desc.subrange(0x12, 0x14) =~= image.subrange(at + 18, at + 20));
    assert(desc.subrange(0, 4) =~= image.subrange(at, at + 4));
    let flags = bytes::le_value(image.subrange(at + 18, at + 20));
    bytes::le_value_round_trip(image.subrange(at + 18, at + 20));
    let f = flags as u16;
    assert((f & 0x0002 != 0) == ((f / 2) % 2 == 1)) by (bit_vector);
    assert(ext4_free::uninit(desc) <==> says_uninitialised(image, at));
    bytes::le_value_round_trip(image.subrange(at, at + 4));
    let block = ext4_free::bitmap_named(desc, l.sixty_four_bit);
    if l.sixty_four_bit {
        assert(desc.subrange(0x20, 0x24) =~= image.subrange(at + 32, at + 36));
        bytes::le_value_round_trip(image.subrange(at + 32, at + 36));
    }
    assert(block == block_named_at(image, at, l.sixty_four_bit));
    let looked = ext4_free::group_bitmap(image, l, g);
    if looked is Ok && looked->Ok_0 is Some {
        let bitmap = looked->Ok_0->0;
        assert(block * bs + bs <= l.blocks_count * bs) by (nonlinear_arith)
            requires
                block + 1 <= l.blocks_count,
                bs > 0,
        ;
        assert(0 <= block * bs) by (nonlinear_arith)
            requires
                0 <= block,
                0 < bs,
        ;
        assert(bitmap == image.subrange(block * bs, block * bs + bs));
        assert(i / 8 < bs);
        let byte = bitmap[i / 8];
        assert(byte == image[block * bs + i / 8]);
        lemma_bit(byte, i % 8);
    }
}

proof fn lemma_bit(byte: u8, k: int)
    requires
        0 <= k < 8,
    ensures
        ((byte >> (k as u8)) & 1 == 0) <==> bit_of(byte, k) == 0,
{
    reveal_with_fuel(ext4_free::two_to, 9);
    let s = k as u8;
    assert(s < 8 ==> ((byte >> s) & 1 == 0) == ((byte >> s) % 2 == 0)) by (bit_vector);
    assert(byte >> 0 == byte && byte >> 1 == byte / 2 && byte >> 2 == byte / 4 && byte >> 3 == byte
        / 8 && byte >> 4 == byte / 16 && byte >> 5 == byte / 32 && byte >> 6 == byte / 64 && byte
        >> 7 == byte / 128) by (bit_vector);
}

/// A superblock is taken as it says: the number of blocks in bytes 4 to 7, the
/// first data block in 20 to 23, the blocks of a group in 32 to 35, and a block
/// of `1024` times two to the power of what is in 24 to 27. One of 64 bits has
/// the upper half of the number of blocks at byte 336, and the size of a
/// descriptor at 254; another's are 32 bytes long. It is clean where the first
/// bit of the state at byte 58 is set and no journal is to be replayed.
pub proof fn a_superblock_tells_its_layout(
    sb: Seq<u8>,
    blocks: u32,
    high: u32,
    first: u32,
    log: u32,
    per_group: u32,
    state: u16,
    features: u32,
    desc: u16,
    l: Ext4Layout,
)
    requires
        sb.subrange(4, 8) == bytes::le_bytes(blocks as nat, 4),
        sb.subrange(20, 24) == bytes::le_bytes(first as nat, 4),
        sb.subrange(24, 28) == bytes::le_bytes(log as nat, 4),
        sb.subrange(32, 36) == bytes::le_bytes(per_group as nat, 4),
        sb.subrange(58, 60) == bytes::le_bytes(state as nat, 2),
        sb.subrange(96, 100) == bytes::le_bytes(features as nat, 4),
        sb.subrange(254, 256) == bytes::le_bytes(desc as nat, 2),
        sb.subrange(336, 340) == bytes::le_bytes(high as nat, 4),
        ext4_free::layout_of(sb) == Ok::<Ext4Layout, ScanFault>(l),
    ensures
        sb.len() >= 1024,
        bytes::le_value(sb.subrange(56, 58)) == 0xEF53,
        log <= 6,
        l.block_size == 1024 * ext4_free::two_to(log as nat),
        (features / 16) % 2 == 0,
        l.sixty_four_bit <==> (features / 128) % 2 == 1,
        l.sixty_four_bit ==> l.blocks_count == high * 0x1_0000_0000 + blocks && l.desc_size == desc
            && 64 <= desc <= l.block_size,
        !l.sixty_four_bit ==> l.blocks_count == blocks && l.desc_size == 32,
        l.first_data_block == first,
        l.blocks_per_group == per_group,
        l.gdt_block == first + 1,
        l.clean <==> state % 2 == 1 && (features / 4) % 2 == 0,
        (l.group_count - 1) * per_group < l.blocks_count - first <= l.group_count * per_group,
        0 < per_group <= 8 * l.block_size,
        first < l.blocks_count,
{
    bytes::lemma_radix();
    bytes::le_round_trip(blocks as nat, 4);
    bytes::le_round_trip(high as nat, 4);
    bytes::le_round_trip(first as nat, 4);
    bytes::le_round_trip(log as nat, 4);
    bytes::le_round_trip(per_group as nat, 4);
    bytes::le_round_trip(state as nat, 2);
    bytes::le_round_trip(features as nat, 4);
    bytes::le_round_trip(desc as nat, 2);
    bytes::le_value_round_trip(sb.subrange(56, 58));
    reveal_with_fuel(ext4_free::two_to, 7);
    assert((features & 0x0080 != 0) == ((features / 128) % 2 == 1)) by (bit_vector);
    assert((features & 0x0010 != 0) == ((features / 16) % 2 == 1)) by (bit_vector);
    assert((features & 0x0004 == 0) == ((features / 4) % 2 == 0)) by (bit_vector);
    assert((state & 0x0001 != 0) == (state % 2 == 1)) by (bit_vector);
    let n = l.blocks_count - first;
    crate::align::div_up_is_least(n, per_group as int);
    let c = crate::align::div_up(n, per_group as int);
    assert((c - 1) * per_group < n);
    assert(c <= n) by (nonlinear_arith)
        requires
            (c - 1) * per_group < n,
            per_group >= 1,
            c >= 1,
    ;
}

/// Two to the power `n` doubles with every step.
pub proof fn powers_double(n: nat)
    ensures
        ext4_free::two_to(0) == 1,
        ext4_free::two_to(n + 1) == ext4_free::two_to(n) + ext4_free::two_to(n),
{
}

/// A byte is in one of the ranges exactly if one of them begins at it or before
/// and ends behind it; and what can be reclaimed of them is whole slots, not
/// more than is free.
pub proof fn ranges_hold_their_bytes(runs: Seq<(u64, u64)>, x: int, slot_size: int)
    requires
        slot_size > 0,
    ensures
        ext4_free::in_runs(runs, x) <==> exists|i: int|
            0 <= i < runs.len() && (#[trigger] runs[i]).0 <= x && x < runs[i].0 + runs[i].1,
        0 <= ext4_free::span_total(runs, slot_size) <= ext4_free::total(runs),
        ext4_free::span_total(runs, slot_size) % slot_size == 0,
    decreases runs.len(),
{
    vstd::arithmetic::div_mod::lemma_small_mod(0, slot_size as nat);
    if runs.len() > 0 {
        ranges_hold_their_bytes(runs.drop_last(), x, slot_size);
        ext4_free::a_span_is_the_whole_slots_of_a_range(
            runs.last().0 as int,
            runs.last().1 as int,
            slot_size,
        );
        let a = ext4_free::span_total(runs.drop_last(), slot_size);
        let c = ext4_free::span_total(runs, slot_size) - a;
        vstd::arithmetic::div_mod::lemma_add_mod_noop(a, c, slot_size);
        assert(a % slot_size == 0);
        assert(c % slot_size == 0);
        assert((a + c) % slot_size == 0);
    }
}

/// Free ranges are counted byte by byte: one more range adds its length, and
/// what whole slots it holds.
pub proof fn ranges_add_up(runs: Seq<(u64, u64)>, r: (u64, u64), slot_size: int)
    ensures
        ext4_free::total(Seq::<(u64, u64)>::empty()) == 0,
        ext4_free::total(runs.push(r)) == ext4_free::total(runs) + r.1,
        ext4_free::span_total(Seq::<(u64, u64)>::empty(), slot_size) == 0,
        ext4_free::span_total(runs.push(r), slot_size) == ext4_free::span_total(runs, slot_size) + (
        match ext4_free::span_of(r.0 as int, r.1 as int, slot_size) {
            Some((s, n)) => n,
            None => 0,
        }),
{
    assert(runs.push(r).drop_last() =~= runs);
}

/// A volume is scanned exactly if it holds a superblock at byte 1024 that makes
/// sense, and all the blocks that the superblock tells of.
pub proof fn when_a_volume_is_scanned(image: Seq<u8>, l: Ext4Layout)
    ensures
        ext4_free::scannable(image) == Ok::<Ext4Layout, ScanFault>(l) <==> image.len() >= 2048
            && ext4_free::layout_of(image.subrange(1024, 2048)) == Ok::<Ext4Layout, ScanFault>(l)
            && l.blocks_count * l.block_size <= image.len(),
{
}

/// A superblock that is sound is taken: with its magic, a block of 65536 bytes at
/// most, its groups in one table, blocks behind the first, no more of them in a
/// group than a bitmap has bits, and descriptors of a fitting size.
pub proof fn a_sound_superblock_is_taken(
    sb: Seq<u8>,
    blocks: u32,
    high: u32,
    first: u32,
    log: u32,
    per_group: u32,
    features: u32,
    desc: u16,
)
    requires
        sb.len() >= 1024,
        bytes::le_value(sb.subrange(56, 58)) == 0xEF53,
        sb.subrange(4, 8) == bytes::le_bytes(blocks as nat, 4),
        sb.subrange(20, 24) == bytes::le_bytes(first as nat, 4),
        sb.subrange(24, 28) == bytes::le_bytes(log as nat, 4),
        sb.subrange(32, 36) == bytes::le_bytes(per_group as nat, 4),
        sb.subrange(96, 100) == bytes::le_bytes(features as nat, 4),
        sb.subrange(254, 256) == bytes::le_bytes(desc as nat, 2),
        sb.subrange(336, 340) == bytes::le_bytes(high as nat, 4),
        log <= 6,
        (features / 16) % 2 == 0,
        0 < per_group <= 8192 * ext4_free::two_to(log as nat),
    ensures
        (features / 128) % 2 == 0 && first < blocks ==> ext4_free::layout_of(sb) is Ok,
        (features / 128) % 2 == 1 && first < high * 0x1_0000_0000 + blocks && 64 <= desc <= 1024
            * ext4_free::two_to(log as nat) && ext4_free::power_of_two(desc as nat)
            ==> ext4_free::layout_of(sb) is Ok,
{
    bytes::lemma_radix();
    bytes::le_round_trip(blocks as nat, 4);
    bytes::le_round_trip(high as nat, 4);
    bytes::le_round_trip(first as nat, 4);
    bytes::le_round_trip(log as nat, 4);
    bytes::le_round_trip(per_group as nat, 4);
    bytes::le_round_trip(features as nat, 4);
    bytes::le_round_trip(desc as nat, 2);
    bytes::le_value_round_trip(sb.subrange(56, 58));
    reveal_with_fuel(ext4_free::two_to, 7);
    assert((features & 0x0080 != 0) == ((features / 128) % 2 == 1)) by (bit_vector);
    assert((features & 0x0010 != 0) == ((features / 16) % 2 == 1)) by (bit_vector);
}

/// Why a superblock is refused: too short, without its magic, of too large a
/// block, or with its groups spread out.
pub proof fn why_a_superblock_is_refused(sb: Seq<u8>)
    ensures
        sb.len() < 1024 ==> ext4_free::layout_of(sb) == Err::<Ext4Layout, ScanFault>(
            ScanFault::ShortSuperblock { len: sb.len() as usize },
        ),
        sb.len() >= 1024 && bytes::le_value(sb.subrange(56, 58)) != 0xEF53 ==> (
        ext4_free::layout_of(sb) matches Err(f) && f is NotExt && f->magic == bytes::le_value(
            sb.subrange(56, 58),
        )),
        sb.len() >= 1024 && bytes::le_value(sb.subrange(56, 58)) == 0xEF53 && bytes::le_value(
            sb.subrange(24, 28),
        ) > 6 ==> (ext4_free::layout_of(sb) matches Err(f) && f is BlockSize && f->log
            == bytes::le_value(sb.subrange(24, 28))),
{
    if sb.len() >= 1024 {
        bytes::lemma_radix();
        bytes::le_value_round_trip(sb.subrange(56, 58));
        bytes::le_value_round_trip(sb.subrange(24, 28));
    }
}

/// Each group is counted once: as scanned where it has a bitmap, as skipped where
/// that is not initialised.
pub proof fn groups_are_counted(image: Seq<u8>, l: Ext4Layout, n: nat)
    ensures
        ext4_free::with_bitmap(image, l, 0) == 0,
        ext4_free::without_bitmap(image, l, 0) == 0,
        ext4_free::group_bitmap(image, l, n as int) matches Ok(Some(_)) ==> ext4_free::with_bitmap(
            image,
            l,
            n + 1,
        ) == ext4_free::with_bitmap(image, l, n) + 1 && ext4_free::without_bitmap(image, l, n + 1)
            == ext4_free::without_bitmap(image, l, n),
        ext4_free::group_bitmap(image, l, n as int) == Ok::<Option<Seq<u8>>, ScanFault>(None)
            ==> ext4_free::with_bitmap(image, l, n + 1) == ext4_free::with_bitmap(image, l, n)
            && ext4_free::without_bitmap(image, l, n + 1) == ext4_free::without_bitmap(image, l, n)
            + 1,
{
}

} // verus!
