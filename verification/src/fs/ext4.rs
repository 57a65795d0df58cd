//! The engine's side of ext2, ext3 and ext4 filesystems: what it makes of a
//! superblock, when a filesystem may be sealed, and how a clone gets an
//! identity of its own.
//!
//! Formatting, checking and the superblock's encoding are the formatter's; it
//! hands over what a superblock holds as plain values and takes them back.
use crate::fs::info::FsInfo;
use crate::ids::Uuid;
use crate::{bytes, text};
use vstd::prelude::*;

verus! {

/// Volumes of this size and below get no journal unless one is asked for.
pub const JOURNAL_FLOOR_BYTES: u64 = 8388608;

/// The filesystem has a journal.
pub const COMPAT_HAS_JOURNAL: u32 = 0x0004;

/// The journal has to be replayed.
pub const INCOMPAT_RECOVER: u32 = 0x0004;

pub const INCOMPAT_64BIT: u32 = 0x0080;

/// The seed of the checksums is stored, and need not follow the UUID.
pub const INCOMPAT_CSUM_SEED: u32 = 0x2000;

/// Metadata carries checksums.
pub const RO_COMPAT_METADATA_CSUM: u32 = 0x0400;

/// Cleanly unmounted.
pub const VALID_FS: u16 = 0x0001;

/// The kernel recorded an error.
pub const ERROR_FS: u16 = 0x0002;

/// Orphaned inodes are to be cleaned up.
pub const ORPHAN_FS: u16 = 0x0004;

/// Size of a volume's label.
pub const LABEL_LEN: usize = 16;

/// Which of the three a filesystem is made as.
#[derive(Debug, Clone, Copy, PartialEq, Eq, Structural)]
pub enum FsProfile {
    Ext2,
    Ext3,
    Ext4,
}

impl FsProfile {
    /// The name that `mke2fs -t` takes.
    pub open spec fn name_of(self) -> Seq<char> {
        match self {
            FsProfile::Ext2 => "ext2"@,
            FsProfile::Ext3 => "ext3"@,
            FsProfile::Ext4 => "ext4"@,
        }
    }

    /// The name that `mke2fs -t` takes.
    pub fn name(&self) -> (s: &'static str)
        ensures
            s@ == self.name_of(),
    {
        match self {
            FsProfile::Ext2 => "ext2",
            FsProfile::Ext3 => "ext3",
            FsProfile::Ext4 => "ext4",
        }
    }
}

/// What a format produced.
pub struct Ext4Report {
    pub block_size: u32,
    pub blocks: u64,
    pub inodes: u32,
    pub free_blocks: u64,
    pub group_count: u32,
    pub journal_blocks: u32,
    pub uuid: Uuid,
    pub label: String,
}

/// How to lay down a filesystem, but for the share of blocks that only the
/// superuser may fill.
pub struct Ext4Params {
    pub profile: FsProfile,
    pub label: String,
    pub uuid: Uuid,
    /// A journal or none; nothing follows the profile.
    pub journal: Option<bool>,
    /// A list of features over those of the profile.
    pub features: Option<String>,
    /// One inode per this many bytes; nothing follows the volume's size.
    pub bytes_per_inode: Option<u32>,
    /// Nothing follows the volume's size and sector.
    pub block_size: Option<u32>,
    /// Whether what was never written reads as zeros, so that zeroing is a
    /// discard.
    pub assume_blank: bool,
}

impl Default for Ext4Params {
    /// An ext4 filesystem with a fresh UUID, on a volume that reads as zeros.
    fn default() -> (p: Self)
        ensures
            p.profile == FsProfile::Ext4,
            p.label@ == Seq::<char>::empty(),
            crate::ids::uuid_version(p.uuid.bits) == 4,
            crate::ids::uuid_variant(p.uuid.bits) == 2,
            p.journal is None,
            p.features is None,
            p.bytes_per_inode is None,
            p.block_size is None,
            p.assume_blank,
    {
        Ext4Params {
            profile: FsProfile::Ext4,
            label: String::new(),
            uuid: Uuid::new_v4(),
            journal: None,
            features: None,
            bytes_per_inode: None,
            block_size: None,
            assume_blank: true,
        }
    }
}

impl Ext4Params {
    /// What the formatter is handed for a volume of `capacity` bytes: all as it
    /// is, but for the journal that is not worth its room.
    pub fn for_capacity(&self, capacity: u64) -> (p: Self)
        ensures
            p == (Ext4Params { journal: journal_on(self.journal, capacity), ..*self }),
    {
        Ext4Params {
            profile: self.profile,
            label: self.label.clone(),
            uuid: self.uuid,
            journal: journal_for(self.journal, capacity),
            features: match &self.features {
                Some(f) => Some(f.clone()),
                None => None,
            },
            bytes_per_inode: self.bytes_per_inode,
            block_size: self.block_size,
            assume_blank: self.assume_blank,
        }
    }
}

/// Whether a volume of `capacity` bytes gets a journal: as asked, and else none
/// where it is so small that the journal would take more than it is worth.
pub open spec fn journal_on(asked: Option<bool>, capacity: u64) -> Option<bool> {
    if asked is None && capacity <= JOURNAL_FLOOR_BYTES {
        Some(false)
    } else {
        asked
    }
}

/// Whether to lay down a journal: as asked, and else none on a volume so small
/// that the journal would take more than it is worth.
pub fn journal_for(asked: Option<bool>, capacity: u64) -> (journal: Option<bool>)
    ensures
        journal == journal_on(asked, capacity),
{
    match asked {
        Some(yes) => Some(yes),
        None => if capacity <= JOURNAL_FLOOR_BYTES {
            Some(false)
        } else {
            None
        },
    }
}

/// The smallest block of a filesystem on a device: its sector, at least 512.
pub fn logical_sector_size(block_size: u32) -> (n: u32)
    ensures
        n == (if block_size < 512 {
            512
        } else {
            block_size
        }),
        n >= 512,
        n >= block_size,
        n == 512 || n == block_size,
{
    if block_size < 512 {
        512
    } else {
        block_size
    }
}

/// What a superblock holds.
pub struct Superblock {
    pub block_size: u32,
    pub blocks_count: u64,
    pub inodes_count: u32,
    pub blocks_per_group: u32,
    pub first_data_block: u32,
    pub group_count: u32,
    pub state: u16,
    pub uuid: Uuid,
    pub label: String,
    pub feature_compat: u32,
    pub feature_incompat: u32,
    pub feature_ro_compat: u32,
    pub checksum_seed: u32,
}

/// What the engine reads off a superblock.
pub struct Ext4Layout {
    pub block_size: u64,
    pub blocks_count: u64,
    pub inodes_count: u32,
    pub group_count: u64,
    pub state: u16,
    pub uuid: Uuid,
    pub label: String,
    pub has_journal: bool,
    pub needs_recovery: bool,
    pub metadata_csum: bool,
    pub csum_seed: bool,
    pub sixty_four_bit: bool,
    /// Cleanly unmounted, nothing pending.
    pub clean: bool,
}

/// Whether a superblock says that all is well: unmounted cleanly, without
/// errors, orphans or a journal to replay.
pub open spec fn all_well(state: u16, incompat: u32) -> bool {
    state & VALID_FS != 0 && state & ERROR_FS == 0 && state & ORPHAN_FS == 0 && incompat
        & INCOMPAT_RECOVER == 0
}

impl Ext4Layout {
    /// Whether a layout is what a superblock says.
    pub open spec fn is_of(self, sb: Superblock) -> bool {
        &&& self.block_size == sb.block_size
        &&& self.blocks_count == sb.blocks_count
        &&& self.inodes_count == sb.inodes_count
        &&& self.group_count == sb.group_count
        &&& self.state == sb.state
        &&& self.uuid == sb.uuid
        &&& self.label@ == sb.label@
        &&& self.has_journal == (sb.feature_compat & COMPAT_HAS_JOURNAL != 0)
        &&& self.needs_recovery == (sb.feature_incompat & INCOMPAT_RECOVER != 0)
        &&& self.metadata_csum == (sb.feature_ro_compat & RO_COMPAT_METADATA_CSUM != 0)
        &&& self.csum_seed == (sb.feature_incompat & INCOMPAT_CSUM_SEED != 0)
        &&& self.sixty_four_bit == (sb.feature_incompat & INCOMPAT_64BIT != 0)
        &&& self.clean == all_well(sb.state, sb.feature_incompat)
    }

    /// Size of the filesystem.
    pub fn size_bytes(&self) -> (n: u64)
        requires
            self.blocks_count * self.block_size <= u64::MAX,
        ensures
            n == self.blocks_count * self.block_size,
    {
        self.blocks_count * self.block_size
    }

    /// The name this filesystem would answer to.
    pub open spec fn profile_of(self) -> FsProfile {
        if self.metadata_csum || self.sixty_four_bit {
            FsProfile::Ext4
        } else if self.has_journal {
            FsProfile::Ext3
        } else {
            FsProfile::Ext2
        }
    }

    /// The `mke2fs -t` name this filesystem would answer to.
    pub fn profile_name(&self) -> (s: &'static str)
        ensures
            s@ == self.profile_of().name_of(),
    {
        if self.metadata_csum || self.sixty_four_bit {
            "ext4"
        } else if self.has_journal {
            "ext3"
        } else {
            "ext2"
        }
    }

    /// What is recorded of a volume with this filesystem.
    pub fn fs_info(&self) -> (r: FsInfo)
        ensures
            r@ == (crate::fs::info::FsInfoView {
                kind: "ext4"@,
                journal: self.has_journal,
                features: None,
                sixty_four_bit: self.sixty_four_bit,
                metadata_csum: self.metadata_csum,
                csum_seed: self.csum_seed,
                label: self.label@,
                uuid: Some(self.uuid),
            }),
    {
        FsInfo {
            kind: "ext4".to_owned(),
            journal: self.has_journal,
            features: None,
            sixty_four_bit: self.sixty_four_bit,
            metadata_csum: self.metadata_csum,
            csum_seed: self.csum_seed,
            label: self.label.clone(),
            uuid: Some(self.uuid),
        }
    }
}

/// What a superblock says.
pub fn layout_of(sb: &Superblock) -> (l: Ext4Layout)
    ensures
        l.is_of(*sb),
{
    let needs_recovery: bool = sb.feature_incompat & INCOMPAT_RECOVER != 0;
    let st: u16 = sb.state;
    Ext4Layout {
        block_size: sb.block_size as u64,
        blocks_count: sb.blocks_count,
        inodes_count: sb.inodes_count,
        group_count: sb.group_count as u64,
        state: st,
        uuid: sb.uuid,
        label: sb.label.clone(),
        has_journal: sb.feature_compat & COMPAT_HAS_JOURNAL != 0,
        needs_recovery,
        metadata_csum: sb.feature_ro_compat & RO_COMPAT_METADATA_CSUM != 0,
        csum_seed: sb.feature_incompat & INCOMPAT_CSUM_SEED != 0,
        sixty_four_bit: sb.feature_incompat & INCOMPAT_64BIT != 0,
        clean: st & VALID_FS != 0 && st & ERROR_FS == 0 && st & ORPHAN_FS == 0 && !needs_recovery,
    }
}

/// Why a filesystem must not be sealed as a template.
#[derive(Debug)]
pub enum SealBlocker {
    /// Never cleanly unmounted.
    NotCleanlyUnmounted,
    /// The kernel recorded an error.
    ErrorFlagSet,
    /// A journal replay is pending.
    RecoveryPending,
    /// Orphaned inodes are to be cleaned up.
    OrphanCleanupPending,
    /// A check found something wrong.
    FsckProblem { code: String, message: String },
}

impl SealBlocker {
    /// The reason in words.
    pub open spec fn message_of(self) -> Seq<char> {
        match self {
            SealBlocker::NotCleanlyUnmounted =>
                "filesystem was never cleanly unmounted (VALID_FS clear)"@,
            SealBlocker::ErrorFlagSet => "filesystem has errors recorded (ERROR_FS set)"@,
            SealBlocker::RecoveryPending =>
                "journal replay is pending (RECOVER set) — a consumer that cannot replay mounts read-only"@,
            SealBlocker::OrphanCleanupPending =>
                "orphan inode cleanup is pending (ORPHAN_FS set)"@,
            SealBlocker::FsckProblem { code, message } => "fsck: "@ + code@ + ": "@ + message@,
        }
    }

    /// The reason in words.
    pub fn to_string(&self) -> (s: String)
        ensures
            s@ == self.message_of(),
    {
        match self {
            SealBlocker::NotCleanlyUnmounted => {
                "filesystem was never cleanly unmounted (VALID_FS clear)".to_owned()
            },
            SealBlocker::ErrorFlagSet => "filesystem has errors recorded (ERROR_FS set)".to_owned(),
            SealBlocker::RecoveryPending => {
                "journal replay is pending (RECOVER set) — a consumer that cannot replay mounts read-only".to_owned()
            },
            SealBlocker::OrphanCleanupPending => {
                "orphan inode cleanup is pending (ORPHAN_FS set)".to_owned()
            },
            SealBlocker::FsckProblem { code, message } => {
                let mut s = "fsck: ".to_owned();
                s.append(code);
                s.append(": ");
                s.append(message);
                s
            },
        }
    }
}

/// What a check found: a code, words, and whether it is more than a remark.
pub struct Problem {
    pub code: String,
    pub message: String,
    pub serious: bool,
}

/// A reason, in terms of texts as sequences.
pub enum Reason {
    NotCleanlyUnmounted,
    ErrorFlagSet,
    RecoveryPending,
    OrphanCleanupPending,
    Fsck { code: Seq<char>, message: Seq<char> },
}

impl View for SealBlocker {
    type V = Reason;

    open spec fn view(&self) -> Reason {
        match *self {
            SealBlocker::NotCleanlyUnmounted => Reason::NotCleanlyUnmounted,
            SealBlocker::ErrorFlagSet => Reason::ErrorFlagSet,
            SealBlocker::RecoveryPending => Reason::RecoveryPending,
            SealBlocker::OrphanCleanupPending => Reason::OrphanCleanupPending,
            SealBlocker::FsckProblem { code, message } => Reason::Fsck {
                code: code@,
                message: message@,
            },
        }
    }
}

/// The reasons in a list.
pub open spec fn reasons(v: Seq<SealBlocker>) -> Seq<Reason> {
    v.map_values(|b: SealBlocker| b@)
}

/// `s`, with one more reason where there is cause.
pub open spec fn and_if(s: Seq<Reason>, cause: bool, r: Reason) -> Seq<Reason> {
    if cause {
        s.push(r)
    } else {
        s
    }
}

/// What the superblock itself says against sealing.
pub open spec fn flag_reasons(l: Ext4Layout) -> Seq<Reason> {
    let a = and_if(Seq::empty(), l.state & VALID_FS == 0, Reason::NotCleanlyUnmounted);
    let b = and_if(a, l.state & ERROR_FS != 0, Reason::ErrorFlagSet);
    let c = and_if(b, l.needs_recovery, Reason::RecoveryPending);
    and_if(c, l.state & ORPHAN_FS != 0, Reason::OrphanCleanupPending)
}

/// What a check says against sealing: all but remarks, in order.
pub open spec fn problem_reasons(problems: Seq<Problem>) -> Seq<Reason>
    decreases problems.len(),
{
    if problems.len() == 0 {
        Seq::empty()
    } else {
        let p = problems.last();
        and_if(
            problem_reasons(problems.drop_last()),
            p.serious,
            Reason::Fsck { code: p.code@, message: p.message@ },
        )
    }
}

fn note(v: &mut Vec<SealBlocker>, b: SealBlocker)
    ensures
        reasons(final(v)@) == reasons(old(v)@).push(b@),
{
    v.push(b);
    assert(reasons(v@) =~= reasons(old(v)@).push(b@));
}

/// Why a filesystem must not be sealed: what its superblock says, and what a
/// full check found. Empty means that it may be.
pub fn seal_blockers(layout: &Ext4Layout, problems: &Vec<Problem>) -> (out: Vec<SealBlocker>)
    ensures
        reasons(out@) == flag_reasons(*layout) + problem_reasons(problems@),
{
    let mut out: Vec<SealBlocker> = Vec::new();
    assert(reasons(out@) =~= Seq::<Reason>::empty());
    if layout.state & VALID_FS == 0 {
        note(&mut out, SealBlocker::NotCleanlyUnmounted);
    }
    if layout.state & ERROR_FS != 0 {
        note(&mut out, SealBlocker::ErrorFlagSet);
    }
    if layout.needs_recovery {
        note(&mut out, SealBlocker::RecoveryPending);
    }
    if layout.state & ORPHAN_FS != 0 {
        note(&mut out, SealBlocker::OrphanCleanupPending);
    }
    let ghost flags = flag_reasons(*layout);
    assert(reasons(out@) == flags);
    assert(flags + problem_reasons(problems@.take(0)) =~= flags);
    let mut i: usize = 0;
    while i < problems.len()
        invariant
            i <= problems@.len(),
            reasons(out@) == flags + problem_reasons(problems@.take(i as int)),
        decreases problems@.len() - i,
    {
        let p: &Problem = &problems[i];
        assert(problems@.take(i + 1).drop_last() =~= problems@.take(i as int));
        let ghost before = problem_reasons(problems@.take(i as int));
        if p.serious {
            let b = SealBlocker::FsckProblem { code: p.code.clone(), message: p.message.clone() };
            let ghost r = b@;
            note(&mut out, b);
            assert((flags + before).push(r) =~= flags + before.push(r));
        }
        i = i + 1;
    }
    assert(problems@.take(problems@.len() as int) =~= problems@);
    out
}

/// A filesystem may be sealed exactly if its superblock says that all is well
/// and a check found nothing but remarks.
pub proof fn sealable_means_clean(l: Ext4Layout, sb: Superblock, problems: Seq<Problem>)
    requires
        l.is_of(sb),
    ensures
        (flag_reasons(l) + problem_reasons(problems)).len() == 0 <==> l.clean && forall|i: int|
            0 <= i < problems.len() ==> !(#[trigger] problems[i]).serious,
{
    lemma_problem_reasons(problems);
}

proof fn lemma_problem_reasons(problems: Seq<Problem>)
    ensures
        problem_reasons(problems).len() == 0 <==> forall|i: int|
            0 <= i < problems.len() ==> !(#[trigger] problems[i]).serious,
    decreases problems.len(),
{
    if problems.len() > 0 {
        let rest = problems.drop_last();
        lemma_problem_reasons(rest);
        if problem_reasons(problems).len() == 0 {
            assert forall|i: int| 0 <= i < problems.len() implies !(#[trigger] problems[i]).serious by {
                if i < rest.len() {
                    assert(rest[i] == problems[i]);
                }
            }
        }
        if forall|i: int| 0 <= i < problems.len() ==> !(#[trigger] problems[i]).serious {
            assert forall|i: int| 0 <= i < rest.len() implies !(#[trigger] rest[i]).serious by {
                assert(rest[i] == problems[i]);
            }
            assert(!problems[problems.len() - 1].serious);
        }
    }
}

/// Whether the checksum seed has to be stored before the UUID changes: the
/// metadata carries checksums, and their seed follows the UUID.
pub open spec fn pins_seed(sb: Superblock) -> bool {
    sb.feature_ro_compat & RO_COMPAT_METADATA_CSUM != 0 && sb.feature_incompat
        & INCOMPAT_CSUM_SEED == 0
}

/// A superblock with a new UUID. `seed` is the checksum seed of the old UUID.
pub open spec fn stamped(sb: Superblock, uuid: Uuid, seed: u32) -> Superblock {
    if pins_seed(sb) {
        Superblock {
            uuid,
            checksum_seed: seed,
            feature_incompat: sb.feature_incompat | INCOMPAT_CSUM_SEED,
            ..sb
        }
    } else {
        Superblock { uuid, ..sb }
    }
}

/// Gives a superblock a new UUID. Where the checksums' seed would change with
/// it, the seed of the old UUID, `seed`, is stored first, so that every
/// checksum stays valid.
pub fn stamp_uuid(sb: &mut Superblock, uuid: Uuid, seed: u32)
    ensures
        *final(sb) == stamped(*old(sb), uuid, seed),
{
    let has_csum: bool = sb.feature_ro_compat & RO_COMPAT_METADATA_CSUM != 0;
    let has_seed: bool = sb.feature_incompat & INCOMPAT_CSUM_SEED != 0;
    if has_csum && !has_seed {
        sb.checksum_seed = seed;
        sb.feature_incompat = sb.feature_incompat | INCOMPAT_CSUM_SEED;
    }
    sb.uuid = uuid;
}

/// The seed that a filesystem's checksums are computed with.
pub open spec fn seed_in_use(sb: Superblock, seed_of_uuid: u32) -> u32 {
    if sb.feature_incompat & INCOMPAT_CSUM_SEED != 0 {
        sb.checksum_seed
    } else {
        seed_of_uuid
    }
}

/// A new UUID invalidates no checksum: where metadata carries them, the seed
/// in use is what it was, whatever the seed of the new UUID is. The
/// filesystem answers to the new UUID, and keeps its label and its state.
pub proof fn stamping_keeps_the_checksums(
    sb: Superblock,
    uuid: Uuid,
    old_seed: u32,
    new_seed: u32,
)
    ensures
        ({
            let t = stamped(sb, uuid, old_seed);
            &&& t.uuid == uuid
            &&& sb.feature_ro_compat & RO_COMPAT_METADATA_CSUM != 0 ==> seed_in_use(t, new_seed)
                == seed_in_use(sb, old_seed) && t.feature_incompat & INCOMPAT_CSUM_SEED != 0
            &&& t.label == sb.label
            &&& t.state == sb.state
            &&& t.feature_incompat & INCOMPAT_RECOVER == sb.feature_incompat & INCOMPAT_RECOVER
            &&& t.feature_ro_compat == sb.feature_ro_compat
        }),
{
    let f = sb.feature_incompat;
    assert((f | 0x2000u32) & 0x2000 != 0 && (f | 0x2000u32) & 0x4 == f & 0x4) by (bit_vector);
}

/// Where the backups of a superblock lie, of the groups that carry one: the
/// group's number as a backup holds it, and its place.
pub open spec fn backups_of(sb: Superblock, has_super: Seq<bool>) -> Seq<(u16, u64)>
    decreases has_super.len(),
{
    if has_super.len() <= 1 {
        Seq::empty()
    } else {
        let group = has_super.len() - 1;
        let rest = backups_of(sb, has_super.drop_last());
        if has_super.last() {
            rest.push((group as u16, backup_at(sb, group) as u64))
        } else {
            rest
        }
    }
}

/// Where the backup of a group lies.
pub open spec fn backup_at(sb: Superblock, group: int) -> int {
    (sb.first_data_block + group * sb.blocks_per_group) * sb.block_size
}

/// Where the backups of a superblock lie. `has_super` tells of each group
/// whether it carries one; the first carries the superblock itself.
pub fn backup_places(sb: &Superblock, has_super: &[bool]) -> (r: Vec<(u16, u64)>)
    requires
        has_super@.len() <= u32::MAX,
        backup_at(*sb, has_super@.len() as int) <= u64::MAX,
    ensures
        r@ == backups_of(*sb, has_super@),
{
    let mut r: Vec<(u16, u64)> = Vec::new();
    let n: usize = has_super.len();
    let mut group: usize = 1;
    if n == 0 {
        return r;
    }
    while group < n
        invariant
            1 <= group <= n == has_super@.len(),
            n <= u32::MAX,
            backup_at(*sb, n as int) <= u64::MAX,
            r@ == backups_of(*sb, has_super@.take(group as int)),
        decreases n - group,
    {
        assert(has_super@.take(group + 1).drop_last() =~= has_super@.take(group as int));
        if has_super[group] {
            let bpg: u64 = sb.blocks_per_group as u64;
            let bs: u64 = sb.block_size as u64;
            proof {
                assert(group * bpg <= 0xFFFF_FFFF * 0xFFFF_FFFF) by (nonlinear_arith)
                    requires
                        0 <= group <= 0xFFFF_FFFF,
                        0 <= bpg <= 0xFFFF_FFFF,
                ;
                assert((sb.first_data_block + group * bpg) * bs <= (sb.first_data_block + n * bpg)
                    * bs) by (nonlinear_arith)
                    requires
                        0 <= group <= n,
                        bpg >= 0,
                        bs >= 0,
                ;
            }
            let at: u64 = (sb.first_data_block as u64 + group as u64 * bpg) * bs;
            r.push((#[verifier::truncate] (group as u16), at));
        }
        group = group + 1;
    }
    assert(has_super@.take(n as int) =~= has_super@);
    r
}

/// A label as it is stored: its bytes, cut or filled up with zeros to the
/// field's size.
pub open spec fn label_field_of(label: Seq<char>) -> Seq<u8> {
    let b = vstd::utf8::encode_utf8(label);
    if b.len() >= LABEL_LEN {
        b.take(LABEL_LEN as int)
    } else {
        b + bytes::zeros((LABEL_LEN - b.len()) as nat)
    }
}

/// A label as it is stored.
pub fn label_field(label: &str) -> (f: Vec<u8>)
    ensures
        f@ == label_field_of(label@),
        f@.len() == LABEL_LEN,
{
    let b: &[u8] = label.as_bytes();
    let n: usize = if b.len() < LABEL_LEN {
        b.len()
    } else {
        LABEL_LEN
    };
    let mut f: Vec<u8> = Vec::new();
    f.extend_from_slice(vstd::slice::slice_subrange(b, 0, n));
    bytes::push_zeros(&mut f, LABEL_LEN - n);
    assert(f@ =~= label_field_of(label@));
    f
}

} // verus!
