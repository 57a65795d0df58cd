//! What filesystems a volume carries.
//!
//! A volume is one filesystem, or a disk with a partition table. Each
//! filesystem is opened, told what system it holds, and walked end to end.
use crate::fs::files;
use crate::ids::Uuid;
use crate::text;
use vstd::prelude::*;

verus! {

/// What walking a filesystem found.
#[derive(Debug, Clone, Copy, PartialEq, Eq, Structural)]
pub struct Walked {
    pub entries: u64,
    pub directories: u64,
    pub files: u64,
}

impl Default for Walked {
    fn default() -> (w: Self)
        ensures
            w == (Walked { entries: 0, directories: 0, files: 0 }),
    {
        Walked { entries: 0, directories: 0, files: 0 }
    }
}

/// A filesystem found on a volume.
pub struct FoundFs {
    /// Number of its partition, from 1; nothing where it is the whole volume.
    pub partition: Option<u32>,
    pub partition_name: String,
    /// Where it lies on the volume.
    pub offset: u64,
    pub bytes: u64,
    /// `xfs` or `ext4`.
    pub kind: String,
    pub uuid: Uuid,
    pub label: String,
    /// The system that it holds, where it is a root.
    pub os: Option<String>,
    pub walked: Option<Walked>,
    /// Why it could not be read.
    pub error: Option<String>,
}

/// Where the first line that sets `key` stands among `lines`, or -1.
pub open spec fn line_of(lines: Seq<Seq<char>>, key: Seq<char>) -> int
    decreases lines.len(),
{
    if lines.len() == 0 {
        -1
    } else if text::without_prefix(lines[0], key) is Some {
        0
    } else {
        let i = line_of(lines.drop_first(), key);
        if i < 0 {
            -1
        } else {
            i + 1
        }
    }
}

/// A value without white space around it, and without quotes around that.
pub open spec fn unquoted(v: Seq<char>) -> Seq<char> {
    text::trim_start_char(text::trim_end_char(text::trimmed(v), '"'), '"')
}

/// The value of the first line that sets `key`, given with its equals sign.
pub open spec fn field(s: Seq<char>, key: Seq<char>) -> Option<Seq<char>> {
    let lines = text::pieces(s, '\n');
    let i = line_of(lines, key);
    if i < 0 {
        None
    } else {
        Some(unquoted(text::without_prefix(lines[i], key).unwrap()))
    }
}

/// The name of the system that an os-release file tells: the pretty one, and
/// else the plain one.
pub open spec fn name_in(s: Seq<char>) -> Option<Seq<char>> {
    match field(s, "PRETTY_NAME="@) {
        Some(n) => Some(n),
        None => field(s, "NAME="@),
    }
}

fn unquote(v: &[char]) -> (r: String)
    ensures
        r@ == unquoted(v@),
{
    let t = text::to_chars(&text::trim_text(&text::text_of(v)));
    let a = text::drop_end_char(&t, '"');
    let b = text::drop_start_char(&a, '"');
    text::text_of(&b)
}

fn find_field(lines: &Vec<Vec<char>>, key: &str, Ghost(all): Ghost<Seq<Seq<char>>>) -> (r: Option<
    String,
>)
    requires
        lines@.len() == all.len(),
        forall|i: int| 0 <= i < lines@.len() ==> (#[trigger] lines@[i])@ == all[i],
    ensures
        match r {
            Some(v) => line_of(all, key@) >= 0 && v@ == unquoted(
                text::without_prefix(all[line_of(all, key@)], key@).unwrap(),
            ),
            None => line_of(all, key@) == -1,
        },
{
    let mut i: usize = 0;
    assert(all.skip(0) =~= all);
    while i < lines.len()
        invariant
            i <= lines@.len(),
            lines@.len() == all.len(),
            forall|j: int| 0 <= j < lines@.len() ==> (#[trigger] lines@[j])@ == all[j],
            line_of(all, key@) == (if line_of(all.skip(i as int), key@) < 0 {
                -1
            } else {
                line_of(all.skip(i as int), key@) + i
            }),
        decreases lines@.len() - i,
    {
        let ghost rest = all.skip(i as int);
        assert(rest[0] == lines@[i as int]@);
        assert(rest.drop_first() =~= all.skip(i + 1));
        match text::strip_prefix(&lines[i], key) {
            Some(v) => {
                return Some(unquote(&v));
            },
            None => {},
        }
        i = i + 1;
    }
    None
}

/// The name of the system that an os-release file tells.
pub fn pretty_name(os_release: &[u8]) -> (r: Option<String>)
    ensures
        match r {
            Some(n) => name_in(text::lossy(os_release@)) == Some(n@),
            None => name_in(text::lossy(os_release@)) is None,
        },
{
    let raw = text::lossy_text(os_release);
    let lines = text::split_all(&text::to_chars(&raw), '\n');
    let ghost all = text::pieces(raw@, '\n');
    match find_field(&lines, "PRETTY_NAME=", Ghost(all)) {
        Some(n) => Some(n),
        None => find_field(&lines, "NAME=", Ghost(all)),
    }
}

/// An entry that a directory was found to hold.
pub struct Entry {
    pub name: String,
    pub is_dir: bool,
}

/// A walk under way: what it has counted, and the directories it has yet to
/// look into.
pub struct Walk {
    pub found: Walked,
    pub dirs: Vec<String>,
}

/// What a directory's entries add to a count, the dots left out.
pub open spec fn counted(w: Walked, entries: Seq<Entry>) -> Walked
    decreases entries.len(),
{
    if entries.len() == 0 {
        w
    } else {
        let before = counted(w, entries.drop_last());
        let e = entries.last();
        if files::is_dots(e.name@) {
            before
        } else if e.is_dir {
            Walked {
                entries: (before.entries + 1) as u64,
                directories: (before.directories + 1) as u64,
                ..before
            }
        } else {
            Walked {
                entries: (before.entries + 1) as u64,
                files: (before.files + 1) as u64,
                ..before
            }
        }
    }
}

/// The directories among a directory's entries, by path, the dots left out.
pub open spec fn subdirectories(dir: Seq<char>, entries: Seq<Entry>) -> Seq<Seq<char>>
    decreases entries.len(),
{
    if entries.len() == 0 {
        Seq::empty()
    } else {
        let before = subdirectories(dir, entries.drop_last());
        let e = entries.last();
        if e.is_dir && !files::is_dots(e.name@) {
            before.push(path_in(dir, e.name@))
        } else {
            before
        }
    }
}

/// Path of an entry: the root needs no further slash.
pub open spec fn path_in(dir: Seq<char>, name: Seq<char>) -> Seq<char> {
    if dir == "/"@ {
        "/"@ + name
    } else {
        dir + "/"@ + name
    }
}

/// Paths as texts.
pub open spec fn texts(v: Seq<String>) -> Seq<Seq<char>> {
    v.map_values(|s: String| s@)
}

impl Walk {
    /// What is counted is a directory or a file.
    pub open spec fn wf(&self) -> bool {
        self.found.directories + self.found.files == self.found.entries
    }

    /// A walk from the root.
    pub fn new() -> (w: Self)
        ensures
            w.wf(),
            w.found == (Walked { entries: 0, directories: 0, files: 0 }),
            texts(w.dirs@) == seq!["/"@],
    {
        let mut dirs: Vec<String> = Vec::new();
        dirs.push("/".to_owned());
        assert(texts(dirs@) =~= seq!["/"@]);
        Walk { found: Walked::default(), dirs }
    }

    /// The next directory to look into; nothing when the walk is over.
    pub fn next_dir(&mut self) -> (r: Option<String>)
        ensures
            final(self).found == old(self).found,
            match r {
                Some(d) => old(self).dirs@.len() > 0 && d == old(self).dirs@.last()
                    && final(self).dirs@ == old(self).dirs@.drop_last(),
                None => old(self).dirs@.len() == 0 && final(self).dirs@ == old(self).dirs@,
            },
    {
        self.dirs.pop()
    }

    /// Takes the entries of a directory: each is counted, and each directory
    /// is yet to be looked into.
    pub fn take(&mut self, dir: &str, entries: &Vec<Entry>)
        requires
            old(self).wf(),
            old(self).found.entries + entries@.len() <= u64::MAX,
        ensures
            final(self).wf(),
            final(self).found == counted(old(self).found, entries@),
            texts(final(self).dirs@) == texts(old(self).dirs@) + subdirectories(dir@, entries@),
    {
        let ghost before = texts(self.dirs@);
        let ghost start = self.found;
        assert(before + subdirectories(dir@, entries@.take(0)) =~= before);
        let root: bool = text::same_text(dir, "/");
        let mut i: usize = 0;
        while i < entries.len()
            invariant
                i <= entries@.len(),
                self.wf(),
                start.entries + entries@.len() <= u64::MAX,
                root == (dir@ == "/"@),
                self.found == counted(start, entries@.take(i as int)),
                self.found.entries <= start.entries + i,
                texts(self.dirs@) == before + subdirectories(dir@, entries@.take(i as int)),
            decreases entries@.len() - i,
        {
            let e: &Entry = &entries[i];
            let ghost now = entries@.take(i + 1);
            assert(now.drop_last() =~= entries@.take(i as int));
            assert(now.last() == entries@[i as int]);
            let ghost had = self.dirs@;
            let ghost sub = subdirectories(dir@, entries@.take(i as int));
            i = i + 1;
            if text::same_text(&e.name, ".") || text::same_text(&e.name, "..") {
                continue;
            }
            self.found.entries = self.found.entries + 1;
            if e.is_dir {
                self.found.directories = self.found.directories + 1;
                let mut p = String::new();
                if root {
                    p = "/".to_owned();
                } else {
                    p = dir.to_owned();
                    p.append("/");
                }
                p.append(&e.name);
                let ghost path = p@;
                self.dirs.push(p);
                assert(texts(self.dirs@) =~= texts(had).push(path));
                assert((before + sub).push(path) =~= before + sub.push(path));
            } else {
                self.found.files = self.found.files + 1;
            }
        }
        assert(entries@.take(entries@.len() as int) =~= entries@);
    }
}

/// What happened to a filesystem while it was read.
pub enum Trouble {
    Opening { why: String },
    LookingUp { why: String },
    Reading { why: String },
    /// The whole tree, or one directory of it.
    Walking { dir: Option<String>, why: String },
    /// Its superblock, in the fault's own words.
    Superblock { why: String },
}

impl Trouble {
    /// The trouble in words.
    pub open spec fn message(self) -> Seq<char> {
        match self {
            Trouble::Opening { why } => "opening: "@ + why@,
            Trouble::LookingUp { why } => "looking up /etc/os-release: "@ + why@,
            Trouble::Reading { why } => "reading /etc/os-release: "@ + why@,
            Trouble::Walking { dir: None, why } => "walking the tree: "@ + why@,
            Trouble::Walking { dir: Some(d), why } => "walking "@ + d@ + ": "@ + why@,
            Trouble::Superblock { why } => why@,
        }
    }

    /// The trouble in words.
    pub fn to_string(&self) -> (s: String)
        ensures
            s@ == self.message(),
    {
        match self {
            Trouble::Opening { why } => {
                let mut s = "opening: ".to_owned();
                s.append(why);
                s
            },
            Trouble::LookingUp { why } => {
                let mut s = "looking up /etc/os-release: ".to_owned();
                s.append(why);
                s
            },
            Trouble::Reading { why } => {
                let mut s = "reading /etc/os-release: ".to_owned();
                s.append(why);
                s
            },
            Trouble::Walking { dir: None, why } => {
                let mut s = "walking the tree: ".to_owned();
                s.append(why);
                s
            },
            Trouble::Walking { dir: Some(d), why } => {
                let mut s = "walking ".to_owned();
                s.append(d);
                s.append(": ");
                s.append(why);
                s
            },
            Trouble::Superblock { why } => why.clone(),
        }
    }
}

impl FoundFs {
    /// A filesystem of which nothing but its place and kind is known.
    pub fn new(partition: Option<(u32, String)>, offset: u64, bytes: u64, kind: &str) -> (f: Self)
        ensures
            match partition {
                Some((n, name)) => f.partition == Some(n) && f.partition_name@ == name@,
                None => f.partition is None && f.partition_name@.len() == 0,
            },
            f.offset == offset,
            f.bytes == bytes,
            f.kind@ == kind@,
            f.uuid.bits == 0,
            f.label@.len() == 0,
            f.os is None,
            f.walked is None,
            f.error is None,
    {
        let (part, name) = match partition {
            Some((n, name)) => (Some(n), name),
            None => (None, String::new()),
        };
        FoundFs {
            partition: part,
            partition_name: name,
            offset,
            bytes,
            kind: kind.to_owned(),
            uuid: Uuid::nil(),
            label: String::new(),
            os: None,
            walked: None,
            error: None,
        }
    }

    /// Takes note of the identity in the superblock.
    pub fn identify(&mut self, uuid: Uuid, label: String)
        ensures
            *final(self) == (FoundFs { uuid, label, ..*old(self) }),
    {
        self.uuid = uuid;
        self.label = label;
    }

    /// Takes note of the os-release file.
    pub fn holds_system(&mut self, os_release: &[u8])
        ensures
            match final(self).os {
                Some(n) => name_in(text::lossy(os_release@)) == Some(n@),
                None => name_in(text::lossy(os_release@)) is None,
            },
            *final(self) == (FoundFs { os: final(self).os, ..*old(self) }),
    {
        self.os = pretty_name(os_release);
    }

    /// Takes note of what walking it found.
    pub fn was_walked(&mut self, walked: Walked)
        ensures
            *final(self) == (FoundFs { walked: Some(walked), ..*old(self) }),
    {
        self.walked = Some(walked);
    }

    /// Takes note of why it could not be read.
    pub fn failed(&mut self, t: &Trouble)
        ensures
            final(self).error matches Some(s) && s@ == t.message(),
            *final(self) == (FoundFs { error: final(self).error, ..*old(self) }),
    {
        self.error = Some(t.to_string());
    }
}

/// An entry of a partition table.
pub struct PartitionEntry {
    /// Whether the entry is in use: its type is not all zeros.
    pub used: bool,
    pub first_lba: u64,
    pub last_lba: u64,
}

/// Where a partition lies, in bytes: its blocks, first and last included.
/// Nothing where the entry is not in use, ends before it begins, or reaches
/// past what 64 bits can tell.
pub open spec fn window_in(e: PartitionEntry, lba: u32) -> Option<(u64, u64)> {
    if !e.used || e.last_lba < e.first_lba || (e.last_lba + 1) * lba > u64::MAX {
        None
    } else {
        Some(((e.first_lba * lba) as u64, ((e.last_lba - e.first_lba + 1) * lba) as u64))
    }
}

/// Where a partition lies, in bytes.
pub fn window_of(e: &PartitionEntry, lba: u32) -> (r: Option<(u64, u64)>)
    ensures
        r == window_in(*e, lba),
        r matches Some((start, len)) ==> start == e.first_lba * lba && len == (e.last_lba
            - e.first_lba + 1) * lba,
{
    if !e.used || e.last_lba < e.first_lba {
        return None;
    }
    proof {
        assert((e.last_lba + 1) * lba <= 0x1_0000_0000_0000_0000 * 0xFFFF_FFFF) by (nonlinear_arith)
            requires
                0 <= e.last_lba <= 0xFFFF_FFFF_FFFF_FFFF,
                0 <= lba <= 0xFFFF_FFFF,
        ;
        let f = e.first_lba as int;
        let l = e.last_lba as int;
        let b = lba as int;
        assert(0 <= f * b && 0 <= (l - f + 1) * b && f * b + (l - f + 1) * b == (l + 1) * b) by (
        nonlinear_arith)
            requires
                0 <= f <= l,
                0 <= b,
        ;
        if b == 0 {
            assert(f * b == 0 && (l - f + 1) * b == 0 && (l + 1) * b == 0) by (nonlinear_arith)
                requires
                    b == 0,
            ;
        } else {
            assert((l + 1) * b >= l + 1) by (nonlinear_arith)
                requires
                    l >= 0,
                    b >= 1,
            ;
        }
    }
    let end: u128 = (e.last_lba as u128 + 1) * lba as u128;
    if end > u64::MAX as u128 {
        return None;
    }
    let start: u64 = (e.first_lba as u128 * lba as u128) as u64;
    Some((start, (end - start as u128) as u64))
}

} // verus!
