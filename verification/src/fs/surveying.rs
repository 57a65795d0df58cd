//! A volume is surveyed in steps: the whole of it first, then each of its
//! partitions; XFS before ext4; and of each filesystem that is recognised its
//! superblock, the system that it holds and, where it is asked for, its tree.
//!
//! A run says what to look at next and is told what was seen. All looks are at
//! the device that the run last had opened: the volume itself, to begin with.
use crate::fs::survey;
use crate::fs::survey::{Entry, FoundFs, PartitionEntry, Trouble, Walk, Walked};
use crate::ids::Uuid;
use crate::text;
use vstd::prelude::*;

verus! {

/// What was seen.
#[allow(inconsistent_fields)]
pub enum SurveyEvent {
    /// The run is to begin, on a volume of so many bytes.
    Begin { bytes: u64 },
    /// Whether it looks like XFS.
    Xfs { yes: bool },
    /// The UUID and the label in the superblock, or why it does not read.
    Layout { found: Result<(Uuid, String), String> },
    /// The filesystem is open, or why it is not.
    Opened { done: Result<(), String> },
    /// Whether there is an os-release file.
    There { found: Result<bool, String> },
    /// The os-release file, where there is one.
    Release { found: Result<Option<Vec<u8>>, String> },
    /// What walking the tree found.
    Checked { found: Result<Walked, String> },
    /// What a directory holds.
    Entries { found: Result<Vec<Entry>, String> },
    /// The partition table with its block size, where there is one.
    Table { found: Option<(u32, Vec<(PartitionEntry, String)>)> },
    /// The partition is open and has so many bytes; or it is not.
    Window { bytes: Option<u64> },
}

/// What to look at next.
pub enum SurveyAction {
    /// Nothing: this is not what was asked for.
    Ignore,
    /// Whether the device looks like XFS.
    LookForXfs,
    /// The superblock of XFS.
    ReadXfsLayout,
    /// The os-release file on XFS, where there is one.
    ReadXfsRelease,
    /// The whole tree of XFS.
    CheckXfs,
    /// The superblock of ext4.
    ReadExt4Layout,
    /// The ext4 filesystem, opened.
    OpenExt4,
    /// Whether there is an os-release file on it.
    FindRelease,
    /// The os-release file on it.
    ReadRelease,
    /// A directory on it.
    List { dir: String },
    /// The volume's partition table.
    ReadTable,
    /// This window of the volume, opened as a device in blocks of `block`.
    OpenWindow { start: u64, len: u64, block: u32 },
    /// Nothing: these are all there are.
    Finished { found: Vec<FoundFs> },
}

/// A partition to look into.
pub struct Place {
    /// Its number, from 1.
    pub number: u32,
    pub name: String,
    pub start: u64,
    pub len: u64,
    /// The block size of the table.
    pub block: u32,
}

/// A device that is looked at: the volume, or one of its partitions.
pub struct Spot {
    pub partition: Option<(u32, String)>,
    pub offset: u64,
    pub bytes: u64,
}

/// Where a survey stands.
#[allow(inconsistent_fields)]
pub enum SurveyState {
    Start,
    Xfs { spot: Spot },
    XfsLayout { fs: FoundFs },
    XfsRelease { fs: FoundFs },
    XfsWalk { fs: FoundFs },
    Ext4Layout { spot: Spot },
    Ext4Open { fs: FoundFs },
    Ext4Find { fs: FoundFs },
    Ext4Read { fs: FoundFs },
    Ext4Walk { fs: FoundFs, walk: Walk, dir: String },
    Table,
    /// A partition is being opened.
    Window { place: Place },
    Over,
}

/// A survey of a volume.
pub struct SurveyRun {
    /// Whether each tree is to be read end to end.
    pub walk: bool,
    pub state: SurveyState,
    /// The partitions that are yet to be looked into, the last one first.
    pub ahead: Vec<Place>,
    pub found: Vec<FoundFs>,
}

/// The partitions among the entries of a table from `n` on, the last one first.
/// An entry that is not in use, or has no place that can be told, is none.
pub open spec fn places_in(entries: Seq<(PartitionEntry, String)>, lba: u32, n: nat) -> Seq<Place>
    decreases entries.len() - n,
{
    if n >= entries.len() {
        Seq::empty()
    } else {
        let later = places_in(entries, lba, n + 1);
        match survey::window_in(entries[n as int].0, lba) {
            None => later,
            Some((start, len)) => later.push(
                Place {
                    number: (n + 1) as u32,
                    name: entries[n as int].1,
                    start,
                    len,
                    block: lba,
                },
            ),
        }
    }
}

/// A filesystem of which nothing but its place and kind is known.
pub open spec fn is_blank(f: FoundFs, spot: Spot, kind: Seq<char>) -> bool {
    &&& match spot.partition {
        Some((n, name)) => f.partition == Some(n) && f.partition_name@ == name@,
        None => f.partition is None && f.partition_name@.len() == 0,
    }
    &&& f.offset == spot.offset
    &&& f.bytes == spot.bytes
    &&& f.kind@ == kind
    &&& f.uuid.bits == 0
    &&& f.label@.len() == 0
    &&& f.os is None
    &&& f.walked is None
    &&& f.error is None
}

/// `g` is `f` with a trouble noted.
pub open spec fn is_failed(g: FoundFs, f: FoundFs, t: Trouble) -> bool {
    g.error matches Some(s) && s@ == t.message() && g == (FoundFs { error: g.error, ..f })
}

/// `g` is `f` with the system noted that an os-release file tells.
pub open spec fn is_told(g: FoundFs, f: FoundFs, release: Seq<u8>) -> bool {
    &&& match g.os {
        Some(n) => survey::name_in(text::lossy(release)) == Some(n@),
        None => survey::name_in(text::lossy(release)) is None,
    }
    &&& g == (FoundFs { os: g.os, ..f })
}

/// The next partition is opened; or there is none, and the run is over.
pub open spec fn moves_on(
    walk: bool,
    ahead: Seq<Place>,
    found: Seq<FoundFs>,
    r: SurveyRun,
    a: SurveyAction,
) -> bool {
    &&& r.walk == walk
    &&& if ahead.len() > 0 {
        let p = ahead.last();
        &&& r.state == (SurveyState::Window { place: p })
        &&& r.ahead@ == ahead.drop_last()
        &&& r.found@ == found
        &&& a == (SurveyAction::OpenWindow { start: p.start, len: p.len, block: p.block })
    } else {
        &&& r.state == SurveyState::Over
        &&& r.ahead@.len() == 0
        &&& r.found@.len() == 0
        &&& a matches SurveyAction::Finished { found: f } && f@ == found
    }
}

/// A filesystem has been read, as far as it could be. Where it is the whole
/// volume, there is no other.
pub open spec fn concludes(
    walk: bool,
    ahead: Seq<Place>,
    found: Seq<FoundFs>,
    f: FoundFs,
    r: SurveyRun,
    a: SurveyAction,
) -> bool {
    if f.partition is None {
        moves_on(walk, Seq::empty(), found.push(f), r, a)
    } else {
        moves_on(walk, ahead, found.push(f), r, a)
    }
}

/// There is no filesystem that is known. Of the whole volume, the partition
/// table is read then.
pub open spec fn finds_nothing(
    walk: bool,
    ahead: Seq<Place>,
    found: Seq<FoundFs>,
    spot: Spot,
    r: SurveyRun,
    a: SurveyAction,
) -> bool {
    if spot.partition is None {
        &&& keeps(walk, ahead, found, r)
        &&& r.state == SurveyState::Table
        &&& a == SurveyAction::ReadTable
    } else {
        moves_on(walk, ahead, found, r, a)
    }
}

/// All but the state is as before.
pub open spec fn keeps(walk: bool, ahead: Seq<Place>, found: Seq<FoundFs>, r: SurveyRun) -> bool {
    r.walk == walk && r.ahead@ == ahead && r.found@ == found
}

/// What comes once XFS has told its system: the walk, where it is asked for.
pub open spec fn comes_to_check(
    walk: bool,
    ahead: Seq<Place>,
    found: Seq<FoundFs>,
    f: FoundFs,
    r: SurveyRun,
    a: SurveyAction,
) -> bool {
    if walk {
        &&& keeps(walk, ahead, found, r)
        &&& r.state == (SurveyState::XfsWalk { fs: f })
        &&& a == SurveyAction::CheckXfs
    } else {
        concludes(walk, ahead, found, f, r, a)
    }
}

/// What comes while ext4 is walked: the next directory, or the end.
pub open spec fn walks_on(
    walk: bool,
    ahead: Seq<Place>,
    found: Seq<FoundFs>,
    f: FoundFs,
    counted: Walked,
    dirs: Seq<Seq<char>>,
    r: SurveyRun,
    a: SurveyAction,
) -> bool {
    if dirs.len() > 0 {
        &&& keeps(walk, ahead, found, r)
        &&& r.state matches SurveyState::Ext4Walk { fs, walk: w, dir }
        &&& fs == f
        &&& w.found == counted
        &&& survey::texts(w.dirs@) == dirs.drop_last()
        &&& dir@ == dirs.last()
        &&& a == (SurveyAction::List { dir })
    } else {
        concludes(walk, ahead, found, FoundFs { walked: Some(counted), ..f }, r, a)
    }
}

/// What comes once ext4 has told its system: the walk from the root, where it
/// is asked for.
pub open spec fn comes_to_walk(
    walk: bool,
    ahead: Seq<Place>,
    found: Seq<FoundFs>,
    f: FoundFs,
    r: SurveyRun,
    a: SurveyAction,
) -> bool {
    if walk {
        walks_on(
            walk,
            ahead,
            found,
            f,
            Walked { entries: 0, directories: 0, files: 0 },
            seq!["/"@],
            r,
            a,
        )
    } else {
        concludes(walk, ahead, found, f, r, a)
    }
}

/// A trouble ends the reading of a filesystem, and is noted with it.
pub open spec fn stumbles(run: SurveyRun, f: FoundFs, t: Trouble, r: SurveyRun, a: SurveyAction) -> bool {
    exists|g: FoundFs| #[trigger]
        is_failed(g, f, t) && concludes(run.walk, run.ahead@, run.found@, g, r, a)
}

/// What a step of a survey does.
pub open spec fn surveys(run: SurveyRun, e: SurveyEvent, r: SurveyRun, a: SurveyAction) -> bool {
    let walk = run.walk;
    let ahead = run.ahead@;
    let found = run.found@;
    match (run.state, e) {
        (SurveyState::Start, SurveyEvent::Begin { bytes }) => {
            &&& keeps(walk, ahead, found, r)
            &&& r.state == (SurveyState::Xfs { spot: Spot { partition: None, offset: 0, bytes } })
            &&& a == SurveyAction::LookForXfs
        },
        (SurveyState::Xfs { spot }, SurveyEvent::Xfs { yes }) => {
            &&& keeps(walk, ahead, found, r)
            &&& if yes {
                &&& r.state matches SurveyState::XfsLayout { fs } && is_blank(fs, spot, "xfs"@)
                &&& a == SurveyAction::ReadXfsLayout
            } else {
                &&& r.state == (SurveyState::Ext4Layout { spot })
                &&& a == SurveyAction::ReadExt4Layout
            }
        },
        (SurveyState::XfsLayout { fs }, SurveyEvent::Layout { found: l }) => match l {
            Ok((uuid, label)) => {
                &&& keeps(walk, ahead, found, r)
                &&& r.state == (SurveyState::XfsRelease { fs: FoundFs { uuid, label, ..fs } })
                &&& a == SurveyAction::ReadXfsRelease
            },
            Err(why) => stumbles(run, fs, Trouble::Superblock { why }, r, a),
        },
        (SurveyState::XfsRelease { fs }, SurveyEvent::Release { found: b }) => match b {
            Ok(Some(b)) => exists|g: FoundFs| #[trigger]
                is_told(g, fs, b@) && comes_to_check(walk, ahead, found, g, r, a),
            Ok(None) => comes_to_check(walk, ahead, found, fs, r, a),
            Err(why) => stumbles(run, fs, Trouble::Reading { why }, r, a),
        },
        (SurveyState::XfsWalk { fs }, SurveyEvent::Checked { found: w }) => match w {
            Ok(w) => concludes(walk, ahead, found, FoundFs { walked: Some(w), ..fs }, r, a),
            Err(why) => stumbles(run, fs, Trouble::Walking { dir: None, why }, r, a),
        },
        (SurveyState::Ext4Layout { spot }, SurveyEvent::Layout { found: l }) => match l {
            Ok((uuid, label)) => {
                &&& keeps(walk, ahead, found, r)
                &&& r.state matches SurveyState::Ext4Open { fs }
                &&& exists|f: FoundFs| #[trigger]
                    is_blank(f, spot, "ext4"@) && fs == (FoundFs { uuid, label, ..f })
                &&& a == SurveyAction::OpenExt4
            },
            Err(_) => finds_nothing(walk, ahead, found, spot, r, a),
        },
        (SurveyState::Ext4Open { fs }, SurveyEvent::Opened { done }) => match done {
            Ok(()) => {
                &&& keeps(walk, ahead, found, r)
                &&& r.state == (SurveyState::Ext4Find { fs })
                &&& a == SurveyAction::FindRelease
            },
            Err(why) => stumbles(run, fs, Trouble::Opening { why }, r, a),
        },
        (SurveyState::Ext4Find { fs }, SurveyEvent::There { found: there }) => match there {
            Ok(true) => {
                &&& keeps(walk, ahead, found, r)
                &&& r.state == (SurveyState::Ext4Read { fs })
                &&& a == SurveyAction::ReadRelease
            },
            Ok(false) => comes_to_walk(walk, ahead, found, fs, r, a),
            Err(why) => stumbles(run, fs, Trouble::LookingUp { why }, r, a),
        },
        (SurveyState::Ext4Read { fs }, SurveyEvent::Release { found: b }) => match b {
            Ok(Some(b)) => exists|g: FoundFs| #[trigger]
                is_told(g, fs, b@) && comes_to_walk(walk, ahead, found, g, r, a),
            Ok(None) => comes_to_walk(walk, ahead, found, fs, r, a),
            Err(why) => stumbles(run, fs, Trouble::Reading { why }, r, a),
        },
        (SurveyState::Ext4Walk { fs, walk: w, dir }, SurveyEvent::Entries { found: l }) => match l {
            Ok(entries) => walks_on(
                walk,
                ahead,
                found,
                fs,
                survey::counted(w.found, entries@),
                survey::texts(w.dirs@) + survey::subdirectories(dir@, entries@),
                r,
                a,
            ),
            Err(why) => stumbles(run, fs, Trouble::Walking { dir: Some(dir), why }, r, a),
        },
        (SurveyState::Table, SurveyEvent::Table { found: t }) => match t {
            None => moves_on(walk, Seq::empty(), found, r, a),
            Some((lba, entries)) => moves_on(walk, places_in(entries@, lba, 0), found, r, a),
        },
        (SurveyState::Window { place }, SurveyEvent::Window { bytes }) => match bytes {
            Some(bytes) => {
                &&& keeps(walk, ahead, found, r)
                &&& r.state == (SurveyState::Xfs {
                    spot: Spot {
                        partition: Some((place.number, place.name)),
                        offset: place.start,
                        bytes,
                    },
                })
                &&& a == SurveyAction::LookForXfs
            },
            None => moves_on(walk, ahead, found, r, a),
        },
        _ => keeps(walk, ahead, found, r) && r.state == run.state && a == SurveyAction::Ignore,
    }
}

/// Whether what an event brings can be counted.
pub open spec fn countable(s: SurveyState, e: SurveyEvent) -> bool {
    match (s, e) {
        (SurveyState::Ext4Walk { fs, walk, dir }, SurveyEvent::Entries { found: Ok(entries) }) => {
            walk.found.entries + entries@.len() <= u64::MAX
        },
        (SurveyState::Table, SurveyEvent::Table { found: Some((lba, entries)) }) => entries@.len()
            < u32::MAX,
        _ => true,
    }
}

fn find_places(entries: &Vec<(PartitionEntry, String)>, lba: u32) -> (v: Vec<Place>)
    requires
        entries@.len() < u32::MAX,
    ensures
        v@ == places_in(entries@, lba, 0),
{
    let mut v: Vec<Place> = Vec::new();
    let mut n: usize = entries.len();
    assert(v@ =~= places_in(entries@, lba, n as nat));
    while n > 0
        invariant
            n <= entries@.len() < u32::MAX,
            v@ == places_in(entries@, lba, n as nat),
        decreases n,
    {
        n = n - 1;
        match survey::window_of(&entries[n].0, lba) {
            None => {},
            Some((start, len)) => {
                let number: u32 = n as u32 + 1;
                v.push(Place { number, name: entries[n].1.clone(), start, len, block: lba });
            },
        }
        assert(v@ =~= places_in(entries@, lba, n as nat));
    }
    v
}

fn blank(spot: &Spot, kind: &str) -> (f: FoundFs)
    ensures
        is_blank(f, *spot, kind@),
{
    let partition: Option<(u32, String)> = match &spot.partition {
        Some((n, name)) => Some((*n, name.clone())),
        None => None,
    };
    FoundFs::new(partition, spot.offset, spot.bytes, kind)
}

impl SurveyRun {
    /// A walk under way counts what it should.
    pub open spec fn wf(&self) -> bool {
        self.state matches SurveyState::Ext4Walk { fs, walk, dir } ==> walk.wf()
    }

    /// A survey that is about to begin.
    pub fn new(walk: bool) -> (r: Self)
        ensures
            r.wf(),
            r.walk == walk,
            r.state == SurveyState::Start,
            r.ahead@.len() == 0,
            r.found@.len() == 0,
    {
        SurveyRun { walk, state: SurveyState::Start, ahead: Vec::new(), found: Vec::new() }
    }

    /// Whether what an event brings can be counted.
    pub fn takes(&self, e: &SurveyEvent) -> (yes: bool)
        ensures
            yes == countable(self.state, *e),
    {
        match (&self.state, e) {
            (SurveyState::Ext4Walk { walk, .. }, SurveyEvent::Entries { found: Ok(entries) }) => {
                entries.len() as u64 <= u64::MAX - walk.found.entries
            },
            (SurveyState::Table, SurveyEvent::Table { found: Some((_, entries)) }) => {
                entries.len() < u32::MAX as usize
            },
            _ => true,
        }
    }

    fn at(self, state: SurveyState) -> (r: Self)
        ensures
            r.state == state,
            keeps(self.walk, self.ahead@, self.found@, r),
    {
        SurveyRun { walk: self.walk, state, ahead: self.ahead, found: self.found }
    }

    fn move_on(self) -> (r: (Self, SurveyAction))
        ensures
            r.0.wf(),
            moves_on(self.walk, self.ahead@, self.found@, r.0, r.1),
    {
        let SurveyRun { walk, state: _, ahead, found } = self;
        let mut ahead = ahead;
        match ahead.pop() {
            Some(place) => {
                let action = SurveyAction::OpenWindow {
                    start: place.start,
                    len: place.len,
                    block: place.block,
                };
                (SurveyRun { walk, state: SurveyState::Window { place }, ahead, found }, action)
            },
            None => (
                SurveyRun { walk, state: SurveyState::Over, ahead, found: Vec::new() },
                SurveyAction::Finished { found },
            ),
        }
    }

    fn conclude(self, f: FoundFs) -> (r: (Self, SurveyAction))
        ensures
            r.0.wf(),
            concludes(self.walk, self.ahead@, self.found@, f, r.0, r.1),
    {
        let SurveyRun { walk, state: _, ahead, found } = self;
        let whole: bool = f.partition.is_none();
        let mut found = found;
        found.push(f);
        let rest: Vec<Place> = if whole {
            Vec::new()
        } else {
            ahead
        };
        assert(whole ==> rest@ =~= Seq::empty());
        (SurveyRun { walk, state: SurveyState::Over, ahead: rest, found }).move_on()
    }

    fn stumble(self, f: FoundFs, t: &Trouble) -> (r: (Self, SurveyAction))
        ensures
            r.0.wf(),
            stumbles(self, f, *t, r.0, r.1),
    {
        let mut g = f;
        g.failed(t);
        assert(is_failed(g, f, *t));
        self.conclude(g)
    }

    fn find_nothing(self, spot: Spot) -> (r: (Self, SurveyAction))
        ensures
            r.0.wf(),
            finds_nothing(self.walk, self.ahead@, self.found@, spot, r.0, r.1),
    {
        if spot.partition.is_none() {
            (self.at(SurveyState::Table), SurveyAction::ReadTable)
        } else {
            self.move_on()
        }
    }

    fn to_check(self, f: FoundFs) -> (r: (Self, SurveyAction))
        ensures
            r.0.wf(),
            comes_to_check(self.walk, self.ahead@, self.found@, f, r.0, r.1),
    {
        if self.walk {
            (self.at(SurveyState::XfsWalk { fs: f }), SurveyAction::CheckXfs)
        } else {
            self.conclude(f)
        }
    }

    fn walk_on(self, f: FoundFs, walk: Walk) -> (r: (Self, SurveyAction))
        requires
            walk.wf(),
        ensures
            r.0.wf(),
            walks_on(
                self.walk,
                self.ahead@,
                self.found@,
                f,
                walk.found,
                survey::texts(walk.dirs@),
                r.0,
                r.1,
            ),
    {
        let mut w = walk;
        match w.next_dir() {
            Some(dir) => {
                assert(survey::texts(w.dirs@) =~= survey::texts(walk.dirs@).drop_last());
                let action = SurveyAction::List { dir: dir.clone() };
                (self.at(SurveyState::Ext4Walk { fs: f, walk: w, dir }), action)
            },
            None => {
                let mut g = f;
                g.was_walked(w.found);
                self.conclude(g)
            },
        }
    }

    fn to_walk(self, f: FoundFs) -> (r: (Self, SurveyAction))
        ensures
            r.0.wf(),
            comes_to_walk(self.walk, self.ahead@, self.found@, f, r.0, r.1),
    {
        if self.walk {
            self.walk_on(f, Walk::new())
        } else {
            self.conclude(f)
        }
    }

    /// Takes a step. An event that answers nothing that was asked for changes
    /// nothing.
    pub fn step(self, e: SurveyEvent) -> (r: (SurveyRun, SurveyAction))
        requires
            self.wf(),
            countable(self.state, e),
        ensures
            r.0.wf(),
            surveys(self, e, r.0, r.1),
    {
        let SurveyRun { walk, state, ahead, found } = self;
        let run = SurveyRun { walk, state: SurveyState::Over, ahead, found };
        match (state, e) {
            (SurveyState::Start, SurveyEvent::Begin { bytes }) => {
                let spot = Spot { partition: None, offset: 0, bytes };
                (run.at(SurveyState::Xfs { spot }), SurveyAction::LookForXfs)
            },
            (SurveyState::Xfs { spot }, SurveyEvent::Xfs { yes }) => {
                if yes {
                    let fs = blank(&spot, "xfs");
                    (run.at(SurveyState::XfsLayout { fs }), SurveyAction::ReadXfsLayout)
                } else {
                    (run.at(SurveyState::Ext4Layout { spot }), SurveyAction::ReadExt4Layout)
                }
            },
            (SurveyState::XfsLayout { fs }, SurveyEvent::Layout { found: l }) => match l {
                Ok((uuid, label)) => {
                    let mut f = fs;
                    f.identify(uuid, label);
                    (run.at(SurveyState::XfsRelease { fs: f }), SurveyAction::ReadXfsRelease)
                },
                Err(why) => run.stumble(fs, &Trouble::Superblock { why }),
            },
            (SurveyState::XfsRelease { fs }, SurveyEvent::Release { found: b }) => match b {
                Ok(Some(b)) => {
                    let mut g = fs;
                    g.holds_system(&b);
                    assert(is_told(g, fs, b@));
                    run.to_check(g)
                },
                Ok(None) => run.to_check(fs),
                Err(why) => run.stumble(fs, &Trouble::Reading { why }),
            },
            (SurveyState::XfsWalk { fs }, SurveyEvent::Checked { found: w }) => match w {
                Ok(w) => {
                    let mut g = fs;
                    g.was_walked(w);
                    run.conclude(g)
                },
                Err(why) => run.stumble(fs, &Trouble::Walking { dir: None, why }),
            },
            (SurveyState::Ext4Layout { spot }, SurveyEvent::Layout { found: l }) => match l {
                Ok((uuid, label)) => {
                    let f = blank(&spot, "ext4");
                    let mut g = f;
                    g.identify(uuid, label);
                    assert(is_blank(f, spot, "ext4"@));
                    (run.at(SurveyState::Ext4Open { fs: g }), SurveyAction::OpenExt4)
                },
                Err(_) => run.find_nothing(spot),
            },
            (SurveyState::Ext4Open { fs }, SurveyEvent::Opened { done }) => match done {
                Ok(()) => (run.at(SurveyState::Ext4Find { fs }), SurveyAction::FindRelease),
                Err(why) => run.stumble(fs, &Trouble::Opening { why }),
            },
            (SurveyState::Ext4Find { fs }, SurveyEvent::There { found: there }) => match there {
                Ok(yes) => {
                    if yes {
                        (run.at(SurveyState::Ext4Read { fs }), SurveyAction::ReadRelease)
                    } else {
                        run.to_walk(fs)
                    }
                },
                Err(why) => run.stumble(fs, &Trouble::LookingUp { why }),
            },
            (SurveyState::Ext4Read { fs }, SurveyEvent::Release { found: b }) => match b {
                Ok(Some(b)) => {
                    let mut g = fs;
                    g.holds_system(&b);
                    assert(is_told(g, fs, b@));
                    run.to_walk(g)
                },
                Ok(None) => run.to_walk(fs),
                Err(why) => run.stumble(fs, &Trouble::Reading { why }),
            },
            (
                SurveyState::Ext4Walk { fs, walk: w, dir },
                SurveyEvent::Entries { found: l },
            ) => match l {
                Ok(entries) => {
                    let mut w = w;
                    w.take(&dir, &entries);
                    run.walk_on(fs, w)
                },
                Err(why) => run.stumble(fs, &Trouble::Walking { dir: Some(dir), why }),
            },
            (SurveyState::Table, SurveyEvent::Table { found: t }) => {
                let ahead: Vec<Place> = match t {
                    None => Vec::new(),
                    Some((lba, entries)) => find_places(&entries, lba),
                };
                assert(t is None ==> ahead@ =~= Seq::empty());
                let SurveyRun { walk, state, ahead: _, found } = run;
                (SurveyRun { walk, state, ahead, found }).move_on()
            },
            (SurveyState::Window { place }, SurveyEvent::Window { bytes }) => match bytes {
                Some(bytes) => {
                    let spot = Spot {
                        partition: Some((place.number, place.name)),
                        offset: place.start,
                        bytes,
                    };
                    (run.at(SurveyState::Xfs { spot }), SurveyAction::LookForXfs)
                },
                None => run.move_on(),
            },
            (state, _) => (run.at(state), SurveyAction::Ignore),
        }
    }
}

/// The filesystem that is being read.
pub open spec fn in_hand(s: SurveyState) -> Option<FoundFs> {
    match s {
        SurveyState::XfsLayout { fs } => Some(fs),
        SurveyState::XfsRelease { fs } => Some(fs),
        SurveyState::XfsWalk { fs } => Some(fs),
        SurveyState::Ext4Open { fs } => Some(fs),
        SurveyState::Ext4Find { fs } => Some(fs),
        SurveyState::Ext4Read { fs } => Some(fs),
        SurveyState::Ext4Walk { fs, walk, dir } => Some(fs),
        _ => None,
    }
}

/// The filesystems that have been found so far.
pub open spec fn reported(r: SurveyRun, a: SurveyAction) -> Seq<FoundFs> {
    match a {
        SurveyAction::Finished { found } => found@,
        _ => r.found@,
    }
}

/// Whether two are the same filesystem, whatever is known of it.
pub open spec fn same_place(a: FoundFs, b: FoundFs) -> bool {
    &&& a.partition == b.partition
    &&& a.offset == b.offset
    &&& a.bytes == b.bytes
    &&& a.kind == b.kind
}

/// A filesystem that is recognised is reported, however its reading goes; and
/// nothing that is reported is taken back.
pub proof fn what_is_recognised_is_reported(
    run: SurveyRun,
    e: SurveyEvent,
    r: SurveyRun,
    a: SurveyAction,
)
    requires
        surveys(run, e, r, a),
    ensures
        run.found@.len() <= reported(r, a).len(),
        reported(r, a).take(run.found@.len() as int) == run.found@,
        in_hand(run.state) matches Some(f) ==> {
            ||| in_hand(r.state) matches Some(g) && same_place(g, f)
            ||| reported(r, a).len() == run.found@.len() + 1 && same_place(
                reported(r, a).last(),
                f,
            )
        },
{
    assert(reported(r, a).take(run.found@.len() as int) =~= run.found@);
}

/// Partitions are looked for only where the whole volume is no filesystem, and
/// ext4 only where there is no XFS.
pub proof fn looks_come_in_order(run: SurveyRun, e: SurveyEvent, r: SurveyRun, a: SurveyAction)
    requires
        surveys(run, e, r, a),
    ensures
        a is ReadTable ==> {
            &&& run.state matches SurveyState::Ext4Layout { spot } && spot.partition is None
            &&& e matches SurveyEvent::Layout { found: Err(_) }
        },
        a is ReadExt4Layout ==> run.state is Xfs && e == (SurveyEvent::Xfs { yes: false }),
{
}

/// A trouble ends the reading of its filesystem and is reported with it: what
/// comes next is another device, or nothing.
pub proof fn a_trouble_ends_a_filesystem(
    run: SurveyRun,
    f: FoundFs,
    t: Trouble,
    r: SurveyRun,
    a: SurveyAction,
)
    requires
        stumbles(run, f, t, r, a),
    ensures
        in_hand(r.state) is None,
        a is OpenWindow || a is Finished,
        reported(r, a).len() == run.found@.len() + 1,
        is_failed(reported(r, a).last(), f, t),
{
}

} // verus!
