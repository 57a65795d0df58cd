//! Finding the slabs that are already on a drive.
use crate::drive::partition::PartitionDevice;
use crate::drive::DeviceId;
use crate::ids;
use crate::text;
use vstd::prelude::*;

verus! {

/// An entry of a partition table: first and last block, both included, and
/// the partition's name.
#[derive(Debug)]
pub struct TableEntry {
    pub first_lba: u64,
    pub last_lba: u64,
    pub name: String,
}

/// A partition that may hold a slab.
pub struct Candidate {
    /// The partition's name, or `partition N` where the entry has none.
    pub label: String,
    pub part: PartitionDevice,
}

/// Whether an entry of a table of `lba`-byte blocks describes a window that a
/// device of `capacity` bytes in blocks of `block_size` has.
pub open spec fn usable(e: TableEntry, lba: int, block_size: int, capacity: int) -> bool {
    let start = e.first_lba * lba;
    let len = (e.last_lba + 1 - e.first_lba) * lba;
    &&& e.first_lba != 0
    &&& e.first_lba <= e.last_lba
    &&& start % block_size == 0
    &&& len % block_size == 0
    &&& start + len <= capacity
}

/// What the partition of entry `i` is called.
pub open spec fn label_of(e: TableEntry, i: int) -> Seq<char> {
    if e.name@.len() == 0 {
        "partition "@ + text::decimal((i + 1) as nat)
    } else {
        e.name@
    }
}

/// The indices of the usable entries among the first `n`, in order.
pub open spec fn usable_upto(
    es: Seq<TableEntry>,
    lba: int,
    block_size: int,
    capacity: int,
    n: nat,
) -> Seq<int>
    decreases n,
{
    if n == 0 {
        Seq::empty()
    } else {
        let before = usable_upto(es, lba, block_size, capacity, (n - 1) as nat);
        if usable(es[n - 1], lba, block_size, capacity) {
            before.push(n - 1)
        } else {
            before
        }
    }
}

/// Whether `c` is the window onto `parent` that entry `i` describes: with its
/// name, its place, and an identity made of the device's and of where it
/// begins.
pub open spec fn is_window(
    c: Candidate,
    e: TableEntry,
    i: int,
    lba: int,
    parent: DeviceId,
) -> bool {
    let start = e.first_lba * lba;
    &&& c.label@ == label_of(e, i)
    &&& c.part.start == start
    &&& c.part.len == (e.last_lba + 1 - e.first_lba) * lba
    &&& ids::uuid_version(c.part.id.uuid.bits) == 4
    &&& ids::uuid_variant(c.part.id.uuid.bits) == 2
    &&& c.part.id.serial@ == parent.serial@ + seq!['+'] + text::decimal(start as nat)
    &&& c.part.id.model@ == parent.model@
    &&& c.part.id.path@ == parent.path@ + seq!['@'] + text::decimal(start as nat)
}

/// Whether `found` are the windows onto `parent` that a table describes, in
/// table order.
pub open spec fn are_windows(
    found: Seq<Candidate>,
    es: Seq<TableEntry>,
    lba: int,
    parent: DeviceId,
    block_size: int,
    capacity: int,
    n: nat,
) -> bool {
    let which = usable_upto(es, lba, block_size, capacity, n);
    &&& found.len() == which.len()
    &&& forall|k: int|
        0 <= k < which.len() ==> is_window(
            #[trigger] found[k],
            es[which[k]],
            which[k],
            lba,
            parent,
        )
}

/// Every partition of a table that can be opened as a window of the device,
/// in table order: all of them, not the first, because a node's storage is
/// more than one slab.
pub fn slabs_in_partitions(
    entries: &[TableEntry],
    lba: u32,
    parent: &DeviceId,
    block_size: u32,
    capacity: u64,
) -> (found: Vec<Candidate>)
    requires
        block_size > 0,
        forall|i: int|
            0 <= i < entries@.len() ==> ((#[trigger] entries@[i]).last_lba + 1) * lba <= u64::MAX
                && entries@[i].last_lba < u64::MAX,
    ensures
        are_windows(
            found@,
            entries@,
            lba as int,
            *parent,
            block_size as int,
            capacity as int,
            entries@.len(),
        ),
{
    let mut found: Vec<Candidate> = Vec::new();
    let mut i: usize = 0;
    while i < entries.len()
        invariant
            i <= entries@.len(),
            block_size > 0,
            forall|j: int|
                0 <= j < entries@.len() ==> ((#[trigger] entries@[j]).last_lba + 1) * lba
                    <= u64::MAX && entries@[j].last_lba < u64::MAX,
            are_windows(
                found@,
                entries@,
                lba as int,
                *parent,
                block_size as int,
                capacity as int,
                i as nat,
            ),
        decreases entries@.len() - i,
    {
        let e = &entries[i];
        assert((entries@[i as int].last_lba + 1) * lba <= u64::MAX);
        i = i + 1;
        if e.first_lba == 0 || e.last_lba < e.first_lba {
            continue;
        }
        proof {
            let f = e.first_lba as int;
            let l = e.last_lba as int;
            let b = lba as int;
            assert(0 <= f * b && 0 <= (l + 1 - f) * b && f * b + (l + 1 - f) * b == (l + 1) * b)
                by (nonlinear_arith)
                requires
                    0 <= f <= l,
                    0 <= b,
            ;
        }
        let start: u64 = e.first_lba * lba as u64;
        let len: u64 = (e.last_lba + 1 - e.first_lba) * lba as u64;
        match PartitionDevice::new(parent, block_size, capacity, start, len) {
            Err(_) => {},
            Ok(part) => {
                let label = if e.name.as_str().is_empty() {
                    let mut s = "partition ".to_owned();
                    text::push_decimal(&mut s, i as u64);
                    s
                } else {
                    e.name.clone()
                };
                let ghost before = found@;
                found.push(Candidate { label, part });
                proof {
                    let which = usable_upto(
                        entries@,
                        lba as int,
                        block_size as int,
                        capacity as int,
                        i as nat,
                    );
                    assert(which.last() == i - 1);
                    assert forall|k: int| 0 <= k < which.len() implies is_window(
                        #[trigger] found@[k],
                        entries@[which[k]],
                        which[k],
                        lba as int,
                        *parent,
                    ) by {
                        if k < before.len() {
                            assert(found@[k] == before[k]);
                        }
                    }
                }
            },
        }
    }
    found
}

/// What a slab is called that takes up a drive from end to end.
pub const WHOLE_DRIVE: &'static str = "the whole drive";

/// A partition table: the size of its blocks, and its entries.
pub struct Table {
    pub lba: u32,
    pub entries: Vec<TableEntry>,
}

/// What came of what a search asked for.
pub enum SearchEvent {
    /// The search is to begin.
    Begin,
    /// There was a slab, and it is open.
    Opened,
    /// There was none.
    NoSlab,
    /// The partition table, or nothing where there is none.
    Table { table: Option<Table> },
}

/// What a search wants next.
pub enum SearchAction {
    /// Nothing: this is not what was asked for.
    Ignore,
    /// The drive itself opened as a slab, to be kept under this name.
    OpenWhole { label: String },
    /// The partition table of the drive.
    ReadTable,
    /// A window of the drive opened as a slab, to be kept under its name.
    OpenPart { part: Candidate },
    /// Nothing: the search is over, and what was opened is what there is.
    Finished,
}

/// Where a search stands.
pub enum SearchState {
    Start,
    /// The drive itself is being opened.
    Whole,
    Reading,
    /// A window is being opened, and these are still to be.
    Parts { left: Vec<Candidate> },
    Over,
}

/// A search for the slabs on a drive of `capacity` bytes in blocks of
/// `block_size`.
pub struct SearchRun {
    pub parent: DeviceId,
    pub block_size: u32,
    pub capacity: u64,
    pub state: SearchState,
}

/// Whether the places of a table are 64-bit numbers.
pub open spec fn places_fit(t: Table) -> bool {
    forall|i: int|
        0 <= i < t.entries@.len() ==> ((#[trigger] t.entries@[i]).last_lba + 1) * t.lba <= u64::MAX
            && t.entries@[i].last_lba < u64::MAX
}

/// The first of the windows is opened next; where there is none, the search is
/// over.
pub open spec fn opens_next(left: Seq<Candidate>, next: SearchState, a: SearchAction) -> bool {
    if left.len() == 0 {
        next == SearchState::Over && a == SearchAction::Finished
    } else {
        &&& next matches SearchState::Parts { left: rest } && rest@ == left.drop_first()
        &&& a == (SearchAction::OpenPart { part: left[0] })
    }
}

/// What a step of a search does. A drive that is a slab has no partitions;
/// else each window that its table describes is tried, whatever came of those
/// before.
pub open spec fn searches(run: SearchRun, e: SearchEvent, next: SearchState, a: SearchAction) -> bool {
    match (run.state, e) {
        (SearchState::Start, SearchEvent::Begin) => {
            &&& next == SearchState::Whole
            &&& a matches SearchAction::OpenWhole { label } && label@ == WHOLE_DRIVE@
        },
        (SearchState::Whole, SearchEvent::Opened) => next == SearchState::Over && a
            == SearchAction::Finished,
        (SearchState::Whole, SearchEvent::NoSlab) => next == SearchState::Reading && a
            == SearchAction::ReadTable,
        (SearchState::Reading, SearchEvent::Table { table }) => match table {
            None => next == SearchState::Over && a == SearchAction::Finished,
            Some(t) => exists|found: Seq<Candidate>|
                {
                    &&& #[trigger] are_windows(
                        found,
                        t.entries@,
                        t.lba as int,
                        run.parent,
                        run.block_size as int,
                        run.capacity as int,
                        t.entries@.len(),
                    )
                    &&& opens_next(found, next, a)
                },
        },
        (SearchState::Parts { left }, SearchEvent::Opened) => opens_next(left@, next, a),
        (SearchState::Parts { left }, SearchEvent::NoSlab) => opens_next(left@, next, a),
        _ => next == run.state && a == SearchAction::Ignore,
    }
}

fn open_next(left: Vec<Candidate>) -> (r: (SearchState, SearchAction))
    ensures
        opens_next(left@, r.0, r.1),
{
    let mut left = left;
    if left.len() == 0 {
        return (SearchState::Over, SearchAction::Finished);
    }
    let ghost all = left@;
    let part = left.remove(0);
    assert(left@ =~= all.drop_first());
    (SearchState::Parts { left }, SearchAction::OpenPart { part })
}

impl SearchRun {
    /// A search that is about to begin.
    pub fn new(parent: DeviceId, block_size: u32, capacity: u64) -> (run: Self)
        ensures
            run == (SearchRun { parent, block_size, capacity, state: SearchState::Start }),
    {
        SearchRun { parent, block_size, capacity, state: SearchState::Start }
    }

    /// Takes a step. An event that answers nothing that was asked for changes
    /// nothing.
    pub fn step(self, e: SearchEvent) -> (r: (Self, SearchAction))
        requires
            self.block_size > 0,
            e matches SearchEvent::Table { table: Some(t) } ==> places_fit(t),
        ensures
            r.0.parent == self.parent,
            r.0.block_size == self.block_size,
            r.0.capacity == self.capacity,
            searches(self, e, r.0.state, r.1),
    {
        let SearchRun { parent, block_size, capacity, state } = self;
        let (state, a) = match (state, e) {
            (SearchState::Start, SearchEvent::Begin) => (
                SearchState::Whole,
                SearchAction::OpenWhole { label: WHOLE_DRIVE.to_owned() },
            ),
            (SearchState::Whole, SearchEvent::Opened) => (SearchState::Over, SearchAction::Finished),
            (SearchState::Whole, SearchEvent::NoSlab) => (
                SearchState::Reading,
                SearchAction::ReadTable,
            ),
            (SearchState::Reading, SearchEvent::Table { table }) => match table {
                None => (SearchState::Over, SearchAction::Finished),
                Some(t) => open_next(
                    slabs_in_partitions(&t.entries, t.lba, &parent, block_size, capacity),
                ),
            },
            (SearchState::Parts { left }, SearchEvent::Opened) => open_next(left),
            (SearchState::Parts { left }, SearchEvent::NoSlab) => open_next(left),
            (state, _) => (state, SearchAction::Ignore),
        };
        (SearchRun { parent, block_size, capacity, state }, a)
    }
}

/// Every window of a table is tried, and not only up to the first that holds a
/// slab: whatever came of one, the next in table order is opened, and the
/// search is over only when none is left.
pub proof fn every_window_is_tried(
    run: SearchRun,
    left: Vec<Candidate>,
    e: SearchEvent,
    next: SearchState,
    a: SearchAction,
)
    requires
        run.state == (SearchState::Parts { left }),
        e is Opened || e is NoSlab,
        searches(run, e, next, a),
    ensures
        a is Finished <==> left@.len() == 0,
        left@.len() > 0 ==> a == (SearchAction::OpenPart { part: left@[0] }) && (next matches SearchState::Parts {
            left: rest,
        } && rest@ == left@.skip(1)),
{
    assert(left@.len() > 0 ==> left@.drop_first() =~= left@.skip(1));
}

} // verus!
