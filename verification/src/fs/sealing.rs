//! Templates are sealed in steps: the volume is looked at, checked and
//! snapshotted, and the snapshot is what clones are taken from.
use crate::fs::ext4::{Ext4Layout, SealBlocker};
use crate::fs::lifecycle;
use crate::fs::lifecycle::Fault;
use crate::fs::template;
use crate::fs::template::{FsKind, FsTemplate, TemplateStore};
use crate::ids::{Uuid, VolumeId};
use vstd::prelude::*;

verus! {

/// What came of what a run that seals a template asked for.
pub enum SealEvent {
    /// The run is to begin.
    Begin,
    /// The volume is not there any more.
    Vanished,
    /// The volume's superblock, or why it has none.
    Read { layout: Result<Ext4Layout, String> },
    /// What speaks against sealing, or why the check failed.
    Checked { found: Result<Vec<SealBlocker>, String> },
    /// The snapshot is made.
    Made { volume: VolumeId },
    /// It is not.
    Failed { why: String },
    /// The volume is deleted, if it could be.
    Deleted,
}

/// What a run that seals a template wants next.
pub enum SealAction {
    /// Nothing: this is not what was asked for.
    Ignore,
    /// A volume's superblock.
    Read { volume: VolumeId },
    /// What speaks against sealing a volume.
    Check { volume: VolumeId },
    /// A snapshot of a volume, of this name.
    Snapshot { source: VolumeId, name: String },
    /// A volume deleted.
    Delete { volume: VolumeId },
    /// Nothing: the template is sealed.
    Finished,
    /// Nothing: the template is not sealed.
    Fail { fault: Fault },
}

/// Where a run that seals a template stands.
#[allow(inconsistent_fields)]
pub enum SealState {
    Start,
    Reading { raw: VolumeId, fs: FsKind, name: String },
    Checking { raw: VolumeId, fs: FsKind, name: String, layout: Ext4Layout },
    Snapshotting { raw: VolumeId, layout: Option<Ext4Layout> },
    /// The template is sealed, and the volume that it was made on goes.
    Tidying,
    Over,
}

/// A run that seals a template, against all that speaks against it where it is
/// forced.
pub struct SealRun {
    pub id: Uuid,
    pub force: bool,
    pub state: SealState,
}

/// The snapshot is to be taken.
pub open spec fn snapshots(
    raw: VolumeId,
    fs: FsKind,
    name: Seq<char>,
    layout: Option<Ext4Layout>,
    next: SealState,
    a: SealAction,
) -> bool {
    &&& next == (SealState::Snapshotting { raw, layout })
    &&& a matches SealAction::Snapshot { source, name: n } && source == raw && n@
        == lifecycle::sealed_name_of(fs, name)
}

/// What a step of a run that seals a template does.
pub open spec fn seals(
    run: SealRun,
    ts: Seq<FsTemplate>,
    e: SealEvent,
    next: SealState,
    after: Seq<FsTemplate>,
    a: SealAction,
) -> bool {
    let i = template::place_of(ts, run.id);
    match (run.state, e) {
        (SealState::Start, SealEvent::Begin) => {
            &&& after == ts
            &&& match lifecycle::seal_begins(ts, run.id) {
                Err(fault) => next == SealState::Over && a == (SealAction::Fail { fault }),
                Ok(raw) => {
                    &&& next == (SealState::Reading { raw, fs: ts[i].fs, name: ts[i].name })
                    &&& a == (SealAction::Read { volume: raw })
                },
            }
        },
        (SealState::Reading { raw, fs, name }, SealEvent::Vanished) => {
            after == ts && next == SealState::Over && a == (SealAction::Fail {
                fault: Fault::VolumeGone { volume: raw.0 },
            })
        },
        (SealState::Reading { raw, fs, name }, SealEvent::Read { layout }) => {
            &&& after == ts
            &&& match layout {
                Ok(l) => {
                    &&& next == (SealState::Checking { raw, fs, name, layout: l })
                    &&& a == (SealAction::Check { volume: raw })
                },
                Err(why) => if run.force {
                    snapshots(raw, fs, name@, None, next, a)
                } else {
                    next == SealState::Over && a == (SealAction::Fail {
                        fault: Fault::NoFilesystem { why },
                    })
                },
            }
        },
        (SealState::Checking { raw, fs, name, layout }, SealEvent::Checked { found }) => {
            &&& after == ts
            &&& if run.force || (found matches Ok(b) && b@.len() == 0) {
                snapshots(raw, fs, name@, Some(layout), next, a)
            } else {
                &&& next == SealState::Over
                &&& a matches SealAction::Fail { fault }
                &&& match found {
                    Ok(b) => fault matches Fault::Blocked { name: n, why } && n == name && why@
                        == lifecycle::joined(b@),
                    Err(why) => fault == (Fault::NotChecked { why }),
                }
            }
        },
        (SealState::Snapshotting { raw, layout }, SealEvent::Made { volume }) => {
            if i < 0 {
                after == ts && next == SealState::Over && a == (SealAction::Fail {
                    fault: Fault::UnknownId { id: run.id },
                })
            } else {
                &&& after == ts.update(i, lifecycle::sealed_as(ts[i], volume.0, layout))
                &&& next == SealState::Tidying
                &&& a == (SealAction::Delete { volume: raw })
            }
        },
        (SealState::Snapshotting { raw, layout }, SealEvent::Failed { why }) => {
            after == ts && next == SealState::Over && a == (SealAction::Fail {
                fault: Fault::NotSnapshotted { why },
            })
        },
        (SealState::Tidying, SealEvent::Deleted) => {
            after == ts && next == SealState::Over && a == SealAction::Finished
        },
        _ => next == run.state && after == ts && a == SealAction::Ignore,
    }
}

impl SealRun {
    /// A run that is about to begin.
    pub fn new(id: Uuid, force: bool) -> (run: Self)
        ensures
            run == (SealRun { id, force, state: SealState::Start }),
    {
        SealRun { id, force, state: SealState::Start }
    }

    fn begin(id: Uuid, force: bool, store: &TemplateStore) -> (r: (Self, SealAction))
        ensures
            r.0.id == id,
            r.0.force == force,
            seals(
                SealRun { id, force, state: SealState::Start },
                store.templates@,
                SealEvent::Begin,
                r.0.state,
                store.templates@,
                r.1,
            ),
    {
        proof {
            template::lemma_place_of(store.templates@, id);
        }
        let raw: VolumeId = match lifecycle::seal(store, &id) {
            Ok(raw) => raw,
            Err(fault) => {
                return (
                    SealRun { id, force, state: SealState::Over },
                    SealAction::Fail { fault },
                );
            },
        };
        match store.get(&id) {
            Some(t) => (
                SealRun {
                    id,
                    force,
                    state: SealState::Reading { raw, fs: t.fs, name: t.name.clone() },
                },
                SealAction::Read { volume: raw },
            ),
            None => (
                SealRun { id, force, state: SealState::Over },
                SealAction::Fail { fault: Fault::UnknownId { id } },
            ),
        }
    }

    fn snapshot(
        id: Uuid,
        force: bool,
        raw: VolumeId,
        fs: FsKind,
        name: String,
        layout: Option<Ext4Layout>,
    ) -> (r: (Self, SealAction))
        ensures
            r.0.id == id,
            r.0.force == force,
            snapshots(raw, fs, name@, layout, r.0.state, r.1),
    {
        let sealed = lifecycle::sealed_name(fs, &name);
        (
            SealRun { id, force, state: SealState::Snapshotting { raw, layout } },
            SealAction::Snapshot { source: raw, name: sealed },
        )
    }

    /// Takes a step. An event that answers nothing that was asked for changes
    /// nothing.
    pub fn step(self, store: &mut TemplateStore, e: SealEvent) -> (r: (Self, SealAction))
        ensures
            r.0.id == self.id,
            r.0.force == self.force,
            final(store).version == old(store).version,
            seals(self, old(store).templates@, e, r.0.state, final(store).templates@, r.1),
    {
        let SealRun { id, force, state } = self;
        match (state, e) {
            (SealState::Start, SealEvent::Begin) => Self::begin(id, force, store),
            (SealState::Reading { raw, fs, name }, SealEvent::Vanished) => (
                SealRun { id, force, state: SealState::Over },
                SealAction::Fail { fault: Fault::VolumeGone { volume: raw.0 } },
            ),
            (SealState::Reading { raw, fs, name }, SealEvent::Read { layout }) => {
                match lifecycle::judge_layout(layout, force) {
                    Ok(Some(layout)) => (
                        SealRun {
                            id,
                            force,
                            state: SealState::Checking { raw, fs, name, layout },
                        },
                        SealAction::Check { volume: raw },
                    ),
                    Ok(None) => Self::snapshot(id, force, raw, fs, name, None),
                    Err(fault) => (
                        SealRun { id, force, state: SealState::Over },
                        SealAction::Fail { fault },
                    ),
                }
            },
            (SealState::Checking { raw, fs, name, layout }, SealEvent::Checked { found }) => {
                match lifecycle::judge_blockers(name.clone(), found, force) {
                    Ok(()) => Self::snapshot(id, force, raw, fs, name, Some(layout)),
                    Err(fault) => (
                        SealRun { id, force, state: SealState::Over },
                        SealAction::Fail { fault },
                    ),
                }
            },
            (SealState::Snapshotting { raw, layout }, SealEvent::Made { volume }) => {
                match lifecycle::mark_sealed(store, &id, volume, &layout) {
                    Ok(()) => (
                        SealRun { id, force, state: SealState::Tidying },
                        SealAction::Delete { volume: raw },
                    ),
                    Err(fault) => (
                        SealRun { id, force, state: SealState::Over },
                        SealAction::Fail { fault },
                    ),
                }
            },
            (SealState::Snapshotting { raw, layout }, SealEvent::Failed { why }) => (
                SealRun { id, force, state: SealState::Over },
                SealAction::Fail { fault: Fault::NotSnapshotted { why } },
            ),
            (SealState::Tidying, SealEvent::Deleted) => (
                SealRun { id, force, state: SealState::Over },
                SealAction::Finished,
            ),
            (state, _) => (SealRun { id, force, state }, SealAction::Ignore),
        }
    }
}

/// Without force, no snapshot is taken of a volume but one that was checked and
/// found clean.
pub proof fn only_what_is_clean_is_sealed(
    run: SealRun,
    ts: Seq<FsTemplate>,
    e: SealEvent,
    next: SealState,
    after: Seq<FsTemplate>,
    a: SealAction,
)
    requires
        seals(run, ts, e, next, after, a),
        a is Snapshot,
        !run.force,
    ensures
        run.state is Checking,
        e matches SealEvent::Checked { found: Ok(b) } && b@.len() == 0,
{
}

/// A run that fails leaves the store as it was: a template is sealed in one
/// step, and what comes after it cannot fail.
pub proof fn sealing_is_all_or_nothing(
    run: SealRun,
    ts: Seq<FsTemplate>,
    e: SealEvent,
    next: SealState,
    after: Seq<FsTemplate>,
    a: SealAction,
)
    requires
        seals(run, ts, e, next, after, a),
    ensures
        a is Fail ==> after == ts,
        after != ts ==> a is Delete && next is Tidying,
        run.state is Tidying ==> !(a is Fail),
        a is Finished ==> run.state is Tidying,
{
}

/// The volume that a template was made on is deleted only once the template has
/// its snapshot, and is none of the template's own any more.
pub proof fn a_volume_goes_only_after_its_snapshot(
    run: SealRun,
    ts: Seq<FsTemplate>,
    e: SealEvent,
    next: SealState,
    after: Seq<FsTemplate>,
    a: SealAction,
)
    requires
        seals(run, ts, e, next, after, a),
        a is Delete,
    ensures
        ({
            let i = template::place_of(ts, run.id);
            &&& i >= 0
            &&& e matches SealEvent::Made { volume }
            &&& after[i].sealed_volume_id == Some(volume.0)
            &&& after[i].raw_volume_id is None
            &&& after[i].state == template::TemplateState::Ready
        }),
{
    template::lemma_place_of(ts, run.id);
}

} // verus!
