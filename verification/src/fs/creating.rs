//! Templates are made in steps.
//!
//! A run says what is to be done next, is told what came of it, and keeps the
//! store of templates in step. Volumes are made, written and deleted by the
//! caller, who holds no lock on the store meanwhile: what a run knows of the
//! store it looks up when it needs it.
use crate::fs::ext4::Ext4Params;
use crate::fs::lifecycle;
use crate::fs::lifecycle::{Fault, Origin, ParentShape};
use crate::fs::template;
use crate::fs::template::{FsTemplate, TemplateSpec, TemplateStore};
use crate::ids::{Uuid, VolumeId};
use vstd::prelude::*;

verus! {

/// What came of what a run that makes a template asked for.
pub enum CreateEvent {
    /// The run is to begin.
    Begin,
    /// The volume is made.
    Made { volume: VolumeId },
    /// It went well.
    Did,
    /// It did not.
    Failed { why: String },
    /// The volume is not there any more.
    Vanished,
    /// The volume is thrown away, or why it is not.
    Discarded { outcome: Result<(), String> },
    /// The volumes are deleted, as far as they could be.
    Deleted,
    /// The template cannot be sealed.
    Unsealed { fault: Fault },
}

/// What a run that makes a template wants next.
pub enum CreateAction {
    /// Nothing: this is not what was asked for.
    Ignore,
    /// An empty volume of this name and size.
    MakeVolume { name: String, size: u64 },
    /// A snapshot of a volume, of this name.
    Snapshot { source: VolumeId, name: String },
    /// A volume of this size.
    Grow { volume: VolumeId, size: u64 },
    /// This UUID on a volume's filesystem, and on its backups where they are
    /// asked for.
    Stamp { volume: VolumeId, uuid: Uuid, backups: bool },
    /// A filesystem on a volume.
    Format { volume: VolumeId, params: Ext4Params },
    /// The specification's files on a volume.
    Seed { volume: VolumeId },
    /// The template sealed, without force.
    Seal { id: Uuid },
    /// A volume thrown away.
    Discard { volume: VolumeId },
    /// All these volumes deleted.
    DeleteAll { volumes: Vec<VolumeId> },
    /// Nothing: the template is made.
    Finished { id: Uuid },
    /// Nothing: the template is not made.
    Fail { fault: Fault },
}

/// Where a run that makes a template stands.
#[allow(inconsistent_fields)]
pub enum CreateState {
    Start,
    /// The volume is being made, on a parent or empty.
    Making { parent: Option<ParentShape>, grow: Option<u64> },
    Growing { parent: ParentShape, volume: VolumeId },
    Stamping { parent: ParentShape, volume: VolumeId },
    /// A volume that no template has is being thrown away.
    Dropping { fault: Fault },
    /// The volume of one that lost the race for its name is.
    Yielding { volume: VolumeId },
    Formatting { volume: VolumeId },
    Seeding,
    Sealing,
    /// The template is forgotten, and its volumes are being deleted.
    Undoing { fault: Fault },
    Over,
}

/// A run that makes a template, with the identity that it will have and the
/// one that its filesystem will.
pub struct CreateRun {
    pub id: Uuid,
    pub fresh: Uuid,
    pub state: CreateState,
}

/// What a template's filesystem is laid down with: as the specification has
/// it, on a volume that has never been written.
pub open spec fn laid_down_with(spec: TemplateSpec, fresh: Uuid) -> Ext4Params {
    Ext4Params {
        profile: spec.fs.profile_of(),
        label: spec.label,
        uuid: fresh,
        journal: spec.journal,
        features: spec.features,
        bytes_per_inode: None,
        block_size: None,
        assume_blank: true,
    }
}

/// What a template's filesystem is laid down with.
pub fn format_params(spec: &TemplateSpec, fresh: Uuid) -> (p: Ext4Params)
    ensures
        p == laid_down_with(*spec, fresh),
{
    Ext4Params {
        profile: spec.fs.profile(),
        label: spec.label.clone(),
        uuid: fresh,
        journal: spec.journal,
        features: match &spec.features {
            Some(f) => Some(f.clone()),
            None => None,
        },
        bytes_per_inode: None,
        block_size: None,
        assume_blank: true,
    }
}

/// The name is claimed, or was lost. What comes next is the filesystem, where
/// it is not somebody else's to make.
pub open spec fn claims(
    id: Uuid,
    fresh: Uuid,
    ts: Seq<FsTemplate>,
    spec: TemplateSpec,
    parent: Option<ParentShape>,
    volume: VolumeId,
    next: CreateState,
    after: Seq<FsTemplate>,
    a: CreateAction,
) -> bool {
    if template::place_named(ts, spec.name@) == -1 {
        &&& after.len() == ts.len() + 1
        &&& after.drop_last() == ts
        &&& lifecycle::is_new(after.last(), spec, parent, id, volume.0)
        &&& if spec.format_in_core {
            next == (CreateState::Formatting { volume }) && a == (CreateAction::Format {
                volume,
                params: laid_down_with(spec, fresh),
            })
        } else {
            next == CreateState::Over && a == (CreateAction::Finished { id })
        }
    } else {
        after == ts && next == (CreateState::Yielding { volume }) && a == (CreateAction::Discard {
            volume,
        })
    }
}

/// The template is forgotten, and every volume that it has is to be deleted.
pub open spec fn undoes(
    id: Uuid,
    ts: Seq<FsTemplate>,
    fault: Fault,
    next: CreateState,
    after: Seq<FsTemplate>,
    a: CreateAction,
) -> bool {
    let i = template::place_of(ts, id);
    &&& next == (CreateState::Undoing { fault })
    &&& after == (if i >= 0 {
        ts.remove(i)
    } else {
        ts
    })
    &&& a matches CreateAction::DeleteAll { volumes } && volumes@ == (if i >= 0 {
        ts[i].owned()
    } else {
        Seq::empty()
    })
}

/// The UUID is taken note of, and the template is to be sealed.
pub open spec fn seals(
    id: Uuid,
    ts: Seq<FsTemplate>,
    fs_uuid: Uuid,
    next: CreateState,
    after: Seq<FsTemplate>,
    a: CreateAction,
) -> bool {
    &&& next == CreateState::Sealing
    &&& after == lifecycle::with_uuid(ts, id, fs_uuid)
    &&& a == (CreateAction::Seal { id })
}

/// The run fails, with nothing left to undo.
pub open spec fn ends(
    ts: Seq<FsTemplate>,
    fault: Fault,
    next: CreateState,
    after: Seq<FsTemplate>,
    a: CreateAction,
) -> bool {
    next == CreateState::Over && after == ts && a == (CreateAction::Fail { fault })
}

/// A volume that no template has is to be thrown away.
pub open spec fn drops(
    ts: Seq<FsTemplate>,
    volume: VolumeId,
    fault: Fault,
    next: CreateState,
    after: Seq<FsTemplate>,
    a: CreateAction,
) -> bool {
    next == (CreateState::Dropping { fault }) && after == ts && a == (CreateAction::Discard {
        volume,
    })
}

/// How a run begins.
pub open spec fn begins(
    ts: Seq<FsTemplate>,
    spec: TemplateSpec,
    next: CreateState,
    after: Seq<FsTemplate>,
    a: CreateAction,
) -> bool {
    match lifecycle::origin(ts, spec) {
        Err(fault) => ends(ts, fault, next, after, a),
        Ok(Origin::Blank) => {
            &&& after == ts
            &&& next == (CreateState::Making { parent: None, grow: None })
            &&& a matches CreateAction::MakeVolume { name, size } && name@
                == lifecycle::raw_name_of(spec.name@) && size == spec.size_bytes
        },
        Ok(Origin::From { parent, source, grow }) => {
            &&& after == ts
            &&& next == (CreateState::Making { parent: Some(parent), grow })
            &&& a matches CreateAction::Snapshot { source: s, name } && s == source && name@
                == lifecycle::raw_name_of(spec.name@)
        },
    }
}

/// What a step of a run that makes a template does.
pub open spec fn creates(
    run: CreateRun,
    ts: Seq<FsTemplate>,
    spec: TemplateSpec,
    e: CreateEvent,
    next: CreateState,
    after: Seq<FsTemplate>,
    a: CreateAction,
) -> bool {
    match (run.state, e) {
        (CreateState::Start, CreateEvent::Begin) => begins(ts, spec, next, after, a),
        (CreateState::Making { parent: None, grow }, CreateEvent::Made { volume }) => claims(
            run.id,
            run.fresh,
            ts,
            spec,
            None,
            volume,
            next,
            after,
            a,
        ),
        (CreateState::Making { parent: Some(p), grow }, CreateEvent::Made { volume }) => {
            &&& after == ts
            &&& match grow {
                Some(size) => next == (CreateState::Growing { parent: p, volume }) && a == (
                CreateAction::Grow { volume, size }),
                None => next == (CreateState::Stamping { parent: p, volume }) && a == (
                CreateAction::Stamp { volume, uuid: run.fresh, backups: true }),
            }
        },
        (CreateState::Making { parent: None, grow }, CreateEvent::Failed { why }) => ends(
            ts,
            Fault::NotCreated { why },
            next,
            after,
            a,
        ),
        (CreateState::Making { parent: Some(p), grow }, CreateEvent::Failed { why }) => ends(
            ts,
            Fault::ParentNotCloned { name: p.name, why },
            next,
            after,
            a,
        ),
        (CreateState::Growing { parent, volume }, CreateEvent::Did) => {
            after == ts && next == (CreateState::Stamping { parent, volume }) && a == (
            CreateAction::Stamp { volume, uuid: run.fresh, backups: true })
        },
        (CreateState::Growing { parent, volume }, CreateEvent::Failed { why }) => drops(
            ts,
            volume,
            Fault::NotGrown { why },
            next,
            after,
            a,
        ),
        (CreateState::Stamping { parent, volume }, CreateEvent::Did) => claims(
            run.id,
            run.fresh,
            ts,
            spec,
            Some(parent),
            volume,
            next,
            after,
            a,
        ),
        (CreateState::Stamping { parent, volume }, CreateEvent::Failed { why }) => drops(
            ts,
            volume,
            Fault::ParentNotStamped { name: parent.name, why },
            next,
            after,
            a,
        ),
        (CreateState::Stamping { parent, volume }, CreateEvent::Vanished) => ends(
            ts,
            Fault::ClonedVolumeVanished,
            next,
            after,
            a,
        ),
        (CreateState::Dropping { fault }, CreateEvent::Discarded { outcome }) => ends(
            ts,
            fault,
            next,
            after,
            a,
        ),
        (CreateState::Yielding { volume }, CreateEvent::Discarded { outcome }) => ends(
            ts,
            match outcome {
                Ok(()) => Fault::NameTaken { name: spec.name },
                Err(why) => Fault::RaceLeaked { name: spec.name, volume: volume.0, why },
            },
            next,
            after,
            a,
        ),
        (CreateState::Formatting { volume }, CreateEvent::Did) => {
            if spec.seed@.len() > 0 {
                after == ts && next == (CreateState::Seeding) && a == (
                CreateAction::Seed { volume })
            } else {
                seals(run.id, ts, run.fresh, next, after, a)
            }
        },
        (CreateState::Formatting { volume }, CreateEvent::Failed { why }) => undoes(
            run.id,
            ts,
            Fault::NotFormatted { name: spec.name, why },
            next,
            after,
            a,
        ),
        (CreateState::Formatting { volume }, CreateEvent::Vanished) => undoes(
            run.id,
            ts,
            Fault::NewVolumeVanished,
            next,
            after,
            a,
        ),
        (CreateState::Seeding, CreateEvent::Did) => seals(
            run.id,
            ts,
            run.fresh,
            next,
            after,
            a,
        ),
        (CreateState::Seeding, CreateEvent::Failed { why }) => undoes(
            run.id,
            ts,
            Fault::NotSeeded { name: spec.name, why },
            next,
            after,
            a,
        ),
        (CreateState::Seeding, CreateEvent::Vanished) => undoes(
            run.id,
            ts,
            Fault::VolumeVanished,
            next,
            after,
            a,
        ),
        (CreateState::Sealing, CreateEvent::Did) => {
            after == ts && next == CreateState::Over && a == (CreateAction::Finished { id: run.id })
        },
        (CreateState::Sealing, CreateEvent::Unsealed { fault }) => undoes(
            run.id,
            ts,
            fault,
            next,
            after,
            a,
        ),
        (CreateState::Undoing { fault }, CreateEvent::Deleted) => ends(ts, fault, next, after, a),
        _ => next == run.state && after == ts && a == CreateAction::Ignore,
    }
}

impl CreateRun {
    /// A run that is about to begin, for a template and a filesystem with fresh
    /// identities.
    pub fn new() -> (run: Self)
        ensures
            run.state == CreateState::Start,
            crate::ids::uuid_version(run.id.bits) == 4,
            crate::ids::uuid_variant(run.id.bits) == 2,
            crate::ids::uuid_version(run.fresh.bits) == 4,
            crate::ids::uuid_variant(run.fresh.bits) == 2,
    {
        CreateRun { id: Uuid::new_v4(), fresh: Uuid::new_v4(), state: CreateState::Start }
    }

    fn begin(id: Uuid, fresh: Uuid, store: &TemplateStore, spec: &TemplateSpec) -> (r: (Self, CreateAction))
        ensures
            r.0.id == id,
            r.0.fresh == fresh,
            begins(store.templates@, *spec, r.0.state, store.templates@, r.1),
    {
        match lifecycle::create(store, spec) {
            Err(fault) => (CreateRun { id, fresh, state: CreateState::Over }, CreateAction::Fail { fault }),
            Ok(Origin::Blank) => (
                CreateRun { id, fresh, state: CreateState::Making { parent: None, grow: None } },
                CreateAction::MakeVolume {
                    name: lifecycle::raw_name(&spec.name),
                    size: spec.size_bytes,
                },
            ),
            Ok(Origin::From { parent, source, grow }) => (
                CreateRun { id, fresh, state: CreateState::Making { parent: Some(parent), grow } },
                CreateAction::Snapshot { source, name: lifecycle::raw_name(&spec.name) },
            ),
        }
    }

    fn claim(
        id: Uuid,
        fresh: Uuid,
        store: &mut TemplateStore,
        spec: &TemplateSpec,
        parent: Option<ParentShape>,
        volume: VolumeId,
    ) -> (r: (Self, CreateAction))
        ensures
            r.0.id == id,
            r.0.fresh == fresh,
            final(store).version == old(store).version,
            claims(
                id,
                fresh,
                old(store).templates@,
                *spec,
                parent,
                volume,
                r.0.state,
                final(store).templates@,
                r.1,
            ),
    {
        proof {
            template::lemma_place_named(store.templates@, spec.name@);
        }
        let t = lifecycle::new_template(spec, parent, id, volume.0);
        if !lifecycle::claim_name(store, t) {
            return (
                CreateRun { id, fresh, state: CreateState::Yielding { volume } },
                CreateAction::Discard { volume },
            );
        }
        assert(store.templates@.drop_last() =~= old(store).templates@);
        if spec.format_in_core {
            (
                CreateRun { id, fresh, state: CreateState::Formatting { volume } },
                CreateAction::Format { volume, params: format_params(spec, fresh) },
            )
        } else {
            (CreateRun { id, fresh, state: CreateState::Over }, CreateAction::Finished { id })
        }
    }

    fn undo(id: Uuid, fresh: Uuid, store: &mut TemplateStore, fault: Fault) -> (r: (
        Self,
        CreateAction,
    ))
        ensures
            r.0.id == id,
            r.0.fresh == fresh,
            final(store).version == old(store).version,
            undoes(id, old(store).templates@, fault, r.0.state, final(store).templates@, r.1),
    {
        let volumes = lifecycle::rollback(store, &id);
        assert(volumes@.len() == 0 ==> volumes@ =~= Seq::empty());
        (
            CreateRun { id, fresh, state: CreateState::Undoing { fault } },
            CreateAction::DeleteAll { volumes },
        )
    }

    fn seal(id: Uuid, fresh: Uuid, store: &mut TemplateStore) -> (r: (Self, CreateAction))
        ensures
            r.0.id == id,
            r.0.fresh == fresh,
            final(store).version == old(store).version,
            seals(id, old(store).templates@, fresh, r.0.state, final(store).templates@, r.1),
    {
        lifecycle::formatted(store, &id, fresh);
        (CreateRun { id, fresh, state: CreateState::Sealing }, CreateAction::Seal { id })
    }

    /// Takes a step. An event that answers nothing that was asked for changes
    /// nothing.
    pub fn step(self, store: &mut TemplateStore, spec: &TemplateSpec, e: CreateEvent) -> (r: (
        Self,
        CreateAction,
    ))
        ensures
            r.0.id == self.id,
            r.0.fresh == self.fresh,
            final(store).version == old(store).version,
            creates(
                self,
                old(store).templates@,
                *spec,
                e,
                r.0.state,
                final(store).templates@,
                r.1,
            ),
    {
        let CreateRun { id, fresh, state } = self;
        match (state, e) {
            (CreateState::Start, CreateEvent::Begin) => Self::begin(id, fresh, store, spec),
            (CreateState::Making { parent: None, grow }, CreateEvent::Made { volume }) => {
                Self::claim(id, fresh, store, spec, None, volume)
            },
            (CreateState::Making { parent: Some(p), grow }, CreateEvent::Made { volume }) => {
                match grow {
                    Some(size) => (
                        CreateRun { id, fresh, state: CreateState::Growing { parent: p, volume } },
                        CreateAction::Grow { volume, size },
                    ),
                    None => (
                        CreateRun { id, fresh, state: CreateState::Stamping { parent: p, volume } },
                        CreateAction::Stamp { volume, uuid: fresh, backups: true },
                    ),
                }
            },
            (CreateState::Making { parent: None, grow }, CreateEvent::Failed { why }) => (
                CreateRun { id, fresh, state: CreateState::Over },
                CreateAction::Fail { fault: Fault::NotCreated { why } },
            ),
            (CreateState::Making { parent: Some(p), grow }, CreateEvent::Failed { why }) => (
                CreateRun { id, fresh, state: CreateState::Over },
                CreateAction::Fail { fault: Fault::ParentNotCloned { name: p.name, why } },
            ),
            (CreateState::Growing { parent, volume }, CreateEvent::Did) => (
                CreateRun { id, fresh, state: CreateState::Stamping { parent, volume } },
                CreateAction::Stamp { volume, uuid: fresh, backups: true },
            ),
            (CreateState::Growing { parent, volume }, CreateEvent::Failed { why }) => (
                CreateRun { id, fresh, state: CreateState::Dropping { fault: Fault::NotGrown { why } } },
                CreateAction::Discard { volume },
            ),
            (CreateState::Stamping { parent, volume }, CreateEvent::Did) => {
                Self::claim(id, fresh, store, spec, Some(parent), volume)
            },
            (CreateState::Stamping { parent, volume }, CreateEvent::Failed { why }) => (
                CreateRun {
                    id,
                    fresh,
                    state: CreateState::Dropping {
                        fault: Fault::ParentNotStamped { name: parent.name, why },
                    },
                },
                CreateAction::Discard { volume },
            ),
            (CreateState::Stamping { parent, volume }, CreateEvent::Vanished) => (
                CreateRun { id, fresh, state: CreateState::Over },
                CreateAction::Fail { fault: Fault::ClonedVolumeVanished },
            ),
            (CreateState::Dropping { fault }, CreateEvent::Discarded { outcome }) => (
                CreateRun { id, fresh, state: CreateState::Over },
                CreateAction::Fail { fault },
            ),
            (CreateState::Yielding { volume }, CreateEvent::Discarded { outcome }) => (
                CreateRun { id, fresh, state: CreateState::Over },
                CreateAction::Fail {
                    fault: lifecycle::lost_race(spec.name.clone(), volume.0, outcome),
                },
            ),
            (CreateState::Formatting { volume }, CreateEvent::Did) => {
                if spec.seed.len() > 0 {
                    (
                        CreateRun { id, fresh, state: CreateState::Seeding },
                        CreateAction::Seed { volume },
                    )
                } else {
                    Self::seal(id, fresh, store)
                }
            },
            (CreateState::Formatting { volume }, CreateEvent::Failed { why }) => {
                Self::undo(id, fresh, store, Fault::NotFormatted { name: spec.name.clone(), why })
            },
            (CreateState::Formatting { volume }, CreateEvent::Vanished) => {
                Self::undo(id, fresh, store, Fault::NewVolumeVanished)
            },
            (CreateState::Seeding, CreateEvent::Did) => {
                Self::seal(id, fresh, store)
            },
            (CreateState::Seeding, CreateEvent::Failed { why }) => {
                Self::undo(id, fresh, store, Fault::NotSeeded { name: spec.name.clone(), why })
            },
            (CreateState::Seeding, CreateEvent::Vanished) => {
                Self::undo(id, fresh, store, Fault::VolumeVanished)
            },
            (CreateState::Sealing, CreateEvent::Did) => (
                CreateRun { id, fresh, state: CreateState::Over },
                CreateAction::Finished { id },
            ),
            (CreateState::Sealing, CreateEvent::Unsealed { fault }) => {
                Self::undo(id, fresh, store, fault)
            },
            (CreateState::Undoing { fault }, CreateEvent::Deleted) => (
                CreateRun { id, fresh, state: CreateState::Over },
                CreateAction::Fail { fault },
            ),
            (state, _) => (CreateRun { id, fresh, state }, CreateAction::Ignore),
        }
    }
}

/// The volume that a run has made and no template has.
pub open spec fn held(s: CreateState) -> Option<VolumeId> {
    match s {
        CreateState::Growing { parent, volume } => Some(volume),
        CreateState::Stamping { parent, volume } => Some(volume),
        _ => None,
    }
}

/// A run lets go of a volume that it has made in three ways only: its template
/// has it, or it is thrown away, or it was not there any more.
pub proof fn no_volume_is_left_behind(
    run: CreateRun,
    ts: Seq<FsTemplate>,
    spec: TemplateSpec,
    e: CreateEvent,
    next: CreateState,
    after: Seq<FsTemplate>,
    a: CreateAction,
)
    requires
        creates(run, ts, spec, e, next, after, a),
        held(run.state) is Some,
        held(next) is None,
    ensures
        ({
            let v = held(run.state)->0;
            ||| a == (CreateAction::Discard { volume: v })
            ||| after.len() == ts.len() + 1 && after.last().raw_volume_id == Some(v.0)
            ||| e is Vanished
        }),
{
}

/// Whether a run's template is in the store, with work on it still to come.
pub open spec fn claimed(s: CreateState) -> bool {
    s is Formatting || s is Seeding || s is Sealing
}

/// Once the name is claimed, a run ends well or not at all; and where it turns
/// back, the template is forgotten and every volume that it has is deleted
/// before the caller is told.
pub proof fn what_fails_is_undone(
    run: CreateRun,
    ts: Seq<FsTemplate>,
    spec: TemplateSpec,
    e: CreateEvent,
    next: CreateState,
    after: Seq<FsTemplate>,
    a: CreateAction,
)
    requires
        creates(run, ts, spec, e, next, after, a),
        claimed(run.state),
    ensures
        !(a is Fail),
        claimed(next) || a == (CreateAction::Finished { id: run.id }) || next is Undoing,
        e is Unsealed && run.state is Sealing ==> next is Undoing,
        next is Undoing && template::place_of(ts, run.id) >= 0 ==> {
            let i = template::place_of(ts, run.id);
            &&& after == ts.remove(i)
            &&& a matches CreateAction::DeleteAll { volumes }
            &&& volumes@ == ts[i].owned()
        },
{
}

/// A template whose filesystem cannot be made leaves nothing behind: the store
/// is what it was before the name was claimed, and the one volume that was made
/// is deleted.
pub proof fn a_failed_format_leaves_nothing(
    run: CreateRun,
    ts: Seq<FsTemplate>,
    spec: TemplateSpec,
    e: CreateEvent,
    volume: VolumeId,
    between: Seq<FsTemplate>,
    a: CreateAction,
    why: String,
    next: CreateState,
    after: Seq<FsTemplate>,
    last: CreateAction,
)
    requires
        template::place_of(ts, run.id) == -1,
        creates(run, ts, spec, e, CreateState::Formatting { volume }, between, a),
        !(run.state is Formatting),
        creates(
            CreateRun { id: run.id, fresh: run.fresh, state: CreateState::Formatting { volume } },
            between,
            spec,
            CreateEvent::Failed { why },
            next,
            after,
            last,
        ),
    ensures
        after == ts,
        last matches CreateAction::DeleteAll { volumes } && volumes@ == seq![volume],
{
    assert(between =~= ts.push(between.last()));
    lifecycle::a_failed_create_leaves_nothing(ts, between.last(), volume.0);
}

/// A template with a parent gets into the store only once its volume has an
/// identity of its own, and awaits files, not a filesystem.
pub proof fn a_child_gets_an_identity_first(
    run: CreateRun,
    ts: Seq<FsTemplate>,
    spec: TemplateSpec,
    e: CreateEvent,
    next: CreateState,
    after: Seq<FsTemplate>,
    a: CreateAction,
)
    requires
        creates(run, ts, spec, e, next, after, a),
        after.len() == ts.len() + 1,
        after.last().parent_id is Some,
    ensures
        run.state is Stamping,
        e is Did,
        after.last().state == template::TemplateState::AwaitingSeed,
{
    template::lemma_place_of(ts, run.id);
}

} // verus!
