//! Clones are handed out in steps, and others are minted to stand by.
//!
//! What stands by is taken out of the store at once, so that nobody else gets
//! it; only what was asked for beyond what it is already gets done then. A
//! clone that is to stand by is minted by whoever marks the template first.
use crate::fs::lifecycle;
use crate::fs::lifecycle::{Claim, Fault, Minted, StandBy};
use crate::fs::template;
use crate::fs::template::{
    ClaimSpec, CloneResult, CloneSpec, FsTemplate, StandingClone, TemplateState, TemplateStore,
};
use crate::ids::{Uuid, VolumeId};
use vstd::prelude::*;

verus! {

/// What came of what a run that hands out a clone asked for.
pub enum ClaimEvent {
    /// The run is to begin.
    Begin,
    /// It went well.
    Did,
    /// It did not.
    Failed { why: String },
    /// The volume is not there any more.
    Vanished,
    /// The clone is minted.
    Minted { result: CloneResult },
    /// The clone is not minted.
    Unminted { fault: Fault },
}

/// What a run that hands out a clone wants next.
pub enum ClaimAction {
    /// Nothing: this is not what was asked for.
    Ignore,
    /// A clone of the template, minted now.
    Mint { spec: CloneSpec },
    /// A volume of this size.
    Grow { volume: VolumeId, size: u64 },
    /// This label on a volume's filesystem.
    Label { volume: VolumeId, label: String },
    /// Nothing: the clone is handed out. Another is to be minted to stand by
    /// for the template of this identity.
    Finished { result: CloneResult, replenish: Uuid },
    /// Nothing: there is no clone.
    Fail { fault: Fault },
}

/// Where a run that hands out a clone stands.
pub enum ClaimState {
    Start,
    Minting { template_id: Uuid },
    Growing { template_id: Uuid, clone: StandingClone },
    Labelling { template_id: Uuid, clone: StandingClone },
    Over,
}

/// A run that hands out a clone. What it mints on the spot is named by `fresh`.
pub struct ClaimRun {
    pub fresh: Uuid,
    pub state: ClaimState,
}

/// Whether `s` is how a clone is minted that is wanted now: under the name of
/// one that stands by, with the size and the label that were asked for, an
/// identity of its own, and checked.
pub open spec fn is_inline(s: CloneSpec, name: Seq<char>, fresh: Uuid, spec: ClaimSpec) -> bool {
    &&& s.name@ == lifecycle::standby_name_of(name, fresh)
    &&& s == (CloneSpec {
        name: s.name,
        size_bytes: spec.size_bytes,
        stamp_uuid: true,
        stamp_backups: false,
        label: spec.label,
        standby: false,
        verify: true,
    })
}

/// What the clone that stood by is handed out as.
pub open spec fn handed_out(template_id: Uuid, clone: StandingClone, spec: ClaimSpec) -> CloneResult {
    CloneResult {
        volume_id: VolumeId(clone.volume_id),
        template_id,
        fs_uuid: clone.fs_uuid,
        size_bytes: lifecycle::grown(clone.size_bytes, spec.size_bytes),
        verified: clone.verified,
        from_standby: true,
    }
}

/// The clone that stood by is handed out.
pub open spec fn hands_out(
    template_id: Uuid,
    clone: StandingClone,
    spec: ClaimSpec,
    next: ClaimState,
    a: ClaimAction,
) -> bool {
    next == ClaimState::Over && a == (ClaimAction::Finished {
        result: handed_out(template_id, clone, spec),
        replenish: template_id,
    })
}

/// What comes once the clone that stood by has its size: the label, where it is
/// to have one.
pub open spec fn comes_to_label(
    template_id: Uuid,
    clone: StandingClone,
    spec: ClaimSpec,
    next: ClaimState,
    a: ClaimAction,
) -> bool {
    match spec.label {
        Some(label) => next == (ClaimState::Labelling { template_id, clone }) && a == (
        ClaimAction::Label { volume: VolumeId(clone.volume_id), label }),
        None => hands_out(template_id, clone, spec, next, a),
    }
}

/// The run fails.
pub open spec fn fails(fault: Fault, next: ClaimState, a: ClaimAction) -> bool {
    next == ClaimState::Over && a == (ClaimAction::Fail { fault })
}

/// How a run that hands out a clone of the template `t` begins.
pub open spec fn begins(
    fresh: Uuid,
    ts: Seq<FsTemplate>,
    t: FsTemplate,
    spec: ClaimSpec,
    next: ClaimState,
    after: Seq<FsTemplate>,
    a: ClaimAction,
) -> bool {
    &&& after == lifecycle::claimed(ts, t.id)
    &&& if t.state != TemplateState::Ready {
        fails(Fault::NotReadyToClaim { name: t.name, state: t.state }, next, a)
    } else {
        match ts[template::place_of(ts, t.id)].standing {
            None => next == (ClaimState::Minting { template_id: t.id }) && (a matches ClaimAction::Mint {
                spec: s,
            } && is_inline(s, t.name@, fresh, spec)),
            Some(clone) => {
                let size = lifecycle::grown(clone.size_bytes, spec.size_bytes);
                if size > clone.size_bytes {
                    next == (ClaimState::Growing { template_id: t.id, clone }) && a == (
                    ClaimAction::Grow { volume: VolumeId(clone.volume_id), size })
                } else {
                    comes_to_label(t.id, clone, spec, next, a)
                }
            },
        }
    }
}

/// What a step of a run that hands out a clone does. A label that cannot be set
/// keeps nobody from getting the clone.
pub open spec fn claims(
    run: ClaimRun,
    ts: Seq<FsTemplate>,
    key: String,
    spec: ClaimSpec,
    e: ClaimEvent,
    next: ClaimState,
    after: Seq<FsTemplate>,
    a: ClaimAction,
) -> bool {
    match (run.state, e) {
        (ClaimState::Start, ClaimEvent::Begin) => match template::at(
            ts,
            template::place_keyed(ts, key@),
        ) {
            None => after == ts && fails(Fault::UnknownKey { key }, next, a),
            Some(t) => begins(run.fresh, ts, t, spec, next, after, a),
        },
        (ClaimState::Minting { template_id }, ClaimEvent::Minted { result }) => {
            after == ts && next == ClaimState::Over && a == (ClaimAction::Finished {
                result,
                replenish: template_id,
            })
        },
        (ClaimState::Minting { template_id }, ClaimEvent::Unminted { fault }) => {
            after == ts && fails(fault, next, a)
        },
        (ClaimState::Growing { template_id, clone }, ClaimEvent::Did) => {
            after == ts && comes_to_label(template_id, clone, spec, next, a)
        },
        (ClaimState::Growing { template_id, clone }, ClaimEvent::Failed { why }) => {
            after == ts && fails(Fault::ClaimNotGrown { why }, next, a)
        },
        (ClaimState::Labelling { template_id, clone }, ClaimEvent::Did) => {
            after == ts && hands_out(template_id, clone, spec, next, a)
        },
        (ClaimState::Labelling { template_id, clone }, ClaimEvent::Failed { why }) => {
            after == ts && hands_out(template_id, clone, spec, next, a)
        },
        (ClaimState::Labelling { template_id, clone }, ClaimEvent::Vanished) => {
            after == ts && hands_out(template_id, clone, spec, next, a)
        },
        _ => after == ts && next == run.state && a == ClaimAction::Ignore,
    }
}

/// How a clone is minted that is wanted now.
pub fn inline_spec(name: &str, fresh: Uuid, spec: &ClaimSpec) -> (s: CloneSpec)
    ensures
        is_inline(s, name@, fresh, *spec),
{
    let mut s = CloneSpec::new(lifecycle::standby_name(name, fresh));
    s.size_bytes = spec.size_bytes;
    s.label = match &spec.label {
        Some(l) => Some(l.clone()),
        None => None,
    };
    s
}

impl ClaimRun {
    /// A run that is about to begin.
    pub fn new() -> (run: Self)
        ensures
            run.state == ClaimState::Start,
            crate::ids::uuid_version(run.fresh.bits) == 4,
            crate::ids::uuid_variant(run.fresh.bits) == 2,
    {
        ClaimRun { fresh: Uuid::new_v4(), state: ClaimState::Start }
    }

    fn hand_out(fresh: Uuid, template_id: Uuid, clone: StandingClone, spec: &ClaimSpec) -> (r: (
        Self,
        ClaimAction,
    ))
        ensures
            r.0.fresh == fresh,
            hands_out(template_id, clone, *spec, r.0.state, r.1),
    {
        let result = lifecycle::claim_result(template_id, &clone, spec);
        (
            ClaimRun { fresh, state: ClaimState::Over },
            ClaimAction::Finished { result, replenish: template_id },
        )
    }

    fn to_label(fresh: Uuid, template_id: Uuid, clone: StandingClone, spec: &ClaimSpec) -> (r: (
        Self,
        ClaimAction,
    ))
        ensures
            r.0.fresh == fresh,
            comes_to_label(template_id, clone, *spec, r.0.state, r.1),
    {
        match &spec.label {
            Some(label) => (
                ClaimRun { fresh, state: ClaimState::Labelling { template_id, clone } },
                ClaimAction::Label { volume: VolumeId(clone.volume_id), label: label.clone() },
            ),
            None => Self::hand_out(fresh, template_id, clone, spec),
        }
    }

    fn fail(fresh: Uuid, fault: Fault) -> (r: (Self, ClaimAction))
        ensures
            r.0.fresh == fresh,
            fails(fault, r.0.state, r.1),
    {
        (ClaimRun { fresh, state: ClaimState::Over }, ClaimAction::Fail { fault })
    }

    fn begin(fresh: Uuid, store: &mut TemplateStore, key: &String, spec: &ClaimSpec) -> (r: (
        Self,
        ClaimAction,
    ))
        requires
            forall|i: int|
                0 <= i < old(store).templates@.len() ==> (
                #[trigger] old(store).templates@[i]).clones < u64::MAX,
        ensures
            r.0.fresh == fresh,
            final(store).version == old(store).version,
            ({
                let ts = old(store).templates@;
                match template::at(ts, template::place_keyed(ts, key@)) {
                    None => final(store).templates@ == ts && fails(
                        Fault::UnknownKey { key: *key },
                        r.0.state,
                        r.1,
                    ),
                    Some(t) => begins(
                        fresh,
                        ts,
                        t,
                        *spec,
                        r.0.state,
                        final(store).templates@,
                        r.1,
                    ),
                }
            }),
    {
        let name: String = match store.find(key) {
            Some(t) => t.name.clone(),
            None => String::new(),
        };
        match lifecycle::claim(store, key) {
            Err(fault) => Self::fail(fresh, fault),
            Ok(Claim::Inline { template_id }) => (
                ClaimRun { fresh, state: ClaimState::Minting { template_id } },
                ClaimAction::Mint { spec: inline_spec(&name, fresh, spec) },
            ),
            Ok(Claim::Taken { template_id, clone }) => {
                let (size, grow) = lifecycle::clone_size(clone.size_bytes, spec.size_bytes);
                if grow {
                    (
                        ClaimRun { fresh, state: ClaimState::Growing { template_id, clone } },
                        ClaimAction::Grow { volume: VolumeId(clone.volume_id), size },
                    )
                } else {
                    Self::to_label(fresh, template_id, clone, spec)
                }
            },
        }
    }

    /// Takes a step. An event that answers nothing that was asked for changes
    /// nothing.
    pub fn step(
        self,
        store: &mut TemplateStore,
        key: &String,
        spec: &ClaimSpec,
        e: ClaimEvent,
    ) -> (r: (Self, ClaimAction))
        requires
            self.state is Start ==> forall|i: int|
                0 <= i < old(store).templates@.len() ==> (
                #[trigger] old(store).templates@[i]).clones < u64::MAX,
        ensures
            r.0.fresh == self.fresh,
            final(store).version == old(store).version,
            claims(
                self,
                old(store).templates@,
                *key,
                *spec,
                e,
                r.0.state,
                final(store).templates@,
                r.1,
            ),
    {
        let ClaimRun { fresh, state } = self;
        match (state, e) {
            (ClaimState::Start, ClaimEvent::Begin) => Self::begin(fresh, store, key, spec),
            (ClaimState::Minting { template_id }, ClaimEvent::Minted { result }) => (
                ClaimRun { fresh, state: ClaimState::Over },
                ClaimAction::Finished { result, replenish: template_id },
            ),
            (ClaimState::Minting { template_id }, ClaimEvent::Unminted { fault }) => {
                Self::fail(fresh, fault)
            },
            (ClaimState::Growing { template_id, clone }, ClaimEvent::Did) => {
                Self::to_label(fresh, template_id, clone, spec)
            },
            (ClaimState::Growing { template_id, clone }, ClaimEvent::Failed { why }) => {
                Self::fail(fresh, Fault::ClaimNotGrown { why })
            },
            (ClaimState::Labelling { template_id, clone }, ClaimEvent::Did) => {
                Self::hand_out(fresh, template_id, clone, spec)
            },
            (ClaimState::Labelling { template_id, clone }, ClaimEvent::Failed { why }) => {
                Self::hand_out(fresh, template_id, clone, spec)
            },
            (ClaimState::Labelling { template_id, clone }, ClaimEvent::Vanished) => {
                Self::hand_out(fresh, template_id, clone, spec)
            },
            (state, _) => (ClaimRun { fresh, state }, ClaimAction::Ignore),
        }
    }
}

/// A claim that asks for nothing writes nothing to the clone that stood by: no
/// step grows or labels a volume, and where a clone stands by it is handed out
/// at once.
pub proof fn a_claim_that_asks_for_nothing_writes_nothing(
    run: ClaimRun,
    ts: Seq<FsTemplate>,
    key: String,
    spec: ClaimSpec,
    e: ClaimEvent,
    next: ClaimState,
    after: Seq<FsTemplate>,
    a: ClaimAction,
)
    requires
        claims(run, ts, key, spec, e, next, after, a),
        spec.size_bytes is None,
        spec.label is None,
    ensures
        !(a is Grow),
        !(a is Label),
        run.state is Start && e is Begin ==> (template::at(ts, template::place_keyed(ts, key@)) matches Some(
            t,
        ) ==> t.state == TemplateState::Ready ==> (ts[template::place_of(ts, t.id)].standing matches Some(
            clone,
        ) ==> hands_out(t.id, clone, spec, next, a))),
{
}

/// The clone that was taken is the one that is handed out, with the identity
/// that it stood by with, never smaller than it was and as large as was asked
/// for.
pub proof fn a_claim_never_shrinks_a_clone(
    run: ClaimRun,
    ts: Seq<FsTemplate>,
    key: String,
    spec: ClaimSpec,
    e: ClaimEvent,
    template_id: Uuid,
    clone: StandingClone,
    result: CloneResult,
    replenish: Uuid,
    next: ClaimState,
    after: Seq<FsTemplate>,
)
    requires
        run.state == (ClaimState::Growing { template_id, clone }) || run.state == (
        ClaimState::Labelling { template_id, clone }),
        claims(
            run,
            ts,
            key,
            spec,
            e,
            next,
            after,
            ClaimAction::Finished { result, replenish },
        ),
    ensures
        result.volume_id.0 == clone.volume_id,
        result.size_bytes >= clone.size_bytes,
        spec.size_bytes matches Some(want) ==> result.size_bytes >= want,
        result.fs_uuid == clone.fs_uuid,
        result.from_standby,
        replenish == template_id,
{
}

/// What came of what a run that mints a clone to stand by asked for.
pub enum StandEvent {
    /// The run is to begin.
    Begin,
    /// The clone is minted.
    Minted { result: CloneResult },
    /// The clone is not minted.
    Unminted { fault: Fault },
    /// The volume is deleted, if it could be.
    Deleted,
}

/// What a run that mints a clone to stand by wants next.
pub enum StandAction {
    /// Nothing: this is not what was asked for.
    Ignore,
    /// A clone of the template of this identity.
    Mint { template_id: Uuid, spec: CloneSpec },
    /// A volume deleted.
    Delete { volume: VolumeId },
    /// Nothing: this is what stands by, if it can be told.
    Finished { standing: Option<StandingClone> },
    /// Nothing: no clone could be minted.
    Fail { fault: Fault },
}

/// Where a run that mints a clone to stand by stands.
pub enum StandState {
    Start,
    Minting { template_id: Uuid },
    Dropping,
    Over,
}

/// A run that mints a clone to stand by, named by `fresh`.
pub struct StandRun {
    pub fresh: Uuid,
    pub state: StandState,
}

/// Whether `s` is how a clone is minted that is to stand by: of its template's
/// size, with an identity of its own, checked, and counted nowhere yet.
pub open spec fn is_standing(s: CloneSpec, name: Seq<char>, fresh: Uuid) -> bool {
    &&& s.name@ == lifecycle::standby_name_of(name, fresh)
    &&& s == (CloneSpec {
        name: s.name,
        size_bytes: None,
        stamp_uuid: true,
        stamp_backups: false,
        label: None,
        standby: true,
        verify: true,
    })
}

/// What a step of a run that mints a clone to stand by does.
pub open spec fn stands(
    run: StandRun,
    ts: Seq<FsTemplate>,
    key: String,
    e: StandEvent,
    next: StandState,
    after: Seq<FsTemplate>,
    a: StandAction,
) -> bool {
    match (run.state, e) {
        (StandState::Start, StandEvent::Begin) => match template::at(
            ts,
            template::place_keyed(ts, key@),
        ) {
            None => after == ts && next == StandState::Over && a == (StandAction::Fail {
                fault: Fault::UnknownKey { key },
            }),
            Some(t) => match lifecycle::stand_by_of(t) {
                StandBy::Nothing => after == ts && next == StandState::Over && a == (
                StandAction::Finished { standing: None }),
                StandBy::Already(c) => after == ts && next == StandState::Over && a == (
                StandAction::Finished { standing: Some(c) }),
                StandBy::Mint { template_id } => {
                    &&& after == lifecycle::with_minting(ts, template_id, true)
                    &&& next == (StandState::Minting { template_id })
                    &&& a matches StandAction::Mint { template_id: id, spec }
                    &&& id == template_id
                    &&& is_standing(spec, t.name@, run.fresh)
                },
            },
        },
        (StandState::Minting { template_id }, StandEvent::Minted { result }) => {
            let (then, m) = lifecycle::mint_ends(ts, template_id, Some(result));
            &&& after == then
            &&& match m {
                Minted::Standing(c) => next == StandState::Over && a == (StandAction::Finished {
                    standing: Some(c),
                }),
                Minted::TooMany(volume) => next == StandState::Dropping && a == (
                StandAction::Delete { volume }),
                Minted::Nothing => next == StandState::Over && a == (StandAction::Finished {
                    standing: None,
                }),
            }
        },
        (StandState::Minting { template_id }, StandEvent::Unminted { fault }) => {
            after == lifecycle::mint_ends(ts, template_id, None).0 && next == StandState::Over && a
                == (StandAction::Fail { fault })
        },
        (StandState::Dropping, StandEvent::Deleted) => after == ts && next == StandState::Over && a
            == (StandAction::Finished { standing: None }),
        _ => after == ts && next == run.state && a == StandAction::Ignore,
    }
}

/// How a clone is minted that is to stand by.
pub fn standing_spec(name: &str, fresh: Uuid) -> (s: CloneSpec)
    ensures
        is_standing(s, name@, fresh),
{
    let mut s = CloneSpec::new(lifecycle::standby_name(name, fresh));
    s.standby = true;
    s
}

impl StandRun {
    /// A run that is about to begin.
    pub fn new() -> (run: Self)
        ensures
            run.state == StandState::Start,
            crate::ids::uuid_version(run.fresh.bits) == 4,
            crate::ids::uuid_variant(run.fresh.bits) == 2,
    {
        StandRun { fresh: Uuid::new_v4(), state: StandState::Start }
    }

    /// Takes a step. An event that answers nothing that was asked for changes
    /// nothing.
    pub fn step(self, store: &mut TemplateStore, key: &String, e: StandEvent) -> (r: (
        Self,
        StandAction,
    ))
        ensures
            r.0.fresh == self.fresh,
            final(store).version == old(store).version,
            stands(
                self,
                old(store).templates@,
                *key,
                e,
                r.0.state,
                final(store).templates@,
                r.1,
            ),
    {
        let StandRun { fresh, state } = self;
        match (state, e) {
            (StandState::Start, StandEvent::Begin) => {
                let name: String = match store.find(key) {
                    Some(t) => t.name.clone(),
                    None => String::new(),
                };
                match lifecycle::ensure_standing(store, key) {
                    Err(fault) => (
                        StandRun { fresh, state: StandState::Over },
                        StandAction::Fail { fault },
                    ),
                    Ok(StandBy::Nothing) => (
                        StandRun { fresh, state: StandState::Over },
                        StandAction::Finished { standing: None },
                    ),
                    Ok(StandBy::Already(c)) => (
                        StandRun { fresh, state: StandState::Over },
                        StandAction::Finished { standing: Some(c) },
                    ),
                    Ok(StandBy::Mint { template_id }) => (
                        StandRun { fresh, state: StandState::Minting { template_id } },
                        StandAction::Mint { template_id, spec: standing_spec(&name, fresh) },
                    ),
                }
            },
            (StandState::Minting { template_id }, StandEvent::Minted { result }) => {
                match lifecycle::finish_standing(store, &template_id, Some(result)) {
                    Minted::Standing(c) => (
                        StandRun { fresh, state: StandState::Over },
                        StandAction::Finished { standing: Some(c) },
                    ),
                    Minted::TooMany(volume) => (
                        StandRun { fresh, state: StandState::Dropping },
                        StandAction::Delete { volume },
                    ),
                    Minted::Nothing => (
                        StandRun { fresh, state: StandState::Over },
                        StandAction::Finished { standing: None },
                    ),
                }
            },
            (StandState::Minting { template_id }, StandEvent::Unminted { fault }) => {
                lifecycle::finish_standing(store, &template_id, None);
                (StandRun { fresh, state: StandState::Over }, StandAction::Fail { fault })
            },
            (StandState::Dropping, StandEvent::Deleted) => (
                StandRun { fresh, state: StandState::Over },
                StandAction::Finished { standing: None },
            ),
            (state, _) => (StandRun { fresh, state }, StandAction::Ignore),
        }
    }
}

/// However minting ends, the template is not left marked, and the clone that
/// was minted stands by or is deleted.
pub proof fn no_mint_stays_in_flight(
    run: StandRun,
    ts: Seq<FsTemplate>,
    key: String,
    e: StandEvent,
    next: StandState,
    after: Seq<FsTemplate>,
    a: StandAction,
)
    requires
        stands(run, ts, key, e, next, after, a),
        run.state is Minting,
        !(next is Minting),
    ensures
        ({
            let i = template::place_of(ts, run.state->template_id);
            &&& i >= 0 ==> i < after.len() && after[i].id == run.state->template_id
                && !after[i].minting
            &&& e matches StandEvent::Minted { result } ==> a == (StandAction::Delete {
                volume: result.volume_id,
            }) || (i >= 0 && after[i].standing == Some(lifecycle::standing_of(result)))
        }),
{
    template::lemma_place_of(ts, run.state->template_id);
}

} // verus!
