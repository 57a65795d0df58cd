//! Clones of a template are made in steps: snapshotted, grown, given an
//! identity and a label, and checked before anybody is handed one.
use crate::fs::ext4::Problem;
use crate::fs::lifecycle;
use crate::fs::lifecycle::{CloneStart, Fault};
use crate::fs::template;
use crate::fs::template::{CloneResult, CloneSpec, FsTemplate, TemplateStore};
use crate::ids::{Uuid, VolumeId};
use vstd::prelude::*;

verus! {

/// What came of what a run that makes a clone asked for.
pub enum CloneEvent {
    /// The run is to begin.
    Begin,
    /// The snapshot is made, and holds so many bytes as far as can be told.
    Made { volume: VolumeId, capacity: Option<u64> },
    /// It went well.
    Did,
    /// It did not.
    Failed { why: String },
    /// The volume is not there any more.
    Vanished,
    /// What the check found, and whether it calls the filesystem clean.
    Checked { clean: bool, problems: Vec<Problem> },
    /// The volume is thrown away, or why it is not.
    Discarded { outcome: Result<(), String> },
}

/// What a run that makes a clone wants next.
pub enum CloneAction {
    /// Nothing: this is not what was asked for.
    Ignore,
    /// A snapshot of a volume, of this name.
    Snapshot { source: VolumeId, name: String },
    /// A volume of this size.
    Grow { volume: VolumeId, size: u64 },
    /// This UUID on a volume's filesystem, and on its backups where they are
    /// asked for.
    Stamp { volume: VolumeId, uuid: Uuid, backups: bool },
    /// This label on a volume's filesystem.
    Label { volume: VolumeId, label: String },
    /// A volume's filesystem checked.
    Check { volume: VolumeId },
    /// A volume thrown away.
    Discard { volume: VolumeId },
    /// Nothing: the clone is made. Another may have to be minted to stand by.
    Finished { result: CloneResult, replenish: bool },
    /// Nothing: there is no clone.
    Fail { fault: Fault },
}

/// A clone in the making.
#[derive(Clone, Copy)]
pub struct Draft {
    pub start: CloneStart,
    pub volume: VolumeId,
    pub size: u64,
    /// The identity that it was given.
    pub stamped: Option<Uuid>,
}

/// Where a run that makes a clone stands.
pub enum CloneState {
    Start,
    Snapshotting { start: CloneStart },
    Growing { draft: Draft },
    Stamping { draft: Draft },
    Labelling { draft: Draft },
    Checking { draft: Draft },
    Dropping { volume: VolumeId, context: String },
    Over,
}

/// A run that makes a clone, with the identity that it is to be given.
pub struct CloneRun {
    pub fresh: Uuid,
    pub state: CloneState,
}

/// What a check found, in words, with semicolons in between.
pub open spec fn told(problems: Seq<Problem>) -> Seq<char>
    decreases problems.len(),
{
    if problems.len() == 0 {
        Seq::empty()
    } else if problems.len() == 1 {
        problems[0].code@ + ": "@ + problems[0].message@
    } else {
        told(problems.drop_last()) + "; "@ + (problems.last().code@ + ": "@
            + problems.last().message@)
    }
}

/// What a check found, in words.
pub fn tell(problems: &Vec<Problem>) -> (s: String)
    ensures
        s@ == told(problems@),
{
    let mut s = String::new();
    let mut i: usize = 0;
    assert(s@ =~= told(problems@.take(0)));
    while i < problems.len()
        invariant
            i <= problems@.len(),
            s@ == told(problems@.take(i as int)),
        decreases problems@.len() - i,
    {
        let ghost now = problems@.take(i + 1);
        assert(now.drop_last() =~= problems@.take(i as int));
        assert(now.last() == problems@[i as int]);
        let ghost before = s@;
        if i > 0 {
            s.append("; ");
        }
        s.append(&problems[i].code);
        s.append(": ");
        s.append(&problems[i].message);
        if i == 0 {
            assert(before =~= Seq::<char>::empty());
        }
        assert(s@ =~= told(now));
        i = i + 1;
    }
    assert(problems@.take(problems@.len() as int) =~= problems@);
    s
}

/// The clone is counted and handed out.
pub open spec fn finishes(
    ts: Seq<FsTemplate>,
    spec: CloneSpec,
    d: Draft,
    next: CloneState,
    after: Seq<FsTemplate>,
    a: CloneAction,
) -> bool {
    let i = template::place_of(ts, d.start.template_id);
    &&& next == CloneState::Over
    &&& after == lifecycle::counted(ts, d.start.template_id, spec.standby)
    &&& a == (CloneAction::Finished {
        result: CloneResult {
            volume_id: d.volume,
            template_id: d.start.template_id,
            fs_uuid: match d.stamped {
                Some(u) => Some(u),
                None => d.start.fs_uuid,
            },
            size_bytes: d.size,
            verified: spec.verify,
            from_standby: false,
        },
        replenish: !spec.standby && i >= 0 && ts[i].standing is None,
    })
}

/// What comes once a clone has its label: the check, where it is asked for.
pub open spec fn comes_to_check(
    ts: Seq<FsTemplate>,
    spec: CloneSpec,
    d: Draft,
    next: CloneState,
    after: Seq<FsTemplate>,
    a: CloneAction,
) -> bool {
    if spec.verify {
        after == ts && next == (CloneState::Checking { draft: d }) && a == (CloneAction::Check {
            volume: d.volume,
        })
    } else {
        finishes(ts, spec, d, next, after, a)
    }
}

/// What comes once a clone has its identity: the label, where it is to have
/// one.
pub open spec fn comes_to_label(
    ts: Seq<FsTemplate>,
    spec: CloneSpec,
    d: Draft,
    next: CloneState,
    after: Seq<FsTemplate>,
    a: CloneAction,
) -> bool {
    match spec.label {
        Some(label) => {
            after == ts && next == (CloneState::Labelling { draft: d }) && a == (
            CloneAction::Label { volume: d.volume, label })
        },
        None => comes_to_check(ts, spec, d, next, after, a),
    }
}

/// What comes once a clone has its size: the identity, where it is to have one
/// of its own.
pub open spec fn comes_to_stamp(
    fresh: Uuid,
    ts: Seq<FsTemplate>,
    spec: CloneSpec,
    d: Draft,
    next: CloneState,
    after: Seq<FsTemplate>,
    a: CloneAction,
) -> bool {
    if spec.stamp_uuid {
        after == ts && next == (CloneState::Stamping { draft: d }) && a == (CloneAction::Stamp {
            volume: d.volume,
            uuid: fresh,
            backups: spec.stamp_backups,
        })
    } else {
        comes_to_label(ts, spec, d, next, after, a)
    }
}

/// The clone is thrown away, and the caller will be told why.
pub open spec fn gives_up(
    ts: Seq<FsTemplate>,
    volume: VolumeId,
    words: Seq<char>,
    next: CloneState,
    after: Seq<FsTemplate>,
    a: CloneAction,
) -> bool {
    &&& after == ts
    &&& next matches CloneState::Dropping { volume: v, context } && v == volume && context@ == words
    &&& a == (CloneAction::Discard { volume })
}

/// The run fails, with nothing left to throw away.
pub open spec fn fails(
    ts: Seq<FsTemplate>,
    fault: Fault,
    next: CloneState,
    after: Seq<FsTemplate>,
    a: CloneAction,
) -> bool {
    after == ts && next == CloneState::Over && a == (CloneAction::Fail { fault })
}

/// What the caller is told whose clone's stamp failed.
pub open spec fn unstamped(name: Seq<char>, why: Seq<char>) -> Seq<char> {
    "stamping a fresh filesystem UUID on clone "@ + name + ": "@ + why
}

/// What the caller is told whose clone did not check out.
pub open spec fn unsound(name: Seq<char>, why: Seq<char>) -> Seq<char> {
    "clone "@ + name + " did not check out ("@ + why + ")"@
}

/// What a step of a run that makes a clone does.
pub open spec fn clones(
    run: CloneRun,
    ts: Seq<FsTemplate>,
    key: String,
    spec: CloneSpec,
    e: CloneEvent,
    next: CloneState,
    after: Seq<FsTemplate>,
    a: CloneAction,
) -> bool {
    match (run.state, e) {
        (CloneState::Start, CloneEvent::Begin) => match lifecycle::clone_begins(
            ts,
            key,
            spec.name@,
        ) {
            Err(fault) => fails(ts, fault, next, after, a),
            Ok(start) => {
                after == ts && next == (CloneState::Snapshotting { start }) && a == (
                CloneAction::Snapshot { source: start.source, name: spec.name })
            },
        },
        (CloneState::Snapshotting { start }, CloneEvent::Failed { why }) => fails(
            ts,
            Fault::NotCloned { why },
            next,
            after,
            a,
        ),
        (CloneState::Snapshotting { start }, CloneEvent::Made { volume, capacity }) => {
            let had = match capacity {
                Some(c) => c,
                None => start.size_bytes,
            };
            let size = lifecycle::grown(had, spec.size_bytes);
            let draft = Draft { start, volume, size, stamped: None };
            if size > had {
                after == ts && next == (CloneState::Growing { draft }) && a == (
                CloneAction::Grow { volume, size })
            } else {
                comes_to_stamp(run.fresh, ts, spec, draft, next, after, a)
            }
        },
        (CloneState::Growing { draft }, CloneEvent::Did) => comes_to_stamp(
            run.fresh,
            ts,
            spec,
            draft,
            next,
            after,
            a,
        ),
        (CloneState::Growing { draft }, CloneEvent::Failed { why }) => fails(
            ts,
            Fault::CloneNotGrown { why },
            next,
            after,
            a,
        ),
        (CloneState::Stamping { draft }, CloneEvent::Did) => comes_to_label(
            ts,
            spec,
            Draft { stamped: Some(run.fresh), ..draft },
            next,
            after,
            a,
        ),
        (CloneState::Stamping { draft }, CloneEvent::Failed { why }) => gives_up(
            ts,
            draft.volume,
            unstamped(spec.name@, why@),
            next,
            after,
            a,
        ),
        (CloneState::Stamping { draft }, CloneEvent::Vanished) => fails(
            ts,
            Fault::CloneVanished,
            next,
            after,
            a,
        ),
        (CloneState::Labelling { draft }, CloneEvent::Vanished) => if draft.stamped is None {
            fails(ts, Fault::CloneVanished, next, after, a)
        } else {
            comes_to_check(ts, spec, draft, next, after, a)
        },
        (CloneState::Labelling { draft }, CloneEvent::Did) => comes_to_check(
            ts,
            spec,
            draft,
            next,
            after,
            a,
        ),
        (CloneState::Labelling { draft }, CloneEvent::Failed { why }) => comes_to_check(
            ts,
            spec,
            draft,
            next,
            after,
            a,
        ),
        (CloneState::Checking { draft }, CloneEvent::Checked { clean, problems }) => if clean {
            finishes(ts, spec, draft, next, after, a)
        } else {
            gives_up(
                ts,
                draft.volume,
                unsound(spec.name@, told(problems@)),
                next,
                after,
                a,
            )
        },
        (CloneState::Checking { draft }, CloneEvent::Failed { why }) => gives_up(
            ts,
            draft.volume,
            unsound(spec.name@, why@),
            next,
            after,
            a,
        ),
        (CloneState::Checking { draft }, CloneEvent::Vanished) => fails(
            ts,
            Fault::CloneVanished,
            next,
            after,
            a,
        ),
        (CloneState::Dropping { volume, context }, CloneEvent::Discarded { outcome }) => fails(
            ts,
            match outcome {
                Ok(()) => Fault::Discarded { context },
                Err(why) => Fault::NotDiscarded { volume: volume.0, context, why },
            },
            next,
            after,
            a,
        ),
        _ => next == run.state && after == ts && a == CloneAction::Ignore,
    }
}

/// Whether one more clone can be counted for the template that a run clones.
pub open spec fn room_to_count(s: CloneState, ts: Seq<FsTemplate>) -> bool {
    match s {
        CloneState::Snapshotting { start } => lifecycle::countable(ts, start.template_id),
        CloneState::Growing { draft } => lifecycle::countable(ts, draft.start.template_id),
        CloneState::Stamping { draft } => lifecycle::countable(ts, draft.start.template_id),
        CloneState::Labelling { draft } => lifecycle::countable(ts, draft.start.template_id),
        CloneState::Checking { draft } => lifecycle::countable(ts, draft.start.template_id),
        _ => true,
    }
}

impl CloneRun {
    /// A run that is about to begin, with a fresh identity to give.
    pub fn new() -> (run: Self)
        ensures
            run.state == CloneState::Start,
            crate::ids::uuid_version(run.fresh.bits) == 4,
            crate::ids::uuid_variant(run.fresh.bits) == 2,
    {
        CloneRun { fresh: Uuid::new_v4(), state: CloneState::Start }
    }

    fn to_check(fresh: Uuid, store: &mut TemplateStore, spec: &CloneSpec, draft: Draft) -> (r: (
        Self,
        CloneAction,
    ))
        requires
            lifecycle::countable(old(store).templates@, draft.start.template_id),
        ensures
            r.0.fresh == fresh,
            final(store).version == old(store).version,
            comes_to_check(
                old(store).templates@,
                *spec,
                draft,
                r.0.state,
                final(store).templates@,
                r.1,
            ),
    {
        if spec.verify {
            (
                CloneRun { fresh, state: CloneState::Checking { draft } },
                CloneAction::Check { volume: draft.volume },
            )
        } else {
            Self::finish(fresh, store, spec, draft)
        }
    }

    fn finish(fresh: Uuid, store: &mut TemplateStore, spec: &CloneSpec, draft: Draft) -> (r: (
        Self,
        CloneAction,
    ))
        requires
            lifecycle::countable(old(store).templates@, draft.start.template_id),
        ensures
            r.0.fresh == fresh,
            final(store).version == old(store).version,
            finishes(
                old(store).templates@,
                *spec,
                draft,
                r.0.state,
                final(store).templates@,
                r.1,
            ),
    {
        let replenish = lifecycle::finish_clone(store, &draft.start.template_id, spec.standby);
        let result = lifecycle::clone_result(
            &draft.start,
            draft.volume,
            draft.size,
            draft.stamped,
            spec.verify,
        );
        (CloneRun { fresh, state: CloneState::Over }, CloneAction::Finished { result, replenish })
    }

    fn to_label(fresh: Uuid, store: &mut TemplateStore, spec: &CloneSpec, draft: Draft) -> (r: (
        Self,
        CloneAction,
    ))
        requires
            lifecycle::countable(old(store).templates@, draft.start.template_id),
        ensures
            r.0.fresh == fresh,
            final(store).version == old(store).version,
            comes_to_label(
                old(store).templates@,
                *spec,
                draft,
                r.0.state,
                final(store).templates@,
                r.1,
            ),
    {
        match &spec.label {
            Some(label) => (
                CloneRun { fresh, state: CloneState::Labelling { draft } },
                CloneAction::Label { volume: draft.volume, label: label.clone() },
            ),
            None => Self::to_check(fresh, store, spec, draft),
        }
    }

    fn to_stamp(fresh: Uuid, store: &mut TemplateStore, spec: &CloneSpec, draft: Draft) -> (r: (
        Self,
        CloneAction,
    ))
        requires
            lifecycle::countable(old(store).templates@, draft.start.template_id),
        ensures
            r.0.fresh == fresh,
            final(store).version == old(store).version,
            comes_to_stamp(
                fresh,
                old(store).templates@,
                *spec,
                draft,
                r.0.state,
                final(store).templates@,
                r.1,
            ),
    {
        if spec.stamp_uuid {
            (
                CloneRun { fresh, state: CloneState::Stamping { draft } },
                CloneAction::Stamp {
                    volume: draft.volume,
                    uuid: fresh,
                    backups: spec.stamp_backups,
                },
            )
        } else {
            Self::to_label(fresh, store, spec, draft)
        }
    }

    fn made(
        fresh: Uuid,
        store: &mut TemplateStore,
        spec: &CloneSpec,
        start: CloneStart,
        volume: VolumeId,
        capacity: Option<u64>,
    ) -> (r: (Self, CloneAction))
        requires
            lifecycle::countable(old(store).templates@, start.template_id),
        ensures
            r.0.fresh == fresh,
            final(store).version == old(store).version,
            ({
                let had = match capacity {
                    Some(c) => c,
                    None => start.size_bytes,
                };
                let size = lifecycle::grown(had, spec.size_bytes);
                let draft = Draft { start, volume, size, stamped: None };
                if size > had {
                    final(store).templates@ == old(store).templates@ && r.0.state == (
                    CloneState::Growing { draft }) && r.1 == (CloneAction::Grow { volume, size })
                } else {
                    comes_to_stamp(
                        fresh,
                        old(store).templates@,
                        *spec,
                        draft,
                        r.0.state,
                        final(store).templates@,
                        r.1,
                    )
                }
            }),
    {
        let had: u64 = match capacity {
            Some(c) => c,
            None => start.size_bytes,
        };
        let sized = lifecycle::clone_size(had, spec.size_bytes);
        let draft = Draft { start, volume, size: sized.0, stamped: None };
        if sized.1 {
            (
                CloneRun { fresh, state: CloneState::Growing { draft } },
                CloneAction::Grow { volume, size: sized.0 },
            )
        } else {
            Self::to_stamp(fresh, store, spec, draft)
        }
    }

    fn give_up(fresh: Uuid, volume: VolumeId, context: String) -> (r: (Self, CloneAction))
        ensures
            r.0.fresh == fresh,
            r.0.state == (CloneState::Dropping { volume, context }),
            r.1 == (CloneAction::Discard { volume }),
    {
        (
            CloneRun { fresh, state: CloneState::Dropping { volume, context } },
            CloneAction::Discard { volume },
        )
    }

    fn fail(fresh: Uuid, fault: Fault) -> (r: (Self, CloneAction))
        ensures
            r.0.fresh == fresh,
            r.0.state == CloneState::Over,
            r.1 == (CloneAction::Fail { fault }),
    {
        (CloneRun { fresh, state: CloneState::Over }, CloneAction::Fail { fault })
    }

    /// Takes a step. An event that answers nothing that was asked for changes
    /// nothing.
    pub fn step(
        self,
        store: &mut TemplateStore,
        key: &String,
        spec: &CloneSpec,
        e: CloneEvent,
    ) -> (r: (Self, CloneAction))
        requires
            room_to_count(self.state, old(store).templates@),
        ensures
            r.0.fresh == self.fresh,
            final(store).version == old(store).version,
            clones(
                self,
                old(store).templates@,
                *key,
                *spec,
                e,
                r.0.state,
                final(store).templates@,
                r.1,
            ),
    {
        let CloneRun { fresh, state } = self;
        match (state, e) {
            (CloneState::Start, CloneEvent::Begin) => match lifecycle::clone_template(
                store,
                key,
                spec,
            ) {
                Ok(start) => (
                    CloneRun { fresh, state: CloneState::Snapshotting { start } },
                    CloneAction::Snapshot { source: start.source, name: spec.name.clone() },
                ),
                Err(fault) => Self::fail(fresh, fault),
            },
            (CloneState::Snapshotting { start }, CloneEvent::Failed { why }) => {
                Self::fail(fresh, Fault::NotCloned { why })
            },
            (CloneState::Snapshotting { start }, CloneEvent::Made { volume, capacity }) => {
                Self::made(fresh, store, spec, start, volume, capacity)
            },
            (CloneState::Growing { draft }, CloneEvent::Did) => {
                Self::to_stamp(fresh, store, spec, draft)
            },
            (CloneState::Growing { draft }, CloneEvent::Failed { why }) => {
                Self::fail(fresh, Fault::CloneNotGrown { why })
            },
            (CloneState::Stamping { draft }, CloneEvent::Did) => {
                let stamped = Draft {
                    start: draft.start,
                    volume: draft.volume,
                    size: draft.size,
                    stamped: Some(fresh),
                };
                Self::to_label(fresh, store, spec, stamped)
            },
            (CloneState::Stamping { draft }, CloneEvent::Failed { why }) => {
                let context = lifecycle::stamp_context(&spec.name, &why);
                Self::give_up(fresh, draft.volume, context)
            },
            (CloneState::Stamping { draft }, CloneEvent::Vanished) => {
                Self::fail(fresh, Fault::CloneVanished)
            },
            (CloneState::Labelling { draft }, CloneEvent::Vanished) => match draft.stamped {
                None => Self::fail(fresh, Fault::CloneVanished),
                Some(_) => Self::to_check(fresh, store, spec, draft),
            },
            (CloneState::Labelling { draft }, CloneEvent::Did) => {
                Self::to_check(fresh, store, spec, draft)
            },
            (CloneState::Labelling { draft }, CloneEvent::Failed { why }) => {
                Self::to_check(fresh, store, spec, draft)
            },
            (CloneState::Checking { draft }, CloneEvent::Checked { clean, problems }) => {
                if clean {
                    Self::finish(fresh, store, spec, draft)
                } else {
                    let context = lifecycle::check_context(&spec.name, &tell(&problems));
                    Self::give_up(fresh, draft.volume, context)
                }
            },
            (CloneState::Checking { draft }, CloneEvent::Failed { why }) => {
                let context = lifecycle::check_context(&spec.name, &why);
                Self::give_up(fresh, draft.volume, context)
            },
            (CloneState::Checking { draft }, CloneEvent::Vanished) => {
                Self::fail(fresh, Fault::CloneVanished)
            },
            (CloneState::Dropping { volume, context }, CloneEvent::Discarded { outcome }) => {
                Self::fail(fresh, lifecycle::discard_or_report(volume.0, context, outcome))
            },
            (state, _) => (CloneRun { fresh, state }, CloneAction::Ignore),
        }
    }
}

/// Whether the identity of a clone in the making is what was asked for: its own
/// once the stamp is over, where it is to have one.
pub open spec fn rightly_stamped(run: CloneRun, spec: CloneSpec) -> bool {
    let due = if spec.stamp_uuid {
        Some(run.fresh)
    } else {
        None
    };
    match run.state {
        CloneState::Growing { draft } => draft.stamped is None,
        CloneState::Stamping { draft } => spec.stamp_uuid,
        CloneState::Labelling { draft } => draft.stamped == due,
        CloneState::Checking { draft } => draft.stamped == due,
        _ => true,
    }
}

/// A clone that is to have an identity of its own is never handed out with its
/// template's: every step of a run keeps to that, from the first on.
pub proof fn no_clone_shares_an_identity_unasked(
    run: CloneRun,
    ts: Seq<FsTemplate>,
    key: String,
    spec: CloneSpec,
    e: CloneEvent,
    next: CloneState,
    after: Seq<FsTemplate>,
    a: CloneAction,
)
    requires
        clones(run, ts, key, spec, e, next, after, a),
        rightly_stamped(run, spec),
    ensures
        rightly_stamped(CloneRun { fresh: run.fresh, state: next }, spec),
        rightly_stamped(CloneRun { fresh: run.fresh, state: CloneState::Start }, spec),
        spec.stamp_uuid ==> (a matches CloneAction::Finished { result, replenish } ==>
            result.fs_uuid == Some(run.fresh)),
{
}

/// A clone that is to be checked is handed out only when the check calls it
/// clean, and says that it was checked.
pub proof fn no_clone_goes_out_unchecked(
    run: CloneRun,
    ts: Seq<FsTemplate>,
    key: String,
    spec: CloneSpec,
    e: CloneEvent,
    next: CloneState,
    after: Seq<FsTemplate>,
    a: CloneAction,
)
    requires
        clones(run, ts, key, spec, e, next, after, a),
        spec.verify,
        a is Finished,
    ensures
        e matches CloneEvent::Checked { clean, problems } && clean,
        a matches CloneAction::Finished { result, replenish } && result.verified,
{
}

/// A clone whose stamp or check fails is thrown away before the caller is told,
/// and the caller is told of it where that fails too.
pub proof fn a_bad_clone_is_thrown_away(
    run: CloneRun,
    ts: Seq<FsTemplate>,
    key: String,
    spec: CloneSpec,
    draft: Draft,
    e: CloneEvent,
    next: CloneState,
    after: Seq<FsTemplate>,
    a: CloneAction,
    outcome: Result<(), String>,
    last: CloneState,
    later: Seq<FsTemplate>,
    b: CloneAction,
)
    requires
        run.state == (CloneState::Stamping { draft }) || run.state == (CloneState::Checking {
            draft,
        }),
        e is Failed || (run.state is Checking && (e matches CloneEvent::Checked {
            clean,
            problems,
        } && !clean)),
        clones(run, ts, key, spec, e, next, after, a),
        clones(
            CloneRun { fresh: run.fresh, state: next },
            after,
            key,
            spec,
            CloneEvent::Discarded { outcome },
            last,
            later,
            b,
        ),
    ensures
        a == (CloneAction::Discard { volume: draft.volume }),
        later == ts,
        b matches CloneAction::Fail { fault } && (fault.kind() == (lifecycle::ErrorKind::Leaked {
            volume: draft.volume.0,
        }) <==> outcome is Err),
{
}

/// The store changes only when a clone is handed out, and then only in the
/// count of its template.
pub proof fn only_a_finished_clone_counts(
    run: CloneRun,
    ts: Seq<FsTemplate>,
    key: String,
    spec: CloneSpec,
    e: CloneEvent,
    next: CloneState,
    after: Seq<FsTemplate>,
    a: CloneAction,
)
    requires
        clones(run, ts, key, spec, e, next, after, a),
    ensures
        !(a is Finished) || spec.standby ==> after == ts,
        after.len() == ts.len(),
        forall|i: int|
            0 <= i < ts.len() ==> (#[trigger] after[i]) == (FsTemplate {
                clones: after[i].clones,
                ..ts[i]
            }),
{
    assert forall|id: Uuid| #[trigger] template::place_of(ts, id) < ts.len() by {
        template::lemma_place_of(ts, id);
    }
}

/// A clone is never smaller than what it was taken from.
pub proof fn a_clone_never_shrinks(
    run: CloneRun,
    ts: Seq<FsTemplate>,
    key: String,
    spec: CloneSpec,
    volume: VolumeId,
    capacity: u64,
    next: CloneState,
    after: Seq<FsTemplate>,
    a: CloneAction,
)
    requires
        clones(
            run,
            ts,
            key,
            spec,
            CloneEvent::Made { volume, capacity: Some(capacity) },
            next,
            after,
            a,
        ),
    ensures
        a matches CloneAction::Grow { volume: v, size } ==> size > capacity,
        a matches CloneAction::Finished { result, replenish } ==> result.size_bytes >= capacity,
{
}

} // verus!
