//! What the runs that make, seal, clone, hand out and survey do with what they
//! are asked for: each of their steps, by what came in and what goes out.
use crate::fs::claiming;
use crate::fs::claiming::{
    ClaimAction, ClaimEvent, ClaimRun, ClaimState, StandAction, StandEvent, StandRun, StandState,
};
use crate::fs::cloning;
use crate::fs::cloning::{CloneAction, CloneEvent, CloneRun, CloneState, Draft};
use crate::fs::creating;
use crate::fs::creating::{CreateAction, CreateEvent, CreateRun, CreateState};
use crate::fs::ext4::{Ext4Layout, Problem, SealBlocker};
use crate::fs::files;
use crate::fs::lifecycle;
use crate::fs::lifecycle::{CloneStart, Fault};
use crate::fs::sealing;
use crate::fs::sealing::{SealAction, SealEvent, SealRun, SealState};
use crate::fs::survey;
use crate::fs::survey::{Entry, FoundFs, PartitionEntry, Walked};
use crate::fs::surveying;
use crate::fs::surveying::{Spot, SurveyAction, SurveyEvent, SurveyRun, SurveyState};
use crate::fs::template;
use crate::fs::template::{
    ClaimSpec, CloneResult, CloneSpec, FsTemplate, StandingClone, TemplateSpec, TemplateState,
};
use crate::ids::{Uuid, VolumeId};
use crate::text;
use vstd::prelude::*;

verus! {

/// A run that seals keeps to the volume that it began with, and to what it read
/// there: it checks what it read, snapshots what it checked, and deletes what it
/// snapshotted.
pub proof fn a_seal_run_keeps_to_its_volume(
    run: SealRun,
    ts: Seq<FsTemplate>,
    e: SealEvent,
    next: SealState,
    after: Seq<FsTemplate>,
    a: SealAction,
)
    requires
        sealing::seals(run, ts, e, next, after, a),
    ensures
        run.state matches SealState::Reading { raw, fs, name } ==> {
            &&& e matches SealEvent::Read { layout: Ok(l) } ==> a == (SealAction::Check {
                volume: raw,
            }) && next == (SealState::Checking { raw, fs, name, layout: l })
            &&& e matches SealEvent::Read { layout: Err(why) } ==> (!run.force ==> a == (
            SealAction::Fail { fault: Fault::NoFilesystem { why } }))
            &&& e matches SealEvent::Read { layout: Err(why) } ==> (run.force ==> next == (
            SealState::Snapshotting { raw, layout: None }) && a is Snapshot && a->source == raw)
            &&& e is Vanished ==> a == (SealAction::Fail {
                fault: Fault::VolumeGone { volume: raw.0 },
            })
        },
        run.state matches SealState::Checking { raw, fs, name, layout } ==> {
            &&& a is Snapshot ==> a->source == raw && next == (SealState::Snapshotting {
                raw,
                layout: Some(layout),
            })
            &&& e matches SealEvent::Checked { found: Ok(b) } ==> (b@.len() == 0 ==> a is Snapshot)
            &&& e matches SealEvent::Checked { found: Ok(b) } ==> (b@.len() > 0 && !run.force ==> a
                is Fail)
            &&& e matches SealEvent::Checked { found: Err(why) } ==> (!run.force ==> a == (
            SealAction::Fail { fault: Fault::NotChecked { why } }))
            &&& e is Checked && run.force ==> a is Snapshot
        },
        run.state matches SealState::Snapshotting { raw, layout } ==> {
            &&& e is Made && template::place_of(ts, run.id) >= 0 ==> a == (SealAction::Delete {
                volume: raw,
            })
            &&& e matches SealEvent::Failed { why } ==> a == (SealAction::Fail {
                fault: Fault::NotSnapshotted { why },
            })
        },
        run.state is Tidying && e is Deleted ==> a is Finished,
        run.state is Over ==> a is Ignore && after == ts,
{
}

/// A sealed template has the snapshot, and what was read of the volume that was
/// snapshotted; no other template changes.
pub proof fn a_snapshot_seals_its_template(
    run: SealRun,
    ts: Seq<FsTemplate>,
    raw: VolumeId,
    layout: Ext4Layout,
    volume: VolumeId,
    next: SealState,
    after: Seq<FsTemplate>,
    a: SealAction,
    i: int,
    j: int,
)
    requires
        run.state == (SealState::Snapshotting { raw, layout: Some(layout) }),
        sealing::seals(run, ts, SealEvent::Made { volume }, next, after, a),
        0 <= i < ts.len(),
        ts[i].id == run.id,
        forall|k: int| 0 <= k < i ==> (#[trigger] ts[k]).id != run.id,
    ensures
        after.len() == ts.len(),
        after[i].sealed_volume_id == Some(volume.0),
        after[i].raw_volume_id is None,
        after[i].state == TemplateState::Ready,
        after[i].fs_uuid == Some(layout.uuid),
        after[i].journal == layout.has_journal,
        after[i].name == ts[i].name,
        0 <= j < ts.len() && j != i ==> after[j] == ts[j],
{
    template::lemma_place_of(ts, run.id);
    crate::fs::promises::the_first_that_fits_is_found(ts, run.id, Seq::empty());
    let p = template::place_of(ts, run.id);
    if p < i {
        assert(ts[p].id == run.id);
    } else if i < p {
        assert(ts[i].id != run.id);
    }
}

/// A run that makes a template makes what is asked for: the volume has the size
/// that the specification says, one from a parent is grown to what is needed and
/// given a fresh identity with its backups, and what is laid down, seeded and
/// sealed is that volume's.
pub proof fn a_create_run_makes_what_was_asked_for(
    run: CreateRun,
    ts: Seq<FsTemplate>,
    spec: TemplateSpec,
    e: CreateEvent,
    next: CreateState,
    after: Seq<FsTemplate>,
    a: CreateAction,
)
    requires
        creating::creates(run, ts, spec, e, next, after, a),
    ensures
        a is MakeVolume ==> run.state is Start && a->MakeVolume_size == spec.size_bytes && a->MakeVolume_name@
            == "fstemplate-"@ + spec.name@ + "-raw"@,
        a is Snapshot ==> run.state is Start && a->Snapshot_name@ == "fstemplate-"@ + spec.name@
            + "-raw"@,
        run.state matches CreateState::Making { parent: Some(p), grow } ==> (
        e matches CreateEvent::Made { volume } ==> {
            &&& grow matches Some(size) ==> a == (CreateAction::Grow { volume, size })
            &&& grow is None ==> a == (CreateAction::Stamp {
                volume,
                uuid: run.fresh,
                backups: true,
            })
            &&& after == ts
        }),
        run.state matches CreateState::Making { parent: None, grow } ==> (
        e matches CreateEvent::Made { volume } ==> (template::place_named(ts, spec.name@) == -1 ==> {
            &&& after.len() == ts.len() + 1
            &&& after.last().raw_volume_id == Some(volume.0)
            &&& after.last().id == run.id
            &&& after.last().name@ == spec.name@
            &&& spec.format_in_core ==> (a is Format && a->Format_volume == volume && a->params.uuid
                == run.fresh && a->params.label@ == spec.label@ && a->params.journal
                == spec.journal)
            &&& !spec.format_in_core ==> a == (CreateAction::Finished { id: run.id })
        })),
        run.state matches CreateState::Growing { parent, volume } ==> {
            &&& e is Did ==> a == (CreateAction::Stamp { volume, uuid: run.fresh, backups: true })
            &&& e is Failed ==> a == (CreateAction::Discard { volume })
        },
        run.state matches CreateState::Stamping { parent, volume } ==> {
            &&& e is Did && template::place_named(ts, spec.name@) == -1 ==> after.len() == ts.len()
                + 1 && after.last().raw_volume_id == Some(volume.0) && after.last().parent_id
                is Some
            &&& e is Did && template::place_named(ts, spec.name@) != -1 ==> a == (
            CreateAction::Discard { volume }) && after == ts
            &&& e is Failed ==> a == (CreateAction::Discard { volume })
        },
        run.state matches CreateState::Formatting { volume } ==> {
            &&& e is Did && spec.seed@.len() > 0 ==> a == (CreateAction::Seed { volume })
            &&& e is Did && spec.seed@.len() == 0 ==> a == (CreateAction::Seal { id: run.id })
            &&& e is Failed || e is Vanished ==> a is DeleteAll
        },
        run.state is Seeding ==> {
            &&& e is Did ==> a == (CreateAction::Seal { id: run.id })
            &&& e is Failed || e is Vanished ==> a is DeleteAll
        },
        run.state is Sealing ==> {
            &&& e is Did ==> a == (CreateAction::Finished { id: run.id })
            &&& e is Unsealed ==> a is DeleteAll
        },
        a is Finished ==> a->Finished_id == run.id,
{
}

/// What is asked for in a clone in the making comes next: its identity, else its
/// label, else its check; and where none of these is asked for, it is handed out.
pub open spec fn does_next(
    fresh: Uuid,
    spec: CloneSpec,
    volume: VolumeId,
    stamp: bool,
    label: bool,
    a: CloneAction,
) -> bool {
    if stamp && spec.stamp_uuid {
        a == (CloneAction::Stamp { volume, uuid: fresh, backups: spec.stamp_backups })
    } else if label && spec.label is Some {
        a == (CloneAction::Label { volume, label: spec.label->0 })
    } else if spec.verify {
        a == (CloneAction::Check { volume })
    } else {
        a is Finished
    }
}

/// A clone is grown, stamped, labelled and checked in this order, each where it
/// is asked for, and then handed out.
pub proof fn a_clone_is_made_in_order(
    run: CloneRun,
    ts: Seq<FsTemplate>,
    key: String,
    spec: CloneSpec,
    e: CloneEvent,
    next: CloneState,
    after: Seq<FsTemplate>,
    a: CloneAction,
)
    requires
        cloning::clones(run, ts, key, spec, e, next, after, a),
    ensures
        run.state is Start && e is Begin && a is Snapshot ==> a->Snapshot_name == spec.name,
        run.state matches CloneState::Snapshotting { start } ==> (
        e matches CloneEvent::Made { volume, capacity: Some(had) } ==> {
            &&& spec.size_bytes matches Some(want) ==> (want > had ==> a == (CloneAction::Grow {
                volume,
                size: want,
            }))
            &&& (spec.size_bytes is None || spec.size_bytes->0 <= had) ==> does_next(
                run.fresh,
                spec,
                volume,
                true,
                true,
                a,
            )
        }),
        run.state matches CloneState::Growing { draft } ==> (e is Did ==> does_next(
            run.fresh,
            spec,
            draft.volume,
            true,
            true,
            a,
        )),
        run.state matches CloneState::Stamping { draft } ==> (e is Did ==> does_next(
            run.fresh,
            spec,
            draft.volume,
            false,
            true,
            a,
        )),
        run.state matches CloneState::Labelling { draft } ==> (e is Did || e is Failed ==> does_next(
            run.fresh,
            spec,
            draft.volume,
            false,
            false,
            a,
        )),
        run.state matches CloneState::Checking { draft } ==> (e matches CloneEvent::Checked {
            clean,
            problems,
        } ==> (clean ==> a is Finished) && (!clean ==> a == (CloneAction::Discard {
            volume: draft.volume,
        }))),
        run.state is Over ==> a is Ignore,
{
}

/// What a clone is handed out as: the volume that was made, of the size that it
/// has, with the identity that it was given, or else its template's.
pub proof fn a_clone_is_handed_out_as_it_is(
    run: CloneRun,
    ts: Seq<FsTemplate>,
    key: String,
    spec: CloneSpec,
    e: CloneEvent,
    next: CloneState,
    after: Seq<FsTemplate>,
    result: CloneResult,
    replenish: bool,
    draft: Draft,
)
    requires
        cloning::clones(
            run,
            ts,
            key,
            spec,
            e,
            next,
            after,
            CloneAction::Finished { result, replenish },
        ),
        run.state == (CloneState::Growing { draft }) || run.state == (CloneState::Stamping { draft })
            || run.state == (CloneState::Labelling { draft }) || run.state == (
        CloneState::Checking { draft }),
    ensures
        result.volume_id == draft.volume,
        result.template_id == draft.start.template_id,
        result.size_bytes == draft.size,
        result.verified == spec.verify,
        !result.from_standby,
        run.state is Stamping ==> result.fs_uuid == Some(run.fresh),
        !(run.state is Stamping) && draft.stamped is Some ==> result.fs_uuid == draft.stamped,
        !(run.state is Stamping) && draft.stamped is None ==> result.fs_uuid == draft.start.fs_uuid,
        spec.standby ==> !replenish,
{
}

/// A clone in the making stays what it is: what follows a step on it is about
/// the same volume, of the same size and from the same template.
pub proof fn a_draft_stays_what_it_is(
    run: CloneRun,
    ts: Seq<FsTemplate>,
    key: String,
    spec: CloneSpec,
    e: CloneEvent,
    next: CloneState,
    after: Seq<FsTemplate>,
    a: CloneAction,
    was: Draft,
    is: Draft,
)
    requires
        cloning::clones(run, ts, key, spec, e, next, after, a),
        drafted(run.state) == Some(was),
        drafted(next) == Some(is),
    ensures
        is.volume == was.volume,
        is.size == was.size,
        is.start == was.start,
{
}

/// The clone that a run is making.
pub open spec fn drafted(s: CloneState) -> Option<Draft> {
    match s {
        CloneState::Growing { draft } => Some(draft),
        CloneState::Stamping { draft } => Some(draft),
        CloneState::Labelling { draft } => Some(draft),
        CloneState::Checking { draft } => Some(draft),
        _ => None,
    }
}

/// A clone has the volume that was made, and the larger of the size that it has
/// and the size that is asked for.
pub proof fn a_draft_begins_with_its_snapshot(
    run: CloneRun,
    ts: Seq<FsTemplate>,
    key: String,
    spec: CloneSpec,
    start: CloneStart,
    volume: VolumeId,
    capacity: Option<u64>,
    next: CloneState,
    after: Seq<FsTemplate>,
    a: CloneAction,
    draft: Draft,
)
    requires
        run.state == (CloneState::Snapshotting { start }),
        cloning::clones(
            run,
            ts,
            key,
            spec,
            CloneEvent::Made { volume, capacity },
            next,
            after,
            a,
        ),
        drafted(next) == Some(draft),
    ensures
        draft.volume == volume,
        draft.start == start,
        draft.stamped is None,
        capacity matches Some(had) ==> draft.size >= had,
        capacity is None ==> draft.size >= start.size_bytes,
        spec.size_bytes matches Some(want) ==> draft.size >= want,
        spec.size_bytes == Some(draft.size) || capacity == Some(draft.size) || (capacity is None
            && draft.size == start.size_bytes),
{
}

/// A claim hands out the clone that stands by, or has one minted: with the size
/// and label that were asked for, an identity of its own, and checked.
pub proof fn a_claim_gives_what_was_asked_for(
    run: ClaimRun,
    ts: Seq<FsTemplate>,
    key: String,
    spec: ClaimSpec,
    e: ClaimEvent,
    next: ClaimState,
    after: Seq<FsTemplate>,
    a: ClaimAction,
)
    requires
        claiming::claims(run, ts, key, spec, e, next, after, a),
    ensures
        a matches ClaimAction::Mint { spec: s } ==> {
            &&& s.size_bytes == spec.size_bytes
            &&& s.label == spec.label
            &&& s.stamp_uuid && s.verify && !s.standby && !s.stamp_backups
        },
        run.state is Start && a is Label ==> Some(a->label) == spec.label,
        run.state matches ClaimState::Growing { template_id, clone } ==> {
            &&& e is Did && spec.label is Some ==> a == (ClaimAction::Label {
                volume: VolumeId(clone.volume_id),
                label: spec.label->0,
            })
            &&& e is Did && spec.label is None ==> a is Finished
            &&& e is Failed ==> a is Fail
        },
        run.state matches ClaimState::Labelling { template_id, clone } ==> (e is Did || e is Failed
            || e is Vanished ==> a is Finished),
        run.state matches ClaimState::Minting { template_id } ==> {
            &&& e matches ClaimEvent::Minted { result } ==> a == (ClaimAction::Finished {
                result,
                replenish: template_id,
            })
            &&& e matches ClaimEvent::Unminted { fault } ==> a == (ClaimAction::Fail { fault })
        },
        !(run.state is Start) ==> after == ts,
        run.state is Over ==> a is Ignore,
{
}

/// A claim of a template that is ready takes the clone that stands by for it,
/// grows it where more is asked for than it has, and leaves none behind.
pub proof fn a_claim_takes_what_stands_by(
    run: ClaimRun,
    ts: Seq<FsTemplate>,
    key: String,
    spec: ClaimSpec,
    next: ClaimState,
    after: Seq<FsTemplate>,
    a: ClaimAction,
    i: int,
    clone: StandingClone,
)
    requires
        run.state is Start,
        claiming::claims(run, ts, key, spec, ClaimEvent::Begin, next, after, a),
        template::place_keyed(ts, key@) == i,
        0 <= i < ts.len(),
        template::place_of(ts, ts[i].id) == i,
        ts[i].state == TemplateState::Ready,
        ts[i].standing == Some(clone),
    ensures
        spec.size_bytes matches Some(want) ==> (want > clone.size_bytes ==> a == (
        ClaimAction::Grow { volume: VolumeId(clone.volume_id), size: want })),
        (spec.size_bytes is None || spec.size_bytes->0 <= clone.size_bytes) && spec.label is Some
            ==> a == (ClaimAction::Label {
            volume: VolumeId(clone.volume_id),
            label: spec.label->0,
        }),
        (spec.size_bytes is None || spec.size_bytes->0 <= clone.size_bytes) && spec.label is None
            ==> (a is Finished && a->result.volume_id.0 == clone.volume_id && a->result.size_bytes
            == clone.size_bytes && a->result.fs_uuid == clone.fs_uuid && a->result.verified
            == clone.verified && a->result.template_id == ts[i].id && a->replenish == ts[i].id),
        after.len() == ts.len(),
        after[i].standing is None,
{
    template::lemma_place_of(ts, ts[i].id);
}

/// A clone that is to stand by is minted as its template is: of its size, with an
/// identity of its own, checked, without a label and uncounted.
pub proof fn a_clone_that_stands_by_is_plain(
    run: StandRun,
    ts: Seq<FsTemplate>,
    key: String,
    e: StandEvent,
    next: StandState,
    after: Seq<FsTemplate>,
    a: StandAction,
)
    requires
        claiming::stands(run, ts, key, e, next, after, a),
    ensures
        a matches StandAction::Mint { template_id, spec } ==> {
            &&& spec.size_bytes is None
            &&& spec.label is None
            &&& spec.stamp_uuid && spec.verify && spec.standby && !spec.stamp_backups
            &&& next == (StandState::Minting { template_id })
        },
        run.state is Minting && e is Unminted ==> a == (StandAction::Fail { fault: e->fault }),
        run.state is Dropping && e is Deleted ==> a is Finished && a->standing is None,
        run.state is Over ==> a is Ignore && after == ts,
{
}

/// The name of a clone that stands by is that of its template and eight digits
/// of its own.
pub proof fn a_clone_that_stands_by_has_its_own_name(name: Seq<char>, u: Uuid)
    ensures
        lifecycle::standby_name_of(name, u).len() == name.len() + 17,
        lifecycle::standby_name_of(name, u).take(8) == "standby-"@,
        lifecycle::standby_name_of(name, u).subrange(8, 8 + name.len() as int) == name,
        crate::text_promises::sixteens(
            lifecycle::standby_name_of(name, u).skip(name.len() as int + 9),
        ) == u.bits as nat / 0x1_0000_0000_0000_0000_0000_0000,
{
    reveal_strlit("standby-");
    reveal_strlit("-");
    let h = text::hex_digits(u.bits as nat, 32);
    let n = lifecycle::standby_name_of(name, u);
    crate::text_promises::hexadecimal_stands_for_its_number(u.bits as nat, 32);
    assert(n.take(8) =~= "standby-"@);
    assert(n.subrange(8, 8 + name.len() as int) =~= name);
    assert(n.skip(name.len() as int + 9) =~= h.take(8));
    lemma_leading_digits(u.bits as nat, 32, 24);
    assert(h.take(8) =~= text::hex_digits(
        u.bits as nat / crate::text_promises::pow16(24),
        8,
    ));
    let top = u.bits as nat / crate::text_promises::pow16(24);
    crate::text_promises::hexadecimal_stands_for_its_number(top, 8);
    assert(crate::text_promises::pow16(24) == 0x1_0000_0000_0000_0000_0000_0000) by {
        reveal_with_fuel(crate::text_promises::pow16, 25);
    }
    assert(crate::text_promises::pow16(8) == 0x1_0000_0000) by {
        reveal_with_fuel(crate::text_promises::pow16, 9);
    }
    vstd::arithmetic::div_mod::lemma_small_mod(top, crate::text_promises::pow16(8));
}

proof fn lemma_leading_digits(n: nat, w: nat, k: nat)
    requires
        k <= w,
    ensures
        text::hex_digits(n, w).len() == w,
        text::hex_digits(n, w).take(w - k) == text::hex_digits(
            n / crate::text_promises::pow16(k),
            (w - k) as nat,
        ),
    decreases k,
{
    crate::ids::lemma_hex_digits_len(n, w);
    if k == 0 {
        assert(text::hex_digits(n, w).take(w as int) =~= text::hex_digits(n, w));
        assert(n / 1 == n);
    } else {
        let j = (k - 1) as nat;
        lemma_leading_digits(n / 16, (w - 1) as nat, j);
        let t = text::hex_digits(n / 16, (w - 1) as nat);
        assert(text::hex_digits(n, w).take(w - k) =~= t.take(w - k));
        lemma_pow16_positive(j);
        vstd::arithmetic::div_mod::lemma_div_denominator(
            n as int,
            16,
            crate::text_promises::pow16(j) as int,
        );
        assert(16 * crate::text_promises::pow16(j) == crate::text_promises::pow16(k));
    }
}

proof fn lemma_pow16_positive(w: nat)
    ensures
        crate::text_promises::pow16(w) > 0,
    decreases w,
{
    if w > 0 {
        lemma_pow16_positive((w - 1) as nat);
    }
}

/// What a check found is told problem by problem, with semicolons in between.
pub proof fn problems_are_told(ps: Seq<Problem>, p: Problem, bs: Seq<SealBlocker>, b: SealBlocker)
    ensures
        cloning::told(Seq::<Problem>::empty()).len() == 0,
        ps.len() == 0 ==> cloning::told(ps.push(p)) == p.code@ + ": "@ + p.message@,
        ps.len() > 0 ==> cloning::told(ps.push(p)) == cloning::told(ps) + "; "@ + (p.code@ + ": "@
            + p.message@),
        lifecycle::joined(Seq::<SealBlocker>::empty()).len() == 0,
        bs.len() == 0 ==> lifecycle::joined(bs.push(b)) == b.message_of(),
        bs.len() > 0 ==> lifecycle::joined(bs.push(b)) == lifecycle::joined(bs) + "; "@
            + b.message_of(),
{
    assert(ps.push(p).drop_last() =~= ps);
    assert(bs.push(b).drop_last() =~= bs);
}

/// A partition lies from its first block to behind its last, where it is in use
/// and the end is a 64-bit number.
pub proof fn a_partition_lies_where_its_entry_says(e: PartitionEntry, lba: u32)
    ensures
        survey::window_in(e, lba) matches Some((start, len)) ==> start == e.first_lba * lba && start
            + len == (e.last_lba + 1) * lba,
        survey::window_in(e, lba) is Some <==> e.used && e.first_lba <= e.last_lba && (e.last_lba
            + 1) * lba <= u64::MAX,
{
    let f = e.first_lba as int;
    let l = e.last_lba as int;
    let b = lba as int;
    if f <= l {
        assert(0 <= f * b && 0 <= (l - f + 1) * b && f * b + (l - f + 1) * b == (l + 1) * b)
            by (nonlinear_arith)
            requires
                0 <= f <= l,
                0 <= b,
        ;
    }
}

/// The partitions of a table are numbered from one by their place in it, and the
/// first of them is looked into first.
pub proof fn partitions_are_numbered(entries: Seq<(PartitionEntry, String)>, lba: u32, n: nat)
    requires
        n < entries.len() < u32::MAX,
    ensures
        ({
            let later = surveying::places_in(entries, lba, n + 1);
            let now = surveying::places_in(entries, lba, n);
            let e = entries[n as int].0;
            let there = e.used && e.first_lba <= e.last_lba && (e.last_lba + 1) * lba <= u64::MAX;
            &&& !there ==> now == later
            &&& there ==> now.len() == later.len() + 1 && now.drop_last() == later
                && now.last().number == n + 1 && now.last().name == entries[n as int].1
                && now.last().start == e.first_lba * lba && now.last().start + now.last().len == (
            e.last_lba + 1) * lba && now.last().block == lba
        }),
        surveying::places_in(entries, lba, entries.len()).len() == 0,
{
    a_partition_lies_where_its_entry_says(entries[n as int].0, lba);
    let later = surveying::places_in(entries, lba, n + 1);
    let now = surveying::places_in(entries, lba, n);
    if survey::window_in(entries[n as int].0, lba) is Some {
        assert(now.drop_last() =~= later);
    }
}

/// Each entry of a directory is counted once, as a directory or as a file, but
/// for the dots; and each directory but these is yet to be looked into.
pub proof fn a_directory_is_counted(w: Walked, dir: Seq<char>, es: Seq<Entry>, e: Entry)
    requires
        w.entries + es.len() < u64::MAX,
        w.directories + es.len() < u64::MAX,
        w.files + es.len() < u64::MAX,
    ensures
        ({
            let was = survey::counted(w, es);
            let is = survey::counted(w, es.push(e));
            let dots = e.name@ == "."@ || e.name@ == ".."@;
            &&& dots ==> is == was
            &&& !dots ==> is.entries == was.entries + 1
            &&& !dots && e.is_dir ==> is.directories == was.directories + 1 && is.files == was.files
            &&& !dots && !e.is_dir ==> is.files == was.files + 1 && is.directories
                == was.directories
            &&& dots || !e.is_dir ==> survey::subdirectories(dir, es.push(e))
                == survey::subdirectories(dir, es)
            &&& !dots && e.is_dir && dir != "/"@ ==> survey::subdirectories(dir, es.push(e))
                == survey::subdirectories(dir, es).push(dir + "/"@ + e.name@)
            &&& !dots && e.is_dir && dir == "/"@ ==> survey::subdirectories(dir, es.push(e))
                == survey::subdirectories(dir, es).push("/"@ + e.name@)
            &&& survey::counted(w, Seq::<Entry>::empty()) == w
            &&& survey::subdirectories(dir, Seq::<Entry>::empty()).len() == 0
        }),
{
    assert(es.push(e).drop_last() =~= es);
    lemma_counted_bound(w, es);
}

proof fn lemma_counted_bound(w: Walked, es: Seq<Entry>)
    requires
        w.entries + es.len() <= u64::MAX,
        w.directories + es.len() <= u64::MAX,
        w.files + es.len() <= u64::MAX,
    ensures
        survey::counted(w, es).entries <= w.entries + es.len(),
        survey::counted(w, es).directories <= w.directories + es.len(),
        survey::counted(w, es).files <= w.files + es.len(),
    decreases es.len(),
{
    if es.len() > 0 {
        lemma_counted_bound(w, es.drop_last());
    }
}

/// The system is told by the first line that names it, the pretty name before the
/// plain one, without quotes.
pub proof fn a_system_is_named(lines: Seq<Seq<char>>, key: Seq<char>, k: int, rest: Seq<char>)
    ensures
        0 <= k < lines.len() && lines[k] == key + rest && (forall|j: int|
            0 <= j < k ==> text::without_prefix(#[trigger] lines[j], key) is None)
            ==> survey::line_of(lines, key) == k,
        (forall|j: int| 0 <= j < lines.len() ==> text::without_prefix(#[trigger] lines[j], key)
            is None) ==> survey::line_of(lines, key) == -1,
        -1 <= survey::line_of(lines, key) < lines.len(),
    decreases lines.len(),
{
    if lines.len() > 0 {
        let tail = lines.drop_first();
        crate::text_promises::a_prefix_is_taken_off(rest, key);
        a_system_is_named(tail, key, k - 1, rest);
        if k > 0 && k < lines.len() && lines[k] == key + rest && (forall|j: int|
            0 <= j < k ==> text::without_prefix(#[trigger] lines[j], key) is None) {
            assert(tail[k - 1] == lines[k]);
            assert(text::without_prefix(lines[0], key) is None);
            assert forall|j: int| 0 <= j < k - 1 implies text::without_prefix(
                #[trigger] tail[j],
                key,
            ) is None by {
                assert(tail[j] == lines[j + 1]);
            }
        }
        if forall|j: int| 0 <= j < lines.len() ==> text::without_prefix(#[trigger] lines[j], key)
            is None {
            assert(text::without_prefix(lines[0], key) is None);
            assert forall|j: int| 0 <= j < tail.len() implies text::without_prefix(
                #[trigger] tail[j],
                key,
            ) is None by {
                assert(tail[j] == lines[j + 1]);
            }
        }
    }
}

/// The pretty name counts before the plain one, and white space and quotes
/// around a name are none of it.
pub proof fn the_pretty_name_counts(s: Seq<char>, name: Seq<char>)
    ensures
        survey::field(s, "PRETTY_NAME="@) is Some ==> survey::name_in(s) == survey::field(
            s,
            "PRETTY_NAME="@,
        ),
        survey::field(s, "PRETTY_NAME="@) is None ==> survey::name_in(s) == survey::field(
            s,
            "NAME="@,
        ),
        name.len() > 0 && name[0] != '"' && name.last() != '"' && !text::is_white(name[0])
            && !text::is_white(name.last()) ==> survey::unquoted(name) == name && survey::unquoted(
            seq!['"'] + name + seq!['"'],
        ) == name,
{
    if name.len() > 0 && name[0] != '"' && name.last() != '"' && !text::is_white(name[0])
        && !text::is_white(name.last()) {
        let q = seq!['"'] + name + seq!['"'];
        assert(!text::is_white('"'));
        assert(text::trimmed(name) == name);
        assert(q.last() == '"' && q[0] == '"');
        assert(text::trimmed(q) == q);
        let l = q.drop_last();
        assert(l =~= seq!['"'] + name);
        assert(l.last() == name.last());
        assert(text::trim_end_char(q, '"') == text::trim_end_char(l, '"'));
        assert(text::trim_end_char(l, '"') == l);
        assert(l.drop_first() =~= name);
        assert(text::trim_start_char(l, '"') == text::trim_start_char(name, '"'));
    }
}

/// Whether a filesystem is that of a device, with nothing known of what it holds.
pub open spec fn is_of_spot(fs: FoundFs, spot: Spot) -> bool {
    &&& match spot.partition {
        None => fs.partition is None,
        Some((number, name)) => fs.partition == Some(number) && fs.partition_name@ == name@,
    }
    &&& fs.os is None
    &&& fs.walked is None
    &&& fs.error is None
}

/// A survey reports a filesystem where it lies, of the kind that it looked for,
/// with the identity that it read.
pub proof fn a_filesystem_is_reported_where_it_lies(
    run: SurveyRun,
    e: SurveyEvent,
    r: SurveyRun,
    a: SurveyAction,
)
    requires
        surveying::surveys(run, e, r, a),
    ensures
        run.state is Start ==> (e matches SurveyEvent::Begin { bytes } ==> a is LookForXfs && r.state
            == (SurveyState::Xfs { spot: Spot { partition: None, offset: 0, bytes } })),
        run.state matches SurveyState::Xfs { spot } ==> {
            &&& e == (SurveyEvent::Xfs { yes: true }) ==> (r.state matches SurveyState::XfsLayout {
                fs,
            } && fs.offset == spot.offset && fs.bytes == spot.bytes && fs.kind@ == "xfs"@
                && is_of_spot(fs, spot) && fs.uuid.bits == 0 && fs.label@.len() == 0)
            &&& e == (SurveyEvent::Xfs { yes: false }) ==> r.state == (SurveyState::Ext4Layout {
                spot,
            })
        },
        run.state matches SurveyState::XfsLayout { fs } ==> (e matches SurveyEvent::Layout {
            found: Ok((uuid, label)),
        } ==> (r.state matches SurveyState::XfsRelease { fs: g } && g.uuid == uuid && g.label
            == label && g.offset == fs.offset && g.bytes == fs.bytes && g.kind == fs.kind)),
        run.state matches SurveyState::Ext4Layout { spot } ==> (e matches SurveyEvent::Layout {
            found: Ok((uuid, label)),
        } ==> (r.state matches SurveyState::Ext4Open { fs } && fs.uuid == uuid && fs.label == label
            && fs.offset == spot.offset && fs.bytes == spot.bytes && fs.kind@ == "ext4"@
            && is_of_spot(fs, spot))),
        run.state matches SurveyState::Window { place } ==> (e matches SurveyEvent::Window {
            bytes: Some(bytes),
        } ==> r.state == (SurveyState::Xfs {
            spot: Spot {
                partition: Some((place.number, place.name)),
                offset: place.start,
                bytes,
            },
        })),
        a matches SurveyAction::OpenWindow { start, len, block } ==> (r.state matches SurveyState::Window {
            place,
        } && place.start == start && place.len == len && place.block == block),
        run.state matches SurveyState::XfsWalk { fs } ==> (e matches SurveyEvent::Checked {
            found: Ok(w),
        } ==> surveying::reported(r, a).last().walked == Some(w)),
        r.walk == run.walk,
{
}

/// A tree is walked where that is asked for and nowhere else, from its root on;
/// and what was counted is reported once nothing is left to look into.
pub proof fn a_tree_is_walked_where_asked(
    run: SurveyRun,
    e: SurveyEvent,
    r: SurveyRun,
    a: SurveyAction,
)
    requires
        surveying::surveys(run, e, r, a),
    ensures
        a is CheckXfs ==> run.walk,
        a is List && !(run.state is Ext4Walk) ==> run.walk && a->dir@ == "/"@,
        run.state is XfsRelease && run.walk ==> (e matches SurveyEvent::Release { found: Ok(_) } ==> a
            is CheckXfs),
        run.state is XfsRelease && !run.walk ==> (e matches SurveyEvent::Release { found: Ok(_) }
            ==> surveying::reported(r, a).len() == run.found@.len() + 1),
        run.state is Ext4Find && run.walk ==> (e == (SurveyEvent::There { found: Ok(false) }) ==> a
            is List),
        run.state is Ext4Find ==> (e == (SurveyEvent::There { found: Ok(true) }) ==> a
            is ReadRelease),
        run.state is Ext4Read && run.walk ==> (e matches SurveyEvent::Release { found: Ok(_) } ==> a
            is List),
        run.state matches SurveyState::Ext4Walk { fs, walk: w, dir } ==> (
        e matches SurveyEvent::Entries { found: Ok(entries) } ==> {
            let dirs = survey::texts(w.dirs@) + survey::subdirectories(dir@, entries@);
            &&& dirs.len() > 0 ==> a is List && a->dir@ == dirs.last()
            &&& dirs.len() == 0 ==> surveying::reported(r, a).last().walked == Some(
                survey::counted(w.found, entries@),
            )
        }),
        run.state is Table ==> (e matches SurveyEvent::Table { found: Some((lba, entries)) } ==> {
            let places = surveying::places_in(entries@, lba, 0);
            &&& places.len() > 0 ==> a == (SurveyAction::OpenWindow {
                start: places.last().start,
                len: places.last().len,
                block: places.last().block,
            })
            &&& places.len() == 0 ==> a is Finished
        }),
{
    reveal_strlit("/");
    assert(seq!["/"@].last() == "/"@);
}

/// A system that a filesystem tells of is reported with it.
pub proof fn a_system_is_reported(
    run: SurveyRun,
    fs: FoundFs,
    b: Vec<u8>,
    r: SurveyRun,
    a: SurveyAction,
)
    requires
        run.state == (SurveyState::XfsRelease { fs }) || run.state == (SurveyState::Ext4Read { fs }),
        !run.walk,
        surveying::surveys(run, SurveyEvent::Release { found: Ok(Some(b)) }, r, a),
    ensures
        surveying::reported(r, a).len() == run.found@.len() + 1,
        surveying::reported(r, a).last().os matches Some(n) ==> survey::name_in(text::lossy(b@))
            == Some(n@),
        surveying::reported(r, a).last().os is None ==> survey::name_in(text::lossy(b@)) is None,
        surveying::same_place(surveying::reported(r, a).last(), fs),
{
}

} // verus!
