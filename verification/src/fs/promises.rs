//! What holds of a template over its life: from the name it is given to the
//! clone that somebody is handed.
use crate::fs::claiming;
use crate::fs::claiming::{ClaimAction, ClaimState};
use crate::fs::cloning;
use crate::fs::cloning::{CloneAction, CloneEvent, CloneRun, CloneState, Draft};
use crate::fs::creating;
use crate::fs::creating::{CreateAction, CreateEvent, CreateRun, CreateState};
use crate::fs::ext4::Ext4Layout;
use crate::fs::lifecycle;
use crate::fs::lifecycle::{
    CloneStart, ErrorKind, Fault, Minted, Origin, OrphanVolume, ParentShape, StandBy,
};
use crate::fs::sealing;
use crate::fs::sealing::{SealAction, SealEvent, SealRun, SealState};
use crate::fs::template;
use crate::fs::template::{
    ClaimSpec, CloneResult, CloneSpec, FsKind, FsTemplate, StandingClone, TemplateError,
    TemplateSpec, TemplateState,
};
use crate::ids;
use crate::ids::{Uuid, VolumeId};
use crate::text;
use vstd::prelude::*;

verus! {

/// The first template of an identity, and the first of a name, is the one that
/// is found; a key is taken for an identity where some template has it, and
/// else for a name.
pub proof fn the_first_that_fits_is_found(ts: Seq<FsTemplate>, id: Uuid, key: Seq<char>)
    ensures
        ({
            let i = template::place_of(ts, id);
            &&& (exists|k: int| 0 <= k < ts.len() && (#[trigger] ts[k]).id == id) <==> 0 <= i
                < ts.len()
            &&& i >= 0 ==> ts[i].id == id
            &&& forall|k: int| 0 <= k < i ==> (#[trigger] ts[k]).id != id
        }),
        ({
            let i = template::place_named(ts, key);
            &&& (exists|k: int| 0 <= k < ts.len() && (#[trigger] ts[k]).name@ == key) <==> 0 <= i
                < ts.len()
            &&& i >= 0 ==> ts[i].name@ == key
            &&& forall|k: int| 0 <= k < i ==> (#[trigger] ts[k]).name@ != key
        }),
        ids::uuid_parsed(key) == Some(id.bits) && (exists|k: int|
            0 <= k < ts.len() && (#[trigger] ts[k]).id == id) ==> template::place_keyed(ts, key)
            >= 0 && ts[template::place_keyed(ts, key)].id == id,
        ids::uuid_parsed(key) == Some(id.bits) && (forall|k: int|
            0 <= k < ts.len() ==> (#[trigger] ts[k]).id != id) ==> template::place_keyed(ts, key)
            == template::place_named(ts, key),
        ids::uuid_parsed(key) is None ==> template::place_keyed(ts, key) == template::place_named(
            ts,
            key,
        ),
    decreases ts.len(),
{
    template::lemma_place_of(ts, id);
    template::lemma_place_named(ts, key);
    if ts.len() > 0 {
        let rest = ts.drop_first();
        the_first_that_fits_is_found(rest, id, key);
        assert forall|k: int| 0 <= k < template::place_of(ts, id) implies (#[trigger] ts[k]).id
            != id by {
            if k > 0 {
                assert(rest[k - 1] == ts[k]);
            }
        }
        assert forall|k: int| 0 <= k < template::place_named(ts, key) implies (
        #[trigger] ts[k]).name@ != key by {
            if k > 0 {
                assert(rest[k - 1] == ts[k]);
            }
        }
    }
}

/// A template owns its sealed volume, its raw volume and that of the clone that
/// stands by, as far as there are, and nothing else.
pub proof fn what_a_template_owns(t: FsTemplate, v: Uuid)
    ensures
        t.owned().contains(VolumeId(v)) <==> t.sealed_volume_id == Some(v) || t.raw_volume_id
            == Some(v) || (t.standing matches Some(c) && c.volume_id == v),
{
    let a = template::and_volume(Seq::empty(), t.sealed_volume_id);
    let b = template::and_volume(a, t.raw_volume_id);
    lemma_and_volume(Seq::empty(), t.sealed_volume_id, VolumeId(v));
    lemma_and_volume(a, t.raw_volume_id, VolumeId(v));
    lemma_and_volume(b, t.standing_volume(), VolumeId(v));
}

proof fn lemma_and_volume(s: Seq<VolumeId>, id: Option<Uuid>, v: VolumeId)
    ensures
        template::and_volume(s, id).contains(v) <==> s.contains(v) || id == Some(v.0),
{
    let all = template::and_volume(s, id);
    if s.contains(v) {
        assert(all[s.index_of(v)] == v);
    }
    if id == Some(v.0) {
        assert(all[s.len() as int] == v);
    }
    if all.contains(v) && !s.contains(v) {
        let k = all.index_of(v);
        if k < s.len() {
            assert(s[k] == v);
        }
    }
}

/// A template without a parent is begun on an empty volume exactly if it has a
/// name that is not blank and that no template has, and a size.
pub proof fn when_a_template_can_be_begun(ts: Seq<FsTemplate>, spec: TemplateSpec)
    requires
        spec.parent is None,
    ensures
        lifecycle::origin(ts, spec) == Ok::<Origin, Fault>(Origin::Blank) <==> text::trimmed(
            spec.name@,
        ).len() > 0 && spec.size_bytes > 0 && forall|i: int|
            0 <= i < ts.len() ==> (#[trigger] ts[i]).name@ != spec.name@,
        lifecycle::origin(ts, spec) is Ok ==> lifecycle::origin(ts, spec) == Ok::<Origin, Fault>(
            Origin::Blank,
        ),
{
    template::lemma_place_named(ts, spec.name@);
    let i = template::place_named(ts, spec.name@);
    if i >= 0 {
        assert(ts[i].name@ == spec.name@);
    }
}

/// A template with a parent is that parent's filesystem: it begins as a clone of
/// the volume that the parent was sealed as, which has to be there, keeps the
/// parent's kind, journal and features whatever was asked for, and its label
/// unless one was asked for; it is grown where it is to be larger, and refused
/// where it is to be smaller or to be formatted.
pub proof fn a_child_is_its_parents_filesystem(
    ts: Seq<FsTemplate>,
    spec: TemplateSpec,
    key: String,
    parent: ParentShape,
    source: VolumeId,
    grow: Option<u64>,
    t: FsTemplate,
    id: Uuid,
    raw: Uuid,
)
    requires
        spec.parent == Some(key),
        lifecycle::origin(ts, spec) == Ok::<Origin, Fault>(Origin::From { parent, source, grow }),
        lifecycle::is_new(t, spec, Some(parent), id, raw),
    ensures
        ({
            let i = template::place_keyed(ts, key@);
            let p = ts[i];
            &&& 0 <= i < ts.len()
            &&& p.state == TemplateState::Ready
            &&& p.sealed_volume_id == Some(source.0)
            &&& !spec.format_in_core
            &&& spec.size_bytes >= p.size_bytes
            &&& grow == (if spec.size_bytes == p.size_bytes {
                None
            } else {
                Some(spec.size_bytes)
            })
            &&& t.fs == p.fs
            &&& t.journal == p.journal
            &&& t.features == p.features
            &&& t.sixty_four_bit == p.sixty_four_bit
            &&& t.metadata_csum == p.metadata_csum
            &&& t.csum_seed == p.csum_seed
            &&& t.parent_id == Some(p.id)
            &&& spec.label@.len() > 0 ==> t.label == spec.label
            &&& spec.label@.len() == 0 ==> t.label == p.label
            &&& t.state == TemplateState::AwaitingSeed
        }),
        t.id == id,
        t.name == spec.name,
        t.size_bytes == spec.size_bytes,
        t.raw_volume_id == Some(raw),
        t.sealed_volume_id is None,
        t.fs_uuid is None,
        t.clones == 0,
        t.standing is None,
        !t.minting,
{
}

/// A template without a parent is what its specification says: its kind, its
/// label and its features, a journal as asked for, and else one unless it is an
/// ext2; with nothing sealed, cloned or standing by yet.
pub proof fn a_template_is_as_specified(
    t: FsTemplate,
    spec: TemplateSpec,
    id: Uuid,
    raw: Uuid,
    k: int,
)
    requires
        lifecycle::is_new(t, spec, None, id, raw),
    ensures
        t.id == id,
        t.name == spec.name,
        t.fs == spec.fs,
        t.size_bytes == spec.size_bytes,
        t.label == spec.label,
        t.features == spec.features,
        spec.journal matches Some(yes) ==> t.journal == yes,
        spec.journal is None ==> (t.journal <==> spec.fs == FsKind::Ext3 || spec.fs
            == FsKind::Ext4),
        t.state == TemplateState::AwaitingFormat,
        t.raw_volume_id == Some(raw),
        t.sealed_volume_id is None,
        t.parent_id is None,
        t.fs_uuid is None,
        t.clones == 0,
        t.standing is None,
        !t.minting,
        t.seeded@.len() == spec.seed@.len(),
        0 <= k < spec.seed@.len() ==> t.seeded@[k] == spec.seed@[k].path,
{
}

/// The identity that a run lays down or stamps is the one that it draws for the
/// filesystem; and what it notes in the store, before the template is sealed, is
/// that same identity.
pub proof fn the_identity_laid_down_is_noted(
    run: CreateRun,
    ts: Seq<FsTemplate>,
    spec: TemplateSpec,
    e: CreateEvent,
    next: CreateState,
    after: Seq<FsTemplate>,
    a: CreateAction,
)
    requires
        creating::creates(run, ts, spec, e, next, after, a),
    ensures
        a matches CreateAction::Format { volume, params } ==> {
            &&& params.uuid == run.fresh
            &&& params.label == spec.label
            &&& params.features == spec.features
            &&& params.journal == spec.journal
            &&& params.profile.name_of() == spec.fs.name_of()
            &&& params.assume_blank
            &&& params.bytes_per_inode is None
            &&& params.block_size is None
            &&& after.len() == ts.len() + 1
            &&& after.last().raw_volume_id == Some(volume.0)
        },
        a matches CreateAction::Stamp { volume, uuid, backups } ==> uuid == run.fresh && backups,
        a is Seal && template::place_of(ts, run.id) >= 0 ==> {
            let i = template::place_of(ts, run.id);
            &&& after.len() == ts.len()
            &&& after[i].fs_uuid == Some(run.fresh)
            &&& after[i].state == ts[i].state
            &&& after[i].raw_volume_id == ts[i].raw_volume_id
            &&& after[i].name == ts[i].name
            &&& forall|k: int| 0 <= k < ts.len() && k != i ==> #[trigger] after[k] == ts[k]
        },
        a matches CreateAction::Seal { id } ==> id == run.id,
        a matches CreateAction::Finished { id } ==> id == run.id,
{
    template::lemma_place_of(ts, run.id);
}

/// The kinds go by the names that formatters know them by.
pub proof fn kinds_go_by_their_names(k: FsKind)
    ensures
        k == FsKind::Ext2 ==> k.name_of() == "ext2"@ && k.profile_of().name_of() == "ext2"@,
        k == FsKind::Ext3 ==> k.name_of() == "ext3"@ && k.profile_of().name_of() == "ext3"@,
        k == FsKind::Ext4 ==> k.name_of() == "ext4"@ && k.profile_of().name_of() == "ext4"@,
{
}

/// Sealing is begun exactly on a template that is there, is not sealed yet and
/// has a volume, and on that volume.
pub proof fn when_a_template_can_be_sealed(ts: Seq<FsTemplate>, id: Uuid, volume: VolumeId)
    ensures
        lifecycle::seal_begins(ts, id) == Ok::<VolumeId, Fault>(volume) <==> {
            let i = template::place_of(ts, id);
            i >= 0 && ts[i].state != TemplateState::Ready && ts[i].raw_volume_id == Some(volume.0)
        },
{
    template::lemma_place_of(ts, id);
}

/// A template that is sealed with a superblock shows what is in the superblock:
/// its UUID, its journal and its features, and its label where it had none of
/// its own. Sealed without one, by force, it shows what it showed before. It can
/// be cloned from the sealed volume, and is otherwise as it was.
pub proof fn a_seal_records_what_is_on_the_volume(
    t: FsTemplate,
    sealed: Uuid,
    layout: Option<Ext4Layout>,
)
    ensures
        ({
            let s = lifecycle::sealed_as(t, sealed, layout);
            &&& s.state == TemplateState::Ready
            &&& s.sealed_volume_id == Some(sealed)
            &&& s.raw_volume_id is None
            &&& layout matches Some(l) ==> {
                &&& s.fs_uuid == Some(l.uuid)
                &&& s.journal == l.has_journal
                &&& s.sixty_four_bit == l.sixty_four_bit
                &&& s.metadata_csum == l.metadata_csum
                &&& s.csum_seed == l.csum_seed
                &&& t.label@.len() == 0 ==> s.label == l.label
                &&& t.label@.len() > 0 ==> s.label == t.label
            }
            &&& layout is None ==> {
                &&& s.fs_uuid == t.fs_uuid
                &&& s.journal == t.journal
                &&& s.sixty_four_bit == t.sixty_four_bit
                &&& s.metadata_csum == t.metadata_csum
                &&& s.csum_seed == t.csum_seed
                &&& s.label == t.label
            }
            &&& s.id == t.id
            &&& s.name == t.name
            &&& s.fs == t.fs
            &&& s.size_bytes == t.size_bytes
            &&& s.features == t.features
            &&& s.clones == t.clones
            &&& s.seeded == t.seeded
            &&& s.standing == t.standing
            &&& s.minting == t.minting
            &&& s.parent_id == t.parent_id
        }),
{
}

/// What is read of a volume is what is checked, snapshotted and recorded: a run
/// never seals one volume by another's superblock, and the volume that goes in
/// the end is the one that was sealed.
pub proof fn what_was_read_is_what_is_recorded(
    run: SealRun,
    ts: Seq<FsTemplate>,
    e: SealEvent,
    next: SealState,
    after: Seq<FsTemplate>,
    a: SealAction,
)
    requires
        sealing::seals(run, ts, e, next, after, a),
    ensures
        (run.state is Start && a is Read) ==> (a matches SealAction::Read { volume } && {
            let i = template::place_of(ts, run.id);
            &&& i >= 0
            &&& ts[i].raw_volume_id == Some(volume.0)
            &&& next matches SealState::Reading { raw, fs, name } && raw == volume && fs == ts[i].fs
                && name == ts[i].name
        }),
        (run.state matches SealState::Reading { raw, fs, name } && (e matches SealEvent::Read {
            layout: Ok(l),
        } && {
            &&& next == (SealState::Checking { raw, fs, name, layout: l })
            &&& a == (SealAction::Check { volume: raw })
        })) || !(run.state is Reading) || !(e matches SealEvent::Read { layout: Ok(l) }),
        (run.state matches SealState::Checking { raw, fs, name, layout } ==> next is Snapshotting
            ==> next == (SealState::Snapshotting { raw, layout: Some(layout) }) && (a
            matches SealAction::Snapshot { source, name: n } && source == raw && n@
            == "fstemplate-"@ + fs.name_of() + "-"@ + name@)),
        (run.state matches SealState::Snapshotting { raw, layout } ==> (e matches SealEvent::Made {
            volume,
        } ==> template::place_of(ts, run.id) >= 0 ==> {
            let i = template::place_of(ts, run.id);
            &&& a == (SealAction::Delete { volume: raw })
            &&& after.len() == ts.len()
            &&& after[i].state == TemplateState::Ready
            &&& after[i].sealed_volume_id == Some(volume.0)
            &&& layout matches Some(l) ==> after[i].fs_uuid == Some(l.uuid)
            &&& forall|k: int| 0 <= k < ts.len() && k != i ==> #[trigger] after[k] == ts[k]
        })),
{
    template::lemma_place_of(ts, run.id);
}

/// A clone of a sealed template descends from the volume that the template was
/// sealed as; and one that is taken without an identity of its own is reported
/// with the UUID that is on that volume.
pub proof fn an_unstamped_clone_reports_what_was_sealed(
    ts: Seq<FsTemplate>,
    id: Uuid,
    sealed: Uuid,
    l: Ext4Layout,
    key: String,
    spec: CloneSpec,
    start: CloneStart,
    volume: VolumeId,
    size: u64,
    next: CloneState,
    counted: Seq<FsTemplate>,
    a: CloneAction,
)
    requires
        template::place_of(ts, id) >= 0,
        ({
            let i = template::place_of(ts, id);
            let after = ts.update(i, lifecycle::sealed_as(ts[i], sealed, Some(l)));
            &&& template::place_keyed(after, key@) == i
            &&& lifecycle::clone_begins(after, key, spec.name@) == Ok::<CloneStart, Fault>(start)
            &&& cloning::finishes(
                after,
                spec,
                Draft { start, volume, size, stamped: None },
                next,
                counted,
                a,
            )
        }),
    ensures
        start.source == VolumeId(sealed),
        start.template_id == id,
        start.size_bytes == ts[template::place_of(ts, id)].size_bytes,
        a matches CloneAction::Finished { result, replenish } && result.fs_uuid == Some(l.uuid)
            && result.template_id == id && result.volume_id == volume && result.size_bytes == size
            && !result.from_standby,
{
    template::lemma_place_of(ts, id);
}

/// A clone is begun exactly of a template that is sealed and has its sealed
/// volume, under a name that is not blank; and is taken from that volume.
pub proof fn when_a_template_can_be_cloned(ts: Seq<FsTemplate>, key: String, name: Seq<char>)
    ensures
        lifecycle::clone_begins(ts, key, name) is Ok <==> {
            let i = template::place_keyed(ts, key@);
            &&& 0 <= i < ts.len()
            &&& ts[i].state == TemplateState::Ready
            &&& ts[i].sealed_volume_id is Some
            &&& text::trimmed(name).len() > 0
        },
        lifecycle::clone_begins(ts, key, name) matches Ok(start) ==> {
            let t = ts[template::place_keyed(ts, key@)];
            &&& Some(start.source.0) == t.sealed_volume_id
            &&& start.template_id == t.id
            &&& start.fs_uuid == t.fs_uuid
            &&& start.size_bytes == t.size_bytes
        },
{
}

/// A clone goes through what was asked for in this order and no other: the
/// snapshot, the size, the identity, the label, the check. Each is left out
/// exactly where it was not asked for, and done to the clone's own volume.
pub proof fn a_clone_gets_what_was_asked_for(
    run: CloneRun,
    ts: Seq<FsTemplate>,
    key: String,
    spec: CloneSpec,
    e: CloneEvent,
    next: CloneState,
    after: Seq<FsTemplate>,
    a: CloneAction,
)
    requires
        cloning::clones(run, ts, key, spec, e, next, after, a),
    ensures
        a matches CloneAction::Snapshot { source, name } ==> name == spec.name,
        a matches CloneAction::Grow { volume, size } ==> spec.size_bytes == Some(size) && (e
            matches CloneEvent::Made { volume: v, capacity } && v == volume && (capacity
            matches Some(c) ==> size > c)),
        a matches CloneAction::Stamp { volume, uuid, backups } ==> spec.stamp_uuid && uuid
            == run.fresh && backups == spec.stamp_backups,
        a matches CloneAction::Label { volume, label } ==> spec.label == Some(label),
        a is Check ==> spec.verify,
        (run.state matches CloneState::Growing { draft } ==> e is Did ==> spec.stamp_uuid ==> a == (
        CloneAction::Stamp { volume: draft.volume, uuid: run.fresh, backups: spec.stamp_backups })),
        (run.state matches CloneState::Stamping { draft } ==> e is Did ==> (spec.label matches Some(
            l,
        ) ==> a == (CloneAction::Label { volume: draft.volume, label: l }))),
        (run.state matches CloneState::Stamping { draft } ==> e is Did ==> spec.label is None
            ==> spec.verify ==> a == (CloneAction::Check { volume: draft.volume })),
        (run.state matches CloneState::Labelling { draft } ==> e is Did ==> spec.verify ==> a == (
        CloneAction::Check { volume: draft.volume })),
        (run.state matches CloneState::Checking { draft } ==> (e matches CloneEvent::Checked {
            clean,
            problems,
        } ==> if clean {
            a matches CloneAction::Finished { result, replenish } && result.volume_id
                == draft.volume && result.size_bytes == draft.size && result.verified == spec.verify
                && result.template_id == draft.start.template_id
        } else {
            a == (CloneAction::Discard { volume: draft.volume })
        })),
{
}

/// A clone that goes somewhere is counted once, for its template and no other;
/// one that only stands by is not. Nothing else of the store changes.
pub proof fn counting_changes_one_number(ts: Seq<FsTemplate>, id: Uuid, standby: bool, k: int)
    requires
        0 <= k < ts.len(),
        lifecycle::countable(ts, id),
    ensures
        ({
            let after = lifecycle::counted(ts, id, standby);
            let i = template::place_of(ts, id);
            &&& after.len() == ts.len()
            &&& k != i || standby ==> after[k] == ts[k]
            &&& k == i && !standby ==> after[k].clones == ts[k].clones + 1 && after[k] == (
            FsTemplate { clones: after[k].clones, ..ts[k] })
        }),
{
    template::lemma_place_of(ts, id);
}

/// Of two sizes a clone has the larger: the one that it has, or the one that
/// was asked for.
pub proof fn a_clone_has_the_larger_size(size: u64, want: Option<u64>)
    ensures
        lifecycle::grown(size, want) >= size,
        want matches Some(w) ==> lifecycle::grown(size, want) >= w,
        lifecycle::grown(size, want) == size || Some(lifecycle::grown(size, want)) == want,
{
}

/// What is minted to stand by is what the next claim hands out: the same volume
/// with the same identity, as large as it was minted or larger, and checked
/// where it was; and after that claim nothing stands by.
pub proof fn what_was_minted_is_handed_out(
    ts: Seq<FsTemplate>,
    id: Uuid,
    c: CloneResult,
    spec: ClaimSpec,
    standing: StandingClone,
)
    requires
        template::place_of(ts, id) >= 0,
        ts[template::place_of(ts, id)].standing is None,
        ts[template::place_of(ts, id)].clones < u64::MAX,
        lifecycle::mint_ends(ts, id, Some(c)).1 == Minted::Standing(standing),
    ensures
        ({
            let i = template::place_of(ts, id);
            let minted = lifecycle::mint_ends(ts, id, Some(c)).0;
            let r = claiming::handed_out(id, standing, spec);
            &&& minted[i].standing == Some(standing)
            &&& minted[i].clones == ts[i].clones
            &&& r.volume_id == c.volume_id
            &&& r.fs_uuid == c.fs_uuid
            &&& r.verified == c.verified
            &&& r.size_bytes >= c.size_bytes
            &&& r.template_id == id
            &&& r.from_standby
            &&& lifecycle::claimed(minted, id)[i].standing is None
            &&& lifecycle::claimed(minted, id)[i].clones == ts[i].clones + 1
            &&& forall|k: int|
                0 <= k < ts.len() && k != i ==> #[trigger] lifecycle::claimed(minted, id)[k] == ts[k]
        }),
{
    template::lemma_place_of(ts, id);
    let i = template::place_of(ts, id);
    let minted = lifecycle::mint_ends(ts, id, Some(c)).0;
    lifecycle::one_clone_stands_by(ts, id, c);
    lifecycle::a_claimed_clone_is_never_handed_out_twice(minted, id);
    assert forall|k: int| 0 <= k < ts.len() && k != i implies #[trigger] lifecycle::claimed(
        minted,
        id,
    )[k] == ts[k] by {
        assert(minted[k] == ts[k]);
    }
}

/// A clone is minted to stand by exactly for a sealed template of which none
/// stands by and none is being minted.
pub proof fn when_a_clone_is_minted(t: FsTemplate)
    ensures
        lifecycle::stand_by_of(t) is Mint <==> t.state == TemplateState::Ready && t.standing is None
            && !t.minting,
        lifecycle::stand_by_of(t) matches StandBy::Mint { template_id } ==> template_id == t.id,
        lifecycle::stand_by_of(t) matches StandBy::Already(c) ==> t.standing == Some(c),
        t.state == TemplateState::Ready && t.standing is Some ==> lifecycle::stand_by_of(t)
            is Already,
        t.lacks_clone() <==> lifecycle::stand_by_of(t) is Mint,
{
}

/// The templates that want a clone to stand by are the sealed ones without one.
pub proof fn which_templates_want_a_clone(ts: Seq<FsTemplate>, id: Uuid)
    ensures
        lifecycle::wanting(ts).contains(id) <==> exists|i: int|
            0 <= i < ts.len() && (#[trigger] ts[i]).id == id && ts[i].state == TemplateState::Ready
                && ts[i].standing is None,
    decreases ts.len(),
{
    if ts.len() > 0 {
        let before = ts.drop_last();
        let rest = lifecycle::wanting(before);
        let all = lifecycle::wanting(ts);
        let t = ts.last();
        which_templates_want_a_clone(before, id);
        if rest.contains(id) {
            let i = choose|i: int|
                0 <= i < before.len() && (#[trigger] before[i]).id == id && before[i].state
                    == TemplateState::Ready && before[i].standing is None;
            assert(ts[i].id == id);
            assert(all[rest.index_of(id)] == id);
        }
        if all.contains(id) && !rest.contains(id) {
            let k = all.index_of(id);
            if k < rest.len() {
                assert(rest[k] == id);
            }
            assert(ts[ts.len() - 1].id == id);
        }
        if exists|i: int|
            0 <= i < ts.len() && (#[trigger] ts[i]).id == id && ts[i].state == TemplateState::Ready
                && ts[i].standing is None {
            let i = choose|i: int|
                0 <= i < ts.len() && (#[trigger] ts[i]).id == id && ts[i].state
                    == TemplateState::Ready && ts[i].standing is None;
            if i < before.len() {
                assert(before[i].id == id);
            } else {
                assert(all.last() == id);
            }
        }
    }
}

/// Marking a template as minting, or noting its UUID, changes that and nothing
/// else, of that template and of no other.
pub proof fn a_note_changes_one_field(
    ts: Seq<FsTemplate>,
    id: Uuid,
    minting: bool,
    fs_uuid: Uuid,
    k: int,
)
    requires
        0 <= k < ts.len(),
    ensures
        ({
            let i = template::place_of(ts, id);
            let m = lifecycle::with_minting(ts, id, minting);
            let u = lifecycle::with_uuid(ts, id, fs_uuid);
            &&& m.len() == ts.len() && u.len() == ts.len()
            &&& k != i ==> m[k] == ts[k] && u[k] == ts[k]
            &&& k == i ==> m[k].minting == minting && u[k].fs_uuid == Some(fs_uuid)
            &&& k == i ==> m[k] == (FsTemplate { minting, ..ts[k] })
            &&& k == i ==> u[k] == (FsTemplate { fs_uuid: Some(fs_uuid), ..ts[k] })
        }),
{
    template::lemma_place_of(ts, id);
}

/// A volume that a template made carries its prefix, and while the template has
/// it, it is nobody's orphan; a volume of another name, or one in use, never is.
pub proof fn no_template_loses_a_volume(
    ts: Seq<FsTemplate>,
    in_use: Seq<Uuid>,
    v: OrphanVolume,
    k: int,
    name: Seq<char>,
    fs: FsKind,
)
    requires
        0 <= k < ts.len(),
    ensures
        ts[k].raw_volume_id == Some(v.volume_id) ==> !lifecycle::is_orphan(ts, in_use, v),
        ts[k].sealed_volume_id == Some(v.volume_id) ==> !lifecycle::is_orphan(ts, in_use, v),
        (ts[k].standing matches Some(c) && c.volume_id == v.volume_id) ==> !lifecycle::is_orphan(
            ts,
            in_use,
            v,
        ),
        in_use.contains(v.volume_id) ==> !lifecycle::is_orphan(ts, in_use, v),
        v.name@.len() < 11 || v.name@.take(11) != "fstemplate-"@ ==> !lifecycle::is_orphan(
            ts,
            in_use,
            v,
        ),
        lifecycle::raw_name_of(name).take(11) == "fstemplate-"@,
        lifecycle::raw_name_of(name).len() == name.len() + 15,
        lifecycle::raw_name_of(name).subrange(11, 11 + name.len() as int) == name,
        lifecycle::sealed_name_of(fs, name).take(11) == "fstemplate-"@,
        lifecycle::sealed_name_of(fs, name).len() == name.len() + 16,
        lifecycle::sealed_name_of(fs, name).skip(16) == name,
        lifecycle::sealed_name_of(fs, name).subrange(11, 15) == fs.name_of(),
{
    reveal_strlit("fstemplate-");
    reveal_strlit("-raw");
    reveal_strlit("-");
    reveal_strlit("ext2");
    reveal_strlit("ext3");
    reveal_strlit("ext4");
    what_a_template_owns(ts[k], v.volume_id);
    let raw = lifecycle::raw_name_of(name);
    let sealed = lifecycle::sealed_name_of(fs, name);
    assert(raw.take(11) =~= "fstemplate-"@);
    assert(raw.subrange(11, 11 + name.len() as int) =~= name);
    assert(sealed.take(11) =~= "fstemplate-"@);
    assert(sealed.skip(16) =~= name);
    assert(sealed.subrange(11, 15) =~= fs.name_of());
}

/// A claim takes what it needs from the specification: a clone that stands by
/// is grown only to what was asked for, and only where that is more than it has;
/// and labelled only as was asked for.
pub proof fn a_claim_gets_what_was_asked_for(
    run: claiming::ClaimRun,
    ts: Seq<FsTemplate>,
    key: String,
    spec: ClaimSpec,
    e: claiming::ClaimEvent,
    next: ClaimState,
    after: Seq<FsTemplate>,
    a: ClaimAction,
)
    requires
        claiming::claims(run, ts, key, spec, e, next, after, a),
    ensures
        a matches ClaimAction::Grow { volume, size } ==> spec.size_bytes == Some(size) && (next
            matches ClaimState::Growing { template_id, clone } && clone.volume_id == volume.0
            && size > clone.size_bytes),
        a matches ClaimAction::Label { volume, label } ==> spec.label == Some(label) && (next
            matches ClaimState::Labelling { template_id, clone } && clone.volume_id == volume.0),
        a matches ClaimAction::Mint { spec: s } ==> s.size_bytes == spec.size_bytes && s.label
            == spec.label && s.stamp_uuid && s.verify && !s.standby,
        run.state is Start && (next matches ClaimState::Growing { template_id, clone } && {
            let i = template::place_of(ts, template_id);
            ts[i].standing != Some(clone)
        }) ==> false,
        (run.state matches ClaimState::Growing { template_id, clone } ==> e is Did ==> (spec.label
            matches Some(l) ==> a == (ClaimAction::Label {
            volume: VolumeId(clone.volume_id),
            label: l,
        }))),
{
}

/// A fault is answered as what it is: what is not there is not found, what is
/// there already exists, what a template is not ready for conflicts, what cannot
/// be sealed is not sealable, and a volume that is left behind is named; only
/// where a volume is left behind is one named.
pub proof fn a_fault_is_answered_as_what_it_is(f: Fault)
    ensures
        f.kind() == ErrorKind::Exists <==> f is NameTaken,
        f.kind() == ErrorKind::NotFound <==> f is ParentNotFound || f is UnknownId || f
            is UnknownKey || f is VolumeGone,
        f.kind() == ErrorKind::Conflict <==> f is ParentNotReady || f is AlreadySealed || f
            is NothingToSeal || f is NotReadyToClone || f is NotReadyToClaim,
        f.kind() == ErrorKind::NotSealable <==> f is NoFilesystem || f is Blocked || f
            is NotChecked,
        f.kind() == ErrorKind::Invalid <==> f is EmptyName || f is ZeroSize || f
            is FormatOverParent || f is SmallerThanParent || f is EmptyCloneName,
        f.kind() is Leaked <==> f is RaceLeaked || f is NotDiscarded,
        f matches Fault::RaceLeaked { name, volume, why } ==> f.kind() == (ErrorKind::Leaked {
            volume,
        }),
        f matches Fault::NotDiscarded { volume, context, why } ==> f.kind() == (ErrorKind::Leaked {
            volume,
        }),
{
}

/// An error is of the kind that it was made for and says its words.
pub proof fn an_error_says_its_words(e: TemplateError, kind: ErrorKind, words: Seq<char>)
    requires
        lifecycle::is_error(e, kind, words),
    ensures
        kind == ErrorKind::Exists ==> (e matches TemplateError::Exists(m) && m@ == words),
        kind == ErrorKind::NotFound ==> (e matches TemplateError::NotFound(m) && m@ == words),
        kind == ErrorKind::Conflict ==> (e matches TemplateError::Conflict(m) && m@ == words),
        kind == ErrorKind::NotSealable ==> (e matches TemplateError::NotSealable(m) && m@ == words),
        kind == ErrorKind::Invalid ==> (e matches TemplateError::Invalid(m) && m@ == words),
        kind == ErrorKind::Internal ==> (e matches TemplateError::Internal(m) && m@ == words),
        kind matches ErrorKind::Leaked { volume } ==> (e matches TemplateError::Leaked {
            volume_id,
            message,
        } && volume_id == volume && message@ == words),
{
}

} // verus!
