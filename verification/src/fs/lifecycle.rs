//! The life of a template: created, sealed, cloned, claimed and deleted.
//!
//! Making, formatting, checking and deleting volumes is the caller's; what is
//! decided here is whether a step may be taken, what it is to do, and what the
//! store of templates is afterwards.
use crate::fs::ext4::{Ext4Layout, SealBlocker};
use crate::fs::files::SeedFile;
use crate::fs::template;
use crate::fs::template::{
    ClaimSpec, CloneResult, CloneSpec, FsKind, FsTemplate, StandingClone, TemplateError, TemplateSpec,
    TemplateState, TemplateStore, VOLUME_PREFIX,
};
use crate::ids::{Uuid, VolumeId};
use crate::text;
use vstd::prelude::*;

verus! {

/// What can go wrong, in detail.
#[allow(inconsistent_fields)]
#[derive(Debug)]
pub enum Fault {
    EmptyName,
    ZeroSize,
    NameTaken { name: String },
    ParentNotFound { key: String },
    ParentNotReady { name: String, state: TemplateState },
    FormatOverParent,
    SmallerThanParent { size: u64, name: String, parent_size: u64 },
    ParentUnsealed { name: String },
    NotCreated { why: String },
    ParentNotCloned { name: String, why: String },
    NotGrown { why: String },
    ClonedVolumeVanished,
    ParentNotStamped { name: String, why: String },
    RaceLeaked { name: String, volume: Uuid, why: String },
    NewVolumeVanished,
    VolumeVanished,
    NotFormatted { name: String, why: String },
    NotSeeded { name: String, why: String },
    /// No template of this identity.
    UnknownId { id: Uuid },
    /// No template of this key.
    UnknownKey { key: String },
    AlreadySealed { name: String },
    NothingToSeal { name: String },
    VolumeGone { volume: Uuid },
    NoFilesystem { why: String },
    Blocked { name: String, why: String },
    NotChecked { why: String },
    NotSnapshotted { why: String },
    NotReadyToClone { name: String, state: TemplateState },
    NotReadyToClaim { name: String, state: TemplateState },
    NoSnapshot { name: String },
    EmptyCloneName,
    NotCloned { why: String },
    CloneNotGrown { why: String },
    CloneVanished,
    /// Something went wrong with a clone, and it was thrown away.
    Discarded { context: String },
    /// Something went wrong with a clone, and it could not be thrown away.
    NotDiscarded { volume: Uuid, context: String, why: String },
    ClaimNotGrown { why: String },
}

/// How a fault is answered.
#[derive(Debug, Clone, Copy, PartialEq, Eq, Structural)]
pub enum ErrorKind {
    Exists,
    NotFound,
    Conflict,
    Leaked { volume: Uuid },
    NotSealable,
    Invalid,
    Internal,
}

impl Fault {
    /// How the fault is answered.
    pub open spec fn kind(self) -> ErrorKind {
        match self {
            Fault::EmptyName => ErrorKind::Invalid,
            Fault::ZeroSize => ErrorKind::Invalid,
            Fault::NameTaken { name } => ErrorKind::Exists,
            Fault::ParentNotFound { key } => ErrorKind::NotFound,
            Fault::ParentNotReady { name, state } => ErrorKind::Conflict,
            Fault::FormatOverParent => ErrorKind::Invalid,
            Fault::SmallerThanParent { size, name, parent_size } => ErrorKind::Invalid,
            Fault::RaceLeaked { name, volume, why } => ErrorKind::Leaked { volume },
            Fault::UnknownId { id } => ErrorKind::NotFound,
            Fault::UnknownKey { key } => ErrorKind::NotFound,
            Fault::AlreadySealed { name } => ErrorKind::Conflict,
            Fault::NothingToSeal { name } => ErrorKind::Conflict,
            Fault::VolumeGone { volume } => ErrorKind::NotFound,
            Fault::NoFilesystem { why } => ErrorKind::NotSealable,
            Fault::Blocked { name, why } => ErrorKind::NotSealable,
            Fault::NotChecked { why } => ErrorKind::NotSealable,
            Fault::NotReadyToClone { name, state } => ErrorKind::Conflict,
            Fault::NotReadyToClaim { name, state } => ErrorKind::Conflict,
            Fault::EmptyCloneName => ErrorKind::Invalid,
            Fault::NotDiscarded { volume, context, why } => ErrorKind::Leaked { volume },
            _ => ErrorKind::Internal,
        }
    }

    /// The fault in words.
    pub open spec fn words(self) -> Seq<char> {
        match self {
            Fault::EmptyName => "name must not be empty"@,
            Fault::ZeroSize => "size_bytes must be > 0"@,
            Fault::NameTaken { name } => "fstemplate "@ + name@ + " already exists"@,
            Fault::ParentNotFound { key } => "parent fstemplate "@ + key@ + " not found"@,
            Fault::ParentNotReady { name, state } => "parent fstemplate "@ + name@ + " is "@
                + state.name_of() + " — seal it before building on it"@,
            Fault::FormatOverParent =>
                "format_in_core cannot be combined with parent: the parent's filesystem                      is the filesystem"@,
            Fault::SmallerThanParent { size, name, parent_size } => "size_bytes "@ + text::decimal(
                size as nat,
            ) + " is smaller than parent "@ + name@ + " ("@ + text::decimal(parent_size as nat)
                + "); a filesystem cannot be                      shrunk into a smaller volume"@,
            Fault::ParentUnsealed { name } => "parent "@ + name@ + " has no sealed snapshot"@,
            Fault::NotCreated { why } => "creating template volume: "@ + why@,
            Fault::ParentNotCloned { name, why } => "cloning parent "@ + name@ + ": "@ + why@,
            Fault::NotGrown { why } => "growing template volume: "@ + why@,
            Fault::ClonedVolumeVanished => "cloned volume vanished"@,
            Fault::ParentNotStamped { name, why } => "stamping a fresh uuid on the clone of "@
                + name@ + ": "@ + why@,
            Fault::RaceLeaked { name, volume, why } => "fstemplate "@ + name@
                + " already exists, and this attempt's volume could NOT be discarded: "@ + why@,
            Fault::NewVolumeVanished => "new template volume vanished"@,
            Fault::VolumeVanished => "template volume vanished"@,
            Fault::NotFormatted { name, why } => "formatting "@ + name@ + ": "@ + why@,
            Fault::NotSeeded { name, why } => "seeding "@ + name@ + ": "@ + why@,
            Fault::UnknownId { id } => "fstemplate "@ + id.text() + " not found"@,
            Fault::UnknownKey { key } => "fstemplate "@ + key@ + " not found"@,
            Fault::AlreadySealed { name } => "fstemplate "@ + name@ + " is already sealed"@,
            Fault::NothingToSeal { name } => "fstemplate "@ + name@ + " has no volume to seal"@,
            Fault::VolumeGone { volume } => "template volume "@ + volume.text() + " is gone"@,
            Fault::NoFilesystem { why } => "no usable filesystem on the template volume: "@ + why@,
            Fault::Blocked { name, why } => "refusing to seal "@ + name@ + ": "@ + why@,
            Fault::NotChecked { why } => "checking the template filesystem: "@ + why@,
            Fault::NotSnapshotted { why } => "sealing snapshot: "@ + why@,
            Fault::NotReadyToClone { name, state } => "fstemplate "@ + name@ + " is "@
                + state.name_of() + " — seal it before cloning"@,
            Fault::NotReadyToClaim { name, state } => "fstemplate "@ + name@ + " is "@
                + state.name_of() + " — seal it before claiming"@,
            Fault::NoSnapshot { name } => "fstemplate "@ + name@ + " has no sealed snapshot"@,
            Fault::EmptyCloneName => "clone name must not be empty"@,
            Fault::NotCloned { why } => "cloning template: "@ + why@,
            Fault::CloneNotGrown { why } => "growing clone: "@ + why@,
            Fault::CloneVanished => "clone volume vanished"@,
            Fault::Discarded { context } => context@ + " — the volume was discarded"@,
            Fault::NotDiscarded { volume, context, why } => context@
                + " — and it could NOT be discarded: "@ + why@,
            Fault::ClaimNotGrown { why } => "growing claimed clone: "@ + why@,
        }
    }

    fn text(&self) -> (s: String)
        ensures
            s@ == self.words(),
    {
        match self {
            Fault::EmptyName => "name must not be empty".to_owned(),
            Fault::ZeroSize => "size_bytes must be > 0".to_owned(),
            Fault::NameTaken { name } => join3("fstemplate ", name, " already exists"),
            Fault::ParentNotFound { key } => join3("parent fstemplate ", key, " not found"),
            Fault::ParentNotReady { name, state } => {
                let mut s = join3("parent fstemplate ", name, " is ");
                s.append(state.as_str());
                s.append(" — seal it before building on it");
                s
            },
            Fault::FormatOverParent => {
                "format_in_core cannot be combined with parent: the parent's filesystem                      is the filesystem".to_owned()
            },
            Fault::SmallerThanParent { size, name, parent_size } => {
                let mut s = "size_bytes ".to_owned();
                text::push_decimal(&mut s, *size);
                s.append(" is smaller than parent ");
                s.append(name);
                s.append(" (");
                text::push_decimal(&mut s, *parent_size);
                s.append("); a filesystem cannot be                      shrunk into a smaller volume");
                s
            },
            Fault::ParentUnsealed { name } => join3("parent ", name, " has no sealed snapshot"),
            Fault::NotCreated { why } => join2("creating template volume: ", why),
            Fault::ParentNotCloned { name, why } => {
                let mut s = join3("cloning parent ", name, ": ");
                s.append(why);
                s
            },
            Fault::NotGrown { why } => join2("growing template volume: ", why),
            Fault::ClonedVolumeVanished => "cloned volume vanished".to_owned(),
            Fault::ParentNotStamped { name, why } => {
                let mut s = join3("stamping a fresh uuid on the clone of ", name, ": ");
                s.append(why);
                s
            },
            Fault::RaceLeaked { name, why, .. } => {
                let mut s = join3(
                    "fstemplate ",
                    name,
                    " already exists, and this attempt's volume could NOT be discarded: ",
                );
                s.append(why);
                s
            },
            Fault::NewVolumeVanished => "new template volume vanished".to_owned(),
            Fault::VolumeVanished => "template volume vanished".to_owned(),
            Fault::NotFormatted { name, why } => {
                let mut s = join3("formatting ", name, ": ");
                s.append(why);
                s
            },
            Fault::NotSeeded { name, why } => {
                let mut s = join3("seeding ", name, ": ");
                s.append(why);
                s
            },
            Fault::UnknownId { id } => join3("fstemplate ", &id.to_string(), " not found"),
            Fault::UnknownKey { key } => join3("fstemplate ", key, " not found"),
            Fault::AlreadySealed { name } => join3("fstemplate ", name, " is already sealed"),
            Fault::NothingToSeal { name } => join3("fstemplate ", name, " has no volume to seal"),
            Fault::VolumeGone { volume } => join3(
                "template volume ",
                &volume.to_string(),
                " is gone",
            ),
            Fault::NoFilesystem { why } => join2(
                "no usable filesystem on the template volume: ",
                why,
            ),
            Fault::Blocked { name, why } => {
                let mut s = join3("refusing to seal ", name, ": ");
                s.append(why);
                s
            },
            Fault::NotChecked { why } => join2("checking the template filesystem: ", why),
            Fault::NotSnapshotted { why } => join2("sealing snapshot: ", why),
            Fault::NotReadyToClone { name, state } => {
                let mut s = join3("fstemplate ", name, " is ");
                s.append(state.as_str());
                s.append(" — seal it before cloning");
                s
            },
            Fault::NotReadyToClaim { name, state } => {
                let mut s = join3("fstemplate ", name, " is ");
                s.append(state.as_str());
                s.append(" — seal it before claiming");
                s
            },
            Fault::NoSnapshot { name } => join3("fstemplate ", name, " has no sealed snapshot"),
            Fault::EmptyCloneName => "clone name must not be empty".to_owned(),
            Fault::NotCloned { why } => join2("cloning template: ", why),
            Fault::CloneNotGrown { why } => join2("growing clone: ", why),
            Fault::CloneVanished => "clone volume vanished".to_owned(),
            Fault::Discarded { context } => join2(context, " — the volume was discarded"),
            Fault::NotDiscarded { context, why, .. } => {
                let mut s = join2(context, " — and it could NOT be discarded: ");
                s.append(why);
                s
            },
            Fault::ClaimNotGrown { why } => join2("growing claimed clone: ", why),
        }
    }

    /// The error that a caller is given.
    pub fn to_error(&self) -> (e: TemplateError)
        ensures
            is_error(e, self.kind(), self.words()),
    {
        let m = self.text();
        match self {
            Fault::NameTaken { .. } => TemplateError::Exists(m),
            Fault::ParentNotFound { .. }
            | Fault::UnknownId { .. }
            | Fault::UnknownKey { .. }
            | Fault::VolumeGone { .. } => TemplateError::NotFound(m),
            Fault::ParentNotReady { .. }
            | Fault::AlreadySealed { .. }
            | Fault::NothingToSeal { .. }
            | Fault::NotReadyToClone { .. }
            | Fault::NotReadyToClaim { .. } => TemplateError::Conflict(m),
            Fault::RaceLeaked { volume, .. } => TemplateError::Leaked {
                volume_id: *volume,
                message: m,
            },
            Fault::NotDiscarded { volume, .. } => TemplateError::Leaked {
                volume_id: *volume,
                message: m,
            },
            Fault::NoFilesystem { .. } | Fault::Blocked { .. } | Fault::NotChecked { .. } => {
                TemplateError::NotSealable(m)
            },
            Fault::EmptyName
            | Fault::ZeroSize
            | Fault::FormatOverParent
            | Fault::SmallerThanParent { .. }
            | Fault::EmptyCloneName => TemplateError::Invalid(m),
            _ => TemplateError::Internal(m),
        }
    }
}

/// Whether an error is of a kind and says certain words.
pub open spec fn is_error(e: TemplateError, kind: ErrorKind, words: Seq<char>) -> bool {
    match (e, kind) {
        (TemplateError::Exists(m), ErrorKind::Exists) => m@ == words,
        (TemplateError::NotFound(m), ErrorKind::NotFound) => m@ == words,
        (TemplateError::Conflict(m), ErrorKind::Conflict) => m@ == words,
        (TemplateError::Leaked { volume_id, message }, ErrorKind::Leaked { volume }) => volume_id
            == volume && message@ == words,
        (TemplateError::NotSealable(m), ErrorKind::NotSealable) => m@ == words,
        (TemplateError::Invalid(m), ErrorKind::Invalid) => m@ == words,
        (TemplateError::Internal(m), ErrorKind::Internal) => m@ == words,
        _ => false,
    }
}

fn join2(a: &str, b: &str) -> (s: String)
    ensures
        s@ == a@ + b@,
{
    let mut s = a.to_owned();
    s.append(b);
    s
}

fn join3(a: &str, b: &str, c: &str) -> (s: String)
    ensures
        s@ == a@ + b@ + c@,
{
    let mut s = a.to_owned();
    s.append(b);
    s.append(c);
    s
}

fn copy_text(s: &Option<String>) -> (r: Option<String>)
    ensures
        r == *s,
{
    match s {
        Some(t) => Some(t.clone()),
        None => None,
    }
}

/// What a template takes over from the one it is built on.
pub struct ParentShape {
    pub id: Uuid,
    pub name: String,
    pub fs: FsKind,
    pub size_bytes: u64,
    pub journal: bool,
    pub label: String,
    pub features: Option<String>,
    pub sixty_four_bit: bool,
    pub metadata_csum: bool,
    pub csum_seed: bool,
}

/// What a template hands on to one that is built on it.
pub open spec fn shape_of(t: FsTemplate) -> ParentShape {
    ParentShape {
        id: t.id,
        name: t.name,
        fs: t.fs,
        size_bytes: t.size_bytes,
        journal: t.journal,
        label: t.label,
        features: t.features,
        sixty_four_bit: t.sixty_four_bit,
        metadata_csum: t.metadata_csum,
        csum_seed: t.csum_seed,
    }
}

fn shape(t: &FsTemplate) -> (p: ParentShape)
    ensures
        p == shape_of(*t),
{
    ParentShape {
        id: t.id,
        name: t.name.clone(),
        fs: t.fs,
        size_bytes: t.size_bytes,
        journal: t.journal,
        label: t.label.clone(),
        features: copy_text(&t.features),
        sixty_four_bit: t.sixty_four_bit,
        metadata_csum: t.metadata_csum,
        csum_seed: t.csum_seed,
    }
}

/// How a template begins.
pub enum Origin {
    /// With an empty volume.
    Blank,
    /// With a clone of another template's sealed volume, grown if need be.
    From { parent: ParentShape, source: VolumeId, grow: Option<u64> },
}

/// How a template begins, or why it does not. A name is needed that nobody
/// has, and a size; a parent has to be sealed, is not formatted over, and does
/// not shrink.
pub open spec fn origin(ts: Seq<FsTemplate>, spec: TemplateSpec) -> Result<Origin, Fault> {
    if text::trimmed(spec.name@).len() == 0 {
        Err(Fault::EmptyName)
    } else if spec.size_bytes == 0 {
        Err(Fault::ZeroSize)
    } else if template::place_named(ts, spec.name@) >= 0 {
        Err(Fault::NameTaken { name: spec.name })
    } else {
        match spec.parent {
            None => Ok(Origin::Blank),
            Some(key) => match template::at(ts, template::place_keyed(ts, key@)) {
                None => Err(Fault::ParentNotFound { key }),
                Some(p) => if p.state != TemplateState::Ready {
                    Err(Fault::ParentNotReady { name: p.name, state: p.state })
                } else if spec.format_in_core {
                    Err(Fault::FormatOverParent)
                } else if spec.size_bytes < p.size_bytes {
                    Err(
                        Fault::SmallerThanParent {
                            size: spec.size_bytes,
                            name: p.name,
                            parent_size: p.size_bytes,
                        },
                    )
                } else {
                    match p.sealed_volume_id {
                        None => Err(Fault::ParentUnsealed { name: p.name }),
                        Some(source) => Ok(
                            Origin::From {
                                parent: shape_of(p),
                                source: VolumeId(source),
                                grow: if spec.size_bytes > p.size_bytes {
                                    Some(spec.size_bytes)
                                } else {
                                    None
                                },
                            },
                        ),
                    }
                },
            },
        }
    }
}

/// Begins a template: tells what volume to make for it.
pub fn create(store: &TemplateStore, spec: &TemplateSpec) -> (r: Result<Origin, Fault>)
    ensures
        r == origin(store.templates@, *spec),
{
    proof {
        template::lemma_place_named(store.templates@, spec.name@);
    }
    let trimmed = text::trim_text(&spec.name);
    if trimmed.as_str().is_empty() {
        return Err(Fault::EmptyName);
    }
    if spec.size_bytes == 0 {
        return Err(Fault::ZeroSize);
    }
    match store.by_name(&spec.name) {
        Some(_) => {
            return Err(Fault::NameTaken { name: spec.name.clone() });
        },
        None => {},
    }
    let key: &String = match &spec.parent {
        None => {
            return Ok(Origin::Blank);
        },
        Some(key) => key,
    };
    let p: &FsTemplate = match store.find(key) {
        None => {
            return Err(Fault::ParentNotFound { key: key.clone() });
        },
        Some(p) => p,
    };
    if p.state != TemplateState::Ready {
        return Err(Fault::ParentNotReady { name: p.name.clone(), state: p.state });
    }
    if spec.format_in_core {
        return Err(Fault::FormatOverParent);
    }
    if spec.size_bytes < p.size_bytes {
        return Err(
            Fault::SmallerThanParent {
                size: spec.size_bytes,
                name: p.name.clone(),
                parent_size: p.size_bytes,
            },
        );
    }
    match p.clone_source() {
        None => Err(Fault::ParentUnsealed { name: p.name.clone() }),
        Some(source) => {
            let grow: Option<u64> = if spec.size_bytes > p.size_bytes {
                Some(spec.size_bytes)
            } else {
                None
            };
            Ok(Origin::From { parent: shape(p), source, grow })
        },
    }
}

/// Name of the volume that a template is made in.
pub open spec fn raw_name_of(name: Seq<char>) -> Seq<char> {
    "fstemplate-"@ + name + "-raw"@
}

/// Name of the volume that a template is made in.
pub fn raw_name(name: &str) -> (s: String)
    ensures
        s@ == raw_name_of(name@),
{
    join3("fstemplate-", name, "-raw")
}

/// Name of the volume that a template is sealed as.
pub open spec fn sealed_name_of(fs: FsKind, name: Seq<char>) -> Seq<char> {
    "fstemplate-"@ + fs.name_of() + "-"@ + name
}

/// Name of the volume that a template is sealed as.
pub fn sealed_name(fs: FsKind, name: &str) -> (s: String)
    ensures
        s@ == sealed_name_of(fs, name@),
{
    let mut s = join3("fstemplate-", fs.as_str(), "-");
    s.append(name);
    s
}

/// Name of a clone that stands by: the template's, and the first eight digits
/// of `u`.
pub open spec fn standby_name_of(name: Seq<char>, u: Uuid) -> Seq<char> {
    "standby-"@ + name + "-"@ + text::hex_digits(u.bits as nat, 32).take(8)
}

/// Name of a clone that stands by.
pub fn standby_name(name: &str, u: Uuid) -> (s: String)
    ensures
        s@ == standby_name_of(name@, u),
{
    let mut s = join3("standby-", name, "-");
    let mut h = String::new();
    text::push_hex_digits(&mut h, u.bits, 32);
    proof {
        crate::ids::lemma_hex_digits_len(u.bits as nat, 32);
        assert(h@ =~= text::hex_digits(u.bits as nat, 32));
        assert(h@.subrange(0, 8) =~= h@.take(8));
    }
    let v = text::to_chars(&h);
    s.append(&text::from_chars(&v, 0, 8));
    s
}

/// Paths of files.
pub open spec fn paths_of(files: Seq<SeedFile>) -> Seq<String> {
    files.map_values(|f: SeedFile| f.path)
}

/// Whether `t` is the template that a specification and a parent make, with
/// this identity and this volume. On a parent its shape is the parent's.
pub open spec fn is_new(
    t: FsTemplate,
    spec: TemplateSpec,
    parent: Option<ParentShape>,
    id: Uuid,
    raw: Uuid,
) -> bool {
    &&& t.id == id
    &&& t.name == spec.name
    &&& t.size_bytes == spec.size_bytes
    &&& t.fs_uuid is None
    &&& t.raw_volume_id == Some(raw)
    &&& t.sealed_volume_id is None
    &&& t.clones == 0
    &&& t.seeded@ == paths_of(spec.seed@)
    &&& t.standing is None
    &&& !t.minting
    &&& match parent {
        Some(p) => {
            &&& t.fs == p.fs
            &&& t.journal == p.journal
            &&& t.label == (if spec.label@.len() == 0 {
                p.label
            } else {
                spec.label
            })
            &&& t.features == p.features
            &&& t.sixty_four_bit == p.sixty_four_bit
            &&& t.metadata_csum == p.metadata_csum
            &&& t.csum_seed == p.csum_seed
            &&& t.state == TemplateState::AwaitingSeed
            &&& t.parent_id == Some(p.id)
        },
        None => {
            &&& t.fs == spec.fs
            &&& t.journal == (match spec.journal {
                Some(yes) => yes,
                None => spec.fs != FsKind::Ext2,
            })
            &&& t.label == spec.label
            &&& t.features == spec.features
            &&& !t.sixty_four_bit
            &&& !t.metadata_csum
            &&& !t.csum_seed
            &&& t.state == TemplateState::AwaitingFormat
            &&& t.parent_id is None
        },
    }
}

/// The template that a specification and a parent make.
pub fn new_template(spec: &TemplateSpec, parent: Option<ParentShape>, id: Uuid, raw: Uuid) -> (t:
    FsTemplate)
    ensures
        is_new(t, *spec, parent, id, raw),
{
    let mut seeded: Vec<String> = Vec::new();
    let mut i: usize = 0;
    while i < spec.seed.len()
        invariant
            i <= spec.seed@.len(),
            seeded@ == paths_of(spec.seed@.take(i as int)),
        decreases spec.seed@.len() - i,
    {
        seeded.push(spec.seed[i].path.clone());
        i = i + 1;
        assert(seeded@ =~= paths_of(spec.seed@.take(i as int)));
    }
    assert(spec.seed@.take(spec.seed@.len() as int) =~= spec.seed@);
    match parent {
        Some(p) => FsTemplate {
            id,
            name: spec.name.clone(),
            fs: p.fs,
            size_bytes: spec.size_bytes,
            journal: p.journal,
            label: if spec.label.as_str().is_empty() {
                p.label
            } else {
                spec.label.clone()
            },
            features: p.features,
            sixty_four_bit: p.sixty_four_bit,
            metadata_csum: p.metadata_csum,
            csum_seed: p.csum_seed,
            fs_uuid: None,
            state: TemplateState::AwaitingSeed,
            raw_volume_id: Some(raw),
            sealed_volume_id: None,
            clones: 0,
            seeded,
            standing: None,
            minting: false,
            parent_id: Some(p.id),
        },
        None => FsTemplate {
            id,
            name: spec.name.clone(),
            fs: spec.fs,
            size_bytes: spec.size_bytes,
            journal: match spec.journal {
                Some(yes) => yes,
                None => spec.fs != FsKind::Ext2,
            },
            label: spec.label.clone(),
            features: copy_text(&spec.features),
            sixty_four_bit: false,
            metadata_csum: false,
            csum_seed: false,
            fs_uuid: None,
            state: TemplateState::AwaitingFormat,
            raw_volume_id: Some(raw),
            sealed_volume_id: None,
            clones: 0,
            seeded,
            standing: None,
            minting: false,
            parent_id: None,
        },
    }
}

/// Claims a template's name, before the long part of making it: of two that
/// race for one name, one is turned away.
pub fn claim_name(store: &mut TemplateStore, t: FsTemplate) -> (ok: bool)
    ensures
        final(store).version == old(store).version,
        ok == (template::place_named(old(store).templates@, t.name@) == -1),
        final(store).templates@ == (if ok {
            old(store).templates@.push(t)
        } else {
            old(store).templates@
        }),
{
    proof {
        template::lemma_place_named(store.templates@, t.name@);
    }
    match store.by_name(&t.name) {
        Some(_) => false,
        None => {
            store.insert(t);
            true
        },
    }
}

/// What the one that is turned away is told. It has given its volume back, or
/// else is told of the volume.
pub fn lost_race(name: String, raw: Uuid, given_back: Result<(), String>) -> (f: Fault)
    ensures
        f == (match given_back {
            Ok(()) => Fault::NameTaken { name },
            Err(why) => Fault::RaceLeaked { name, volume: raw, why },
        }),
{
    match given_back {
        Ok(()) => Fault::NameTaken { name },
        Err(why) => Fault::RaceLeaked { name, volume: raw, why },
    }
}

/// No name occurs twice in a store.
pub open spec fn names_differ(ts: Seq<FsTemplate>) -> bool {
    forall|i: int, j: int|
        0 <= i < j < ts.len() ==> (#[trigger] ts[i]).name@ != (#[trigger] ts[j]).name@
}

/// A store in which no name occurs twice stays one.
pub proof fn a_name_is_claimed_once(ts: Seq<FsTemplate>, t: FsTemplate)
    requires
        names_differ(ts),
        template::place_named(ts, t.name@) == -1,
    ensures
        names_differ(ts.push(t)),
{
    template::lemma_place_named(ts, t.name@);
}

/// Forgets a half-made template, and tells which volumes to delete: all that
/// it has.
pub fn rollback(store: &mut TemplateStore, id: &Uuid) -> (volumes: Vec<VolumeId>)
    ensures
        final(store).version == old(store).version,
        ({
            let i = template::place_of(old(store).templates@, *id);
            if i >= 0 {
                volumes@ == old(store).templates@[i].owned() && final(store).templates@
                    == old(store).templates@.remove(i)
            } else {
                volumes@.len() == 0 && final(store).templates@ == old(store).templates@
            }
        }),
{
    match store.remove(id) {
        Some(t) => t.volumes(),
        None => Vec::new(),
    }
}

/// What fails to be made leaves nothing behind: the store is what it was
/// before the name was claimed, and the template's one volume is deleted.
pub proof fn a_failed_create_leaves_nothing(ts: Seq<FsTemplate>, t: FsTemplate, raw: Uuid)
    requires
        template::place_of(ts, t.id) == -1,
        t.raw_volume_id == Some(raw),
        t.sealed_volume_id is None,
        t.standing is None,
    ensures
        ({
            let claimed = ts.push(t);
            let i = template::place_of(claimed, t.id);
            i >= 0 && claimed[i].owned() == seq![VolumeId(raw)] && claimed.remove(i) == ts
        }),
{
    let claimed = ts.push(t);
    template::lemma_place_of(ts, t.id);
    template::lemma_place_of(claimed, t.id);
    assert(claimed[ts.len() as int].id == t.id);
    let i = template::place_of(claimed, t.id);
    if i < ts.len() {
        assert(ts[i].id != t.id);
    }
    assert(claimed.remove(i) =~= ts);
    assert(claimed[i].owned() =~= seq![VolumeId(raw)]);
}

/// Takes note of the UUID that a template was formatted with.
pub fn formatted(store: &mut TemplateStore, id: &Uuid, fs_uuid: Uuid)
    ensures
        final(store).version == old(store).version,
        final(store).templates@ == with_uuid(old(store).templates@, *id, fs_uuid),
{
    match store.position(id) {
        Some(i) => {
            store.templates[i].fs_uuid = Some(fs_uuid);
            assert(store.templates@ =~= with_uuid(old(store).templates@, *id, fs_uuid));
        },
        None => {},
    }
}

/// A store with the UUID of one template's filesystem set.
pub open spec fn with_uuid(ts: Seq<FsTemplate>, id: Uuid, fs_uuid: Uuid) -> Seq<FsTemplate> {
    let i = template::place_of(ts, id);
    if i < 0 {
        ts
    } else {
        ts.update(i, FsTemplate { fs_uuid: Some(fs_uuid), ..ts[i] })
    }
}

/// What sealing a template begins with: its volume.
pub open spec fn seal_begins(ts: Seq<FsTemplate>, id: Uuid) -> Result<VolumeId, Fault> {
    match template::at(ts, template::place_of(ts, id)) {
        None => Err(Fault::UnknownId { id }),
        Some(t) => if t.state == TemplateState::Ready {
            Err(Fault::AlreadySealed { name: t.name })
        } else {
            match t.raw_volume_id {
                None => Err(Fault::NothingToSeal { name: t.name }),
                Some(u) => Ok(VolumeId(u)),
            }
        },
    }
}

/// Begins to seal a template: tells which volume to look at.
pub fn seal(store: &TemplateStore, id: &Uuid) -> (r: Result<VolumeId, Fault>)
    ensures
        r == seal_begins(store.templates@, *id),
{
    let t: &FsTemplate = match store.get(id) {
        None => {
            return Err(Fault::UnknownId { id: *id });
        },
        Some(t) => t,
    };
    if t.state == TemplateState::Ready {
        return Err(Fault::AlreadySealed { name: t.name.clone() });
    }
    match t.raw_volume_id {
        None => Err(Fault::NothingToSeal { name: t.name.clone() }),
        Some(u) => Ok(VolumeId(u)),
    }
}

/// The superblock that a template is sealed with. Only force seals a volume
/// that has none.
pub fn judge_layout(layout: Result<Ext4Layout, String>, force: bool) -> (r: Result<
    Option<Ext4Layout>,
    Fault,
>)
    ensures
        match layout {
            Ok(l) => r matches Ok(Some(m)) && m == l,
            Err(why) => if force {
                r matches Ok(None)
            } else {
                r matches Err(f) && f == (Fault::NoFilesystem { why })
            },
        },
{
    match layout {
        Ok(l) => Ok(Some(l)),
        Err(why) => if force {
            Ok(None)
        } else {
            Err(Fault::NoFilesystem { why })
        },
    }
}

/// The reasons against sealing, in words, with semicolons between them.
pub open spec fn joined(blockers: Seq<SealBlocker>) -> Seq<char>
    decreases blockers.len(),
{
    if blockers.len() == 0 {
        Seq::empty()
    } else if blockers.len() == 1 {
        blockers[0].message_of()
    } else {
        joined(blockers.drop_last()) + "; "@ + blockers.last().message_of()
    }
}

fn join_blockers(blockers: &Vec<SealBlocker>) -> (s: String)
    ensures
        s@ == joined(blockers@),
{
    let mut s = String::new();
    let mut i: usize = 0;
    assert(s@ =~= joined(blockers@.take(0)));
    while i < blockers.len()
        invariant
            i <= blockers@.len(),
            s@ == joined(blockers@.take(i as int)),
        decreases blockers@.len() - i,
    {
        let ghost now = blockers@.take(i + 1);
        assert(now.drop_last() =~= blockers@.take(i as int));
        assert(now.last() == blockers@[i as int]);
        let ghost before = s@;
        if i > 0 {
            s.append("; ");
        }
        s.append(&blockers[i].to_string());
        if i == 0 {
            assert(before =~= Seq::<char>::empty());
            assert(s@ =~= joined(now));
        }
        i = i + 1;
    }
    assert(blockers@.take(blockers@.len() as int) =~= blockers@);
    s
}

/// Whether what a check found lets a template be sealed. Only force seals
/// against it.
pub fn judge_blockers(name: String, found: Result<Vec<SealBlocker>, String>, force: bool) -> (r: Result<
    (),
    Fault,
>)
    ensures
        match found {
            Ok(b) => if b@.len() == 0 || force {
                r is Ok
            } else {
                r matches Err(Fault::Blocked { name: n, why }) && n == name && why@ == joined(b@)
            },
            Err(why) => if force {
                r is Ok
            } else {
                r matches Err(Fault::NotChecked { why: w }) && w == why
            },
        },
{
    match found {
        Ok(b) => {
            if b.len() == 0 || force {
                Ok(())
            } else {
                Err(Fault::Blocked { name, why: join_blockers(&b) })
            }
        },
        Err(why) => if force {
            Ok(())
        } else {
            Err(Fault::NotChecked { why })
        },
    }
}

/// A template that is sealed as `sealed`, as its superblock shows it.
pub open spec fn sealed_as(t: FsTemplate, sealed: Uuid, layout: Option<Ext4Layout>) -> FsTemplate {
    let s = FsTemplate {
        sealed_volume_id: Some(sealed),
        raw_volume_id: None,
        state: TemplateState::Ready,
        ..t
    };
    match layout {
        None => s,
        Some(l) => FsTemplate {
            fs_uuid: Some(l.uuid),
            journal: l.has_journal,
            sixty_four_bit: l.sixty_four_bit,
            metadata_csum: l.metadata_csum,
            csum_seed: l.csum_seed,
            label: if t.label@.len() == 0 {
                l.label
            } else {
                t.label
            },
            ..s
        },
    }
}

/// Takes note that a template is sealed. Its raw volume is not its own any
/// more: the snapshot holds all its extents.
pub fn mark_sealed(
    store: &mut TemplateStore,
    id: &Uuid,
    sealed: VolumeId,
    layout: &Option<Ext4Layout>,
) -> (r: Result<(), Fault>)
    ensures
        final(store).version == old(store).version,
        ({
            let ts = old(store).templates@;
            let i = template::place_of(ts, *id);
            if i < 0 {
                r matches Err(f) && f == (Fault::UnknownId { id: *id }) && final(store).templates@ == ts
            } else {
                r is Ok && final(store).templates@ == ts.update(
                    i,
                    sealed_as(ts[i], sealed.0, *layout),
                )
            }
        }),
        ({
            let i = template::place_of(old(store).templates@, *id);
            let t = final(store).templates@[i];
            i >= 0 ==> {
                &&& t.state == TemplateState::Ready
                &&& t.sealed_volume_id == Some(sealed.0)
                &&& t.raw_volume_id is None
                &&& *layout matches Some(l) ==> t.fs_uuid == Some(l.uuid) && t.journal
                    == l.has_journal && t.sixty_four_bit == l.sixty_four_bit && t.metadata_csum
                    == l.metadata_csum && t.csum_seed == l.csum_seed
            }
        }),
{
    let i: usize = match store.position(id) {
        Some(i) => i,
        None => {
            return Err(Fault::UnknownId { id: *id });
        },
    };
    store.templates[i].sealed_volume_id = Some(sealed.0);
    store.templates[i].raw_volume_id = None;
    store.templates[i].state = TemplateState::Ready;
    match layout {
        Some(l) => {
            store.templates[i].fs_uuid = Some(l.uuid);
            store.templates[i].journal = l.has_journal;
            store.templates[i].sixty_four_bit = l.sixty_four_bit;
            store.templates[i].metadata_csum = l.metadata_csum;
            store.templates[i].csum_seed = l.csum_seed;
            if store.templates[i].label.as_str().is_empty() {
                store.templates[i].label = l.label.clone();
            }
        },
        None => {},
    }
    assert(store.templates@ =~= old(store).templates@.update(
        i as int,
        sealed_as(old(store).templates@[i as int], sealed.0, *layout),
    ));
    Ok(())
}

/// Once sealed, a template owns the sealed volume in place of the raw one, can
/// be cloned, and cannot be sealed again.
pub proof fn a_sealed_template_is_ready(
    ts: Seq<FsTemplate>,
    id: Uuid,
    sealed: Uuid,
    layout: Option<Ext4Layout>,
)
    requires
        template::place_of(ts, id) >= 0,
        ts[template::place_of(ts, id)].standing is None,
    ensures
        ({
            let i = template::place_of(ts, id);
            let after = ts.update(i, sealed_as(ts[i], sealed, layout));
            &&& after[i].owned() == seq![VolumeId(sealed)]
            &&& template::place_of(after, id) == i
            &&& seal_begins(after, id) == Err::<VolumeId, Fault>(
                Fault::AlreadySealed { name: ts[i].name },
            )
        }),
{
    let i = template::place_of(ts, id);
    let after = ts.update(i, sealed_as(ts[i], sealed, layout));
    template::lemma_place_of(ts, id);
    assert(after[i].owned() =~= seq![VolumeId(sealed)]);
    lemma_same_places(ts, after, id);
}

/// Templates with the same identities stand in the same places.
proof fn lemma_same_places(a: Seq<FsTemplate>, b: Seq<FsTemplate>, id: Uuid)
    requires
        a.len() == b.len(),
        forall|i: int| 0 <= i < a.len() ==> (#[trigger] a[i]).id == b[i].id,
    ensures
        template::place_of(a, id) == template::place_of(b, id),
    decreases a.len(),
{
    if a.len() > 0 {
        assert(a[0].id == b[0].id);
        assert forall|i: int| 0 <= i < a.drop_first().len() implies (#[trigger] a.drop_first()[i]).id
            == b.drop_first()[i].id by {
            assert(a[i + 1].id == b[i + 1].id);
        }
        lemma_same_places(a.drop_first(), b.drop_first(), id);
    }
}

/// What a clone is made of.
#[derive(Debug, Clone, Copy, PartialEq, Eq, Structural)]
pub struct CloneStart {
    pub template_id: Uuid,
    pub source: VolumeId,
    pub fs_uuid: Option<Uuid>,
    pub size_bytes: u64,
}

/// What a clone is made of, or why it is not.
pub open spec fn clone_begins(ts: Seq<FsTemplate>, key: String, name: Seq<char>) -> Result<
    CloneStart,
    Fault,
> {
    match template::at(ts, template::place_keyed(ts, key@)) {
        None => Err(Fault::UnknownKey { key }),
        Some(t) => if t.state != TemplateState::Ready {
            Err(Fault::NotReadyToClone { name: t.name, state: t.state })
        } else {
            match t.sealed_volume_id {
                None => Err(Fault::NoSnapshot { name: t.name }),
                Some(u) => if text::trimmed(name).len() == 0 {
                    Err(Fault::EmptyCloneName)
                } else {
                    Ok(
                        CloneStart {
                            template_id: t.id,
                            source: VolumeId(u),
                            fs_uuid: t.fs_uuid,
                            size_bytes: t.size_bytes,
                        },
                    )
                },
            }
        },
    }
}

/// Begins a clone: tells which snapshot to take it from.
pub fn clone_template(store: &TemplateStore, key: &String, spec: &CloneSpec) -> (r: Result<
    CloneStart,
    Fault,
>)
    ensures
        r == clone_begins(store.templates@, *key, spec.name@),
{
    let t: &FsTemplate = match store.find(key) {
        None => {
            return Err(Fault::UnknownKey { key: key.clone() });
        },
        Some(t) => t,
    };
    if t.state != TemplateState::Ready {
        return Err(Fault::NotReadyToClone { name: t.name.clone(), state: t.state });
    }
    let source: VolumeId = match t.clone_source() {
        None => {
            return Err(Fault::NoSnapshot { name: t.name.clone() });
        },
        Some(v) => v,
    };
    let trimmed = text::trim_text(&spec.name);
    if trimmed.as_str().is_empty() {
        return Err(Fault::EmptyCloneName);
    }
    Ok(CloneStart { template_id: t.id, source, fs_uuid: t.fs_uuid, size_bytes: t.size_bytes })
}

/// The size that a clone is to have, of which it has `size` already. It never
/// shrinks.
pub open spec fn grown(size: u64, want: Option<u64>) -> u64 {
    match want {
        Some(w) => if w > size {
            w
        } else {
            size
        },
        None => size,
    }
}

/// The size that a clone is to have, and whether it has to be grown to it.
pub fn clone_size(size: u64, want: Option<u64>) -> (r: (u64, bool))
    ensures
        r.0 == grown(size, want),
        r.0 >= size,
        r.1 == (r.0 > size),
{
    match want {
        Some(w) => if w > size {
            (w, true)
        } else {
            (size, false)
        },
        None => (size, false),
    }
}

/// What became of a volume that was to be deleted.
pub enum Deleted {
    Yes,
    /// There was no such volume.
    Missing { why: String },
    No { why: String },
}

/// What comes of throwing a volume away.
pub enum Discard {
    /// Try once more.
    Again,
    Done,
    /// It is still there.
    Failed { why: String },
}

/// What comes of throwing a volume away after one attempt: any failure is
/// tried again.
pub fn discard(first: &Deleted) -> (d: Discard)
    ensures
        d == (if *first is Yes {
            Discard::Done
        } else {
            Discard::Again
        }),
        d is Done <==> *first is Yes,
{
    match first {
        Deleted::Yes => Discard::Done,
        _ => Discard::Again,
    }
}

/// What comes of throwing a volume away after the second attempt: it is gone,
/// whoever deleted it; or it is still there, and both failures are told.
pub fn discard_again(first: &String, second: &Deleted) -> (d: Discard)
    ensures
        match *second {
            Deleted::Yes => d is Done,
            Deleted::Missing { why } => d is Done,
            Deleted::No { why } => d matches Discard::Failed { why: w } && w@ == first@
                + " (retry: "@ + why@ + ")"@,
        },
{
    match second {
        Deleted::Yes => Discard::Done,
        Deleted::Missing { .. } => Discard::Done,
        Deleted::No { why } => {
            let mut w = join3(first, " (retry: ", why);
            w.append(")");
            Discard::Failed { why: w }
        },
    }
}

/// What a caller is told who gets no clone. Only a volume that was thrown away
/// is said to have been.
pub fn discard_or_report(volume: Uuid, context: String, outcome: Result<(), String>) -> (f: Fault)
    ensures
        f == (match outcome {
            Ok(()) => Fault::Discarded { context },
            Err(why) => Fault::NotDiscarded { volume, context, why },
        }),
{
    match outcome {
        Ok(()) => Fault::Discarded { context },
        Err(why) => Fault::NotDiscarded { volume, context, why },
    }
}

/// A volume that is still there is always named to the caller; and none that
/// is gone is said to be leaked.
pub proof fn a_leak_is_always_told(volume: Uuid, context: String, outcome: Result<(), String>)
    ensures
        ({
            let f = match outcome {
                Ok(()) => Fault::Discarded { context },
                Err(why) => Fault::NotDiscarded { volume, context, why },
            };
            f.kind() == (ErrorKind::Leaked { volume }) <==> outcome is Err
        }),
{
}

/// What a clone's stamp failed with, as the caller is told.
pub fn stamp_context(name: &str, why: &str) -> (s: String)
    ensures
        s@ == "stamping a fresh filesystem UUID on clone "@ + name@ + ": "@ + why@,
{
    let mut s = join3("stamping a fresh filesystem UUID on clone ", name, ": ");
    s.append(why);
    s
}

/// What a clone's check failed with, as the caller is told.
pub fn check_context(name: &str, why: &str) -> (s: String)
    ensures
        s@ == "clone "@ + name@ + " did not check out ("@ + why@ + ")"@,
{
    let mut s = join3("clone ", name, " did not check out (");
    s.append(why);
    s.append(")");
    s
}

/// A store with one more clone counted, unless the clone only stands by.
pub open spec fn counted(ts: Seq<FsTemplate>, id: Uuid, standby: bool) -> Seq<FsTemplate> {
    let i = template::place_of(ts, id);
    if i < 0 || standby {
        ts
    } else {
        ts.update(i, FsTemplate { clones: (ts[i].clones + 1) as u64, ..ts[i] })
    }
}

/// Whether one more clone of a template can be counted.
pub open spec fn countable(ts: Seq<FsTemplate>, id: Uuid) -> bool {
    let i = template::place_of(ts, id);
    i >= 0 ==> ts[i].clones < u64::MAX
}

/// Ends a clone: counts it, and tells whether another is to be minted to stand
/// by.
pub fn finish_clone(store: &mut TemplateStore, id: &Uuid, standby: bool) -> (replenish: bool)
    requires
        countable(old(store).templates@, *id),
    ensures
        final(store).version == old(store).version,
        final(store).templates@ == counted(old(store).templates@, *id, standby),
        replenish == (!standby && template::place_of(old(store).templates@, *id) >= 0
            && old(store).templates@[template::place_of(old(store).templates@, *id)].standing
            is None),
{
    if standby {
        return false;
    }
    match store.position(id) {
        Some(i) => {
            let n: u64 = store.templates[i].clones;
            store.templates[i].clones = n + 1;
            assert(store.templates@ =~= counted(old(store).templates@, *id, standby));
            match store.templates[i].standing {
                Some(_) => false,
                None => true,
            }
        },
        None => false,
    }
}

/// What a clone came out as: with the identity that it was given, or the
/// template's where it was given none.
pub fn clone_result(
    start: &CloneStart,
    volume: VolumeId,
    size_bytes: u64,
    stamped: Option<Uuid>,
    verified: bool,
) -> (r: CloneResult)
    ensures
        r == (CloneResult {
            volume_id: volume,
            template_id: start.template_id,
            fs_uuid: match stamped {
                Some(u) => Some(u),
                None => start.fs_uuid,
            },
            size_bytes,
            verified,
            from_standby: false,
        }),
{
    CloneResult {
        volume_id: volume,
        template_id: start.template_id,
        fs_uuid: match stamped {
            Some(u) => Some(u),
            None => start.fs_uuid,
        },
        size_bytes,
        verified,
        from_standby: false,
    }
}

/// What is to be done so that a clone stands by.
#[derive(Debug, Clone, Copy, PartialEq, Eq, Structural)]
pub enum StandBy {
    /// Nothing: the template is not sealed, or a clone is being minted.
    Nothing,
    /// Nothing: this one stands by.
    Already(StandingClone),
    /// Mint one.
    Mint { template_id: Uuid },
}

/// What is to be done so that a clone of a template stands by.
pub open spec fn stand_by_of(t: FsTemplate) -> StandBy {
    if t.state != TemplateState::Ready {
        StandBy::Nothing
    } else {
        match t.standing {
            Some(c) => StandBy::Already(c),
            None => if t.minting {
                StandBy::Nothing
            } else {
                StandBy::Mint { template_id: t.id }
            },
        }
    }
}

/// A store in which a template's clone is being minted, or not.
pub open spec fn with_minting(ts: Seq<FsTemplate>, id: Uuid, minting: bool) -> Seq<FsTemplate> {
    let i = template::place_of(ts, id);
    if i < 0 {
        ts
    } else {
        ts.update(i, FsTemplate { minting, ..ts[i] })
    }
}

/// Sees to it that a clone of a template stands by. The right to mint one is
/// taken here, so that two who ask together mint one.
pub fn ensure_standing(store: &mut TemplateStore, key: &String) -> (r: Result<StandBy, Fault>)
    ensures
        final(store).version == old(store).version,
        ({
            let ts = old(store).templates@;
            match template::at(ts, template::place_keyed(ts, key@)) {
                None => r matches Err(f) && f == (Fault::UnknownKey { key: *key })
                    && final(store).templates@ == ts,
                Some(t) => r matches Ok(s) && s == stand_by_of(t) && final(store).templates@ == (
                match s {
                    StandBy::Mint { template_id } => with_minting(ts, template_id, true),
                    _ => ts,
                }),
            }
        }),
{
    let i: usize = match store.position_keyed(key) {
        Some(i) => i,
        None => {
            return Err(Fault::UnknownKey { key: key.clone() });
        },
    };
    if store.templates[i].state != TemplateState::Ready {
        return Ok(StandBy::Nothing);
    }
    match store.templates[i].standing {
        Some(c) => {
            return Ok(StandBy::Already(c));
        },
        None => {},
    }
    if store.templates[i].minting {
        return Ok(StandBy::Nothing);
    }
    let id: Uuid = store.templates[i].id;
    set_minting(store, &id, true);
    Ok(StandBy::Mint { template_id: id })
}

fn set_minting(store: &mut TemplateStore, id: &Uuid, minting: bool)
    ensures
        final(store).version == old(store).version,
        final(store).templates@ == with_minting(old(store).templates@, *id, minting),
{
    match store.position(id) {
        Some(i) => {
            store.templates[i].minting = minting;
            assert(store.templates@ =~= with_minting(old(store).templates@, *id, minting));
        },
        None => {},
    }
}

/// What becomes of a minted clone.
#[derive(Debug, Clone, Copy, PartialEq, Eq, Structural)]
pub enum Minted {
    /// It stands by.
    Standing(StandingClone),
    /// It is one too many, and is thrown away.
    TooMany(VolumeId),
    /// There is none.
    Nothing,
}

/// A clone, as it stands by.
pub open spec fn standing_of(c: CloneResult) -> StandingClone {
    StandingClone {
        volume_id: c.volume_id.0,
        fs_uuid: c.fs_uuid,
        size_bytes: c.size_bytes,
        verified: c.verified,
    }
}

/// What minting comes to: the store, and what becomes of the clone. One clone
/// stands by, and no second one.
pub open spec fn mint_ends(ts: Seq<FsTemplate>, id: Uuid, minted: Option<CloneResult>) -> (
    Seq<FsTemplate>,
    Minted,
) {
    let after = with_minting(ts, id, false);
    let i = template::place_of(ts, id);
    match minted {
        None => (after, Minted::Nothing),
        Some(c) => if i >= 0 && ts[i].standing is None {
            (
                after.update(
                    i,
                    FsTemplate { standing: Some(standing_of(c)), minting: false, ..ts[i] },
                ),
                Minted::Standing(standing_of(c)),
            )
        } else {
            (after, Minted::TooMany(c.volume_id))
        },
    }
}

/// Ends the minting of a clone.
pub fn finish_standing(store: &mut TemplateStore, id: &Uuid, minted: Option<CloneResult>) -> (r:
    Minted)
    ensures
        final(store).version == old(store).version,
        (final(store).templates@, r) == mint_ends(old(store).templates@, *id, minted),
{
    let ghost ts = store.templates@;
    proof {
        template::lemma_place_of(ts, *id);
        lemma_same_places(ts, with_minting(ts, *id, false), *id);
    }
    set_minting(store, id, false);
    let c: CloneResult = match minted {
        None => {
            return Minted::Nothing;
        },
        Some(c) => c,
    };
    match store.position(id) {
        Some(i) => match store.templates[i].standing {
            Some(_) => Minted::TooMany(c.volume_id),
            None => {
                let s = StandingClone {
                    volume_id: c.volume_id.0,
                    fs_uuid: c.fs_uuid,
                    size_bytes: c.size_bytes,
                    verified: c.verified,
                };
                store.templates[i].standing = Some(s);
                assert(store.templates@ =~= mint_ends(ts, *id, minted).0);
                Minted::Standing(s)
            },
        },
        None => Minted::TooMany(c.volume_id),
    }
}

/// The templates that want a clone to stand by, when the engine starts: the
/// sealed ones without one.
pub fn ensure_standing_all(store: &TemplateStore) -> (r: Vec<Uuid>)
    ensures
        r@ == wanting(store.templates@),
{
    let mut r: Vec<Uuid> = Vec::new();
    let ghost ts = store.templates@;
    let mut i: usize = 0;
    while i < store.templates.len()
        invariant
            ts == store.templates@,
            i <= ts.len(),
            r@ == wanting(ts.take(i as int)),
        decreases ts.len() - i,
    {
        assert(ts.take(i + 1).drop_last() =~= ts.take(i as int));
        assert(ts.take(i + 1).last() == ts[i as int]);
        let t: &FsTemplate = &store.templates[i];
        let none: bool = match t.standing {
            Some(_) => false,
            None => true,
        };
        if t.state == TemplateState::Ready && none {
            r.push(t.id);
        }
        i = i + 1;
    }
    assert(ts.take(ts.len() as int) =~= ts);
    r
}

/// The sealed templates of which no clone stands by, in the order of the
/// store.
pub open spec fn wanting(ts: Seq<FsTemplate>) -> Seq<Uuid>
    decreases ts.len(),
{
    if ts.len() == 0 {
        Seq::empty()
    } else {
        let rest = wanting(ts.drop_last());
        let t = ts.last();
        if t.state == TemplateState::Ready && t.standing is None {
            rest.push(t.id)
        } else {
            rest
        }
    }
}

/// How a claim is met.
#[derive(Debug, Clone, Copy, PartialEq, Eq, Structural)]
pub enum Claim {
    /// By the clone that stood by.
    Taken { template_id: Uuid, clone: StandingClone },
    /// By one that is minted now: a start that waits beats one that does not
    /// happen.
    Inline { template_id: Uuid },
}

/// A store after a claim: the clone that stood by is taken out and counted.
pub open spec fn claimed(ts: Seq<FsTemplate>, id: Uuid) -> Seq<FsTemplate> {
    let i = template::place_of(ts, id);
    if i < 0 || ts[i].standing is None {
        ts
    } else {
        ts.update(i, FsTemplate { standing: None, clones: (ts[i].clones + 1) as u64, ..ts[i] })
    }
}

/// Claims a clone of a template. What stood by is taken out of the store here,
/// so that no two claims get the same one.
pub fn claim(store: &mut TemplateStore, key: &String) -> (r: Result<Claim, Fault>)
    requires
        forall|i: int|
            0 <= i < old(store).templates@.len() ==> (#[trigger] old(store).templates@[i]).clones
                < u64::MAX,
    ensures
        final(store).version == old(store).version,
        ({
            let ts = old(store).templates@;
            match template::at(ts, template::place_keyed(ts, key@)) {
                None => r matches Err(f) && f == (Fault::UnknownKey { key: *key })
                    && final(store).templates@ == ts,
                Some(t) => {
                    let i = template::place_of(ts, t.id);
                    &&& final(store).templates@ == claimed(ts, t.id)
                    &&& if t.state != TemplateState::Ready {
                        r matches Err(f) && f == (Fault::NotReadyToClaim {
                            name: t.name,
                            state: t.state,
                        })
                    } else {
                        r matches Ok(c) && c == (match ts[i].standing {
                            Some(s) => Claim::Taken { template_id: t.id, clone: s },
                            None => Claim::Inline { template_id: t.id },
                        })
                    }
                },
            }
        }),
{
    let ghost ts = store.templates@;
    let at: usize = match store.position_keyed(key) {
        Some(i) => i,
        None => {
            return Err(Fault::UnknownKey { key: key.clone() });
        },
    };
    let id: Uuid = store.templates[at].id;
    let state: TemplateState = store.templates[at].state;
    let name: String = store.templates[at].name.clone();
    proof {
        template::lemma_place_of(ts, id);
    }
    let mut taken: Option<StandingClone> = None;
    match store.position(&id) {
        Some(i) => {
            taken = store.templates[i].standing;
            match taken {
                Some(_) => {
                    let n: u64 = store.templates[i].clones;
                    store.templates[i].standing = None;
                    store.templates[i].clones = n + 1;
                },
                None => {},
            }
            assert(store.templates@ =~= claimed(ts, id));
        },
        None => {},
    }
    if state != TemplateState::Ready {
        return Err(Fault::NotReadyToClaim { name, state });
    }
    match taken {
        Some(clone) => Ok(Claim::Taken { template_id: id, clone }),
        None => Ok(Claim::Inline { template_id: id }),
    }
}

/// What a claim of the clone that stood by came out as.
pub fn claim_result(template_id: Uuid, clone: &StandingClone, spec: &ClaimSpec) -> (r: CloneResult)
    ensures
        r == (CloneResult {
            volume_id: VolumeId(clone.volume_id),
            template_id,
            fs_uuid: clone.fs_uuid,
            size_bytes: grown(clone.size_bytes, spec.size_bytes),
            verified: clone.verified,
            from_standby: true,
        }),
{
    let (size_bytes, _) = clone_size(clone.size_bytes, spec.size_bytes);
    CloneResult {
        volume_id: VolumeId(clone.volume_id),
        template_id,
        fs_uuid: clone.fs_uuid,
        size_bytes,
        verified: clone.verified,
        from_standby: true,
    }
}

/// A clone that is claimed is never handed out again: it is out of the store,
/// and the next claim does not find it. Claiming counts one clone.
pub proof fn a_claimed_clone_is_never_handed_out_twice(ts: Seq<FsTemplate>, id: Uuid)
    requires
        template::place_of(ts, id) >= 0,
        ts[template::place_of(ts, id)].standing is Some,
        ts[template::place_of(ts, id)].clones < u64::MAX,
    ensures
        ({
            let i = template::place_of(ts, id);
            let after = claimed(ts, id);
            &&& template::place_of(after, id) == i
            &&& after[i].standing is None
            &&& after[i].clones == ts[i].clones + 1
            &&& claimed(after, id) == after
            &&& forall|j: int| 0 <= j < ts.len() && j != i ==> #[trigger] after[j] == ts[j]
        }),
{
    template::lemma_place_of(ts, id);
    lemma_same_places(ts, claimed(ts, id), id);
}

/// At most one clone of a template stands by: while one does, or while one is
/// being minted, none is minted; and one that is minted all the same does not
/// take the other's place.
pub proof fn one_clone_stands_by(ts: Seq<FsTemplate>, id: Uuid, c: CloneResult)
    requires
        template::place_of(ts, id) >= 0,
    ensures
        ({
            let i = template::place_of(ts, id);
            let (after, m) = mint_ends(ts, id, Some(c));
            &&& ts[i].standing is Some || ts[i].minting ==> !(stand_by_of(ts[i]) is Mint)
            &&& template::place_of(after, id) == i
            &&& after[i].standing is Some
            &&& ts[i].standing is Some ==> after[i].standing == ts[i].standing && m
                == Minted::TooMany(c.volume_id)
            &&& ts[i].standing is None ==> after[i].standing == Some(standing_of(c)) && m
                == Minted::Standing(standing_of(c))
            &&& !after[i].minting
        }),
{
    template::lemma_place_of(ts, id);
    lemma_same_places(ts, mint_ends(ts, id, Some(c)).0, id);
}

/// Which volumes deleting a template deletes: all that it owns, unless they
/// are to be kept.
pub fn delete(store: &TemplateStore, id: &Uuid, purge: bool) -> (r: Result<Vec<VolumeId>, Fault>)
    ensures
        match template::at(store.templates@, template::place_of(store.templates@, *id)) {
            None => r matches Err(f) && f == (Fault::UnknownId { id: *id }),
            Some(t) => r matches Ok(v) && v@ == (if purge {
                t.owned()
            } else {
                Seq::empty()
            }),
        },
        !purge ==> (r matches Ok(v) ==> v@.len() == 0),
{
    match store.get(id) {
        None => Err(Fault::UnknownId { id: *id }),
        Some(t) => if purge {
            Ok(t.volumes())
        } else {
            Ok(Vec::new())
        },
    }
}

/// A volume that looks as if it belonged to a template, and does not.
pub struct OrphanVolume {
    pub volume_id: Uuid,
    pub name: String,
    pub size_bytes: u64,
    pub allocated_bytes: u64,
}

/// Whether some template owns a volume.
pub open spec fn owned_by_some(ts: Seq<FsTemplate>, volume: Uuid) -> bool {
    exists|i: int| 0 <= i < ts.len() && (#[trigger] ts[i]).owned().contains(VolumeId(volume))
}

/// Whether a volume is an orphan: named like a template's, and neither owned
/// by a template nor in use.
pub open spec fn is_orphan(ts: Seq<FsTemplate>, in_use: Seq<Uuid>, v: OrphanVolume) -> bool {
    &&& VOLUME_PREFIX@.len() <= v.name@.len()
    &&& v.name@.take(VOLUME_PREFIX@.len() as int) == VOLUME_PREFIX@
    &&& !owned_by_some(ts, v.volume_id)
    &&& !in_use.contains(v.volume_id)
}

/// The orphans among the volumes, in order.
pub open spec fn orphans_in(
    ts: Seq<FsTemplate>,
    in_use: Seq<Uuid>,
    volumes: Seq<OrphanVolume>,
) -> Seq<OrphanVolume>
    decreases volumes.len(),
{
    if volumes.len() == 0 {
        Seq::empty()
    } else {
        let rest = orphans_in(ts, in_use, volumes.drop_last());
        if is_orphan(ts, in_use, volumes.last()) {
            rest.push(volumes.last())
        } else {
            rest
        }
    }
}

fn owns(t: &FsTemplate, volume: Uuid) -> (yes: bool)
    ensures
        yes == t.owned().contains(VolumeId(volume)),
{
    let v = t.volumes();
    let mut i: usize = 0;
    while i < v.len()
        invariant
            i <= v@.len(),
            v@ == t.owned(),
            forall|j: int| 0 <= j < i ==> (#[trigger] v@[j]) != VolumeId(volume),
        decreases v@.len() - i,
    {
        if v[i].0 == volume {
            assert(v@[i as int] == VolumeId(volume));
            return true;
        }
        i = i + 1;
    }
    false
}

fn some_owns(store: &TemplateStore, volume: Uuid) -> (yes: bool)
    ensures
        yes == owned_by_some(store.templates@, volume),
{
    let mut i: usize = 0;
    while i < store.templates.len()
        invariant
            i <= store.templates@.len(),
            forall|j: int|
                0 <= j < i ==> !(#[trigger] store.templates@[j]).owned().contains(
                    VolumeId(volume),
                ),
        decreases store.templates@.len() - i,
    {
        if owns(&store.templates[i], volume) {
            return true;
        }
        i = i + 1;
    }
    false
}

fn holds(v: &Vec<Uuid>, id: Uuid) -> (yes: bool)
    ensures
        yes == v@.contains(id),
{
    let mut i: usize = 0;
    while i < v.len()
        invariant
            i <= v@.len(),
            forall|j: int| 0 <= j < i ==> v@[j] != id,
        decreases v@.len() - i,
    {
        if v[i] == id {
            assert(v@[i as int] == id);
            return true;
        }
        i = i + 1;
    }
    false
}

/// The orphans among all volumes: named like a template's, owned by none, and
/// not in use.
pub fn orphans(store: &TemplateStore, volumes: Vec<OrphanVolume>, in_use: &Vec<Uuid>) -> (r: Vec<
    OrphanVolume,
>)
    ensures
        r@ == orphans_in(store.templates@, in_use@, volumes@),
{
    let ghost all = volumes@;
    let mut left = volumes;
    let mut backwards: Vec<OrphanVolume> = Vec::new();
    proof {
        assert(all.skip(all.len() as int) =~= Seq::<OrphanVolume>::empty());
    }
    let mut r: Vec<OrphanVolume> = Vec::new();
    while left.len() > 0
        invariant
            left@.len() <= all.len(),
            left@ == all.take(left@.len() as int),
            backwards@ == all.skip(left@.len() as int).reverse(),
        decreases left@.len(),
    {
        let ghost n = left@.len() as int;
        let ghost before = backwards@;
        match left.pop() {
            Some(v) => {
                assert(v == all[n - 1]);
                backwards.push(v);
                assert(left@ =~= all.take(n - 1));
                assert(backwards@ =~= all.skip(n - 1).reverse());
            },
            None => {},
        }
    }
    let ghost mut done: int = 0;
    assert(backwards@ =~= all.skip(0).reverse());
    assert(r@ =~= orphans_in(store.templates@, in_use@, all.take(0)));
    while backwards.len() > 0
        invariant
            0 <= done <= all.len(),
            backwards@ == all.skip(done).reverse(),
            r@ == orphans_in(store.templates@, in_use@, all.take(done)),
        decreases backwards@.len(),
    {
        match backwards.pop() {
            Some(v) => {
                assert(v == all[done]);
                assert(backwards@ =~= all.skip(done + 1).reverse());
                assert(all.take(done + 1).drop_last() =~= all.take(done));
                assert(all.take(done + 1).last() == v);
                proof {
                    done = done + 1;
                }
                let name = text::to_chars(&v.name);
                let named: bool = match text::strip_prefix(&name, VOLUME_PREFIX) {
                    Some(_) => true,
                    None => false,
                };
                if named && !some_owns(store, v.volume_id) && !holds(in_use, v.volume_id) {
                    r.push(v);
                }
            },
            None => {},
        }
    }
    assert(all.skip(done).len() == 0);
    assert(all.take(done) =~= all);
    r
}

/// What is reported as an orphan is one of the volumes, is owned by no
/// template and is not in use; and every such volume with a template's name is
/// reported.
pub proof fn orphans_are_nobodys(
    ts: Seq<FsTemplate>,
    in_use: Seq<Uuid>,
    volumes: Seq<OrphanVolume>,
    v: OrphanVolume,
)
    ensures
        orphans_in(ts, in_use, volumes).contains(v) <==> volumes.contains(v) && is_orphan(
            ts,
            in_use,
            v,
        ),
    decreases volumes.len(),
{
    if volumes.len() > 0 {
        let before = volumes.drop_last();
        let rest = orphans_in(ts, in_use, before);
        let all = orphans_in(ts, in_use, volumes);
        orphans_are_nobodys(ts, in_use, before, v);
        if rest.contains(v) {
            let k = rest.index_of(v);
            assert(all[k] == v);
            let i = before.index_of(v);
            assert(volumes[i] == v);
        }
        if all.contains(v) && !rest.contains(v) {
            let k = all.index_of(v);
            assert(k == rest.len()) by {
                if k < rest.len() {
                    assert(rest[k] == v);
                }
            }
            assert(volumes.last() == v);
        }
        if volumes.contains(v) && is_orphan(ts, in_use, v) {
            let i = volumes.index_of(v);
            if i < before.len() {
                assert(before[i] == v);
            } else {
                assert(all.last() == v);
            }
        }
    }
}

} // verus!
