//! Templates of filesystems: made once, cloned ever after.
//!
//! A template is a volume with a filesystem on it, sealed as a snapshot. A
//! clone of it shares its extents and starts at next to no allocation. One
//! clone per template is minted ahead of time and stands by to be claimed.
use crate::fs::ext4::FsProfile;
use crate::fs::files::SeedFile;
use crate::ids;
use crate::ids::{Uuid, VolumeId};
use crate::text;
use vstd::prelude::*;

verus! {

/// Name of the file that templates are kept in.
pub const TEMPLATES_FILE: &'static str = "fstemplates.json";

/// What the names of all volumes that templates make begin with.
pub const VOLUME_PREFIX: &'static str = "fstemplate-";

/// Filesystems that the engine can make.
#[derive(Debug, Clone, Copy, PartialEq, Eq, Structural)]
pub enum FsKind {
    Ext2,
    Ext3,
    Ext4,
}

impl Default for FsKind {
    fn default() -> (k: Self)
        ensures
            k == FsKind::Ext4,
    {
        FsKind::Ext4
    }
}

/// A letter in lower case; only the letters of ASCII change.
pub open spec fn lower(c: char) -> char {
    if 'A' <= c && c <= 'Z' {
        (c as u32 + 32) as u8 as char
    } else {
        c
    }
}

/// A text in lower case; only the letters of ASCII change.
pub open spec fn lowered(s: Seq<char>) -> Seq<char> {
    s.map_values(|c: char| lower(c))
}

fn to_lower(v: &[char]) -> (r: String)
    ensures
        r@ == lowered(v@),
{
    let mut r = String::new();
    let n: usize = v.len();
    let mut i: usize = 0;
    while i < n
        invariant
            i <= n == v@.len(),
            r@ == lowered(v@.take(i as int)),
        decreases n - i,
    {
        let c: char = v[i];
        let l: char = if 'A' <= c && c <= 'Z' {
            (c as u32 + 32) as u8 as char
        } else {
            c
        };
        r.push(l);
        i = i + 1;
        assert(r@ =~= lowered(v@.take(i as int)));
    }
    assert(v@.take(n as int) =~= v@);
    r
}

impl FsKind {
    /// The kind's name.
    pub open spec fn name_of(self) -> Seq<char> {
        match self {
            FsKind::Ext2 => "ext2"@,
            FsKind::Ext3 => "ext3"@,
            FsKind::Ext4 => "ext4"@,
        }
    }

    /// The kind's name.
    pub fn as_str(&self) -> (s: &'static str)
        ensures
            s@ == self.name_of(),
    {
        match self {
            FsKind::Ext2 => "ext2",
            FsKind::Ext3 => "ext3",
            FsKind::Ext4 => "ext4",
        }
    }

    /// What the formatter is asked for.
    pub open spec fn profile_of(self) -> FsProfile {
        match self {
            FsKind::Ext2 => FsProfile::Ext2,
            FsKind::Ext3 => FsProfile::Ext3,
            FsKind::Ext4 => FsProfile::Ext4,
        }
    }

    /// What the formatter is asked for.
    pub fn profile(&self) -> (p: FsProfile)
        ensures
            p == self.profile_of(),
            p.name_of() == self.name_of(),
    {
        match self {
            FsKind::Ext2 => FsProfile::Ext2,
            FsKind::Ext3 => FsProfile::Ext3,
            FsKind::Ext4 => FsProfile::Ext4,
        }
    }

    /// The kind of a name, white space around it and the case of its letters
    /// left aside; or why there is none.
    pub fn from_str(s: &str) -> (r: Result<FsKind, String>)
        ensures
            ({
                let name = lowered(text::trimmed(s@));
                match r {
                    Ok(k) => name == k.name_of(),
                    Err(e) => name != "ext2"@ && name != "ext3"@ && name != "ext4"@ && e@
                        == "unsupported filesystem '"@ + name
                        + "' (this engine writes ext2, ext3 and ext4)"@,
                }
            }),
    {
        let name = to_lower(&text::to_chars(&text::trim_text(s)));
        if text::same_text(&name, "ext2") {
            return Ok(FsKind::Ext2);
        }
        if text::same_text(&name, "ext3") {
            return Ok(FsKind::Ext3);
        }
        if text::same_text(&name, "ext4") {
            return Ok(FsKind::Ext4);
        }
        let mut e = "unsupported filesystem '".to_owned();
        e.append(&name);
        e.append("' (this engine writes ext2, ext3 and ext4)");
        Err(e)
    }
}

/// Where a template stands.
#[derive(Debug, Clone, Copy, PartialEq, Eq, Structural)]
pub enum TemplateState {
    /// A raw volume that waits for a filesystem.
    AwaitingFormat,
    /// A clone of a parent template, that waits for content of its own.
    AwaitingSeed,
    /// Sealed, and safe to clone.
    Ready,
}

impl TemplateState {
    /// The state's name.
    pub open spec fn name_of(self) -> Seq<char> {
        match self {
            TemplateState::AwaitingFormat => "awaiting_format"@,
            TemplateState::AwaitingSeed => "awaiting_seed"@,
            TemplateState::Ready => "ready"@,
        }
    }

    /// The state's name.
    pub fn as_str(&self) -> (s: &'static str)
        ensures
            s@ == self.name_of(),
    {
        match self {
            TemplateState::AwaitingFormat => "awaiting_format",
            TemplateState::AwaitingSeed => "awaiting_seed",
            TemplateState::Ready => "ready",
        }
    }
}

/// What to build.
pub struct TemplateSpec {
    pub name: String,
    pub fs: FsKind,
    pub size_bytes: u64,
    /// A journal or none; nothing follows the kind.
    pub journal: Option<bool>,
    pub label: String,
    /// A list of features over those of the kind.
    pub features: Option<String>,
    /// Files to write before the template is sealed.
    pub seed: Vec<SeedFile>,
    /// Format and seal at once.
    pub format_in_core: bool,
    /// Build on another template's filesystem.
    pub parent: Option<String>,
}

impl TemplateSpec {
    /// An ext4 template of this name and size.
    pub fn new(name: String, size_bytes: u64) -> (s: Self)
        ensures
            s.name == name,
            s.fs == FsKind::Ext4,
            s.size_bytes == size_bytes,
            s.journal is None,
            s.label@ == Seq::<char>::empty(),
            s.features is None,
            s.seed@ == Seq::<SeedFile>::empty(),
            s.format_in_core,
            s.parent is None,
    {
        let s = TemplateSpec {
            name,
            fs: FsKind::Ext4,
            size_bytes,
            journal: None,
            label: String::new(),
            features: None,
            seed: Vec::new(),
            format_in_core: true,
            parent: None,
        };
        assert(s.label@ =~= Seq::<char>::empty());
        s
    }

    /// The same on top of another template. There is nothing to format then:
    /// the filesystem comes with the clone.
    pub fn from_parent(self, parent: String) -> (s: Self)
        ensures
            s == (TemplateSpec { parent: Some(parent), format_in_core: false, ..self }),
    {
        let mut s = self;
        s.parent = Some(parent);
        s.format_in_core = false;
        s
    }
}

/// A clone that was minted ahead of time and waits to be claimed.
#[derive(Debug, Clone, Copy, PartialEq, Eq, Structural)]
pub struct StandingClone {
    pub volume_id: Uuid,
    /// The identity that it was given.
    pub fs_uuid: Option<Uuid>,
    pub size_bytes: u64,
    /// Whether it was checked when it was minted.
    pub verified: bool,
}

/// A template.
pub struct FsTemplate {
    pub id: Uuid,
    pub name: String,
    pub fs: FsKind,
    pub size_bytes: u64,
    pub journal: bool,
    pub label: String,
    pub features: Option<String>,
    pub sixty_four_bit: bool,
    pub metadata_csum: bool,
    pub csum_seed: bool,
    /// The UUID of the template's own filesystem. Clones never keep it.
    pub fs_uuid: Option<Uuid>,
    pub state: TemplateState,
    /// The volume that is formatted, while there is one.
    pub raw_volume_id: Option<Uuid>,
    /// The snapshot that clones descend from.
    pub sealed_volume_id: Option<Uuid>,
    /// How many clones went somewhere.
    pub clones: u64,
    /// Paths of the files that were written into it.
    pub seeded: Vec<String>,
    /// The clone that stands by, one and no more.
    pub standing: Option<StandingClone>,
    /// A clone to stand by is being minted.
    pub minting: bool,
    /// The template that this one was built on.
    pub parent_id: Option<Uuid>,
}

/// `v`, followed by a volume where there is one.
pub open spec fn and_volume(v: Seq<VolumeId>, id: Option<Uuid>) -> Seq<VolumeId> {
    match id {
        Some(u) => v.push(VolumeId(u)),
        None => v,
    }
}

impl FsTemplate {
    /// The volume of the clone that stands by.
    pub open spec fn standing_volume(self) -> Option<Uuid> {
        match self.standing {
            Some(c) => Some(c.volume_id),
            None => None,
        }
    }

    /// Every volume that the template owns: the sealed one, the raw one, and
    /// the clone that stands by, as far as there are.
    pub open spec fn owned(self) -> Seq<VolumeId> {
        and_volume(
            and_volume(and_volume(Seq::empty(), self.sealed_volume_id), self.raw_volume_id),
            self.standing_volume(),
        )
    }

    /// The volume that clones are taken from: the sealed one.
    pub fn clone_source(&self) -> (r: Option<VolumeId>)
        ensures
            r == (match self.sealed_volume_id {
                Some(u) => Some(VolumeId(u)),
                None => None,
            }),
    {
        match self.sealed_volume_id {
            Some(u) => Some(VolumeId(u)),
            None => None,
        }
    }

    /// Every volume that the template owns.
    pub fn volumes(&self) -> (v: Vec<VolumeId>)
        ensures
            v@ == self.owned(),
    {
        let mut v: Vec<VolumeId> = Vec::new();
        match self.sealed_volume_id {
            Some(u) => {
                v.push(VolumeId(u));
            },
            None => {},
        }
        match self.raw_volume_id {
            Some(u) => {
                v.push(VolumeId(u));
            },
            None => {},
        }
        match self.standing {
            Some(c) => {
                v.push(VolumeId(c.volume_id));
            },
            None => {},
        }
        v
    }

    /// Whether a start of this template has to wait for a clone: it is sealed,
    /// none stands by, and none is being minted.
    pub open spec fn lacks_clone(self) -> bool {
        self.state == TemplateState::Ready && self.standing is None && !self.minting
    }
}

/// What can go wrong with templates. Each kind is answered in its own way.
#[derive(Debug)]
pub enum TemplateError {
    /// The name is taken.
    Exists(String),
    NotFound(String),
    /// Not in this state.
    Conflict(String),
    /// A volume that had to go could not be thrown away. It is named, because
    /// it carries a name that somebody else chose, and nothing finds it.
    Leaked { volume_id: Uuid, message: String },
    /// The filesystem is in no state that can be mounted.
    NotSealable(String),
    Invalid(String),
    Internal(String),
}

impl TemplateError {
    /// The error in words.
    pub open spec fn message_of(self) -> Seq<char> {
        match self {
            TemplateError::Exists(m) => m@,
            TemplateError::NotFound(m) => m@,
            TemplateError::Conflict(m) => m@,
            TemplateError::NotSealable(m) => m@,
            TemplateError::Invalid(m) => m@,
            TemplateError::Internal(m) => m@,
            TemplateError::Leaked { volume_id, message } => message@ + "; volume "@
                + volume_id.text() + " is leaked"@,
        }
    }

    /// The error in words.
    pub fn to_string(&self) -> (s: String)
        ensures
            s@ == self.message_of(),
    {
        match self {
            TemplateError::Exists(m) => m.clone(),
            TemplateError::NotFound(m) => m.clone(),
            TemplateError::Conflict(m) => m.clone(),
            TemplateError::NotSealable(m) => m.clone(),
            TemplateError::Invalid(m) => m.clone(),
            TemplateError::Internal(m) => m.clone(),
            TemplateError::Leaked { volume_id, message } => {
                let mut s = message.clone();
                s.append("; volume ");
                s.append(&volume_id.to_string());
                s.append(" is leaked");
                s
            },
        }
    }
}

/// Where the template of this identity is, or -1: the first one that has it.
pub open spec fn place_of(ts: Seq<FsTemplate>, id: Uuid) -> int
    decreases ts.len(),
{
    if ts.len() == 0 {
        -1
    } else if ts[0].id == id {
        0
    } else {
        let i = place_of(ts.drop_first(), id);
        if i < 0 {
            -1
        } else {
            i + 1
        }
    }
}

/// Where the template of this name is, or -1: the first one that has it.
pub open spec fn place_named(ts: Seq<FsTemplate>, name: Seq<char>) -> int
    decreases ts.len(),
{
    if ts.len() == 0 {
        -1
    } else if ts[0].name@ == name {
        0
    } else {
        let i = place_named(ts.drop_first(), name);
        if i < 0 {
            -1
        } else {
            i + 1
        }
    }
}

/// Where the template of this key is, or -1: by identity where the key is one
/// that some template has, and else by name.
pub open spec fn place_keyed(ts: Seq<FsTemplate>, key: Seq<char>) -> int {
    match ids::uuid_parsed(key) {
        Some(bits) => if place_of(ts, Uuid { bits }) >= 0 {
            place_of(ts, Uuid { bits })
        } else {
            place_named(ts, key)
        },
        None => place_named(ts, key),
    }
}

/// `place_of` is a place of that identity, and there is none where it is -1.
pub proof fn lemma_place_of(ts: Seq<FsTemplate>, id: Uuid)
    ensures
        -1 <= place_of(ts, id) < ts.len(),
        place_of(ts, id) >= 0 ==> ts[place_of(ts, id)].id == id,
        place_of(ts, id) == -1 ==> forall|i: int| 0 <= i < ts.len() ==> (#[trigger] ts[i]).id != id,
    decreases ts.len(),
{
    if ts.len() > 0 && ts[0].id != id {
        let rest = ts.drop_first();
        lemma_place_of(rest, id);
        if place_of(ts, id) == -1 {
            assert forall|i: int| 0 <= i < ts.len() implies (#[trigger] ts[i]).id != id by {
                if i > 0 {
                    assert(rest[i - 1] == ts[i]);
                }
            }
        }
    }
}

/// `place_named` is a place of that name, and there is none where it is -1.
pub proof fn lemma_place_named(ts: Seq<FsTemplate>, name: Seq<char>)
    ensures
        -1 <= place_named(ts, name) < ts.len(),
        place_named(ts, name) >= 0 ==> ts[place_named(ts, name)].name@ == name,
        place_named(ts, name) == -1 ==> forall|i: int|
            0 <= i < ts.len() ==> (#[trigger] ts[i]).name@ != name,
    decreases ts.len(),
{
    if ts.len() > 0 && ts[0].name@ != name {
        let rest = ts.drop_first();
        lemma_place_named(rest, name);
        if place_named(ts, name) == -1 {
            assert forall|i: int| 0 <= i < ts.len() implies (#[trigger] ts[i]).name@ != name by {
                if i > 0 {
                    assert(rest[i - 1] == ts[i]);
                }
            }
        }
    }
}

/// All templates.
pub struct TemplateStore {
    pub version: u32,
    pub templates: Vec<FsTemplate>,
}

impl Default for TemplateStore {
    fn default() -> (s: Self)
        ensures
            s.version == 1,
            s.templates@ == Seq::<FsTemplate>::empty(),
    {
        TemplateStore { version: 1, templates: Vec::new() }
    }
}

/// The template at a place, if it is one.
pub open spec fn at(ts: Seq<FsTemplate>, i: int) -> Option<FsTemplate> {
    if 0 <= i < ts.len() {
        Some(ts[i])
    } else {
        None
    }
}

impl TemplateStore {
    /// A store without templates.
    pub fn in_memory() -> (s: Self)
        ensures
            s.version == 1,
            s.templates@ == Seq::<FsTemplate>::empty(),
    {
        TemplateStore { version: 1, templates: Vec::new() }
    }

    /// Where the template of this identity is.
    pub fn position(&self, id: &Uuid) -> (r: Option<usize>)
        ensures
            match r {
                Some(i) => i == place_of(self.templates@, *id) && i < self.templates@.len()
                    && self.templates@[i as int].id == *id,
                None => place_of(self.templates@, *id) == -1,
            },
    {
        let ghost ts = self.templates@;
        let mut i: usize = 0;
        assert(ts.skip(0) =~= ts);
        while i < self.templates.len()
            invariant
                ts == self.templates@,
                i <= ts.len(),
                place_of(ts, *id) == (if place_of(ts.skip(i as int), *id) < 0 {
                    -1
                } else {
                    place_of(ts.skip(i as int), *id) + i
                }),
            decreases ts.len() - i,
        {
            assert(ts.skip(i as int)[0] == ts[i as int]);
            assert(ts.skip(i as int).drop_first() =~= ts.skip(i + 1));
            if self.templates[i].id == *id {
                return Some(i);
            }
            i = i + 1;
        }
        None
    }

    /// Where the template of this name is.
    pub fn position_named(&self, name: &str) -> (r: Option<usize>)
        ensures
            match r {
                Some(i) => i == place_named(self.templates@, name@) && i < self.templates@.len()
                    && self.templates@[i as int].name@ == name@,
                None => place_named(self.templates@, name@) == -1,
            },
    {
        let ghost ts = self.templates@;
        let mut i: usize = 0;
        assert(ts.skip(0) =~= ts);
        while i < self.templates.len()
            invariant
                ts == self.templates@,
                i <= ts.len(),
                place_named(ts, name@) == (if place_named(ts.skip(i as int), name@) < 0 {
                    -1
                } else {
                    place_named(ts.skip(i as int), name@) + i
                }),
            decreases ts.len() - i,
        {
            assert(ts.skip(i as int)[0] == ts[i as int]);
            assert(ts.skip(i as int).drop_first() =~= ts.skip(i + 1));
            if text::same_text(&self.templates[i].name, name) {
                return Some(i);
            }
            i = i + 1;
        }
        None
    }

    /// Where the template of this key is, by identity or by name.
    pub fn position_keyed(&self, key: &str) -> (r: Option<usize>)
        ensures
            match r {
                Some(i) => i == place_keyed(self.templates@, key@) && i < self.templates@.len(),
                None => place_keyed(self.templates@, key@) == -1,
            },
            forall|u: Uuid|
                key@ == #[trigger] u.text() && place_of(self.templates@, u) >= 0 ==> (r
                    matches Some(i) && self.templates@[i as int].id == u),
    {
        match Uuid::parse(key) {
            Some(id) => match self.position(&id) {
                Some(i) => Some(i),
                None => self.position_named(key),
            },
            None => self.position_named(key),
        }
    }

    /// The template of this identity.
    pub fn get(&self, id: &Uuid) -> (r: Option<&FsTemplate>)
        ensures
            match r {
                Some(t) => at(self.templates@, place_of(self.templates@, *id)) == Some(*t),
                None => at(self.templates@, place_of(self.templates@, *id)) is None,
            },
    {
        match self.position(id) {
            Some(i) => Some(&self.templates[i]),
            None => None,
        }
    }

    /// The template of this identity, to be changed in place.
    pub fn get_mut(&mut self, id: &Uuid) -> (r: Option<&mut FsTemplate>)
        ensures
            final(self).version == old(self).version,
            ({
                let ts = old(self).templates@;
                let i = place_of(ts, *id);
                match r {
                    Some(t) => at(ts, i) == Some(*t) && final(self).templates@ == ts.update(
                        i,
                        *final(t),
                    ),
                    None => at(ts, i) is None && final(self).templates@ == ts,
                }
            }),
    {
        match self.position(id) {
            Some(i) => Some(&mut self.templates[i]),
            None => None,
        }
    }

    /// The template of this identity, or else of this name. An identity is
    /// found under its hyphenated form.
    pub fn find(&self, key: &str) -> (r: Option<&FsTemplate>)
        ensures
            match r {
                Some(t) => at(self.templates@, place_keyed(self.templates@, key@)) == Some(*t),
                None => at(self.templates@, place_keyed(self.templates@, key@)) is None,
            },
            forall|u: Uuid|
                key@ == #[trigger] u.text() && place_of(self.templates@, u) >= 0 ==> (r
                    matches Some(t) && t.id == u),
    {
        match self.position_keyed(key) {
            Some(i) => Some(&self.templates[i]),
            None => None,
        }
    }

    /// The template of this name.
    pub fn by_name(&self, name: &str) -> (r: Option<&FsTemplate>)
        ensures
            match r {
                Some(t) => at(self.templates@, place_named(self.templates@, name@)) == Some(*t),
                None => at(self.templates@, place_named(self.templates@, name@)) is None,
            },
    {
        match self.position_named(name) {
            Some(i) => Some(&self.templates[i]),
            None => None,
        }
    }

    /// Adds a template.
    pub fn insert(&mut self, t: FsTemplate)
        ensures
            final(self).templates@ == old(self).templates@.push(t),
            final(self).version == old(self).version,
    {
        self.templates.push(t);
    }

    /// Takes the template of this identity out.
    pub fn remove(&mut self, id: &Uuid) -> (r: Option<FsTemplate>)
        ensures
            final(self).version == old(self).version,
            ({
                let i = place_of(old(self).templates@, *id);
                match r {
                    Some(t) => i >= 0 && t == old(self).templates@[i] && final(self).templates@
                        == old(self).templates@.remove(i),
                    None => i == -1 && final(self).templates@ == old(self).templates@,
                }
            }),
    {
        match self.position(id) {
            Some(i) => Some(self.templates.remove(i)),
            None => None,
        }
    }
}

/// A template is found under its name, where the name cannot be taken for an
/// identity.
pub proof fn a_template_is_found_by_its_name(ts: Seq<FsTemplate>, name: Seq<char>)
    ensures
        ids::uuid_parsed(name) is None && place_named(ts, name) >= 0 ==> ts[place_keyed(
            ts,
            name,
        )].name@ == name,
        ids::uuid_parsed(name) is None && place_named(ts, name) == -1 ==> place_keyed(ts, name)
            == -1,
{
    lemma_place_named(ts, name);
}

/// What of a template's fast path is known.
pub struct StandingStatus {
    pub template_id: Uuid,
    pub name: String,
    pub state: TemplateState,
    /// The clone that waits.
    pub standing: Option<Uuid>,
    pub minting: bool,
    /// The next start has to pay for a clone.
    pub needs_clone: bool,
}

/// Whether a status is that of a template.
pub open spec fn status_of(s: StandingStatus, t: FsTemplate) -> bool {
    &&& s.template_id == t.id
    &&& s.name@ == t.name@
    &&& s.state == t.state
    &&& s.standing == t.standing_volume()
    &&& s.minting == t.minting
    &&& s.needs_clone == t.lacks_clone()
}

fn status(t: &FsTemplate) -> (s: StandingStatus)
    ensures
        status_of(s, *t),
{
    let (standing, none): (Option<Uuid>, bool) = match t.standing {
        Some(c) => (Some(c.volume_id), false),
        None => (None, true),
    };
    StandingStatus {
        template_id: t.id,
        name: t.name.clone(),
        state: t.state,
        standing,
        minting: t.minting,
        needs_clone: t.state == TemplateState::Ready && none && !t.minting,
    }
}

/// Which templates would make a start wait, and which would not.
pub fn standing_report(store: &TemplateStore) -> (r: Vec<StandingStatus>)
    ensures
        r@.len() == store.templates@.len(),
        forall|i: int| 0 <= i < r@.len() ==> status_of(#[trigger] r@[i], store.templates@[i]),
{
    let mut r: Vec<StandingStatus> = Vec::new();
    let mut i: usize = 0;
    while i < store.templates.len()
        invariant
            i <= store.templates@.len(),
            r@.len() == i,
            forall|j: int| 0 <= j < i ==> status_of(#[trigger] r@[j], store.templates@[j]),
        decreases store.templates@.len() - i,
    {
        r.push(status(&store.templates[i]));
        i = i + 1;
    }
    r
}

/// The places of the templates that lack a clone, among the first `n`.
pub open spec fn lacking(ts: Seq<FsTemplate>, n: nat) -> Seq<int>
    decreases n,
{
    if n == 0 {
        Seq::empty()
    } else {
        let before = lacking(ts, (n - 1) as nat);
        if ts[n - 1].lacks_clone() {
            before.push(n - 1)
        } else {
            before
        }
    }
}

/// Just the ones that would make a start wait, in the order of the store.
pub fn standing_needed(store: &TemplateStore) -> (r: Vec<StandingStatus>)
    ensures
        ({
            let which = lacking(store.templates@, store.templates@.len());
            &&& r@.len() == which.len()
            &&& forall|k: int|
                0 <= k < which.len() ==> status_of(
                    #[trigger] r@[k],
                    store.templates@[which[k]],
                )
        }),
{
    let mut r: Vec<StandingStatus> = Vec::new();
    let ghost ts = store.templates@;
    let mut i: usize = 0;
    while i < store.templates.len()
        invariant
            i <= ts.len(),
            ts == store.templates@,
            r@.len() == lacking(ts, i as nat).len(),
            forall|k: int|
                0 <= k < r@.len() ==> status_of(#[trigger] r@[k], ts[lacking(ts, i as nat)[k]]),
        decreases ts.len() - i,
    {
        let s = status(&store.templates[i]);
        i = i + 1;
        if s.needs_clone {
            r.push(s);
        }
    }
    r
}

/// What a clone is to look like.
pub struct CloneSpec {
    pub name: String,
    /// Grow the clone to this size. It never shrinks.
    pub size_bytes: Option<u64>,
    /// Give the clone a UUID of its own.
    pub stamp_uuid: bool,
    /// Rewrite the backup superblocks too.
    pub stamp_backups: bool,
    pub label: Option<String>,
    /// It is minted to stand by, and goes nowhere yet.
    pub standby: bool,
    /// Check the clone before it is handed out.
    pub verify: bool,
}

impl CloneSpec {
    /// A clone with an identity of its own, and checked.
    pub fn new(name: String) -> (s: Self)
        ensures
            s == (CloneSpec {
                name,
                size_bytes: None,
                stamp_uuid: true,
                stamp_backups: false,
                label: None,
                standby: false,
                verify: true,
            }),
    {
        CloneSpec {
            name,
            size_bytes: None,
            stamp_uuid: true,
            stamp_backups: false,
            label: None,
            standby: false,
            verify: true,
        }
    }
}

/// What a clone came out as.
#[derive(Debug, Clone, Copy, PartialEq, Eq, Structural)]
pub struct CloneResult {
    pub volume_id: VolumeId,
    pub template_id: Uuid,
    pub fs_uuid: Option<Uuid>,
    pub size_bytes: u64,
    /// Whether it was checked before it was handed out.
    pub verified: bool,
    /// Whether it stood by, or was minted on the spot.
    pub from_standby: bool,
}

/// What a claim wants beyond what a minted clone is.
pub struct ClaimSpec {
    /// Grow the clone to this size. It never shrinks.
    pub size_bytes: Option<u64>,
    pub label: Option<String>,
}

impl Default for ClaimSpec {
    fn default() -> (s: Self)
        ensures
            s == (ClaimSpec { size_bytes: None, label: None }),
    {
        ClaimSpec { size_bytes: None, label: None }
    }
}

} // verus!
