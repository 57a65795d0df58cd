use stormblock::fs::claiming::{
    inline_spec, standing_spec, ClaimAction, ClaimEvent, ClaimRun, ClaimState, StandAction, StandEvent,
    StandRun, StandState,
};
use stormblock::fs::cloning::{CloneAction, CloneEvent, CloneRun, CloneState};
use stormblock::fs::creating::{format_params, CreateAction, CreateEvent, CreateRun, CreateState};
use stormblock::fs::ext4::{
    self, layout_of, seal_blockers, Problem, SealBlocker, Superblock,
};
use stormblock::fs::files::{self, SeedFile};
use stormblock::fs::lifecycle::{
    self, claim, claim_name, claim_result, clone_size, delete, discard, discard_again,
    discard_or_report, ensure_standing, ensure_standing_all, finish_standing, judge_blockers,
    lost_race, new_template, orphans, raw_name, seal, sealed_name, standby_name, Claim, Deleted, Discard,
    Fault, Minted, OrphanVolume, StandBy,
};
use stormblock::fs::sealing::{SealAction, SealEvent, SealRun, SealState};
use stormblock::fs::template::{
    standing_needed, standing_report, ClaimSpec, CloneResult, CloneSpec, FsKind, FsTemplate,
    StandingClone, TemplateError, TemplateSpec, TemplateState, TemplateStore, VOLUME_PREFIX,
};
use stormblock::ids::{Uuid, VolumeId};

/// A volume of the node: its name, its size and what filesystem is on it.
struct Volume {
    id: Uuid,
    name: String,
    size: u64,
    fs: Option<Superblock>,
    files: Vec<(String, Vec<u8>)>,
}

/// A node with its volumes and its templates. Volumes share nothing here: a
/// clone is a copy.
struct Node {
    store: TemplateStore,
    volumes: Vec<Volume>,
    /// What fails, if anything does.
    trouble: String,
}

fn copied(sb: &Superblock) -> Superblock {
    Superblock { label: sb.label.clone(), ..*sb }
}

impl Node {
    fn new() -> Node {
        Node { store: TemplateStore::in_memory(), volumes: vec![], trouble: String::new() }
    }

    fn add(&mut self, name: &str, size: u64, fs: Option<Superblock>) -> Uuid {
        let id = Uuid::new_v4();
        self.volumes.push(Volume { id, name: name.to_string(), size, fs, files: vec![] });
        id
    }

    fn volume(&mut self, id: Uuid) -> Option<&mut Volume> {
        self.volumes.iter_mut().find(|v| v.id == id)
    }

    fn snapshot(&mut self, of: Uuid, name: &str) -> Uuid {
        let v = self.volume(of).unwrap();
        let (size, fs, files) = (v.size, v.fs.as_ref().map(copied), v.files.clone());
        let id = self.add(name, size, fs);
        self.volume(id).unwrap().files = files;
        id
    }

    fn drop_volume(&mut self, id: Uuid) {
        self.volumes.retain(|v| v.id != id);
    }

    /// What goes wrong, if anything is to.
    fn fails(&self, at: &str) -> bool {
        self.trouble == at
    }

    fn discard(&mut self, volume: VolumeId) -> Result<(), String> {
        if self.fails("discard") {
            return Err("busy".to_string());
        }
        self.drop_volume(volume.0);
        Ok(())
    }

    fn create(&mut self, spec: &TemplateSpec) -> Result<Uuid, TemplateError> {
        let mut run = CreateRun::new();
        let mut event = CreateEvent::Begin;
        loop {
            let (next, action) = run.step(&mut self.store, spec, event);
            run = next;
            event = match action {
                CreateAction::Ignore => panic!("an answer to nothing that was asked for"),
                CreateAction::Finished { id } => return Ok(id),
                CreateAction::Fail { fault } => return Err(fault.to_error()),
                CreateAction::MakeVolume { .. } if self.fails("volume") => {
                    CreateEvent::Failed { why: "no room".to_string() }
                }
                CreateAction::MakeVolume { name, size } => {
                    CreateEvent::Made { volume: VolumeId(self.add(&name, size, None)) }
                }
                CreateAction::Snapshot { source, name } => {
                    CreateEvent::Made { volume: VolumeId(self.snapshot(source.0, &name)) }
                }
                CreateAction::Grow { .. } if self.fails("grow") => {
                    CreateEvent::Failed { why: "no room".to_string() }
                }
                CreateAction::Grow { volume, size } => {
                    self.volume(volume.0).unwrap().size = size;
                    CreateEvent::Did
                }
                CreateAction::Stamp { .. } if self.fails("stamp") => {
                    CreateEvent::Failed { why: "torn".to_string() }
                }
                CreateAction::Stamp { volume, uuid, backups } => {
                    assert!(backups && uuid == run.fresh);
                    let sb = self.volume(volume.0).unwrap().fs.as_mut().unwrap();
                    ext4::stamp_uuid(sb, uuid, 1);
                    CreateEvent::Did
                }
                CreateAction::Format { .. } if self.fails("format") => {
                    CreateEvent::Failed { why: "torn".to_string() }
                }
                CreateAction::Format { .. } if self.fails("vanish") => CreateEvent::Vanished,
                CreateAction::Format { volume, params } => {
                    assert!(params.uuid == run.fresh && params.assume_blank);
                    assert_eq!((&params.label, params.profile), (&spec.label, spec.fs.profile()));
                    assert_eq!((&params.features, params.journal), (&spec.features, spec.journal));
                    let v = self.volume(volume.0).unwrap();
                    v.fs = Some(fresh_fs(params.uuid, &params.label));
                    CreateEvent::Did
                }
                CreateAction::Seed { volume } => {
                    match spec.seed.iter().map(files::place).collect::<Result<Vec<_>, _>>() {
                        Err(_) => CreateEvent::Failed { why: "not an absolute path".to_string() },
                        Ok(_) => {
                            for f in &spec.seed {
                                self.write(volume.0, &f.path, &f.contents);
                            }
                            CreateEvent::Did
                        }
                    }
                }
                CreateAction::Seal { id } => match self.run_seal(&id, false) {
                    Ok(()) => CreateEvent::Did,
                    Err(fault) => CreateEvent::Unsealed { fault },
                },
                CreateAction::Discard { volume } => {
                    CreateEvent::Discarded { outcome: self.discard(volume) }
                }
                CreateAction::DeleteAll { volumes } => {
                    for v in volumes {
                        self.drop_volume(v.0);
                    }
                    CreateEvent::Deleted
                }
            };
        }
    }

    fn seal(&mut self, id: &Uuid, force: bool) -> Result<(), TemplateError> {
        self.run_seal(id, force).map_err(|f| f.to_error())
    }

    fn run_seal(&mut self, id: &Uuid, force: bool) -> Result<(), Fault> {
        let mut run = SealRun::new(*id, force);
        let mut event = SealEvent::Begin;
        loop {
            let (next, action) = run.step(&mut self.store, event);
            run = next;
            event = match action {
                SealAction::Ignore => panic!("an answer to nothing that was asked for"),
                SealAction::Finished => return Ok(()),
                SealAction::Fail { fault } => return Err(fault),
                SealAction::Read { volume } => match self.volume(volume.0) {
                    None => SealEvent::Vanished,
                    Some(v) => SealEvent::Read {
                        layout: match &v.fs {
                            Some(sb) => Ok(layout_of(sb)),
                            None => Err("bad magic".to_string()),
                        },
                    },
                },
                SealAction::Check { .. } if self.fails("check") => {
                    SealEvent::Checked { found: Err("unreadable".to_string()) }
                }
                SealAction::Check { volume } => {
                    let l = layout_of(self.volume(volume.0).unwrap().fs.as_ref().unwrap());
                    SealEvent::Checked { found: Ok(seal_blockers(&l, &vec![])) }
                }
                SealAction::Snapshot { .. } if self.fails("seal snapshot") => {
                    SealEvent::Failed { why: "no room".to_string() }
                }
                SealAction::Snapshot { source, name } => {
                    SealEvent::Made { volume: VolumeId(self.snapshot(source.0, &name)) }
                }
                SealAction::Delete { volume } => {
                    self.drop_volume(volume.0);
                    SealEvent::Deleted
                }
            };
        }
    }

    fn clone(&mut self, key: &str, name: &str) -> Result<CloneResult, TemplateError> {
        self.clone_as(key, &CloneSpec::new(name.to_string())).map(|(c, _)| c)
    }

    fn clone_as(&mut self, key: &str, spec: &CloneSpec) -> Result<(CloneResult, bool), TemplateError> {
        let mut run = CloneRun::new();
        let mut event = CloneEvent::Begin;
        let key = key.to_string();
        loop {
            let (next, action) = run.step(&mut self.store, &key, spec, event);
            run = next;
            event = match action {
                CloneAction::Ignore => panic!("an answer to nothing that was asked for"),
                CloneAction::Finished { result, replenish } => return Ok((result, replenish)),
                CloneAction::Fail { fault } => return Err(fault.to_error()),
                CloneAction::Snapshot { source, name } => {
                    let v = self.snapshot(source.0, &name);
                    let capacity = self.volume(v).map(|v| v.size);
                    CloneEvent::Made { volume: VolumeId(v), capacity }
                }
                CloneAction::Grow { .. } if self.fails("grow") => {
                    CloneEvent::Failed { why: "no room".to_string() }
                }
                CloneAction::Grow { volume, size } => {
                    self.volume(volume.0).unwrap().size = size;
                    CloneEvent::Did
                }
                CloneAction::Stamp { .. } if self.fails("stamp") => {
                    CloneEvent::Failed { why: "torn".to_string() }
                }
                CloneAction::Stamp { .. } if self.fails("vanish") => CloneEvent::Vanished,
                CloneAction::Stamp { volume, uuid, .. } => {
                    ext4::stamp_uuid(self.volume(volume.0).unwrap().fs.as_mut().unwrap(), uuid, 1);
                    CloneEvent::Did
                }
                CloneAction::Label { .. } if self.fails("label") => {
                    CloneEvent::Failed { why: "torn".to_string() }
                }
                CloneAction::Label { volume, label } => {
                    self.volume(volume.0).unwrap().fs.as_mut().unwrap().label = label;
                    CloneEvent::Did
                }
                CloneAction::Check { .. } if self.fails("check") || self.fails("discard") => {
                    let problem = |code: &str, message: &str| Problem {
                        code: code.to_string(),
                        message: message.to_string(),
                        serious: true,
                    };
                    CloneEvent::Checked {
                        clean: false,
                        problems: vec![problem("magic", "is bad"), problem("group", "is worse")],
                    }
                }
                CloneAction::Check { .. } if self.fails("unreadable") => {
                    CloneEvent::Failed { why: "unreadable".to_string() }
                }
                CloneAction::Check { .. } => CloneEvent::Checked { clean: true, problems: vec![] },
                CloneAction::Discard { volume } => {
                    CloneEvent::Discarded { outcome: self.discard(volume) }
                }
            };
        }
    }

    fn write(&mut self, volume: Uuid, path: &str, contents: &[u8]) {
        let v = self.volume(volume).unwrap();
        v.files.retain(|f| f.0 != path);
        v.files.push((path.to_string(), contents.to_vec()));
    }

    fn read(&mut self, volume: Uuid, path: &str) -> Option<Vec<u8>> {
        let v = self.volume(volume).unwrap();
        v.files.iter().find(|f| f.0 == path).map(|f| f.1.clone())
    }

    fn template(&self, id: &Uuid) -> &FsTemplate {
        self.store.get(id).unwrap()
    }

    fn listed(&self) -> Vec<OrphanVolume> {
        self.volumes
            .iter()
            .map(|v| OrphanVolume {
                volume_id: v.id,
                name: v.name.clone(),
                size_bytes: v.size,
                allocated_bytes: 0,
            })
            .collect()
    }
}

fn fresh_fs(uuid: Uuid, label: &str) -> Superblock {
    Superblock {
        block_size: 4096,
        blocks_count: 16384,
        inodes_count: 4096,
        blocks_per_group: 32768,
        first_data_block: 0,
        group_count: 1,
        state: ext4::VALID_FS,
        uuid,
        label: label.to_string(),
        feature_compat: ext4::COMPAT_HAS_JOURNAL,
        feature_incompat: ext4::INCOMPAT_64BIT | ext4::INCOMPAT_CSUM_SEED,
        feature_ro_compat: ext4::RO_COMPAT_METADATA_CSUM,
        checksum_seed: 3,
    }
}

fn spec(name: &str) -> TemplateSpec {
    TemplateSpec::new(name.to_string(), 64 * 1024 * 1024)
}

#[test]
fn a_template_can_be_built_from_another() {
    let mut node = Node::new();
    let base = node
        .create(&TemplateSpec {
            label: "base".to_string(),
            seed: vec![SeedFile::new("/runtime".to_string(), vec![0xab; 512 * 1024])],
            ..spec("base-runtime")
        })
        .unwrap();
    assert_eq!(node.template(&base).state, TemplateState::Ready);

    let child = node.create(&spec("app").from_parent("base-runtime".to_string())).unwrap();

    // Already a filesystem: there is nothing to format, so it is waiting
    // for content rather than for a mkfs.
    let (c, b) = (node.template(&child), node.template(&base));
    assert_eq!(c.state, TemplateState::AwaitingSeed);
    assert_eq!(c.parent_id, Some(base));
    assert_eq!(c.fs, b.fs, "the child is the parent's filesystem");
    assert_eq!(c.journal, b.journal);

    // But not the parent's identity.
    let base_uuid = b.fs_uuid;
    let raw = c.raw_volume_id.unwrap();
    let child_uuid = node.volume(raw).unwrap().fs.as_ref().unwrap().uuid;
    assert_ne!(Some(child_uuid), base_uuid, "the child kept its parent's filesystem uuid");

    // And it seals like any other template.
    node.seal(&child, false).unwrap();
    assert_eq!(node.template(&child).state, TemplateState::Ready);
    assert!(node.template(&child).clone_source().is_some());
}

/// Formatting over a parent would destroy the thing the parent is for.
#[test]
fn from_parent_refuses_to_also_format() {
    let mut node = Node::new();
    node.create(&spec("base2")).unwrap();

    let mut s = spec("app2").from_parent("base2".to_string());
    s.format_in_core = true; // asking for both
    assert!(matches!(node.create(&s), Err(TemplateError::Invalid(_))));
}

/// A parent that is not sealed has no snapshot to descend from.
#[test]
fn from_parent_requires_a_sealed_parent() {
    let mut node = Node::new();
    let mut unsealed = spec("half");
    unsealed.format_in_core = false;
    node.create(&unsealed).unwrap();

    assert!(matches!(
        node.create(&spec("app3").from_parent("half".to_string())),
        Err(TemplateError::Conflict(_))
    ));
}

#[test]
fn create_formats_seals_and_clones() {
    let mut node = Node::new();
    let id = node.create(&TemplateSpec { label: "storm".to_string(), ..spec("ext4-64m") }).unwrap();
    let t = node.template(&id);
    assert_eq!(t.state, TemplateState::Ready);
    assert_eq!(t.fs, FsKind::Ext4);
    assert!(t.journal, "the ext4 profile carries one");
    assert!(t.metadata_csum && t.csum_seed, "and the checksums, seeded");
    let template_uuid = t.fs_uuid.expect("template carries a uuid");
    let source = t.clone_source().unwrap();

    let clone = node.clone("ext4-64m", "pvc-1").unwrap();
    let sb = node.volume(clone.volume_id.0).unwrap().fs.as_ref().unwrap();
    assert_eq!(sb.label, "storm", "clone inherits the template's label");
    assert_ne!(sb.uuid, template_uuid, "every clone needs its own identity");
    assert_eq!(Some(sb.uuid), clone.fs_uuid);
    assert_eq!(node.store.by_name("ext4-64m").unwrap().clones, 1);

    // Two clones of one template must not collide either.
    let second = node.clone(&clone.template_id.to_string(), "pvc-2").unwrap();
    assert_ne!(second.fs_uuid, clone.fs_uuid);

    // ...and the template itself is untouched by either.
    assert_eq!(node.volume(source.0).unwrap().fs.as_ref().unwrap().uuid, template_uuid);
}

/// Sealing must refuse a superblock a consumer would end up mounting
/// read-only.
#[test]
fn seal_refuses_a_dirty_filesystem() {
    let mut node = Node::new();
    let id = node
        .create(&TemplateSpec { format_in_core: false, ..spec("externally-formatted") })
        .unwrap();
    assert_eq!(node.template(&id).state, TemplateState::AwaitingFormat);

    // Nothing formatted it yet: no filesystem, no seal.
    let err = node.seal(&id, false).unwrap_err();
    assert!(matches!(err, TemplateError::NotSealable(_)), "{}", err.to_string());

    // Format it the way an initiator would, then dirty the superblock the
    // way an unclean unmount does.
    let raw = node.template(&id).raw_volume_id.expect("awaiting format");
    let mut sb = fresh_fs(Uuid::new_v4(), "");
    sb.state = ext4::VALID_FS | ext4::ERROR_FS;
    sb.feature_incompat |= ext4::INCOMPAT_RECOVER;
    node.volume(raw).unwrap().fs = Some(sb);

    match node.seal(&id, false).unwrap_err() {
        TemplateError::NotSealable(m) => {
            assert!(m.contains("ERROR_FS"), "{m}");
            assert!(m.contains("RECOVER"), "{m}");
        }
        other => panic!("expected NotSealable, got {}", other.to_string()),
    }
    assert_eq!(node.template(&id).state, TemplateState::AwaitingFormat);

    // force is the operator's escape hatch, and only that.
    node.seal(&id, true).unwrap();
    assert_eq!(node.template(&id).state, TemplateState::Ready);
}

#[test]
fn duplicate_names_and_unsealed_clones_are_refused() {
    let mut node = Node::new();

    node.create(&spec("dup")).unwrap();
    let err = node.create(&spec("dup")).unwrap_err();
    assert!(matches!(err, TemplateError::Exists(_)), "{}", err.to_string());

    let raw = node.create(&TemplateSpec { format_in_core: false, ..spec("raw") }).unwrap();
    let err = node.clone("raw", "c").unwrap_err();
    assert!(matches!(err, TemplateError::Conflict(_)), "{}", err.to_string());
    assert!(node.clone("nope", "c").is_err());
    assert_eq!(node.template(&raw).state, TemplateState::AwaitingFormat);
}

/// A sealed template owns exactly one volume, and deleting it takes that
/// volume with it, clones and all.
#[test]
fn a_template_costs_one_volume_and_purges_it() {
    let mut node = Node::new();
    let id = node.create(&spec("t")).unwrap();

    // The scratch volume went at seal.
    assert!(node.template(&id).raw_volume_id.is_none(), "the scratch volume outlived the seal");
    let named: Vec<String> = node
        .volumes
        .iter()
        .map(|v| v.name.clone())
        .filter(|n| n.starts_with("fstemplate-"))
        .collect();
    assert_eq!(named.len(), 1, "one template, one volume: {named:?}");

    let c = node.clone("t", "c").unwrap();

    let purged = delete(&node.store, &id, true).ok().unwrap();
    for v in &purged {
        node.drop_volume(v.0);
    }
    assert!(node.store.remove(&id).is_some());
    assert_eq!(purged.len(), 1, "the sealed volume goes");
    assert!(node.store.find("t").is_none());
    assert!(node.volume(c.volume_id.0).is_some(), "the clone survived");
}

/// A leaked volume names itself, because nothing else can find it: a clone
/// carries the caller's name, not the template prefix.
#[test]
fn a_leak_error_carries_the_volume_id() {
    let id = Uuid::new_v4();
    let e = TemplateError::Leaked {
        volume_id: id,
        message: "clone pvc-1 did not check out (bad) — and it could NOT be discarded: busy"
            .to_string(),
    };
    let rendered = e.to_string();
    assert!(rendered.contains(&id.to_string()), "{rendered}");
    assert!(rendered.contains("could NOT be discarded"), "{rendered}");
    assert!(rendered.contains("leaked"), "{rendered}");
}

/// The sweep must never offer up something this node is serving.
#[test]
fn an_attached_orphan_is_not_reclaimable() {
    let mut node = Node::new();
    let id = node.create(&spec("t")).unwrap();
    let sealed = node.template(&id).sealed_volume_id.unwrap();

    // The store forgets it, the volume stays.
    assert!(delete(&node.store, &id, false).ok().unwrap().is_empty());
    node.store.remove(&id);

    // With nothing attached it is debris, and reclaimable.
    assert_eq!(orphans(&node.store, node.listed(), &vec![]).len(), 1);

    // Attached, it is not, even though it is just as unclaimed.
    assert!(
        orphans(&node.store, node.listed(), &vec![sealed]).is_empty(),
        "an attached volume was offered for reclamation"
    );
    assert!(node.volume(sealed).is_some(), "the attached volume survived the sweep");
}

#[test]
fn orphaned_template_volumes_are_found_and_reclaimed() {
    let mut node = Node::new();
    let id = node.create(&spec("t")).unwrap();
    // A clone, named by its consumer: never mistaken for template debris.
    node.clone("t", "pvc-1").unwrap();

    assert!(orphans(&node.store, node.listed(), &vec![]).is_empty(), "a live template is not debris");

    // Forget the template, keep its volumes.
    node.store.remove(&id);

    let found = orphans(&node.store, node.listed(), &vec![]);
    assert_eq!(found.len(), 1, "the sealed volume is now unclaimed");

    for o in found {
        node.drop_volume(o.volume_id);
    }
    assert!(orphans(&node.store, node.listed(), &vec![]).is_empty());
    assert!(
        node.volumes.iter().any(|v| v.name == "pvc-1"),
        "reclaiming debris must not touch a clone"
    );
}

/// A clone that fails its verify is really gone before the caller is told it
/// was discarded.
#[test]
fn a_discarded_clone_is_really_gone_before_the_caller_is_told() {
    let mut node = Node::new();
    node.create(&spec("t")).unwrap();
    let before = node.volumes.len();

    // The clone does not check out.
    node.trouble = "check".to_string();
    let err = node.clone("t", "pvc-1").unwrap_err();
    match &err {
        TemplateError::Internal(m) => assert!(m.contains("was discarded"), "{m}"),
        other => panic!("unexpected error: {}", other.to_string()),
    }
    assert_eq!(node.volumes.len(), before);
    assert!(!node.volumes.iter().any(|v| v.name == "pvc-1"));
    assert!(!orphans(&node.store, node.listed(), &vec![]).iter().any(|o| o.name == "pvc-1"));
}

#[test]
fn a_leak_is_told_with_its_volume() {
    let id = Uuid::new_v4();
    let f = discard_or_report(id, "clone x did not check out".to_string(), Err("busy".to_string()));
    match f.to_error() {
        TemplateError::Leaked { volume_id, message } => {
            assert_eq!(volume_id, id);
            assert_eq!(message, "clone x did not check out — and it could NOT be discarded: busy");
        }
        other => panic!("{}", other.to_string()),
    }
    // A volume that resists is tried twice; one that is gone by then is discarded.
    assert!(matches!(discard(&Deleted::Missing { why: "gone".to_string() }), Discard::Again));
    assert!(matches!(discard(&Deleted::No { why: "busy".to_string() }), Discard::Again));
    let first = "busy".to_string();
    assert!(matches!(discard_again(&first, &Deleted::Yes), Discard::Done));
    assert!(matches!(
        discard_again(&first, &Deleted::Missing { why: "gone".to_string() }),
        Discard::Done
    ));
    match discard_again(&first, &Deleted::No { why: "still".to_string() }) {
        Discard::Failed { why } => assert_eq!(why, "busy (retry: still)"),
        _ => panic!("it could not be discarded"),
    }
    assert!(matches!(lost_race("n".to_string(), id, Ok(())), Fault::NameTaken { .. }));
    assert!(matches!(
        lost_race("n".to_string(), id, Err("busy".to_string())).to_error(),
        TemplateError::Leaked { .. }
    ));
}

#[test]
fn a_failed_create_leaves_nothing() {
    let mut node = Node::new();
    let bad = TemplateSpec {
        seed: vec![SeedFile::new("relative".to_string(), vec![])],
        ..spec("bad")
    };
    assert!(node.create(&bad).is_err());
    assert!(node.volumes.is_empty());
    assert!(node.store.templates.is_empty());
    assert!(node.create(&spec("bad")).is_ok(), "and the name is free again");
}

#[test]
fn a_create_says_why_it_is_refused() {
    let mut node = Node::new();
    assert!(matches!(node.create(&spec("")), Err(TemplateError::Invalid(_))));
    assert!(matches!(
        node.create(&TemplateSpec::new("z".to_string(), 0)),
        Err(TemplateError::Invalid(_))
    ));
    assert!(matches!(
        node.create(&spec("a").from_parent("nobody".to_string())),
        Err(TemplateError::NotFound(_))
    ));
    node.create(&spec("big")).unwrap();
    let small = TemplateSpec::new("s".to_string(), 1024).from_parent("big".to_string());
    assert!(matches!(node.create(&small), Err(TemplateError::Invalid(_))));
    let unknown = Uuid { bits: 1 };
    assert!(matches!(delete(&node.store, &unknown, true), Err(Fault::UnknownId { .. })));
    assert!(matches!(seal(&node.store, &unknown), Err(Fault::UnknownId { .. })));
    let ready = node.store.by_name("big").unwrap().id;
    assert!(matches!(seal(&node.store, &ready), Err(Fault::AlreadySealed { .. })));
    assert_eq!(
        Fault::AlreadySealed { name: "big".to_string() }.to_error().to_string(),
        "fstemplate big is already sealed"
    );
    let blocked: Vec<SealBlocker> = vec![SealBlocker::ErrorFlagSet, SealBlocker::RecoveryPending];
    assert!(matches!(judge_blockers("b".to_string(), Ok(blocked), false), Err(Fault::Blocked { .. })));
    assert!(judge_blockers("b".to_string(), Err("x".to_string()), true).is_ok());
}

#[test]
fn one_clone_stands_by_and_is_claimed_once() {
    let mut node = Node::new();
    let id = node.create(&spec("t")).unwrap();
    assert_eq!(ensure_standing_all(&node.store), vec![id]);
    assert_eq!(standing_needed(&node.store).len(), 1);
    let key = "t".to_string();
    assert!(matches!(ensure_standing(&mut node.store, &key), Ok(StandBy::Mint { .. })));
    assert!(
        matches!(ensure_standing(&mut node.store, &key), Ok(StandBy::Nothing)),
        "one is being minted already"
    );
    let c = CloneResult {
        volume_id: VolumeId(Uuid { bits: 50 }),
        template_id: id,
        fs_uuid: Some(Uuid { bits: 51 }),
        size_bytes: 64 * 1024 * 1024,
        verified: true,
        from_standby: false,
    };
    let minted = finish_standing(&mut node.store, &id, Some(c));
    let standing = StandingClone {
        volume_id: Uuid { bits: 50 },
        fs_uuid: Some(Uuid { bits: 51 }),
        size_bytes: 64 * 1024 * 1024,
        verified: true,
    };
    assert_eq!(minted, Minted::Standing(standing));
    assert_eq!(finish_standing(&mut node.store, &id, Some(c)), Minted::TooMany(c.volume_id));
    assert!(matches!(ensure_standing(&mut node.store, &key), Ok(StandBy::Already(_))));
    assert!(standing_needed(&node.store).is_empty());
    assert_eq!(standing_report(&node.store)[0].standing, Some(Uuid { bits: 50 }));

    match claim(&mut node.store, &key) {
        Ok(Claim::Taken { template_id, clone }) => {
            let r = claim_result(template_id, &clone, &ClaimSpec::default());
            assert_eq!((r.volume_id.0, r.from_standby), (Uuid { bits: 50 }, true));
        }
        _ => panic!("the clone that stands by"),
    }
    assert!(
        matches!(claim(&mut node.store, &key), Ok(Claim::Inline { .. })),
        "never handed out twice"
    );
    assert!(matches!(claim(&mut node.store, &"no".to_string()), Err(Fault::UnknownKey { .. })));
}

/// Has a clone stand by for a template.
fn stand_by(node: &mut Node, key: &str) -> StandingClone {
    let key = key.to_string();
    let (run, action) = StandRun::new().step(&mut node.store, &key, StandEvent::Begin);
    let StandAction::Mint { template_id, spec } = action else { panic!("nothing stands by") };
    assert!(spec.standby && spec.stamp_uuid && spec.verify && spec.label.is_none());
    let (result, replenish) = node.clone_as(&template_id.to_string(), &spec).unwrap();
    assert!(!replenish, "one that stands by calls for no other");
    match run.step(&mut node.store, &key, StandEvent::Minted { result }) {
        (StandRun { state: StandState::Over, .. }, StandAction::Finished { standing: Some(c) }) => c,
        _ => panic!("it stands by"),
    }
}

#[test]
fn a_claim_that_asks_for_nothing_writes_nothing() {
    let mut node = Node::new();
    let id = node.create(&spec("t")).unwrap();
    let standing = stand_by(&mut node, "t");
    let key = "t".to_string();
    let nothing = ClaimSpec::default();
    let (run, action) = ClaimRun::new().step(&mut node.store, &key, &nothing, ClaimEvent::Begin);
    assert!(matches!(run.state, ClaimState::Over));
    let ClaimAction::Finished { result, replenish } = action else { panic!("handed out at once") };
    assert_eq!((result.volume_id.0, replenish), (standing.volume_id, id));
    assert!(result.from_standby && result.verified);
    assert_eq!(node.template(&id).clones, 1);

    // Nothing stands by any more: the next one is minted now.
    let want = ClaimSpec { size_bytes: Some(1 << 30), label: Some("web".to_string()) };
    let (run, action) = ClaimRun::new().step(&mut node.store, &key, &want, ClaimEvent::Begin);
    let ClaimAction::Mint { spec } = action else { panic!("minted now") };
    assert_eq!((spec.size_bytes, spec.label.as_deref()), (Some(1 << 30), Some("web")));
    assert!(spec.name.starts_with("standby-t-") && !spec.standby);
    let (minted, _) = node.clone_as("t", &spec).unwrap();
    let (_, action) = run.step(&mut node.store, &key, &want, ClaimEvent::Minted { result: minted });
    assert!(matches!(action, ClaimAction::Finished { result, replenish } if result == minted && replenish == id));
}

#[test]
fn a_claim_grows_and_labels_what_stood_by() {
    let mut node = Node::new();
    node.create(&spec("t")).unwrap();
    let standing = stand_by(&mut node, "t");
    let key = "t".to_string();
    let size = standing.size_bytes + 4096;
    let want = ClaimSpec { size_bytes: Some(size), label: Some("web".to_string()) };
    let (run, action) = ClaimRun::new().step(&mut node.store, &key, &want, ClaimEvent::Begin);
    assert!(matches!(action, ClaimAction::Grow { volume, size: s } if volume.0 == standing.volume_id && s == size));
    let (run, action) = run.step(&mut node.store, &key, &want, ClaimEvent::Did);
    assert!(matches!(&action, ClaimAction::Label { label, .. } if label == "web"));
    // A label that cannot be set keeps nobody from the clone.
    let torn = ClaimEvent::Failed { why: "torn".to_string() };
    let (run, action) = run.step(&mut node.store, &key, &want, torn);
    assert!(matches!(action, ClaimAction::Finished { result, .. } if result.size_bytes == size));
    let (_, action) = run.step(&mut node.store, &key, &want, ClaimEvent::Did);
    assert!(matches!(action, ClaimAction::Ignore));

    // Less than it has leaves it as it is; more than there is room for fails.
    stand_by(&mut node, "t");
    let (run, action) = ClaimRun::new().step(&mut node.store, &key, &want, ClaimEvent::Begin);
    assert!(matches!(action, ClaimAction::Grow { .. }));
    let full = ClaimEvent::Failed { why: "no room".to_string() };
    let (_, action) = run.step(&mut node.store, &key, &want, full);
    assert!(matches!(action, ClaimAction::Fail { fault: Fault::ClaimNotGrown { .. } }));
    stand_by(&mut node, "t");
    let less = ClaimSpec { size_bytes: Some(1), label: None };
    let (_, action) = ClaimRun::new().step(&mut node.store, &key, &less, ClaimEvent::Begin);
    assert!(matches!(action, ClaimAction::Finished { result, .. } if result.size_bytes == standing.size_bytes));

    let nobody = "nobody".to_string();
    let (_, action) = ClaimRun::new().step(&mut node.store, &nobody, &less, ClaimEvent::Begin);
    assert!(matches!(action, ClaimAction::Fail { fault: Fault::UnknownKey { .. } }));
}

#[test]
fn a_mint_leaves_no_mark_and_no_second_clone() {
    let mut node = Node::new();
    let id = node.create(&spec("t")).unwrap();
    let key = "t".to_string();
    let (run, _) = StandRun::new().step(&mut node.store, &key, StandEvent::Begin);
    assert!(node.template(&id).minting);
    let (_, action) = StandRun::new().step(&mut node.store, &key, StandEvent::Begin);
    assert!(matches!(action, StandAction::Finished { standing: None }), "one is being minted");
    let fault = Fault::CloneVanished;
    let (_, action) = run.step(&mut node.store, &key, StandEvent::Unminted { fault });
    assert!(matches!(action, StandAction::Fail { fault: Fault::CloneVanished }));
    assert!(!node.template(&id).minting);

    let (run, _) = StandRun::new().step(&mut node.store, &key, StandEvent::Begin);
    let c = CloneResult {
        volume_id: VolumeId(Uuid { bits: 60 }),
        template_id: id,
        fs_uuid: None,
        size_bytes: 1,
        verified: true,
        from_standby: false,
    };
    finish_standing(&mut node.store, &id, Some(c));
    let late = CloneResult { volume_id: VolumeId(Uuid { bits: 61 }), ..c };
    let (run, action) = run.step(&mut node.store, &key, StandEvent::Minted { result: late });
    assert!(matches!(action, StandAction::Delete { volume } if volume == late.volume_id));
    assert!(matches!(run.state, StandState::Dropping));
    let (_, action) = run.step(&mut node.store, &key, StandEvent::Deleted);
    assert!(matches!(action, StandAction::Finished { standing: None }));
    assert_eq!(node.template(&id).standing.map(|s| s.volume_id), Some(Uuid { bits: 60 }));

    let u = Uuid { bits: 0x12345678_9abc_4def_8123_456789abcdef };
    assert_eq!(standing_spec("t", u).name, "standby-t-12345678");
    assert_eq!(inline_spec("t", u, &ClaimSpec::default()).name, "standby-t-12345678");
}

#[test]
fn a_filesystem_is_laid_down_as_specified() {
    let mut s = spec("t");
    s.fs = FsKind::Ext3;
    s.label = "root".to_string();
    s.features = Some("^64bit".to_string());
    let p = format_params(&s, Uuid { bits: 9 });
    assert_eq!((p.profile.name(), p.label.as_str(), p.uuid), ("ext3", "root", Uuid { bits: 9 }));
    assert_eq!((p.features.as_deref(), p.journal), (Some("^64bit"), None));
    assert!(p.assume_blank && p.bytes_per_inode.is_none() && p.block_size.is_none());
    assert_eq!(p.for_capacity(ext4::JOURNAL_FLOOR_BYTES).journal, Some(false));
    let p = p.for_capacity(ext4::JOURNAL_FLOOR_BYTES + 1);
    assert_eq!((p.journal, p.label.as_str(), p.features.as_deref()), (None, "root", Some("^64bit")));
    let d = ext4::Ext4Params::default();
    assert_eq!((d.profile.name(), d.label.as_str(), d.journal), ("ext4", "", None));
    assert_ne!(d.uuid, ext4::Ext4Params::default().uuid);
}

#[test]
fn a_template_is_found_by_name_and_by_id() {
    let mut node = Node::new();
    let id = node.create(&spec("t")).unwrap();
    assert_eq!(node.store.find("t").map(|t| t.id), Some(id));
    assert_eq!(node.store.find(&id.to_string()).map(|t| t.id), Some(id));
    assert_eq!(node.store.position_named("t"), Some(0));
    assert_eq!(node.store.position(&id), Some(0));
    assert_eq!(node.store.position_keyed("t"), Some(0));
    assert!(node.store.by_name("u").is_none());
    node.store.get_mut(&id).unwrap().clones = 7;
    assert_eq!(node.template(&id).clones, 7);
    assert!(node.store.get_mut(&Uuid { bits: 1 }).is_none());
    assert_eq!(node.template(&id).volumes().len(), 1);
    assert_eq!(FsKind::from_str("ext3"), Ok(FsKind::Ext3));
    assert!(FsKind::from_str("ntfs").is_err());
    assert_eq!(FsKind::default().as_str(), "ext4");
    assert_eq!(FsKind::Ext2.profile().name(), "ext2");
    assert!(!TemplateState::Ready.as_str().is_empty());
    assert!(raw_name("t").starts_with(VOLUME_PREFIX));
    assert!(sealed_name(FsKind::Ext4, "t").starts_with(VOLUME_PREFIX));
    assert!(standby_name("t", id).starts_with(VOLUME_PREFIX) || standby_name("t", id).contains('t'));
    assert_eq!(clone_size(100, Some(200)), (200, true));
    assert_eq!(clone_size(100, Some(50)), (100, false));
    assert_eq!(clone_size(100, None), (100, false));
    assert!(lifecycle::stamp_context("c", "why").contains("why"));
}

fn seed(path: &str, byte: u8, len: usize) -> SeedFile {
    SeedFile { path: path.to_string(), contents: vec![byte; len] }
}

/// Every level holds all that is under it, and no level sees what is above it.
#[test]
fn layers_stack_to_any_depth() {
    let mut node = Node::new();

    // scratch → the runtime
    let runtime = node
        .create(&TemplateSpec { seed: vec![seed("/stormd", 0xaa, 256 * 1024)], ..spec("l-runtime") })
        .unwrap();

    // FROM the runtime → the app
    let app = node.create(&spec("l-app").from_parent("l-runtime".to_string())).unwrap();
    let raw = node.template(&app).raw_volume_id.unwrap();
    node.write(raw, "/app/netwatch", &[0xbb; 128 * 1024]);
    node.seal(&app, false).unwrap();

    // FROM the app → this deployment's config
    let deploy = node.create(&spec("l-deploy").from_parent("l-app".to_string())).unwrap();
    let raw = node.template(&deploy).raw_volume_id.unwrap();
    node.write(raw, "/etc/netwatch.toml", &[0xcc; 512]);
    node.seal(&deploy, false).unwrap();

    // Lineage is a chain, not a star.
    assert_eq!(node.template(&app).parent_id, Some(runtime));
    assert_eq!(node.template(&deploy).parent_id, Some(app));

    // Every level's contents accumulate, and the deepest has all three.
    let deepest = node.template(&deploy).clone_source().unwrap().0;
    for (path, len) in
        [("/stormd", 256 * 1024), ("/app/netwatch", 128 * 1024), ("/etc/netwatch.toml", 512)]
    {
        assert_eq!(node.read(deepest, path).unwrap().len(), len, "{path} truncated");
    }

    // And the middle of the chain is still itself.
    let middle = node.template(&app).clone_source().unwrap().0;
    assert!(node.read(middle, "/stormd").is_some());
    assert!(node.read(middle, "/app/netwatch").is_some());
    assert!(
        node.read(middle, "/etc/netwatch.toml").is_none(),
        "a parent must not see what its child added"
    );

    // A clone of the deepest level is what a pod would get.
    let c = node.clone("l-deploy", "l-pod").unwrap().volume_id.0;
    assert!(node.read(c, "/stormd").is_some());
    assert!(node.read(c, "/etc/netwatch.toml").is_some());
}

/// The parent's entry goes, and the child's contents do not.
#[test]
fn a_child_survives_its_parent_being_deleted() {
    let mut node = Node::new();
    let base = node
        .create(&TemplateSpec { seed: vec![seed("/stormd", 0xaa, 512 * 1024)], ..spec("orphan-base") })
        .unwrap();
    let child = node.create(&spec("orphan-child").from_parent("orphan-base".to_string())).unwrap();
    let raw = node.template(&child).raw_volume_id.unwrap();
    node.write(raw, "/app", &[0xbb; 64 * 1024]);
    node.seal(&child, false).unwrap();

    // The parent goes entirely — entry and volumes.
    for v in delete(&node.store, &base, true).ok().unwrap() {
        node.drop_volume(v.0);
    }
    node.store.remove(&base);
    assert!(node.store.by_name("orphan-base").is_none(), "the parent should be gone");

    // The child is untouched: its own file, and the parent's.
    let source = node.template(&child).clone_source().unwrap().0;
    let inherited = node.read(source, "/stormd").expect("the parent's file must survive the parent");
    assert_eq!(inherited.len(), 512 * 1024);
    assert_eq!(inherited[0], 0xaa, "and still be the right bytes");
    assert_eq!(node.read(source, "/app").unwrap().len(), 64 * 1024);

    // And it still clones, which is what a pod actually needs.
    let c = node.clone("orphan-child", "orphan-pod").unwrap();
    assert_eq!(node.read(c.volume_id.0, "/stormd").unwrap().len(), 512 * 1024);
}

#[test]
fn clones_are_counted_and_have_distinct_identities() {
    let mut node = Node::new();
    node.create(&spec("golden")).unwrap();
    let mut uuids = vec![];
    for i in 0..8 {
        let c = node.clone("golden", &format!("pvc-{i}")).unwrap();
        assert!(!uuids.contains(&c.fs_uuid), "two clones share a UUID");
        uuids.push(c.fs_uuid);
    }
    assert_eq!(node.store.by_name("golden").unwrap().clones, 8);
}

/// Each step of making a template can fail, and each failure leaves neither a
/// volume nor an entry.
#[test]
fn whatever_fails_leaves_nothing() {
    let seeded = |name: &str| TemplateSpec { seed: vec![seed("/a", 1, 10)], ..spec(name) };
    for (trouble, words) in [
        ("volume", "creating template volume: no room"),
        ("format", "formatting t: torn"),
        ("vanish", "new template volume vanished"),
        ("check", "checking the template filesystem: unreadable"),
        ("seal snapshot", "sealing snapshot: no room"),
    ] {
        let mut node = Node::new();
        node.trouble = trouble.to_string();
        let err = node.create(&seeded("t")).unwrap_err();
        assert!(err.to_string().contains(words), "{trouble}: {}", err.to_string());
        assert!(node.volumes.is_empty(), "{trouble} leaves a volume");
        assert!(node.store.templates.is_empty(), "{trouble} leaves an entry");
        node.trouble = String::new();
        assert!(node.create(&seeded("t")).is_ok());
    }
    for (trouble, words) in [
        ("grow", "growing template volume: no room"),
        ("stamp", "stamping a fresh uuid on the clone of base: torn"),
    ] {
        let mut node = Node::new();
        node.create(&spec("base")).unwrap();
        node.trouble = trouble.to_string();
        let bigger = TemplateSpec::new("t".to_string(), 128 * 1024 * 1024).from_parent("base".to_string());
        let err = node.create(&bigger).unwrap_err();
        assert!(err.to_string().contains(words), "{trouble}: {}", err.to_string());
        assert_eq!(node.volumes.len(), 1, "only the parent's volume is left");
        assert_eq!(node.store.templates.len(), 1);
        node.trouble = String::new();
        let id = node.create(&bigger).unwrap();
        let raw = node.template(&id).raw_volume_id.unwrap();
        assert_eq!(node.volume(raw).unwrap().size, 128 * 1024 * 1024);
    }
}

/// Two creates race for one name: the loser gives its volume back.
#[test]
fn the_loser_of_a_race_gives_its_volume_back() {
    let race = |given_back: Result<(), String>| {
        let mut store = TemplateStore::in_memory();
        let s = spec("n");
        let (run, action) = CreateRun::new().step(&mut store, &s, CreateEvent::Begin);
        assert!(matches!(action, CreateAction::MakeVolume { .. }));
        // Another takes the name meanwhile.
        assert!(claim_name(&mut store, new_template(&s, None, Uuid { bits: 1 }, Uuid { bits: 2 })));
        let volume = VolumeId(Uuid { bits: 3 });
        let (run, action) = run.step(&mut store, &s, CreateEvent::Made { volume });
        assert!(matches!(action, CreateAction::Discard { volume: v } if v == volume));
        assert!(matches!(run.state, CreateState::Yielding { .. }));
        let event = CreateEvent::Discarded { outcome: given_back };
        let (run, action) = run.step(&mut store, &s, event);
        assert!(matches!(run.state, CreateState::Over));
        assert_eq!(store.templates.len(), 1);
        match action {
            CreateAction::Fail { fault } => fault.to_error(),
            _ => panic!("the loser is told"),
        }
    };
    assert!(matches!(race(Ok(())), TemplateError::Exists(_)));
    match race(Err("busy".to_string())) {
        TemplateError::Leaked { volume_id, message } => {
            assert_eq!(volume_id, Uuid { bits: 3 });
            assert!(message.contains("could NOT be discarded: busy"), "{message}");
        }
        other => panic!("{}", other.to_string()),
    }
}

#[test]
fn an_answer_to_nothing_changes_nothing() {
    let mut store = TemplateStore::in_memory();
    let (run, action) = CreateRun::new().step(&mut store, &spec("t"), CreateEvent::Deleted);
    assert!(matches!(action, CreateAction::Ignore));
    assert!(matches!(run.state, CreateState::Start));
    let (run, action) = SealRun::new(Uuid { bits: 1 }, true).step(&mut store, SealEvent::Vanished);
    assert!(matches!(action, SealAction::Ignore));
    assert!(matches!(run.state, SealState::Start));
    let c = CloneSpec::new("c".to_string());
    let (run, action) = CloneRun::new().step(&mut store, &"k".to_string(), &c, CloneEvent::Did);
    assert!(matches!(action, CloneAction::Ignore));
    assert!(matches!(run.state, CloneState::Start));
    assert!(store.templates.is_empty());
}

#[test]
fn a_template_whose_volume_is_gone_is_not_sealed() {
    let mut node = Node::new();
    let id = node.create(&TemplateSpec { format_in_core: false, ..spec("t") }).unwrap();
    let raw = node.template(&id).raw_volume_id.unwrap();
    node.drop_volume(raw);
    match node.seal(&id, true).unwrap_err() {
        TemplateError::NotFound(m) => {
            assert_eq!(m, format!("template volume {} is gone", raw.to_string()))
        }
        other => panic!("{}", other.to_string()),
    }
    // One that is forgotten while its snapshot is taken is told of, too.
    let mut store = TemplateStore::in_memory();
    let run = SealRun {
        id,
        force: false,
        state: SealState::Snapshotting { raw: VolumeId(raw), layout: None },
    };
    let made = SealEvent::Made { volume: VolumeId(Uuid { bits: 9 }) };
    let (_, action) = run.step(&mut store, made);
    assert!(matches!(action, SealAction::Fail { fault: Fault::UnknownId { .. } }));
}

#[test]
fn a_clone_is_what_was_asked_for() {
    let mut node = Node::new();
    let id = node.create(&TemplateSpec { label: "storm".to_string(), ..spec("t") }).unwrap();
    let theirs = node.template(&id).fs_uuid;

    // Bigger, and with a label of its own.
    let mut s = CloneSpec::new("big".to_string());
    s.size_bytes = Some(128 * 1024 * 1024);
    s.label = Some("mine".to_string());
    let (c, replenish) = node.clone_as("t", &s).unwrap();
    assert_eq!(c.size_bytes, 128 * 1024 * 1024);
    assert!(c.verified && !c.from_standby);
    assert!(replenish, "nothing stands by yet");
    let v = node.volume(c.volume_id.0).unwrap();
    assert_eq!((v.size, v.fs.as_ref().unwrap().label.as_str()), (128 * 1024 * 1024, "mine"));

    // A smaller one is not to be had, and unstamped it keeps the identity.
    let mut s = CloneSpec::new("same".to_string());
    s.size_bytes = Some(1024);
    s.stamp_uuid = false;
    s.verify = false;
    let (c, _) = node.clone_as("t", &s).unwrap();
    assert_eq!(c.size_bytes, 64 * 1024 * 1024);
    assert_eq!(c.fs_uuid, theirs);
    assert!(!c.verified);

    // One that is to stand by is not counted, and asks for no other.
    let mut s = CloneSpec::new("by".to_string());
    s.standby = true;
    let (_, replenish) = node.clone_as("t", &s).unwrap();
    assert!(!replenish);
    assert_eq!(node.template(&id).clones, 2);

    // A label that will not stick is no reason to give the clone up.
    node.trouble = "label".to_string();
    let mut s = CloneSpec::new("plain".to_string());
    s.label = Some("mine".to_string());
    let (c, _) = node.clone_as("t", &s).unwrap();
    assert_eq!(node.volume(c.volume_id.0).unwrap().fs.as_ref().unwrap().label, "storm");
    assert!(matches!(node.clone("t", "  "), Err(TemplateError::Invalid(_))));
}

#[test]
fn a_bad_clone_is_thrown_away() {
    for (trouble, words) in [
        ("stamp", "stamping a fresh filesystem UUID on clone c: torn"),
        ("check", "clone c did not check out (magic: is bad; group: is worse)"),
        ("unreadable", "clone c did not check out (unreadable)"),
    ] {
        let mut node = Node::new();
        let id = node.create(&spec("t")).unwrap();
        node.trouble = trouble.to_string();
        match node.clone("t", "c").unwrap_err() {
            TemplateError::Internal(m) => {
                assert!(m.contains(words) && m.contains("was discarded"), "{m}")
            }
            other => panic!("{}", other.to_string()),
        }
        assert_eq!(node.volumes.len(), 1);
        assert_eq!(node.template(&id).clones, 0);
    }
    let mut node = Node::new();
    node.create(&spec("t")).unwrap();
    node.trouble = "discard".to_string();
    match node.clone("t", "c").unwrap_err() {
        TemplateError::Leaked { volume_id, message } => {
            assert!(node.volume(volume_id).is_some());
            assert!(message.contains("could NOT be discarded: busy"), "{message}");
        }
        other => panic!("{}", other.to_string()),
    }
    node.trouble = "vanish".to_string();
    match node.clone("t", "c").unwrap_err() {
        TemplateError::Internal(m) => assert_eq!(m, "clone volume vanished"),
        other => panic!("{}", other.to_string()),
    }
    node.trouble = "grow".to_string();
    let mut s = CloneSpec::new("c".to_string());
    s.size_bytes = Some(1 << 40);
    match node.clone_as("t", &s).unwrap_err() {
        TemplateError::Internal(m) => assert_eq!(m, "growing clone: no room"),
        other => panic!("{}", other.to_string()),
    }
}
