use stormblock::fs::survey::{Entry, FoundFs, PartitionEntry, Walked};
use stormblock::fs::surveying::{SurveyAction, SurveyEvent, SurveyRun, SurveyState};
use stormblock::ids::Uuid;

/// What is on a device.
#[derive(Clone, Copy, PartialEq)]
enum On {
    Nothing,
    /// XFS, and whether its superblock and its tree read.
    Xfs { superblock: bool, tree: bool },
    /// ext4, and what goes wrong with it.
    Ext4 { trouble: &'static str },
}

/// A volume: what the whole of it is, and what its partitions are.
struct Volume {
    whole: On,
    table: Option<(u32, Vec<(PartitionEntry, String)>)>,
    /// By where they start.
    parts: Vec<(u64, On)>,
}

fn seen<T>(what: T, trouble: &str, at: &str) -> Result<T, String> {
    if trouble == at {
        Err("torn".to_string())
    } else {
        Ok(what)
    }
}

fn release() -> Vec<u8> {
    b"NAME=Rocky\nPRETTY_NAME=\"Rocky Linux 9.4\"\n".to_vec()
}

fn listing(dir: &str) -> Vec<Entry> {
    let entry = |name: &str, is_dir: bool| Entry { name: name.to_string(), is_dir };
    match dir {
        "/" => vec![entry(".", true), entry("..", true), entry("etc", true), entry("init", false)],
        "/etc" => vec![entry("os-release", false), entry("ssh", true)],
        _ => vec![],
    }
}

/// Surveys a volume; what was found, and every look in turn.
fn survey(mut volume: Volume, walk: bool) -> (Vec<FoundFs>, Vec<String>) {
    let mut run = SurveyRun::new(walk);
    let mut now = volume.whole;
    let mut event = SurveyEvent::Begin { bytes: 1 << 30 };
    let mut looks = vec![];
    loop {
        assert!(run.takes(&event));
        let (next, action) = run.step(event);
        run = next;
        let trouble = match now {
            On::Ext4 { trouble } => trouble,
            _ => "",
        };
        let (look, seen) = match action {
            SurveyAction::Ignore => panic!("an answer to nothing that was asked for"),
            SurveyAction::Finished { found } => {
                assert!(matches!(run.state, SurveyState::Over));
                return (found, looks);
            }
            SurveyAction::LookForXfs => {
                ("xfs?".to_string(), SurveyEvent::Xfs { yes: matches!(now, On::Xfs { .. }) })
            }
            SurveyAction::ReadXfsLayout => (
                "xfs superblock".to_string(),
                SurveyEvent::Layout {
                    found: match now {
                        On::Xfs { superblock: true, .. } => Ok((Uuid { bits: 7 }, "X".to_string())),
                        _ => Err("bad checksum".to_string()),
                    },
                },
            ),
            SurveyAction::ReadXfsRelease => {
                ("xfs release".to_string(), SurveyEvent::Release { found: Ok(None) })
            }
            SurveyAction::CheckXfs => (
                "xfs tree".to_string(),
                SurveyEvent::Checked {
                    found: match now {
                        On::Xfs { tree: true, .. } => {
                            Ok(Walked { entries: 5, directories: 2, files: 3 })
                        }
                        _ => Err("torn".to_string()),
                    },
                },
            ),
            SurveyAction::ReadExt4Layout => (
                "ext4 superblock".to_string(),
                SurveyEvent::Layout {
                    found: match now {
                        On::Ext4 { .. } => Ok((Uuid { bits: 8 }, "E".to_string())),
                        _ => Err("bad magic".to_string()),
                    },
                },
            ),
            SurveyAction::OpenExt4 => {
                ("open".to_string(), SurveyEvent::Opened { done: seen((), trouble, "open") })
            }
            SurveyAction::FindRelease => (
                "release?".to_string(),
                SurveyEvent::There { found: seen(trouble != "no release", trouble, "find") },
            ),
            SurveyAction::ReadRelease => (
                "release".to_string(),
                SurveyEvent::Release { found: seen(Some(release()), trouble, "read") },
            ),
            SurveyAction::List { dir } => {
                let found = seen(listing(&dir), trouble, &dir);
                (dir, SurveyEvent::Entries { found })
            }
            SurveyAction::ReadTable => {
                ("table".to_string(), SurveyEvent::Table { found: volume.table.take() })
            }
            SurveyAction::OpenWindow { start, len, block } => {
                assert_eq!(block, 512, "a window has the blocks of the table");
                let part = volume.parts.iter().find(|p| p.0 == start);
                if let Some(p) = part {
                    now = p.1;
                }
                (format!("window {start}"), SurveyEvent::Window { bytes: part.map(|_| len) })
            }
        };
        looks.push(look);
        event = seen;
    }
}

fn whole(on: On) -> Volume {
    Volume { whole: on, table: None, parts: vec![] }
}

#[test]
fn a_volume_may_be_a_filesystem() {
    let xfs = On::Xfs { superblock: true, tree: true };
    let (found, looks) = survey(whole(xfs), true);
    assert_eq!(looks, ["xfs?", "xfs superblock", "xfs release", "xfs tree"]);
    let f = &found[0];
    assert_eq!((found.len(), f.partition, f.offset, f.bytes), (1, None, 0, 1 << 30));
    assert_eq!((f.kind.as_str(), f.uuid, f.label.as_str()), ("xfs", Uuid { bits: 7 }, "X"));
    assert_eq!(f.walked, Some(Walked { entries: 5, directories: 2, files: 3 }));
    assert!(f.os.is_none() && f.error.is_none());

    // ext4 is looked for only where there is no XFS, and walked only if asked.
    let (found, looks) = survey(whole(On::Ext4 { trouble: "" }), false);
    assert_eq!(looks, ["xfs?", "ext4 superblock", "open", "release?", "release"]);
    let f = &found[0];
    assert_eq!((f.kind.as_str(), f.uuid, f.label.as_str()), ("ext4", Uuid { bits: 8 }, "E"));
    assert_eq!(f.os.as_deref(), Some("Rocky Linux 9.4"));
    assert!(f.walked.is_none() && f.error.is_none());

    let (found, looks) = survey(whole(On::Ext4 { trouble: "no release" }), true);
    assert_eq!(looks[3..], ["release?", "/", "/etc", "/etc/ssh"]);
    assert_eq!(found[0].os, None);
    assert_eq!(found[0].walked, Some(Walked { entries: 4, directories: 2, files: 2 }));

    let (found, looks) = survey(whole(On::Nothing), true);
    assert_eq!(looks, ["xfs?", "ext4 superblock", "table"]);
    assert!(found.is_empty());
}

#[test]
fn a_trouble_ends_the_reading_and_is_told() {
    for (on, words) in [
        (On::Xfs { superblock: false, tree: true }, "bad checksum"),
        (On::Xfs { superblock: true, tree: false }, "walking the tree: torn"),
        (On::Ext4 { trouble: "open" }, "opening: torn"),
        (On::Ext4 { trouble: "find" }, "looking up /etc/os-release: torn"),
        (On::Ext4 { trouble: "read" }, "reading /etc/os-release: torn"),
        (On::Ext4 { trouble: "/etc" }, "walking /etc: torn"),
    ] {
        let (found, _) = survey(whole(on), true);
        assert_eq!(found.len(), 1, "what is recognised is reported");
        assert_eq!(found[0].error.as_deref(), Some(words));
        assert_eq!(found[0].walked, None);
    }
}

#[test]
fn each_partition_is_looked_into_in_turn() {
    let entry = |used: bool, first_lba: u64, last_lba: u64| PartitionEntry { used, first_lba, last_lba };
    let volume = Volume {
        whole: On::Nothing,
        table: Some((
            512,
            vec![
                (entry(true, 63, 162), "boot".to_string()),
                (entry(false, 200, 299), "unused".to_string()),
                (entry(true, 299, 200), "backwards".to_string()),
                (entry(true, 400, 499), "gone".to_string()),
                (entry(true, 500, 599), "blank".to_string()),
                (entry(true, 600, 799), "root".to_string()),
            ],
        )),
        parts: vec![
            (63 * 512, On::Xfs { superblock: false, tree: true }),
            (500 * 512, On::Nothing),
            (600 * 512, On::Ext4 { trouble: "" }),
        ],
    };
    let (found, looks) = survey(volume, true);
    let windows: Vec<&String> = looks.iter().filter(|l| l.starts_with("window")).collect();
    assert_eq!(windows, ["window 32256", "window 204800", "window 256000", "window 307200"]);
    assert_eq!(found.len(), 2);
    // Not on the volume's blocks, and still found; its trouble holds up no other.
    assert_eq!((found[0].partition, found[0].partition_name.as_str()), (Some(1), "boot"));
    assert_eq!((found[0].offset, found[0].bytes), (63 * 512, 100 * 512));
    assert_eq!(found[0].error.as_deref(), Some("bad checksum"));
    assert_eq!((found[1].partition, found[1].partition_name.as_str()), (Some(6), "root"));
    assert_eq!(found[1].os.as_deref(), Some("Rocky Linux 9.4"));
    assert_eq!(found[1].walked, Some(Walked { entries: 4, directories: 2, files: 2 }));
}

#[test]
fn a_survey_ignores_what_it_did_not_ask_for() {
    let (run, action) = SurveyRun::new(true).step(SurveyEvent::Xfs { yes: true });
    assert!(matches!(action, SurveyAction::Ignore));
    assert!(matches!(run.state, SurveyState::Start));
}
