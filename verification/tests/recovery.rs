//! Finishing an interrupted repair, keeping the destination, undoing a repair
//! and deleting an original, run against a world that is made up.

use librarybridge::backup::{
    backup, backup_closing, original_path, BackupEnding, BackupFacts, BackupRefusal, BackupStep,
    Tried,
};
use librarybridge::fix::{Copied, Escape};
use librarybridge::library::{Capability, Library, Mount, Options, Report, Size, State};
use librarybridge::protocol::{Known, LinkFault, LinkSeen, Next, Unready};
use librarybridge::recovery::{
    finish_announce, finish_closing, finish_interrupted, keep_announce, keep_closing,
    keep_destination, same_data, CompareStep, FinishEnding, FinishFacts, FinishRefusal, FinishStep,
    KeepEnding, KeepFacts, KeepStep, Record, Shape,
};
use librarybridge::undo::{
    live_path, undo, undo_announce, undo_closing, undo_failure, Live, UndoEnding, UndoFacts,
    UndoRefusal, UndoStep,
};

fn options() -> Options {
    Options {
        steam_root: None,
        data_dir: None,
        json: false,
        dry_run: false,
        force: false,
        assume_yes: true,
        roots: vec![],
        candidates: vec![],
        output: None,
        plan: None,
        entry: None,
        all: false,
        expect: None,
        record: None,
        keep_destination: false,
        replace_destination: false,
        apikey: None,
        game: None,
        query: None,
        cover_match: None,
        list_covers: false,
        matches: false,
        overwrite: false,
    }
}

fn library() -> Library {
    Library {
        id: "ab12".to_string(),
        path: "/mnt/games".to_string(),
        name: "games".to_string(),
        steam: "native".to_string(),
        flatpak: false,
        steamapps: "/mnt/games/steamapps".to_string(),
        compatdata: "/mnt/games/steamapps/compatdata".to_string(),
        target: "/data/compatdata".to_string(),
        effective_target: "/data/compatdata".to_string(),
        connected: true,
    }
}

fn size(bytes: u64, shown: &str) -> Size {
    Size { bytes, shown: shown.to_string() }
}

fn repaired() -> Report {
    Report {
        state: State::Repaired { target: "/data/compatdata".to_string(), prefixes: 1 },
        code: "repaired".to_string(),
        headline: "repaired".to_string(),
        backups: vec!["/mnt/games/steamapps/compatdata.backup".to_string()],
        existing_destination: None,
        interrupted_restore: None,
        abandoned_copy: None,
    }
}

fn link(points_at: &str) -> LinkSeen {
    LinkSeen { is_symlink: true, points_at: points_at.to_string(), readable: true }
}

// ------------------------------------------------------------ the same data

#[test]
fn contents_are_compared_only_where_the_shapes_agree() {
    let shape = |entries, bytes| Known::Got(Shape { entries, bytes });
    assert!(matches!(
        same_data(&Known::NotYet, &Known::NotYet, &Known::NotYet),
        Next::Take(CompareStep::LeftShape)
    ));
    assert!(matches!(
        same_data(&shape(1, 2), &Known::NotYet, &Known::NotYet),
        Next::Take(CompareStep::RightShape)
    ));
    assert!(matches!(
        same_data(&shape(1, 2), &shape(1, 3), &Known::NotYet),
        Next::Stop(false)
    ));
    assert!(matches!(
        same_data(&shape(1, 2), &shape(2, 2), &Known::NotYet),
        Next::Stop(false)
    ));
    assert!(matches!(
        same_data(&shape(1, 2), &shape(1, 2), &Known::NotYet),
        Next::Take(CompareStep::Contents)
    ));
    assert!(matches!(
        same_data(&shape(1, 2), &shape(1, 2), &Known::Got(false)),
        Next::Stop(false)
    ));
    assert!(matches!(
        same_data(&shape(1, 2), &shape(1, 2), &Known::Got(true)),
        Next::Stop(true)
    ));
    assert!(matches!(
        same_data(&Known::Failed, &Known::NotYet, &Known::NotYet),
        Next::Failed(CompareStep::LeftShape)
    ));
}

// ------------------------------------------------------------------ finish

fn finish_facts() -> FinishFacts {
    FinishFacts {
        copy: Known::NotYet,
        record: Known::NotYet,
        digest: Known::NotYet,
        backup: Known::NotYet,
        same: Known::NotYet,
        shown: Known::NotYet,
        confirmed: Known::NotYet,
        identity: Known::NotYet,
        make_link: Known::NotYet,
        link: Known::NotYet,
        sync_linked: Known::NotYet,
        clear_record: Known::NotYet,
    }
}

struct Finish {
    copy: bool,
    record: Option<(&'static str, &'static str)>,
    backup: bool,
    same: bool,
    agreed: bool,
    steps: Vec<FinishStep>,
}

impl Finish {
    fn new() -> Finish {
        Finish {
            copy: true,
            record: Some(("/data/compatdata", "good")),
            backup: true,
            same: true,
            agreed: true,
            steps: vec![],
        }
    }

    fn run(&mut self, o: &Options) -> (FinishEnding, String) {
        let (b, t) = ("/mnt/games/steamapps/compatdata.backup", "/data/compatdata");
        let mut f = finish_facts();
        let mut text = String::new();
        loop {
            match finish_interrupted(o, t, &f) {
                Next::Take(step) => {
                    text.push_str(&finish_announce(b, t, &f, step));
                    self.steps.push(step);
                    match step {
                        FinishStep::LookAtCopy => f.copy = Known::Got(self.copy),
                        FinishStep::LoadRecord => {
                            f.record = Known::Got(self.record.map(|(d, g)| Record {
                                destination: d.to_string(),
                                digest: g.to_string(),
                            }))
                        }
                        FinishStep::DigestCopy => f.digest = Known::Got("good".to_string()),
                        FinishStep::LookAtBackup => f.backup = Known::Got(self.backup),
                        FinishStep::Compare => f.same = Known::Got(self.same),
                        FinishStep::ShowEvidence => f.shown = Known::Got(()),
                        FinishStep::Confirm => f.confirmed = Known::Got(self.agreed),
                        FinishStep::Identify => f.identity = Known::Got("0123".to_string()),
                        FinishStep::MakeLink => f.make_link = Known::Got(()),
                        FinishStep::ReadLink => f.link = Known::Got(link(t)),
                        FinishStep::SyncLinked => f.sync_linked = Known::Got(()),
                        FinishStep::ClearRecord => f.clear_record = Known::Got(()),
                    }
                }
                Next::Stop(ending) => {
                    let last = finish_closing(o, &library(), b, t, &f, ending);
                    return match ending {
                        FinishEnding::Refused(_) => (ending, last),
                        _ => (ending, text + &last),
                    };
                }
                Next::Failed(step) => panic!("{step:?}"),
            }
        }
    }
}

#[test]
fn a_recorded_copy_is_adopted() {
    let mut finish = Finish::new();
    let (ending, text) = finish.run(&options());
    assert_eq!(ending, FinishEnding::Finished);
    assert_eq!(
        text,
        "State       an earlier run stopped just before the last step\n\
         Original    /mnt/games/steamapps/compatdata.backup\n\
         Copy        /data/compatdata\n\
         Checked     the copy matches the one the interrupted run verified\n\
         \n\
         Done. The original is still at /mnt/games/steamapps/compatdata.backup\n"
    );
    assert!(!finish.steps.contains(&FinishStep::Compare));
}

#[test]
fn without_a_record_the_original_is_compared() {
    for record in [None, Some(("/elsewhere", "good")), Some(("/data/compatdata", "bad"))] {
        let mut finish = Finish { record, ..Finish::new() };
        let (ending, text) = finish.run(&options());
        assert_eq!(ending, FinishEnding::Finished);
        assert!(finish.steps.contains(&FinishStep::Compare));
        assert!(text.contains("Checked     the copy matches the original still on the game drive\n"));
    }
}

#[test]
fn a_copy_without_proof_is_not_adopted() {
    let (ending, text) = Finish { copy: false, ..Finish::new() }.run(&options());
    assert_eq!(ending, FinishEnding::Refused(FinishRefusal::CopyMissing));
    assert_eq!(
        text,
        "the copy at /data/compatdata is missing, so this cannot be finished automatically. Your data is intact at /mnt/games/steamapps/compatdata.backup. Rename it back to /mnt/games/steamapps/compatdata to return to the starting point."
    );
    let (ending, text) =
        Finish { record: None, backup: false, ..Finish::new() }.run(&options());
    assert_eq!(ending, FinishEnding::Refused(FinishRefusal::NoEvidence));
    assert_eq!(
        text,
        "there is no way to tell whether the copy at /data/compatdata is complete: no record of the interrupted run survived, and there is no original beside the library to compare it against. Nothing was changed."
    );
    let (ending, text) = Finish { record: None, same: false, ..Finish::new() }.run(&options());
    assert_eq!(ending, FinishEnding::Refused(FinishRefusal::CopyDiffers));
    assert_eq!(
        text,
        "the copy at /data/compatdata does not match the original at /mnt/games/steamapps/compatdata.backup, so it is not safe to point Steam at it. Nothing was changed. Compare them yourself, or rename the original back to /mnt/games/steamapps/compatdata to return to the starting point."
    );
}

#[test]
fn finishing_can_be_tried_and_declined() {
    let mut finish = Finish::new();
    let (ending, text) = finish.run(&Options { dry_run: true, ..options() });
    assert_eq!(ending, FinishEnding::DryRun);
    assert!(text.ends_with("\nDry run. The remaining step is to create the link.\n"));
    assert!(!finish.steps.contains(&FinishStep::MakeLink));
    let mut finish = Finish { agreed: false, ..Finish::new() };
    let (ending, text) = finish.run(&Options { assume_yes: false, ..options() });
    assert_eq!(ending, FinishEnding::Cancelled);
    assert!(text
        .ends_with("\nCreate the link and finish? [y/N] Cancelled. Nothing was changed.\n"));
}

// -------------------------------------------------------------------- keep

fn keep(o: &Options, present: bool, seen: LinkSeen) -> (KeepEnding, Vec<KeepStep>, String) {
    let (d, b) = ("/data/compatdata", "/mnt/games/steamapps/compatdata.backup");
    let mut f = KeepFacts {
        shown: Known::NotYet,
        confirmed: Known::NotYet,
        identity: Known::NotYet,
        open_library: Known::NotYet,
        present: Known::NotYet,
        move_source: Known::NotYet,
        make_link: Known::NotYet,
        link: Known::NotYet,
        sync_linked: Known::NotYet,
    };
    let mut seen = Some(seen);
    let mut steps = vec![];
    let mut text = String::new();
    loop {
        match keep_destination(o, d, &f) {
            Next::Take(step) => {
                text.push_str(&keep_announce(d, b, step));
                steps.push(step);
                match step {
                    KeepStep::ShowIntent => f.shown = Known::Got(()),
                    KeepStep::Confirm => f.confirmed = Known::Got(false),
                    KeepStep::Identify => f.identity = Known::Got("0123".to_string()),
                    KeepStep::OpenLibrary => f.open_library = Known::Got(()),
                    KeepStep::LookAtSource => f.present = Known::Got(present),
                    KeepStep::MoveSource => f.move_source = Known::Got(()),
                    KeepStep::MakeLink => f.make_link = Known::Got(()),
                    KeepStep::ReadLink => f.link = Known::Got(seen.take().unwrap()),
                    KeepStep::SyncLinked => f.sync_linked = Known::Got(()),
                }
            }
            Next::Stop(ending) => {
                text.push_str(&keep_closing(o, &library(), d, b, &f, ending));
                return (ending, steps, text);
            }
            Next::Failed(step) => panic!("{step:?}"),
        }
    }
}

#[test]
fn a_plan_that_changed_while_it_was_agreed_to_is_refused() {
    let changed = "this library has changed since the plan was reviewed. It was ffff and is now 0123. Nothing was done. Review it again.";
    let other = Options { expect: Some("ffff".to_string()), ..options() };
    let quoted = Options { expect: Some("0123".to_string()), ..options() };
    let (ending, steps, text) = keep(&other, true, link("/data/compatdata"));
    assert_eq!(ending, KeepEnding::Changed);
    assert!(text.ends_with(changed), "{text}");
    assert_eq!(steps, vec![KeepStep::ShowIntent, KeepStep::Identify]);
    let (ending, _, _) = keep(&quoted, true, link("/data/compatdata"));
    assert_eq!(ending, KeepEnding::Kept);
    let mut finish = Finish::new();
    let (ending, text) = finish.run(&other);
    assert_eq!(ending, FinishEnding::Refused(FinishRefusal::Changed));
    assert_eq!(text, changed);
    assert!(!finish.steps.contains(&FinishStep::MakeLink));
    assert_eq!(Finish::new().run(&quoted).0, FinishEnding::Finished);
}

#[test]
fn keeping_the_destination_sets_the_other_copy_aside() {
    let (ending, steps, text) = keep(&options(), true, link("/data/compatdata"));
    assert_eq!(ending, KeepEnding::Kept);
    assert!(steps.contains(&KeepStep::MoveSource));
    assert_eq!(
        text,
        "Keeping     /data/compatdata\n\
         Setting aside the game drive copy as /mnt/games/steamapps/compatdata.backup\n\
         \n\
         Done. Steam reads the data at /data/compatdata\n\
         The copy that was on the game drive is at /mnt/games/steamapps/compatdata.backup\n"
    );
    let (_, steps, _) = keep(&options(), false, link("/data/compatdata"));
    assert!(!steps.contains(&KeepStep::MoveSource));
    let (ending, _, _) = keep(&options(), true, link("/wrong"));
    assert_eq!(ending, KeepEnding::Refused(LinkFault::Elsewhere));
    let (ending, steps, _) =
        keep(&Options { dry_run: true, ..options() }, true, link("/data/compatdata"));
    assert_eq!(ending, KeepEnding::DryRun);
    assert_eq!(steps, vec![KeepStep::ShowIntent]);
    let (ending, _, _) =
        keep(&Options { assume_yes: false, ..options() }, true, link("/data/compatdata"));
    assert_eq!(ending, KeepEnding::Cancelled);
}

// -------------------------------------------------------------------- undo

fn undo_facts() -> UndoFacts {
    UndoFacts {
        lock: Known::NotYet,
        report: Known::NotYet,
        running: Known::NotYet,
        mount: Known::NotYet,
        live: Known::NotYet,
        shown: Known::NotYet,
        free: Known::NotYet,
        confirmed: Known::NotYet,
        copy: Known::NotYet,
        problems: Known::NotYet,
        changed: Known::NotYet,
        open_library: Known::NotYet,
        remove_link: Known::NotYet,
        move_back: Known::NotYet,
        sync: Known::NotYet,
    }
}

struct Undo {
    change: fn(&mut UndoFacts, UndoStep) -> bool,
    steps: Vec<UndoStep>,
    text: String,
}

impl Undo {
    fn new(change: fn(&mut UndoFacts, UndoStep) -> bool) -> Undo {
        Undo { change, steps: vec![], text: String::new() }
    }

    fn run(&mut self, o: &Options) -> Result<UndoEnding, UndoStep> {
        let l = library();
        let mut f = undo_facts();
        loop {
            match undo(o, &f) {
                Next::Take(step) => {
                    self.text.push_str(&undo_announce(o, &l, &f, step));
                    self.steps.push(step);
                    if (self.change)(&mut f, step) {
                        continue;
                    }
                    match step {
                        UndoStep::Lock => f.lock = Known::Got(()),
                        UndoStep::Inspect => f.report = Known::Got(repaired()),
                        UndoStep::Processes => f.running = Known::Got(vec![]),
                        UndoStep::LibraryMount => f.mount = Known::Got(None),
                        UndoStep::Inventory => {
                            f.live =
                                Known::Got(Live { bytes: size(10, "10 B"), escaping: vec![] })
                        }
                        UndoStep::ShowPlan => f.shown = Known::Got(()),
                        UndoStep::FreeSpace => f.free = Known::Got(Some(size(10, "10 B"))),
                        UndoStep::Confirm => f.confirmed = Known::Got(false),
                        UndoStep::Copy => {
                            f.copy = Known::Got(Copied {
                                files: 1,
                                dirs: 0,
                                symlinks: 0,
                                hard_linked: 0,
                                bytes: size(10, "10 B"),
                            })
                        }
                        UndoStep::CheckCopy => f.problems = Known::Got(vec![]),
                        UndoStep::CheckSource => f.changed = Known::Got(vec![]),
                        UndoStep::OpenLibrary => f.open_library = Known::Got(()),
                        UndoStep::RemoveLink => f.remove_link = Known::Got(()),
                        UndoStep::MoveBack => f.move_back = Known::Got(()),
                        UndoStep::Sync => f.sync = Known::Got(()),
                    }
                }
                Next::Stop(ending) => {
                    let last = undo_closing(o, &l, &f, ending);
                    if let UndoEnding::Refused(_) = ending {
                        self.text = last;
                    } else {
                        self.text.push_str(&last);
                    }
                    return Ok(ending);
                }
                Next::Failed(step) => {
                    if let Known::Got(report) = &f.report {
                        self.text = undo_failure(report, "/mnt/games/steamapps/restore", step, "broken");
                    }
                    return Err(step);
                }
            }
        }
    }
}

#[test]
fn an_undo_copies_the_live_data_back() {
    let mut run = Undo::new(|_, _| false);
    assert_eq!(run.run(&options()), Ok(UndoEnding::Undone));
    assert_eq!(
        run.text,
        "Library     /mnt/games\n\
         Current     /data/compatdata\n\
         Going back  /mnt/games/steamapps/compatdata\n\
         To copy     10 B\n\
         Old backup  /mnt/games/steamapps/compatdata.backup (left alone)\n\
         \n\
         Copying the current data back...\n\
         \x20 1 files, 10 B\n\
         Checking every file...\n\
         \x20 every file matches\n\
         \n\
         Done. Steam is using the game drive again.\n\
         \x20 Still on disk:\n\
         \x20   /data/compatdata\n\
         \x20   /mnt/games/steamapps/compatdata.backup\n\
         \x20 Do not delete an original by hand. Once the library is repaired again and a\n\
         \x20 game has launched and loaded a save, `librarybridge backup ab12` can remove it.\n"
    );
    let removed = run.steps.iter().position(|step| *step == UndoStep::RemoveLink).unwrap();
    let checked = run.steps.iter().position(|step| *step == UndoStep::CheckSource).unwrap();
    assert!(checked < removed);
    assert_eq!(live_path(&repaired()), "/data/compatdata");
    assert_eq!(original_path(&repaired()), "/mnt/games/steamapps/compatdata.backup");
}

#[test]
fn an_undo_is_refused_where_there_is_nothing_to_undo() {
    let mut run = Undo::new(|f, step| {
        if step == UndoStep::Inspect {
            f.report = Known::Got(Report {
                state: State::InterruptedAwaitingLink { backup: "/b".to_string() },
                ..repaired()
            });
            return true;
        }
        false
    });
    assert_eq!(run.run(&options()), Ok(UndoEnding::Refused(UndoRefusal::MidRepair)));
    assert_eq!(
        run.text,
        "this library is mid-repair. Your original is at /b. Either run `librarybridge fix ab12` to finish, or rename that directory back to compatdata by hand."
    );
    let mut run = Undo::new(|f, step| {
        if step == UndoStep::Inspect {
            f.report = Known::Got(Report {
                state: State::NotRepaired { prefixes: 1 },
                headline: "not repaired".to_string(),
                ..repaired()
            });
            return true;
        }
        false
    });
    assert_eq!(run.run(&options()), Ok(UndoEnding::Refused(UndoRefusal::NothingToUndo)));
    assert_eq!(run.text, "nothing to undo: this library is 'not repaired'.");
}

#[test]
fn an_undo_is_refused_where_it_is_not_safe() {
    let refused = |change: fn(&mut UndoFacts, UndoStep) -> bool| {
        let mut run = Undo::new(change);
        match run.run(&options()) {
            Ok(UndoEnding::Refused(why)) => (why, run.text, run.steps),
            other => panic!("{other:?}"),
        }
    };
    let (why, _, _) = refused(|f, step| {
        if step == UndoStep::Processes {
            f.running = Known::Got(vec!["steam".to_string()]);
            return true;
        }
        false
    });
    assert_eq!(why, UndoRefusal::Unready(Unready::Running));
    let (why, _, _) = refused(|f, step| {
        if step == UndoStep::LibraryMount {
            f.mount = Known::Got(Some(Mount {
                mount_point: "/mnt/games".to_string(),
                fs_type: "ntfs3".to_string(),
                described: "ntfs3".to_string(),
                capability: Capability::NeedsRepair,
                read_only: true,
            }));
            return true;
        }
        false
    });
    assert_eq!(why, UndoRefusal::Unready(Unready::ReadOnly));
    let (why, text, _) = refused(|f, step| {
        if step == UndoStep::Inventory {
            f.live = Known::Got(Live {
                bytes: size(1, "1 B"),
                escaping: vec![Escape { from: "a".to_string(), to: "../b".to_string() }],
            });
            return true;
        }
        false
    });
    assert_eq!(why, UndoRefusal::Escaping);
    assert!(text.contains(":\n  a -> ../b\n\nNothing was changed. The repair is still in place"), "{text}");
    let (why, text, _) = refused(|f, step| {
        if step == UndoStep::FreeSpace {
            f.free = Known::Got(Some(size(9, "9 B")));
            return true;
        }
        false
    });
    assert_eq!(why, UndoRefusal::NoRoom);
    assert_eq!(text, "not enough room on the game drive: 10 B needed, 9 B free.");
    let (why, text, steps) = refused(|f, step| {
        if step == UndoStep::CheckCopy {
            f.problems = Known::Got(vec!["x".to_string()]);
            return true;
        }
        false
    });
    assert_eq!(why, UndoRefusal::CopyDiffers);
    assert_eq!(text, "the copy back does not match, so the repair was left in place.\n  x");
    assert!(!steps.contains(&UndoStep::RemoveLink));
    let (why, text, steps) = refused(|f, step| {
        if step == UndoStep::CheckSource {
            f.changed = Known::Got(vec!["x".to_string()]);
            return true;
        }
        false
    });
    assert_eq!(why, UndoRefusal::SourceChanged);
    assert!(text.ends_with("Make sure Steam is closed and try again.\n  x"), "{text}");
    assert!(!steps.contains(&UndoStep::RemoveLink));
}

#[test]
fn an_undo_can_be_tried_declined_and_fail() {
    let mut run = Undo::new(|_, _| false);
    assert_eq!(run.run(&Options { dry_run: true, ..options() }), Ok(UndoEnding::DryRun));
    assert!(!run.steps.contains(&UndoStep::Lock));
    assert!(!run.steps.contains(&UndoStep::Copy));
    let mut run = Undo::new(|_, _| false);
    assert_eq!(run.run(&Options { assume_yes: false, ..options() }), Ok(UndoEnding::Cancelled));
    assert!(run.text.ends_with("\nContinue? [y/N] Cancelled. Nothing was changed.\n"));
    let mut run = Undo::new(|f, step| {
        if step == UndoStep::MoveBack {
            f.move_back = Known::Failed;
            return true;
        }
        false
    });
    assert_eq!(run.run(&options()), Err(UndoStep::MoveBack));
    assert_eq!(
        run.text,
        "broken. The data is safe at /mnt/games/steamapps/restore and at /data/compatdata."
    );
}

// ------------------------------------------------------------------ backup

struct Backup {
    report: Report,
    tried: (bool, bool),
    lacking: Vec<String>,
    steps: Vec<BackupStep>,
}

impl Backup {
    fn new() -> Backup {
        Backup { report: repaired(), tried: (true, true), lacking: vec![], steps: vec![] }
    }

    fn run(&mut self, o: &Options) -> (BackupEnding, String) {
        let mut f = BackupFacts {
            lock: Known::NotYet,
            report: Known::NotYet,
            tried: Known::NotYet,
            size: Known::NotYet,
            lacking: Known::NotYet,
            delete: Known::NotYet,
            clear_record: Known::NotYet,
        };
        loop {
            match backup(o, &f) {
                Next::Take(step) => {
                    self.steps.push(step);
                    match step {
                        BackupStep::Lock => f.lock = Known::Got(()),
                        BackupStep::Inspect => {
                            f.report = Known::Got(Report {
                                state: match &self.report.state {
                                    State::Repaired { target, prefixes } => State::Repaired {
                                        target: target.clone(),
                                        prefixes: *prefixes,
                                    },
                                    _ => State::Disconnected,
                                },
                                code: self.report.code.clone(),
                                headline: self.report.headline.clone(),
                                backups: self.report.backups.clone(),
                                existing_destination: None,
                                interrupted_restore: None,
                                abandoned_copy: None,
                            })
                        }
                        BackupStep::LoadEvidence => {
                            f.tried = Known::Got(Tried {
                                launched: self.tried.0,
                                saved: self.tried.1,
                            })
                        }
                        BackupStep::Measure => f.size = Known::Got(size(77, "77 B")),
                        BackupStep::Carry => f.lacking = Known::Got(self.lacking.clone()),
                        BackupStep::Delete => f.delete = Known::Got(()),
                        BackupStep::ClearRecord => f.clear_record = Known::Got(()),
                    }
                }
                Next::Stop(ending) => {
                    return (ending, backup_closing(o, &library(), &f, ending))
                }
                Next::Failed(step) => panic!("{step:?}"),
            }
        }
    }
}

#[test]
fn an_original_is_deleted_once_the_game_is_known_to_work() {
    let mut run = Backup::new();
    let (ending, text) = run.run(&options());
    assert_eq!(ending, BackupEnding::Deleted);
    assert!(run.steps.contains(&BackupStep::Delete));
    assert_eq!(
        text,
        "Deleted.\n  Original    /mnt/games/steamapps/compatdata.backup\n  Reclaimed   77 B\n"
    );
}

#[test]
fn an_original_is_kept_otherwise() {
    let mut run = Backup { tried: (true, false), ..Backup::new() };
    let (ending, text) = run.run(&options());
    assert_eq!(ending, BackupEnding::Refused(BackupRefusal::Untried));
    assert_eq!(
        text,
        "/mnt/games: the backup exists as insurance, and there is no evidence yet that the moved copy works. Answer these first (a repair cannot know the answers):\n     librarybridge evidence ab12 --record launch=yes\n     librarybridge evidence ab12 --record save=yes\nNothing was changed."
    );
    assert!(!run.steps.contains(&BackupStep::Delete));
    let mut run = Backup {
        lacking: vec!["a is missing".to_string(), "b is older".to_string()],
        ..Backup::new()
    };
    let (ending, text) = run.run(&options());
    assert_eq!(ending, BackupEnding::Refused(BackupRefusal::NotCarried));
    assert_eq!(
        text,
        "the original at /mnt/games/steamapps/compatdata.backup is not fully carried by the moved copy at /data/compatdata: a is missing; b is older. The original is kept, nothing was deleted."
    );
    let (ending, text) = run.run(&Options { dry_run: true, ..options() });
    assert_eq!(ending, BackupEnding::Refused(BackupRefusal::NotCarried));
    assert!(text.ends_with("This would NOT be deleted. Keep the backup."), "{text}");
    let disconnected = Report {
        state: State::Disconnected,
        headline: "drive not connected".to_string(),
        ..repaired()
    };
    let mut run = Backup { report: disconnected, ..Backup::new() };
    let (ending, text) = run.run(&options());
    assert_eq!(ending, BackupEnding::Refused(BackupRefusal::NotRepaired));
    assert_eq!(
        text,
        "/mnt/games: cannot delete a backup for this library because it is 'drive not connected'. Nothing was changed."
    );
}

#[test]
fn several_originals_cannot_be_tied_to_the_copy() {
    let two = Report {
        backups: vec!["/b".to_string(), "/c".to_string()],
        ..repaired()
    };
    let mut run = Backup { report: two, ..Backup::new() };
    let (ending, text) = run.run(&options());
    assert_eq!(ending, BackupEnding::Refused(BackupRefusal::NotCarried));
    assert!(
        text.contains("2 originals were found, so none can be tied to the moved copy"),
        "{text}"
    );
    assert!(!run.steps.contains(&BackupStep::Delete));
}

#[test]
fn deleting_can_be_tried() {
    let mut run = Backup::new();
    let (ending, text) = run.run(&Options { dry_run: true, ..options() });
    assert_eq!(ending, BackupEnding::DryRun);
    assert!(!run.steps.contains(&BackupStep::Lock));
    assert!(!run.steps.contains(&BackupStep::Delete));
    assert_eq!(
        text,
        "Library     /mnt/games\nName        games\nOriginal    /mnt/games/steamapps/compatdata.backup (77 B)\nCopy        /data/compatdata\nWould delete the original above. Every file it holds is present in the moved copy, at least as new.\nDry run. Nothing was deleted.\n"
    );
    let none = Report { backups: vec![], ..repaired() };
    let (ending, text) = Backup { report: none, ..Backup::new() }.run(&options());
    assert_eq!(ending, BackupEnding::NoneKept);
    assert_eq!(text, "No original kept for this library. Nothing to delete.\n");
}
