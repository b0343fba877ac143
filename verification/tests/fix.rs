//! Repairs, run against a world that is made up.

use librarybridge::fix::{
    ensure_expected_plan, fix, Both, Copied, Ending, Escape, Extent, Facts, Inventory, Refusal,
    Scope, Standing, Step, GROWTH_RESERVE,
};
use librarybridge::fix_text::{
    announce, closing, escape_lines, failure, identity_bytes, parent_of_target, plan_fingerprint,
    progress, refusal, Amounts,
};
use librarybridge::library::{Capability, Library, Mount, Options, Report, Size, State};
use librarybridge::path::existing_ancestor;
use librarybridge::protocol::{
    check_link, confirm, file_name, link_fault_message, link_parent, preflight, Known, LinkFault,
    LinkSeen, Next, Unready,
};

fn options() -> Options {
    Options {
        steam_root: None,
        data_dir: None,
        json: false,
        dry_run: false,
        force: false,
        assume_yes: true,
        roots: vec![],
        candidates: vec![],
        output: None,
        plan: None,
        entry: None,
        all: false,
        expect: None,
        record: None,
        keep_destination: false,
        replace_destination: false,
        apikey: None,
        game: None,
        query: None,
        cover_match: None,
        list_covers: false,
        matches: false,
        overwrite: false,
    }
}

fn library() -> Library {
    Library {
        id: "ab12".to_string(),
        path: "/mnt/games/SteamLibrary".to_string(),
        name: "games".to_string(),
        steam: "native".to_string(),
        flatpak: false,
        steamapps: "/mnt/games/SteamLibrary/steamapps".to_string(),
        compatdata: "/mnt/games/SteamLibrary/steamapps/compatdata".to_string(),
        target: "/home/a/.local/share/librarybridge/games-ab12/compatdata".to_string(),
        effective_target: "/home/a/.local/share/librarybridge/games-ab12/compatdata".to_string(),
        connected: true,
    }
}

fn size(bytes: u64, shown: &str) -> Size {
    Size { bytes, shown: shown.to_string() }
}

fn mount(point: &str, fs_type: &str, capability: Capability) -> Mount {
    Mount {
        mount_point: point.to_string(),
        fs_type: fs_type.to_string(),
        described: format!("{fs_type} at {point}"),
        capability,
        read_only: false,
    }
}

fn report(state: State) -> Report {
    Report {
        state,
        code: "not_repaired".to_string(),
        headline: "not repaired".to_string(),
        backups: vec![],
        existing_destination: None,
        interrupted_restore: None,
        abandoned_copy: None,
    }
}

fn inventory() -> Inventory {
    Inventory {
        entries: 3,
        bytes: size(1000, "1000 B"),
        digest: "d1".to_string(),
        hard_linked: 0,
        sparse: 0,
        sparse_saving: size(0, "0 B"),
        escaping: vec![],
    }
}

fn amounts() -> Amounts {
    Amounts { nothing: "0 B".to_string(), reserve: "2.0 GiB".to_string() }
}

fn facts() -> Facts {
    Facts {
        lock: Known::NotYet,
        report: Known::NotYet,
        running: Known::NotYet,
        mount: Known::NotYet,
        target_mount: Known::NotYet,
        same_directory: Known::NotYet,
        inventory: Known::NotYet,
        fingerprint: Known::NotYet,
        same_data: Known::NotYet,
        extents: Known::NotYet,
        free: Known::NotYet,
        scope: Known::NotYet,
        shown: Known::NotYet,
        confirmed: Known::NotYet,
        report_again: Known::NotYet,
        inventory_again: Known::NotYet,
        fingerprint_again: Known::NotYet,
        probe: Known::NotYet,
        parent: Known::NotYet,
        target_present: Known::NotYet,
        set_aside: Known::NotYet,
        copy: Known::NotYet,
        problems: Known::NotYet,
        changed: Known::NotYet,
        backup: Known::NotYet,
        record: Known::NotYet,
        sync_copy: Known::NotYet,
        publish: Known::NotYet,
        sync_published: Known::NotYet,
        note_published: Known::NotYet,
        open_library: Known::NotYet,
        source: Known::NotYet,
        resolves: Known::NotYet,
        move_original: Known::NotYet,
        sync_moved: Known::NotYet,
        note_backed_up: Known::NotYet,
        create_target: Known::NotYet,
        sync_created: Known::NotYet,
        make_link: Known::NotYet,
        link: Known::NotYet,
        sync_linked: Known::NotYet,
        clear_record: Known::NotYet,
        note_evidence: Known::NotYet,
        found_backup: Known::NotYet,
    }
}

/// What is taken for granted, and what is changed about it.
struct World {
    change: fn(&mut Facts, Step) -> bool,
    steps: Vec<Step>,
    text: String,
    facts: Facts,
}

enum End {
    Stop(Ending),
    Failed(Step),
}

impl World {
    fn new() -> World {
        World { change: |_, _| false, steps: vec![], text: String::new(), facts: facts() }
    }

    fn with(change: fn(&mut Facts, Step) -> bool) -> World {
        World { change, ..World::new() }
    }

    fn take(&mut self, step: Step) {
        if (self.change)(&mut self.facts, step) {
            return;
        }
        let f = &mut self.facts;
        match step {
            Step::Lock => f.lock = Known::Got(()),
            Step::Inspect => f.report = Known::Got(report(State::NotRepaired { prefixes: 2 })),
            Step::Processes => f.running = Known::Got(vec![]),
            Step::LibraryMount => {
                f.mount = Known::Got(Some(mount("/mnt/games", "ntfs3", Capability::NeedsRepair)))
            }
            Step::TargetMount => {
                f.target_mount = Known::Got(Some(mount("/", "ext4", Capability::Native)))
            }
            Step::SameDirectory => f.same_directory = Known::Got(false),
            Step::Inventory => f.inventory = Known::Got(inventory()),
            Step::Digest => f.fingerprint = Known::Got("0123456789abcdef".to_string()),
            Step::SameData => f.same_data = Known::Got(true),
            Step::Extents => {
                f.extents = Known::Got(Both {
                    there: Extent { files: 7, bytes: size(70, "70 B") },
                    here: Some(Extent { files: 1, bytes: size(10, "10 B") }),
                })
            }
            Step::FreeSpace => f.free = Known::Got(Some(size(u64::MAX, "plenty"))),
            Step::Scope => {
                f.scope = Known::Got(Scope {
                    installed: vec!["10".to_string(), "20".to_string()],
                    folders: vec!["30".to_string(), "10".to_string(), "11".to_string()],
                    backup: "/mnt/games/SteamLibrary/steamapps/compatdata.backup".to_string(),
                    aside: "/home/a/.local/share/librarybridge/games-ab12/previous".to_string(),
                })
            }
            Step::ShowPlan => f.shown = Known::Got(()),
            Step::Confirm => f.confirmed = Known::Got(true),
            Step::InspectAgain => {
                f.report_again = Known::Got(report(State::NotRepaired { prefixes: 2 }))
            }
            Step::InventoryAgain => f.inventory_again = Known::Got(inventory()),
            Step::DigestAgain => {
                f.fingerprint_again = Known::Got("0123456789abcdef".to_string())
            }
            Step::Probe => f.probe = Known::Got(()),
            Step::CreateParent => f.parent = Known::Got(()),
            Step::LookAtTarget => f.target_present = Known::Got(false),
            Step::SetTargetAside => f.set_aside = Known::Got("/aside".to_string()),
            Step::Copy => {
                f.copy = Known::Got(Copied {
                    files: 2,
                    dirs: 1,
                    symlinks: 0,
                    hard_linked: 0,
                    bytes: size(1000, "1000 B"),
                })
            }
            Step::CheckCopy => f.problems = Known::Got(vec![]),
            Step::CheckSource => f.changed = Known::Got(vec![]),
            Step::NameBackup => {
                f.backup =
                    Known::Got("/mnt/games/SteamLibrary/steamapps/compatdata.backup".to_string())
            }
            Step::WriteRecord => f.record = Known::Got(()),
            Step::SyncCopy => f.sync_copy = Known::Got(()),
            Step::Publish => f.publish = Known::Got(()),
            Step::SyncPublished => f.sync_published = Known::Got(()),
            Step::NotePublished => f.note_published = Known::Got(()),
            Step::OpenLibrary => f.open_library = Known::Got(()),
            Step::LookAtSource => {
                f.source =
                    Known::Got(Standing { directory: true, label: "directory".to_string() })
            }
            Step::ResolveSource => f.resolves = Known::Got(true),
            Step::MoveOriginal => f.move_original = Known::Got(()),
            Step::SyncMoved => f.sync_moved = Known::Got(()),
            Step::NoteBackedUp => f.note_backed_up = Known::Got(()),
            Step::CreateTarget => f.create_target = Known::Got(()),
            Step::SyncCreated => f.sync_created = Known::Got(()),
            Step::MakeLink => f.make_link = Known::Got(()),
            Step::ReadLink => {
                f.link = Known::Got(LinkSeen {
                    is_symlink: true,
                    points_at: library().effective_target,
                    readable: true,
                })
            }
            Step::SyncLinked => f.sync_linked = Known::Got(()),
            Step::ClearRecord => f.clear_record = Known::Got(()),
            Step::NoteEvidence => f.note_evidence = Known::Got(()),
            Step::FindBackup => {
                f.found_backup = Known::Got(Some(
                    "/mnt/games/SteamLibrary/steamapps/compatdata.backup".to_string(),
                ))
            }
        }
    }

    fn run(&mut self, o: &Options) -> End {
        let l = library();
        loop {
            match fix(o, &l, &self.facts) {
                Next::Take(step) => {
                    self.text
                        .push_str(&announce(o, &l, &self.facts, &amounts(), true, step));
                    self.steps.push(step);
                    self.take(step);
                }
                Next::Stop(Ending::Refused(why)) => {
                    self.text = refusal(o, &l, &self.facts, &amounts(), why);
                    return End::Stop(Ending::Refused(why));
                }
                Next::Stop(ending) => {
                    self.text.push_str(&closing(o, &l, &self.facts, ending));
                    return End::Stop(ending);
                }
                Next::Failed(step) => {
                    self.text = failure(&l, step, "broken");
                    return End::Failed(step);
                }
            }
        }
    }

    fn refused(change: fn(&mut Facts, Step) -> bool, o: &Options) -> (Refusal, String) {
        let mut world = World::with(change);
        match world.run(o) {
            End::Stop(Ending::Refused(why)) => (why, world.text),
            End::Stop(other) => panic!("{other:?}"),
            End::Failed(step) => panic!("{step:?}"),
        }
    }
}

fn touches(step: &Step) -> bool {
    matches!(
        step,
        Step::Lock
            | Step::Probe
            | Step::CreateParent
            | Step::SetTargetAside
            | Step::Copy
            | Step::WriteRecord
            | Step::SyncCopy
            | Step::Publish
            | Step::SyncPublished
            | Step::NotePublished
            | Step::MoveOriginal
            | Step::SyncMoved
            | Step::NoteBackedUp
            | Step::CreateTarget
            | Step::SyncCreated
            | Step::MakeLink
            | Step::SyncLinked
            | Step::ClearRecord
            | Step::NoteEvidence
    )
}

#[test]
fn a_repair_takes_its_steps_in_order() {
    let mut world = World::new();
    assert!(matches!(world.run(&options()), End::Stop(Ending::Applied)));
    assert_eq!(
        world.steps,
        vec![
            Step::Lock,
            Step::Inspect,
            Step::Processes,
            Step::LibraryMount,
            Step::TargetMount,
            Step::SameDirectory,
            Step::Inventory,
            Step::Digest,
            Step::FreeSpace,
            Step::Scope,
            Step::ShowPlan,
            Step::Probe,
            Step::CreateParent,
            Step::LookAtTarget,
            Step::Copy,
            Step::CheckCopy,
            Step::CheckSource,
            Step::NameBackup,
            Step::WriteRecord,
            Step::SyncCopy,
            Step::Publish,
            Step::SyncPublished,
            Step::NotePublished,
            Step::OpenLibrary,
            Step::LookAtSource,
            Step::ResolveSource,
            Step::MoveOriginal,
            Step::SyncMoved,
            Step::NoteBackedUp,
            Step::MakeLink,
            Step::ReadLink,
            Step::SyncLinked,
            Step::ClearRecord,
            Step::NoteEvidence,
            Step::FindBackup,
        ]
    );
}

#[test]
fn a_repair_says_what_it_does() {
    let mut world = World::new();
    world.run(&options());
    assert_eq!(
        world.text,
        "Library     /mnt/games/SteamLibrary\n\
         Name        games\n\
         Games       2 installed, 3 prefix folders\n\
         Unknown     2 folders with no installed game: 11, 30\n\
         Filesystem  ntfs3 at /mnt/games\n\
         Source      /mnt/games/SteamLibrary/steamapps/compatdata\n\
         Destination /home/a/.local/share/librarybridge/games-ab12/compatdata\n\
         To copy     1000 B\n\
         Backup      /mnt/games/SteamLibrary/steamapps/compatdata.backup (the original, kept in place)\n\
         Plan        0123456789abcdef\n\
         Checks      symlink support is tested when you apply; path containment is enforced by the kernel\n\
         \n\
         Copying...\n\
         \x20 2 files, 1 directories, 0 symlinks, 1000 B\n\
         Checking every file...\n\
         \x20 every file matches\n\
         \n\
         Moving the original aside...\n\
         \x20 /mnt/games/SteamLibrary/steamapps/compatdata.backup\n\
         Linking...\n\
         \n\
         Done.\n\
         \x20 Proton data now lives at   /home/a/.local/share/librarybridge/games-ab12/compatdata\n\
         \x20 Steam still sees it at     /mnt/games/SteamLibrary/steamapps/compatdata\n\
         \n\
         The original is still on the game drive. Do not delete it by hand. Once a game\n\
         has launched and loaded a save, `librarybridge backup ab12` can remove it to\n\
         reclaim the space.\n"
    );
}

#[test]
fn a_dry_run_touches_nothing() {
    let mut world = World::new();
    let o = Options { dry_run: true, ..options() };
    assert!(matches!(world.run(&o), End::Stop(Ending::DryRun)));
    assert!(!world.steps.iter().any(touches), "{:?}", world.steps);
    assert!(world.text.ends_with("\nDry run. Nothing was changed.\n"));
}

#[test]
fn a_dry_run_gives_the_plan_as_data() {
    let mut world = World::with(|f, step| {
        if step == Step::Inventory {
            f.inventory = Known::Got(Inventory { hard_linked: 2, ..inventory() });
            return true;
        }
        if step == Step::FreeSpace {
            f.free = Known::Got(Some(size(GROWTH_RESERVE + 5000, "2.0 GiB")));
            return true;
        }
        false
    });
    let o = Options { dry_run: true, json: true, ..options() };
    assert!(matches!(world.run(&o), End::Stop(Ending::Plan)));
    assert_eq!(
        world.text,
        "{\n  \"schema\": 1,\n  \"fingerprint\": \"0123456789abcdef\",\n  \"kind\": \"repair\",\n  \
         \"library_id\": \"ab12\",\n  \"library\": \"/mnt/games/SteamLibrary\",\n  \
         \"state\": \"not_repaired\",\n  \"steam\": \"native\",\n  \
         \"source\": \"/mnt/games/SteamLibrary/steamapps/compatdata\",\n  \
         \"destination\": \"/home/a/.local/share/librarybridge/games-ab12/compatdata\",\n  \
         \"backup\": \"/mnt/games/SteamLibrary/steamapps/compatdata.backup\",\n  \
         \"copy_bytes\": 1000,\n  \"reserve_bytes\": 2147483648,\n  \
         \"available_bytes\": 2147488648,\n  \"expected_remaining_bytes\": 2147487648,\n  \
         \"installed_games\": 2,\n  \"prefix_folders\": 3,\n  \
         \"unknown_folders\": [\"11\", \"30\"],\n  \
         \"consequences\": [\"Game installation files stay on the game drive.\", \
         \"2 files have more than one name. The copy does not preserve hard links: each name becomes an independent file.\"]\n}\n"
    );
}

#[test]
fn an_apply_for_machines_is_a_stream_of_events() {
    let mut world = World::new();
    let o = Options { json: true, ..options() };
    assert!(matches!(world.run(&o), End::Stop(Ending::Applied)));
    let events: Vec<&str> =
        world.text.lines().filter(|line| line.starts_with("{\"event\"")).collect();
    assert_eq!(
        events,
        vec![
            "{\"event\": \"preparing\"}",
            "{\"event\": \"copying\", \"total_bytes\": 1000}",
            "{\"event\": \"verifying\"}",
            "{\"event\": \"committing\"}",
            "{\"event\": \"applied\", \"destination\": \"/home/a/.local/share/librarybridge/games-ab12/compatdata\", \"backup\": \"/mnt/games/SteamLibrary/steamapps/compatdata.backup\"}",
        ]
    );
}

#[test]
fn a_library_without_data_gets_an_empty_destination() {
    let mut world = World::with(|f, step| {
        if step == Step::Inspect {
            f.report = Known::Got(report(State::NoCompatdata));
            return true;
        }
        false
    });
    assert!(matches!(world.run(&options()), End::Stop(Ending::Applied)));
    assert!(world.steps.contains(&Step::CreateTarget));
    assert!(!world.steps.contains(&Step::Copy));
    assert!(!world.steps.contains(&Step::MoveOriginal));
    assert!(world.text.contains("Backup      not needed, this library has no Proton data yet\n"));
    assert!(!world.text.contains("The original is still on the game drive."));
}

#[test]
fn refusing_is_the_answer_to_a_no() {
    let mut world = World::with(|f, step| {
        if step == Step::Confirm {
            f.confirmed = Known::Got(confirm("no\n"));
            return true;
        }
        false
    });
    let o = Options { assume_yes: false, ..options() };
    assert!(matches!(world.run(&o), End::Stop(Ending::Cancelled)));
    assert!(world.text.ends_with("\nContinue? [y/N] Cancelled. Nothing was changed.\n"));
    assert_eq!(world.steps.iter().filter(|step| touches(step)).count(), 1);
}

#[test]
fn only_a_plain_yes_agrees() {
    for yes in ["y", "Y\n", " yes ", "Yes\n"] {
        assert!(confirm(yes), "{yes:?}");
    }
    for no in ["", "n", "YES", "yeah", "y y"] {
        assert!(!confirm(no), "{no:?}");
    }
}

#[test]
fn an_earlier_run_is_finished_and_a_repaired_library_left_alone() {
    let mut world = World::with(|f, step| {
        if step == Step::Inspect {
            f.report =
                Known::Got(report(State::InterruptedAwaitingLink { backup: "/b".to_string() }));
            return true;
        }
        false
    });
    assert!(matches!(world.run(&options()), End::Stop(Ending::Interrupted)));
    assert!(world.steps.contains(&Step::Processes));
    let mut world = World::with(|f, step| {
        if step == Step::Inspect {
            f.report =
                Known::Got(report(State::Repaired { target: "/t".to_string(), prefixes: 1 }));
            return true;
        }
        false
    });
    assert!(matches!(world.run(&options()), End::Stop(Ending::AlreadyRepaired)));
    assert!(world
        .text
        .ends_with("State       already repaired, pointing at /t\nNothing to do.\n"));
}

#[test]
fn steam_has_to_be_closed() {
    let (why, text) = World::refused(
        |f, step| {
            if step == Step::Processes {
                f.running = Known::Got(vec!["steam".to_string(), "wine".to_string()]);
                return true;
            }
            false
        },
        &options(),
    );
    assert_eq!(why, Refusal::Unready(Unready::Running));
    assert_eq!(
        text,
        "these processes are running: steam, wine. Close Steam and any running game first, otherwise writes made during the move would be lost."
    );
    let (why, text) = World::refused(
        |f, step| {
            if step == Step::LibraryMount {
                f.mount = Known::Got(Some(Mount {
                    read_only: true,
                    ..mount("/mnt/games", "ntfs3", Capability::NeedsRepair)
                }));
                return true;
            }
            false
        },
        &options(),
    );
    assert_eq!(why, Refusal::Unready(Unready::ReadOnly));
    assert_eq!(
        text,
        "/mnt/games is mounted read-only. Remount it writable and try again. A Windows fast-startup or hibernation state is the usual cause."
    );
    let mut world = World::with(|f, step| {
        if step == Step::Processes {
            f.running = Known::Failed;
            return true;
        }
        false
    });
    assert!(matches!(world.run(&options()), End::Failed(Step::Processes)));
    assert_eq!(
        world.text,
        "broken. LibraryBridge will not change a library while it cannot tell whether Steam is running, because writes made during the move would be lost."
    );
}

#[test]
fn the_state_has_to_allow_it() {
    let (why, text) = World::refused(
        |f, step| {
            if step == Step::Inspect {
                f.report = Known::Got(report(State::Disconnected));
                return true;
            }
            false
        },
        &options(),
    );
    assert_eq!(why, Refusal::State);
    assert_eq!(
        text,
        "/mnt/games/SteamLibrary: cannot repair while the library is in the state 'not repaired'. Run `librarybridge scan` for details."
    );
}

#[test]
fn the_filesystem_has_to_need_it() {
    let exfat = |f: &mut Facts, step: Step| {
        if step == Step::LibraryMount {
            f.mount = Known::Got(Some(mount("/mnt/games", "exfat", Capability::NoSymlinks)));
            return true;
        }
        false
    };
    let forced = Options { force: true, ..options() };
    let (why, text) = World::refused(exfat, &forced);
    assert_eq!(why, Refusal::NoSymlinks);
    assert_eq!(
        text,
        "/mnt/games/SteamLibrary is on exfat, which has no symlink support. This repair cannot work there. Use Steam to move the library to a Linux filesystem instead."
    );
    let ext4 = |f: &mut Facts, step: Step| {
        if step == Step::LibraryMount {
            f.mount = Known::Got(Some(mount("/mnt/games", "ext4", Capability::Native)));
            return true;
        }
        false
    };
    let (why, text) = World::refused(ext4, &options());
    assert_eq!(why, Refusal::Native);
    assert_eq!(
        text,
        "/mnt/games/SteamLibrary is already on ext4, a Linux filesystem. There is nothing to repair. Pass --force to do it anyway."
    );
    assert!(matches!(World::with(ext4).run(&forced), End::Stop(Ending::Applied)));
    let unknown = |f: &mut Facts, step: Step| {
        if step == Step::LibraryMount {
            f.mount = Known::Got(None);
            return true;
        }
        false
    };
    let (why, text) = World::refused(unknown, &options());
    assert_eq!(why, Refusal::Unidentified);
    assert!(text.starts_with("the filesystem under /mnt/games/SteamLibrary could not be identified"));
    assert!(matches!(World::with(unknown).run(&forced), End::Stop(Ending::Applied)));
}

#[test]
fn the_destination_has_to_be_elsewhere() {
    let (why, text) = World::refused(
        |f, step| {
            if step == Step::TargetMount {
                f.target_mount =
                    Known::Got(Some(mount("/mnt//games/", "ntfs3", Capability::NeedsRepair)));
                return true;
            }
            false
        },
        &options(),
    );
    assert_eq!(why, Refusal::SameFilesystem);
    assert_eq!(
        text,
        "the destination /home/a/.local/share/librarybridge/games-ab12/compatdata is on the same filesystem as the library. Moving the data there would not fix anything."
    );
    let (why, text) = World::refused(
        |f, step| {
            if step == Step::SameDirectory {
                f.same_directory = Known::Got(true);
                return true;
            }
            false
        },
        &options(),
    );
    assert_eq!(why, Refusal::SameDirectory);
    assert_eq!(
        text,
        "the destination /home/a/.local/share/librarybridge/games-ab12/compatdata is the same directory as the library itself. Moving the data there would not fix anything."
    );
}

#[test]
fn the_destination_has_to_hold_proton_data() {
    let exfat = |f: &mut Facts, step: Step| {
        if step == Step::TargetMount {
            f.target_mount = Known::Got(Some(mount("/mnt/usb", "exfat", Capability::NoSymlinks)));
            return true;
        }
        false
    };
    let ntfs = |f: &mut Facts, step: Step| {
        if step == Step::TargetMount {
            f.target_mount = Known::Got(Some(mount("/mnt/usb", "ntfs3", Capability::NeedsRepair)));
            return true;
        }
        false
    };
    for force in [false, true] {
        let o = Options { force, ..options() };
        let (why, text) = World::refused(exfat, &o);
        assert_eq!(why, Refusal::Destination);
        assert_eq!(
            text,
            "the destination /home/a/.local/share/librarybridge/games-ab12/compatdata is on exfat, where Proton data cannot live. Choose a Linux filesystem with --data-dir."
        );
        let (why, text) = World::refused(ntfs, &o);
        assert_eq!(why, Refusal::Destination);
        assert!(text.contains(" is on ntfs3, "), "{text}");
        let mut world = World::with(exfat);
        world.run(&o);
        assert_eq!(world.steps.iter().filter(|step| touches(step)).count(), 1);
    }
    let mut world = World::with(|f, step| {
        if step == Step::TargetMount {
            f.target_mount = Known::Got(None);
            return true;
        }
        false
    });
    assert!(matches!(world.run(&options()), End::Stop(Ending::Applied)));
}

#[test]
fn files_with_several_names_are_announced() {
    let mut world = World::with(|f, step| {
        if step == Step::Inventory {
            f.inventory = Known::Got(Inventory { hard_linked: 2, ..inventory() });
            return true;
        }
        false
    });
    world.run(&options());
    assert!(world
        .text
        .contains("Shared      2 files have more than one name; each name becomes an independent file\n"));
}

#[test]
fn a_quoted_plan_binds_every_way_on() {
    let other = Options { expect: Some("ffff".to_string()), keep_destination: true, ..options() };
    let (why, text) = World::refused(occupied, &other);
    assert_eq!(why, Refusal::Changed);
    assert_eq!(
        text,
        "this library has changed since the plan was reviewed. It was ffff and is now 0123456789abcdef. Nothing was done. Review it again."
    );
    let quoted = Options {
        expect: Some("0123456789abcdef".to_string()),
        keep_destination: true,
        ..options()
    };
    assert!(matches!(World::with(occupied).run(&quoted), End::Stop(Ending::Keep)));
    let interrupted = |f: &mut Facts, step: Step| {
        if step == Step::Inspect {
            f.report =
                Known::Got(report(State::InterruptedAwaitingLink { backup: "/b".to_string() }));
            return true;
        }
        false
    };
    assert_eq!(World::refused(interrupted, &other).0, Refusal::Changed);
    assert!(matches!(World::with(interrupted).run(&quoted), End::Stop(Ending::Interrupted)));
}

#[test]
fn links_that_lead_out_are_listed() {
    let (why, text) = World::refused(
        |f, step| {
            if step == Step::Inventory {
                let escaping = (0..12)
                    .map(|i| Escape { from: format!("a{i}"), to: format!("../b{i}") })
                    .collect();
                f.inventory = Known::Got(Inventory { escaping, ..inventory() });
                return true;
            }
            false
        },
        &options(),
    );
    assert_eq!(why, Refusal::Escaping);
    assert!(text.contains("\n  a0 -> ../b0\n"), "{text}");
    assert!(text.contains("\n  a9 -> ../b9\n"), "{text}");
    assert!(!text.contains("a10"), "{text}");
    assert_eq!(
        escape_lines(&vec![Escape { from: "x".to_string(), to: "y".to_string() }]),
        vec!["  x -> y".to_string()]
    );
}

fn occupied(f: &mut Facts, step: Step) -> bool {
    match step {
        Step::Inspect => {
            f.report = Known::Got(Report {
                existing_destination: Some("/home/a/there".to_string()),
                ..report(State::NotRepaired { prefixes: 1 })
            });
            true
        }
        Step::SameData => {
            f.same_data = Known::Got(false);
            true
        }
        _ => false,
    }
}

#[test]
fn a_conflict_is_left_to_the_user() {
    let (why, text) = World::refused(occupied, &options());
    assert_eq!(why, Refusal::Conflict);
    assert_eq!(
        text,
        "two different sets of Proton data exist, and only you can say which one counts.\n\
         \n\
         \x20 at the destination: /home/a/there (7 files, 70 B)\n\
         \x20 on the game drive:  /mnt/games/SteamLibrary/steamapps/compatdata (1 files, 10 B)\n\
         \n\
         This usually means an earlier repair was interrupted and Steam recreated\n\
         compatdata before it could be finished. If so, the destination holds your real\n\
         prefixes and the game drive holds a fresh empty one.\n\
         \n\
         Nothing has been changed. Look at both, then choose:\n\
         \n\
         \x20 librarybridge fix ab12 --keep-destination     keep the destination, set the game drive copy aside\n\
         \x20 librarybridge fix ab12 --replace-destination  keep the game drive copy, set the destination aside\n\
         \n\
         Either way, both copies are kept."
    );
    let keep = Options { keep_destination: true, ..options() };
    assert!(matches!(World::with(occupied).run(&keep), End::Stop(Ending::Keep)));
    let replace = Options { replace_destination: true, ..options() };
    assert!(matches!(World::with(occupied).run(&replace), End::Stop(Ending::Applied)));
}

#[test]
fn the_same_data_at_the_destination_is_set_aside() {
    let mut world = World::with(|f, step| {
        if step == Step::SameData {
            f.same_data = Known::Got(true);
            return true;
        }
        if step == Step::LookAtTarget {
            f.target_present = Known::Got(true);
            return true;
        }
        occupied(f, step)
    });
    assert!(matches!(world.run(&options()), End::Stop(Ending::Applied)));
    assert!(world.steps.contains(&Step::SetTargetAside));
    assert!(world.text.contains("Set aside a copy from an earlier repair: /aside\n"));
    assert!(world.text.contains(
        "Note        a copy is already at the destination and will be renamed to /home/a/.local/share/librarybridge/games-ab12/previous\n"
    ));
}

#[test]
fn there_has_to_be_room() {
    let (why, text) = World::refused(
        |f, step| {
            if step == Step::FreeSpace {
                f.free = Known::Got(Some(size(GROWTH_RESERVE + 999, "2.0 GiB")));
                return true;
            }
            false
        },
        &options(),
    );
    assert_eq!(why, Refusal::NoRoom);
    assert_eq!(
        text,
        "not enough room at /home/a/.local/share/librarybridge/games-ab12. The copy needs 1000 B plus 2.0 GiB spare, and only 2.0 GiB is free."
    );
    let mut world = World::with(|f, step| {
        if step == Step::FreeSpace {
            f.free = Known::Got(None);
            return true;
        }
        false
    });
    assert!(matches!(world.run(&options()), End::Stop(Ending::Applied)));
    assert!(world.text.contains("Space       could not be checked on this system\n"));
    let mut huge = World::with(|f, step| {
        if step == Step::Inventory {
            f.inventory = Known::Got(Inventory {
                bytes: size(u64::MAX, "all"),
                sparse_saving: size(u64::MAX, "all"),
                ..inventory()
            });
            return true;
        }
        false
    });
    assert!(matches!(huge.run(&options()), End::Stop(Ending::Refused(Refusal::NoRoom))));
}

#[test]
fn a_quoted_plan_has_to_be_the_one() {
    let quoted = Options { expect: Some("0123456789abcdef".to_string()), ..options() };
    let mut world = World::new();
    assert!(matches!(world.run(&quoted), End::Stop(Ending::Applied)));
    assert!(world.steps.contains(&Step::InventoryAgain));
    let other = Options { expect: Some("ffff".to_string()), ..options() };
    let (why, text) = World::refused(|_, _| false, &other);
    assert_eq!(why, Refusal::Changed);
    assert_eq!(
        text,
        "this library has changed since the plan was reviewed. It was ffff and is now 0123456789abcdef. Nothing was done. Review it again."
    );
    let (why, text) = World::refused(
        |f, step| {
            if step == Step::DigestAgain {
                f.fingerprint_again = Known::Got("new".to_string());
                return true;
            }
            false
        },
        &quoted,
    );
    assert_eq!(why, Refusal::ChangedAgain);
    assert!(text.contains("is now new."), "{text}");
    assert!(ensure_expected_plan(&None, "x"));
    assert!(ensure_expected_plan(&Some("x".to_string()), "x"));
    assert!(!ensure_expected_plan(&Some("y".to_string()), "x"));
}

#[test]
fn a_copy_that_is_not_right_stops_the_repair() {
    let (why, text) = World::refused(
        |f, step| {
            if step == Step::CheckCopy {
                f.problems = Known::Got((0..11).map(|i| format!("p{i}")).collect());
                return true;
            }
            false
        },
        &options(),
    );
    assert_eq!(why, Refusal::CopyDiffers);
    assert_eq!(
        text,
        "the copy does not match the source, so nothing on the game drive was touched.\n  p0\n  p1\n  p2\n  p3\n  p4\n  p5\n  p6\n  p7\n  p8\n  p9"
    );
    let (why, text) = World::refused(
        |f, step| {
            if step == Step::CheckSource {
                f.changed = Known::Got(vec!["save".to_string()]);
                return true;
            }
            false
        },
        &options(),
    );
    assert_eq!(why, Refusal::SourceChanged);
    assert_eq!(
        text,
        "the source changed while it was being copied, so nothing on the game drive was touched. Make sure Steam is closed and try again.\n  save"
    );
}

#[test]
fn a_source_that_was_swapped_stops_the_repair() {
    let (why, text) = World::refused(
        |f, step| {
            if step == Step::LookAtSource {
                f.source = Known::Got(Standing { directory: false, label: "symlink".to_string() });
                return true;
            }
            false
        },
        &options(),
    );
    assert_eq!(why, Refusal::SourceReplaced);
    assert_eq!(
        text,
        "/mnt/games/SteamLibrary/steamapps/compatdata is a symlink now, not a directory. Something changed it since this repair was planned, so nothing was moved."
    );
    let (why, text) = World::refused(
        |f, step| {
            if step == Step::ResolveSource {
                f.resolves = Known::Got(false);
                return true;
            }
            false
        },
        &options(),
    );
    assert_eq!(why, Refusal::SourceMoved);
    assert_eq!(
        text,
        "/mnt/games/SteamLibrary/steamapps/compatdata no longer resolves inside /mnt/games/SteamLibrary/steamapps. Something replaced a directory along that path since this repair was planned, so nothing was moved."
    );
}

#[test]
fn the_link_is_read_back() {
    let (why, text) = World::refused(
        |f, step| {
            if step == Step::ReadLink {
                f.link = Known::Got(LinkSeen {
                    is_symlink: true,
                    points_at: "/elsewhere".to_string(),
                    readable: true,
                });
                return true;
            }
            false
        },
        &options(),
    );
    assert_eq!(why, Refusal::Link(LinkFault::Elsewhere));
    assert_eq!(
        text,
        "/mnt/games/SteamLibrary/steamapps/compatdata: link points at /elsewhere instead of /home/a/.local/share/librarybridge/games-ab12/compatdata"
    );
    let seen = |is_symlink: bool, readable: bool| LinkSeen {
        is_symlink,
        points_at: "/t".to_string(),
        readable,
    };
    assert_eq!(check_link("/t", &seen(true, true)), None);
    assert_eq!(check_link("/t", &seen(false, true)), Some(LinkFault::NotSymlink));
    assert_eq!(check_link("/t", &seen(true, false)), Some(LinkFault::Unreadable));
    assert_eq!(
        link_fault_message(LinkFault::NotSymlink, "/l", "/t", &seen(false, true)),
        "/l: did not end up as a symlink"
    );
    assert_eq!(
        link_fault_message(LinkFault::Unreadable, "/l", "/t", &seen(true, false)),
        "/l: the link was created but the destination is not readable through it"
    );
}

#[test]
fn a_step_that_fails_ends_the_run() {
    let mut world = World::with(|f, step| {
        if step == Step::MoveOriginal {
            f.move_original = Known::Failed;
            return true;
        }
        false
    });
    assert!(matches!(world.run(&options()), End::Failed(Step::MoveOriginal)));
    assert_eq!(
        world.text,
        "broken. The copy is complete at /home/a/.local/share/librarybridge/games-ab12/compatdata, and the original is untouched."
    );
    assert!(!world.steps.contains(&Step::MakeLink));
    let mut world = World::with(|f, step| {
        if step == Step::NoteEvidence {
            f.note_evidence = Known::Failed;
            return true;
        }
        false
    });
    assert!(matches!(world.run(&options()), End::Stop(Ending::Applied)));
}

#[test]
fn the_identity_of_a_plan_is_laid_out_in_bytes() {
    let l = Library {
        id: "i".to_string(),
        path: "p".to_string(),
        compatdata: "c".to_string(),
        effective_target: "t".to_string(),
        ..library()
    };
    let r = Report { code: "s".to_string(), ..report(State::NoCompatdata) };
    let mut expected = b"i\0p\0c\0t\0s\0".to_vec();
    expected.extend(3u64.to_le_bytes());
    expected.extend(1000u64.to_le_bytes());
    expected.extend(b"d1");
    assert_eq!(identity_bytes(&l, &r, Some(&inventory())), expected);
    let mut empty = b"i\0p\0c\0t\0s\0".to_vec();
    empty.extend([0u8; 16]);
    assert_eq!(identity_bytes(&l, &r, None), empty);
    let big = Inventory { entries: 258, bytes: size(0x0102030405060708, "x"), ..inventory() };
    let mut expected = b"i\0p\0c\0t\0s\0".to_vec();
    expected.extend(258u64.to_le_bytes());
    expected.extend(0x0102030405060708u64.to_le_bytes());
    expected.extend(b"d1");
    assert_eq!(identity_bytes(&l, &r, Some(&big)), expected);
    assert_eq!(plan_fingerprint("0123456789abcdef0123"), "0123456789abcdef");
}

#[test]
fn paths_are_taken_apart() {
    assert_eq!(parent_of_target(&library()), "/home/a/.local/share/librarybridge/games-ab12");
    assert_eq!(file_name("/a/b/"), Ok("b".to_string()));
    assert_eq!(file_name("/"), Err("/: has no final component".to_string()));
    assert_eq!(link_parent("/a/b"), Ok("/a".to_string()));
    assert_eq!(link_parent("/"), Err("/: has no parent directory".to_string()));
    let there = |flags: &[bool]| existing_ancestor("/a/b/c", &flags.to_vec());
    assert_eq!(there(&[true]), "/a/b/c");
    assert_eq!(there(&[false, false, true]), "/a");
    assert_eq!(there(&[false, false, false, true]), "/");
}

#[test]
fn the_library_has_to_be_ready() {
    assert_eq!(preflight(&vec![], &None), None);
    assert_eq!(preflight(&vec!["steam".to_string()], &None), Some(Unready::Running));
}

#[test]
fn progress_is_shown_now_and_then() {
    assert_eq!(
        progress(true, 250, &size(77, "77 B")),
        "{\"event\": \"progress\", \"files\": 250, \"bytes\": 77}\n"
    );
    assert_eq!(progress(false, 250, &size(77, "77 B")), "\r  250 files, 77 B");
}
