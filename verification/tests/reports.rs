//! What scans, evidence and storage report.

use librarybridge::evidence::{
    evidence, not_answer, not_pair, recorded, request, would_record, writes_answer, Request, Row,
};
use librarybridge::library::{Capability, Held, Library, Mount, Options, Report, Size, State};
use librarybridge::scan::{advice, repair_blocker, scan, scan_json, Install, Seen};
use librarybridge::storage::{
    leftover_to_measure, live_to_measure, storage, Stored, Volume,
};

fn options() -> Options {
    Options {
        steam_root: None,
        data_dir: None,
        json: false,
        dry_run: false,
        force: false,
        assume_yes: false,
        roots: vec![],
        candidates: vec![],
        output: None,
        plan: None,
        entry: None,
        all: false,
        expect: None,
        record: None,
        keep_destination: false,
        replace_destination: false,
        apikey: None,
        game: None,
        query: None,
        cover_match: None,
        list_covers: false,
        matches: false,
        overwrite: false,
    }
}

fn library() -> Library {
    Library {
        id: "ab12".to_string(),
        path: "/mnt/games".to_string(),
        name: "games".to_string(),
        steam: "native".to_string(),
        flatpak: false,
        steamapps: "/mnt/games/steamapps".to_string(),
        compatdata: "/mnt/games/steamapps/compatdata".to_string(),
        target: "/data/compatdata".to_string(),
        effective_target: "/data/compatdata".to_string(),
        connected: true,
    }
}

fn report(state: State) -> Report {
    Report {
        state,
        code: "code".to_string(),
        headline: "headline".to_string(),
        backups: vec![],
        existing_destination: None,
        interrupted_restore: None,
        abandoned_copy: None,
    }
}

fn mount(capability: Capability) -> Mount {
    Mount {
        mount_point: "/mnt/games".to_string(),
        fs_type: "ntfs3".to_string(),
        described: "ntfs3".to_string(),
        capability,
        read_only: false,
    }
}

fn size(bytes: u64, shown: &str) -> Size {
    Size { bytes, shown: shown.to_string() }
}

#[test]
fn a_scan_without_libraries_says_where_it_looked() {
    assert_eq!(
        scan(&options(), "0.1.0", &vec![], &vec![], &vec!["x".to_string()]),
        "No Steam libraries found.\n\nLooked for Steam in the usual places under your home directory.\nIf Steam is installed somewhere else, point at it directly:\n    librarybridge --steam-root /path/to/Steam scan\n  note: x\n"
    );
}

#[test]
fn a_scan_lists_what_it_found() {
    let installs = vec![Install { kind: "native".to_string(), root: "/home/a/Steam".to_string() }];
    let seen = vec![
        Seen {
            library: library(),
            report: Report {
                backups: vec!["/b".to_string()],
                existing_destination: Some("/d".to_string()),
                interrupted_restore: Some("/r".to_string()),
                abandoned_copy: Some("/c".to_string()),
                ..report(State::NotRepaired { prefixes: 2 })
            },
            mount: Some(mount(Capability::NeedsRepair)),
            titles: ["Delta", "Alpha", "Charlie", "Bravo"].iter().map(|t| t.to_string()).collect(),
        },
        Seen {
            library: library(),
            report: report(State::Repaired { target: "/t".to_string(), prefixes: 1 }),
            mount: None,
            titles: vec!["Solo".to_string()],
        },
    ];
    assert_eq!(
        scan(&options(), "0.1.0", &installs, &seen, &vec!["w".to_string()]),
        "Steam installations\n\
         \x20 native   /home/a/Steam\n\
         \n\
         Libraries\n\
         \n\
         \x20 [ab12] /mnt/games\n\
         \x20     name        games\n\
         \x20     filesystem  ntfs3 (Proton data does not belong here)\n\
         \x20     compatdata  2 prefixes\n\
         \x20     games       Alpha, Bravo, Charlie, and 1 more\n\
         \x20     state       headline\n\
         \x20                 run:  librarybridge fix ab12\n\
         \x20     backup      /b\n\
         \x20     note        the destination already holds data: /d\n\
         \x20     note        a copy back to this drive stopped part way: /r\n\
         \x20                 the repair is untouched; that folder is not in use\n\
         \x20     leftover    /c (unfinished copy, safe to delete)\n\
         \n\
         \x20 [ab12] /mnt/games\n\
         \x20     name        games\n\
         \x20     filesystem  unknown (no mount table on this system)\n\
         \x20     compatdata  1 prefixes\n\
         \x20     games       Solo\n\
         \x20     moved to    /t\n\
         \x20     state       headline\n\
         \x20                 to reverse:  librarybridge undo ab12\n\
         \n\
         \x20 note: w\n\
         \n\
         1 library can be repaired. Run `librarybridge fix <id>`.\n"
    );
}

#[test]
fn a_scan_for_machines_says_whether_it_is_complete() {
    let seen = vec![Seen {
        library: library(),
        report: report(State::NotRepaired { prefixes: 0 }),
        mount: Some(mount(Capability::NeedsRepair)),
        titles: vec![],
    }];
    assert_eq!(
        scan_json("0.1.0", &seen, &vec![]),
        "{\n  \"schema\": 1,\n  \"tool_version\": \"0.1.0\",\n  \"complete\": true,\n  \"libraries_seen\": 1,\n  \"libraries\": [\n    {\n      \"id\": \"ab12\",\n      \"path\": \"/mnt/games\",\n      \"name\": \"games\",\n      \"steam\": \"native\",\n      \"filesystem\": \"ntfs3\",\n      \"connected\": true,\n      \"state\": \"code\",\n      \"target\": \"/data/compatdata\",\n      \"backups\": [],\n      \"destination_occupied\": null,\n      \"eligible\": true,\n      \"blocking_reason\": null\n    }\n  ],\n  \"warnings\": []\n}\n"
    );
    assert_eq!(
        scan_json("0.1.0", &vec![], &vec!["w".to_string()]),
        "{\n  \"schema\": 1,\n  \"tool_version\": \"0.1.0\",\n  \"complete\": false,\n  \"libraries_seen\": 0,\n  \"libraries\": [\n  ],\n  \"warnings\": [\"w\"]\n}\n"
    );
}

#[test]
fn advice_fits_the_state() {
    let l = library();
    let not_repaired = || report(State::NotRepaired { prefixes: 1 });
    assert_eq!(
        advice(&l, &not_repaired(), &Some(mount(Capability::Native))),
        vec!["            Already on a Linux filesystem. No repair needed.".to_string()]
    );
    assert_eq!(
        advice(&l, &not_repaired(), &Some(mount(Capability::NoSymlinks))),
        vec!["            This filesystem has no symlinks, so the repair cannot work. Move the library to a Linux filesystem with Steam itself.".to_string()]
    );
    assert_eq!(
        advice(&l, &not_repaired(), &None),
        vec!["            run:  librarybridge fix ab12".to_string()]
    );
    let interrupted = report(State::InterruptedAwaitingLink { backup: "/b".to_string() });
    assert_eq!(advice(&l, &interrupted, &None).len(), 3);
    assert_eq!(
        advice(&l, &report(State::Unusable { detail: "odd".to_string() }), &None),
        vec!["            odd".to_string()]
    );
    assert!(advice(&l, &report(State::Disconnected), &None).is_empty());
}

#[test]
fn what_is_in_the_way_of_a_repair_is_named() {
    let blocker = |state: State, c: Option<Capability>| {
        repair_blocker(&report(state), &c.map(mount))
    };
    let some = |text: &str| Some(text.to_string());
    let backup = "/b".to_string();
    assert_eq!(blocker(State::InterruptedAwaitingLink { backup }, None), None);
    assert_eq!(blocker(State::NotRepaired { prefixes: 1 }, Some(Capability::NeedsRepair)), None);
    assert_eq!(
        blocker(State::NotRepaired { prefixes: 1 }, None),
        some("its filesystem could not be identified")
    );
    assert_eq!(
        blocker(State::NotRepaired { prefixes: 1 }, Some(Capability::Unknown)),
        some("its filesystem could not be identified")
    );
    assert_eq!(
        blocker(State::NotRepaired { prefixes: 1 }, Some(Capability::Native)),
        some("it is already on a Linux filesystem")
    );
    assert_eq!(
        blocker(State::NotRepaired { prefixes: 1 }, Some(Capability::NoSymlinks)),
        some("its filesystem has no symlinks, so this repair cannot work there")
    );
    assert_eq!(blocker(State::Disconnected, None), some("the drive is not connected"));
    assert_eq!(blocker(State::NoCompatdata, None), some("there is no Proton data to move yet"));
    let target = || "/t".to_string();
    assert_eq!(
        blocker(State::DanglingLink { target: target() }, None),
        some("its link points at something that is not there")
    );
    assert_eq!(
        blocker(State::LinkedElsewhere { target: target() }, None),
        some("it is already linked somewhere this tool did not choose")
    );
    assert_eq!(
        blocker(State::Unusable { detail: target() }, None),
        some("it needs attention first")
    );
    assert_eq!(
        blocker(State::Repaired { target: target(), prefixes: 1 }, None),
        some("it is already repaired")
    );
}

#[test]
fn evidence_is_shown_and_recorded() {
    let rows = vec![
        Row {
            field: "files".to_string(),
            described: "Files".to_string(),
            label: "worked".to_string(),
            checked: true,
            when: 7,
            by_tool: true,
        },
        Row {
            field: "launch".to_string(),
            described: "Launch".to_string(),
            label: "not checked".to_string(),
            checked: false,
            when: 0,
            by_tool: false,
        },
        Row {
            field: "save".to_string(),
            described: "Save".to_string(),
            label: "failed".to_string(),
            checked: true,
            when: 9,
            by_tool: false,
        },
    ];
    assert_eq!(
        evidence(&options(), &library(), &rows),
        format!(
            "Library     games\n\n  {:<44} worked  (checked by LibraryBridge)\n  {:<44} not checked\n  {:<44} failed  (reported by you)\n\nRecord an answer with, for example:\n    librarybridge evidence ab12 --record launch=yes\n",
            "Files", "Launch", "Save"
        )
    );
    assert_eq!(
        evidence(&Options { json: true, ..options() }, &library(), &rows),
        "{\n  \"schema\": 1,\n  \"library_id\": \"ab12\",\n  \"evidence\": [\n    {\"field\": \"files\", \"result\": \"worked\", \"when\": 7, \"by_tool\": true},\n    {\"field\": \"launch\", \"result\": \"not checked\", \"when\": 0, \"by_tool\": false},\n    {\"field\": \"save\", \"result\": \"failed\", \"when\": 9, \"by_tool\": false}\n  ]\n}\n"
    );
    assert!(matches!(request(&options()), Request::Show));
    let asked = |text: &str| Options { record: Some(text.to_string()), ..options() };
    assert!(matches!(request(&asked("launch")), Request::NotPair));
    match request(&asked("launch=yes=no")) {
        Request::Record { field, answer } => {
            assert_eq!((field.as_str(), answer.as_str()), ("launch", "yes=no"))
        }
        other => panic!("{other:?}"),
    }
    assert_eq!(not_pair(), "--record takes field=answer, for example launch=yes");
    assert_eq!(not_answer("maybe"), "'maybe' is not an answer. Use yes, no or na.");
    assert_eq!(recorded("launch", "worked"), "Recorded launch: worked\n");
    assert!(writes_answer(&options()));
    assert!(!writes_answer(&Options { dry_run: true, ..options() }));
    assert_eq!(
        would_record("launch", "worked"),
        "Would record launch: worked\nDry run. Nothing was changed.\n"
    );
}

fn held(path: &str, bytes: u64, shown: &str) -> Held {
    Held { path: path.to_string(), size: size(bytes, shown) }
}

fn stored() -> Stored {
    Stored {
        id: "ab12".to_string(),
        name: "games".to_string(),
        live: Some(held("/data", 5, "5 B")),
        backups: vec![held("/b", 6, "6 B"), held("/c", 7, "7 B")],
        leftover: Some(held("/l", 8, "8 B")),
    }
}

#[test]
fn storage_is_added_up_for_people() {
    let v = Volume {
        root: "/data".to_string(),
        free: Some(size(2147483647, "2.0 GiB")),
        used: size(5, "5 B"),
    };
    assert_eq!(
        storage(&options(), &vec![stored()], &v),
        "\n  [ab12] games\n      live        /data (5 B)\n      original    /b (6 B)\n      original    /c (7 B)\n      unfinished  /l (8 B), left by a copy that stopped\n\nOriginals are kept on purpose. Do not delete one by hand. Once a game has\nlaunched and loaded a save from the live copy, `librarybridge backup <library>`\ncan remove it.\n\nThe copies live at /data and take 5 B; 2.0 GiB is free there right now.\nThat is low headroom. A large prefix could push it past comfortable. Consider deleting originals with `librarybridge backup <library>` once they are confirmed working.\n"
    );
    let enough = Volume { free: Some(size(2147483648, "2.0 GiB")), ..v };
    assert!(!storage(&options(), &vec![stored()], &enough).contains("low headroom"));
    let empty = Stored { live: None, backups: vec![], leftover: None, ..stored() };
    assert_eq!(
        storage(&options(), &vec![empty], &enough),
        "Nothing stored by LibraryBridge yet.\nThe copies live at /data, with 2.0 GiB free right now.\n"
    );
}

#[test]
fn storage_is_a_document_for_machines() {
    let o = Options { json: true, ..options() };
    let v = Volume { root: "/data".to_string(), free: None, used: size(0, "0 B") };
    let bare = Stored { live: None, backups: vec![held("/b", 6, "6 B")], leftover: None, ..stored() };
    assert_eq!(
        storage(&o, &vec![stored(), bare], &v),
        "{\n  \"schema\": 1,\n  \"data_free_bytes\": null,\n  \"data_root\": \"/data\",\n  \"libraries\": [\n    {\n      \"id\": \"ab12\",\n      \"name\": \"games\",\n      \"live\": {\"path\": \"/data\", \"bytes\": 5},\n      \"backups\": [{\"path\": \"/b\", \"bytes\": 6}, {\"path\": \"/c\", \"bytes\": 7}],\n      \"leftover\": {\"path\": \"/l\", \"bytes\": 8}\n    },\n    {\n      \"id\": \"ab12\",\n      \"name\": \"games\",\n      \"live\": null,\n      \"backups\": [{\"path\": \"/b\", \"bytes\": 6}],\n      \"leftover\": null\n    }\n  ]\n}\n"
    );
    let free = Volume { free: Some(size(7, "7 B")), ..v };
    assert!(storage(&o, &vec![], &free).starts_with("{\n  \"schema\": 1,\n  \"data_free_bytes\": 7,\n"));
}

#[test]
fn what_is_measured_follows_the_state() {
    let r = report(State::Repaired { target: "/t".to_string(), prefixes: 1 });
    assert_eq!(live_to_measure(&r).as_deref(), Some("/t"));
    let r = Report { existing_destination: Some("/d".to_string()), ..report(State::NoCompatdata) };
    assert_eq!(live_to_measure(&r).as_deref(), Some("/d"));
    let r = Report {
        interrupted_restore: Some("/r".to_string()),
        abandoned_copy: Some("/a".to_string()),
        ..report(State::NoCompatdata)
    };
    assert_eq!(leftover_to_measure(&r).as_deref(), Some("/a"));
}
