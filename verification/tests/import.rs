//! Plans, imports and forgetting them.

use librarybridge::forget::{
    forget, forget_closing, valid_slug, ForgetEnding, ForgetFacts, ForgetRefusal, ForgetStep, Look,
};
use librarybridge::import::{
    blocker_reason, definition, definition_path, dry_run, import, import_announce, import_blocker,
    import_closing, import_end, import_exit, import_header, import_start, plan_to_read, read_plan,
    record_path, record_provenance, tally, waited_enough, Blocker, ImportFacts, ImportStep, Outcome,
    Planned, Tally, POLL_SECONDS,
};
use librarybridge::library::Options;
use librarybridge::lutris::{slugify, Definition, Entry, Installation, Packaging};
use librarybridge::lutris_cmd::{
    candidate_json, detect, dispatch, emit_scan, plan, plan_document, plan_refusal, plan_to_write, planned,
    require_lutris, scan, state_dir, Candidate, Command, Detected, PlanRefusal,
};
use librarybridge::protocol::{Known, Next};

fn options() -> Options {
    Options {
        steam_root: None,
        data_dir: None,
        json: false,
        dry_run: false,
        force: false,
        assume_yes: false,
        roots: vec![],
        candidates: vec![],
        output: None,
        plan: None,
        entry: None,
        all: false,
        expect: None,
        record: None,
        keep_destination: false,
        replace_destination: false,
        apikey: None,
        game: None,
        query: None,
        cover_match: None,
        list_covers: false,
        matches: false,
        overwrite: false,
    }
}

fn candidate(id: &str, name: &str) -> Candidate {
    Candidate {
        id: id.to_string(),
        name: name.to_string(),
        runner: "wine".to_string(),
        source: "gog".to_string(),
        exe: Some(format!("/g/{name}/game.exe")),
        appid: None,
        prefix: None,
        working_dir: Some(format!("/g/{name}")),
        confidence: "high".to_string(),
        unsure: false,
        in_lutris: false,
        eligible: true,
        blocking_reason: None,
        filesystem_warning: None,
        launch_warnings: vec![],
        alternatives: vec![],
        reasons: vec!["a \"goggame\" file".to_string(), "one exe".to_string()],
    }
}

fn planned_game(name: &str) -> Planned {
    Planned {
        name: Some(name.to_string()),
        runner: Some("wine".to_string()),
        exe: Some("/g/game.exe".to_string()),
        appid: None,
        prefix: None,
        working_dir: None,
        exe_there: true,
    }
}

fn entry(slug: &str, exe: Option<&str>, config: &str) -> Entry {
    Entry {
        slug: slug.to_string(),
        name: slug.to_string(),
        runner: "wine".to_string(),
        exe: exe.map(str::to_string),
        appid: None,
        prefix: None,
        config: config.to_string(),
    }
}

// -------------------------------------------------------------- reading only

#[test]
fn commands_are_told_apart() {
    let word = |text: &str| dispatch(&vec![text.to_string()]);
    assert_eq!(word("detect"), Ok(Command::Detect));
    assert_eq!(word("scan"), Ok(Command::Scan));
    assert_eq!(word("plan"), Ok(Command::Plan));
    assert_eq!(word("import"), Ok(Command::Import));
    assert_eq!(word("covers"), Ok(Command::Covers));
    assert_eq!(word("forget"), Ok(Command::Forget));
    assert_eq!(
        word("play").unwrap_err(),
        "unknown lutris command 'play'. Try detect, scan, plan, import, covers or forget."
    );
    assert_eq!(
        dispatch(&vec![]).unwrap_err(),
        "lutris needs a command: detect, scan, plan, import, covers or forget."
    );
}

#[test]
fn lutris_is_needed() {
    assert!(require_lutris(&vec![])
        .unwrap_err()
        .starts_with("Lutris was not found. Install it from your distribution's packages"));
    let found = vec![Installation {
        packaging: Packaging::Flatpak,
        config_dir: "/c".to_string(),
        command: vec![],
    }];
    assert_eq!(require_lutris(&found).unwrap().config_dir, "/c");
}

#[test]
fn what_is_installed_is_shown() {
    let (text, code) = detect(&options(), &vec![]);
    assert_eq!(code, 2);
    assert!(text.starts_with("Lutris was not found.\n"));
    let found = vec![Detected {
        packaging: Packaging::Native,
        config_dir: "/c".to_string(),
        runners: vec!["wine".to_string(), "linux".to_string(), "wine".to_string()],
    }];
    let (text, code) = detect(&options(), &found);
    assert_eq!(code, 0);
    assert_eq!(
        text,
        "Lutris      native install\nConfig      /c\nKnows about 3 games\nRunners     linux, wine\n\n"
    );
    let json = Options { json: true, ..options() };
    assert_eq!(
        detect(&json, &found).0,
        "{\n  \"schema\": 1,\n  \"lutris\": [\n    {\"packaging\": \"native\", \"config\": \"/c\", \"games\": 3}\n  ]\n}\n"
    );
    assert_eq!(detect(&json, &vec![]).1, 0);
}

#[test]
fn a_scan_shows_what_lutris_does_not_have() {
    let o = Options { roots: vec!["/g".to_string()], ..options() };
    let all = vec![
        Candidate { in_lutris: true, ..candidate("aa", "Old") },
        Candidate {
            filesystem_warning: Some("ntfs".to_string()),
            launch_warnings: vec!["needs dx".to_string()],
            alternatives: vec!["/x".to_string(), "/y".to_string()],
            ..candidate("bb", "New")
        },
    ];
    assert_eq!(
        scan(&o, &all),
        "Found 1 games not in Lutris\n\
         \n\
         \x20 [bb] New\n\
         \x20     runner      wine (gog source)\n\
         \x20     executable  /g/New/game.exe\n\
         \x20     confidence  high\n\
         \x20     because     a \"goggame\" file\n\
         \x20     because     one exe\n\
         \x20     or maybe    /x\n\
         \x20                 /y\n\
         \x20     warning     ntfs\n\
         \x20                 adding it to Lutris will not fix that on its own\n\
         \x20     launch      needs dx\n\
         \x20                 this shows up the first time you run it\n\
         \n\
         To add some of them:\n\
         \x20   librarybridge lutris plan --candidate bb --output plan.json\n\
         \x20   librarybridge lutris import --plan plan.json\n"
    );
    assert_eq!(
        scan(&o, &vec![]),
        "Nothing found that Lutris does not already have.\n"
    );
    let steam = Candidate {
        source: "steam".to_string(),
        appid: Some("220".to_string()),
        exe: None,
        in_lutris: true,
        ..candidate("cc", "HL2")
    };
    let text = scan(&Options { all: true, ..options() }, &vec![steam]);
    assert!(text.starts_with("No folders were given, so only Steam libraries were checked.\n"));
    assert!(text.contains("      steam app   220\n"));
    assert!(text.contains("      note        Lutris already has this one\n"));
    assert!(text.contains("1 of these are Steam games."));
}

#[test]
fn a_candidate_is_an_object() {
    assert_eq!(
        candidate_json(&candidate("aa", "New"), "  "),
        "  {\n    \"id\": \"aa\",\n    \"name\": \"New\",\n    \"runner\": \"wine\",\n    \"source\": \"gog\",\n    \"exe\": \"/g/New/game.exe\",\n    \"appid\": null,\n    \"prefix\": null,\n    \"working_dir\": \"/g/New\",\n    \"confidence\": \"high\",\n    \"in_lutris\": false,\n    \"eligible\": true,\n    \"blocking_reason\": null,\n    \"filesystem_warning\": null,\n    \"warnings\": [],\n    \"alternatives\": [],\n    \"reasons\": [\"a \\\"goggame\\\" file\", \"one exe\"]\n  }"
    );
    let json = Options { json: true, ..options() };
    assert!(scan(&json, &vec![]).starts_with("{\n  \"schema\": 1,\n  \"candidates\": [\n"));
    let scanning = Options { json: true, roots: vec!["/g".to_string()], ..options() };
    assert_eq!(
        emit_scan(&scanning, 1, 2),
        "{\"event\": \"scanning\", \"done\": 1, \"total\": 2}\n"
    );
    assert_eq!(emit_scan(&json, 1, 2), "");
}

// ---------------------------------------------------------------------- plan

fn planning(ids: &[&str]) -> Options {
    Options {
        candidates: ids.iter().map(|id| id.to_string()).collect(),
        output: Some("/p.json".to_string()),
        ..options()
    }
}

#[test]
fn a_plan_that_cannot_be_made_is_refused() {
    let all = vec![
        candidate("aa1", "One"),
        candidate("aa2", "Two"),
        Candidate { eligible: false, ..candidate("bb", "Three") },
        Candidate {
            eligible: false,
            blocking_reason: Some("no reason".to_string()),
            ..candidate("cc", "Four")
        },
    ];
    let refused = |o: &Options| {
        let why = plan(o, &all).unwrap_err();
        (why, plan_refusal(o, &all, why))
    };
    let (why, text) = refused(&planning(&[]));
    assert_eq!(why, PlanRefusal::NoCandidates);
    assert_eq!(text, "plan needs at least one --candidate ID from `librarybridge lutris scan`.");
    let (why, text) = refused(&Options { output: None, ..planning(&["aa1"]) });
    assert_eq!(why, PlanRefusal::NoOutput);
    assert_eq!(text, "plan needs --output PATH for the file to write");
    let (why, text) = refused(&planning(&["aa1", "zz"]));
    assert_eq!(why, PlanRefusal::NoMatch(1));
    assert_eq!(
        text,
        "no candidate matches 'zz'. Run the same scan again with the same --root arguments to see current ids."
    );
    let (why, text) = refused(&planning(&["aa"]));
    assert_eq!(why, PlanRefusal::Several(0, 2));
    assert_eq!(text, "'aa' matches 2 candidates. Use the full id.");
    let (why, text) = refused(&planning(&["aa1", "bb", "cc"]));
    assert_eq!(why, PlanRefusal::Blocked(2));
    assert_eq!(
        text,
        "Three cannot be imported: it is not eligible. Leave it out of the selection."
    );
    let (_, text) = refused(&planning(&["cc"]));
    assert_eq!(text, "Four cannot be imported: no reason. Leave it out of the selection.");
    assert_eq!(plan(&planning(&["aa2", "aa1"]), &all), Ok(vec![1, 0]));
}

#[test]
fn a_plan_reads_back() {
    let steam = Candidate {
        exe: None,
        appid: Some("220".to_string()),
        prefix: Some("/pfx".to_string()),
        working_dir: None,
        ..candidate("bb", "\"Deux\" étés")
    };
    let all = vec![candidate("aa", "One"), steam];
    let places = plan(&planning(&["bb", "aa"]), &all).unwrap();
    let text = plan_document(1700000000, &all, &places);
    assert!(text.starts_with("{\n  \"schema\": 1,\n  \"created\": 1700000000,\n  \"games\": [\n    {\n      \"id\": \"bb\",\n"));
    assert!(text.ends_with("\n    }\n  ]\n}\n"));
    assert_eq!(plan_to_write(&options(), 1700000000, &all, &places).as_ref(), Some(&text));
    let o = Options { dry_run: true, ..options() };
    assert_eq!(plan_to_write(&o, 1700000000, &all, &places), None);
    let games = read_plan("/p.json", &text).unwrap();
    assert_eq!(games.len(), 2);
    assert_eq!(games[0].name.as_deref(), Some("\"Deux\" étés"));
    assert_eq!(games[0].exe, None);
    assert_eq!(games[0].appid.as_deref(), Some("220"));
    assert_eq!(games[0].prefix.as_deref(), Some("/pfx"));
    assert_eq!(games[1].exe.as_deref(), Some("/g/One/game.exe"));
    assert_eq!(games[1].working_dir.as_deref(), Some("/g/One"));
    assert_eq!(games[1].runner.as_deref(), Some("wine"));
}

#[test]
fn the_wait_for_a_dialog_ends() {
    assert_eq!(POLL_SECONDS, 120);
    assert!(!waited_enough(1000, 1000));
    assert!(!waited_enough(1000, 1119));
    assert!(waited_enough(1000, 1120));
    assert!(!waited_enough(1000, 500));
    assert!(!waited_enough(u64::MAX, u64::MAX));
}

#[test]
fn a_plan_that_is_not_one_is_refused() {
    assert_eq!(
        plan_to_read(&options()).unwrap_err(),
        "import needs --plan PATH, produced by `librarybridge lutris plan`"
    );
    let named = Options { plan: Some("/p".to_string()), ..options() };
    assert_eq!(plan_to_read(&named).unwrap(), "/p");
    assert_eq!(read_plan("/p", "").unwrap_err(), "/p: input ended early");
    assert_eq!(read_plan("/p", "{}").unwrap_err(), "/p: unrecognised plan schema");
    assert_eq!(
        read_plan("/p", "{\"schema\": 2, \"games\": [1]}").unwrap_err(),
        "/p: unrecognised plan schema"
    );
    assert_eq!(
        read_plan("/p", "{\"schema\": 1, \"games\": []}").unwrap_err(),
        "/p: the plan has no games in it"
    );
    assert_eq!(read_plan("/p", "{\"schema\": 1.0, \"games\": [{}]}").unwrap().len(), 1);
    assert_eq!(read_plan("/p", "{\"schema\": 10e-1, \"games\": [{}]}").unwrap().len(), 1);
}

#[test]
fn a_plan_says_what_it_holds() {
    let all = vec![Candidate { unsure: true, confidence: "low".to_string(), ..candidate("aa", "One") }];
    assert_eq!(
        planned(&planning(&["aa"]), "/p.json", &all, &vec![0]),
        "Wrote /p.json with 1 games:\n  One (wine runner, low confidence)\n    check the executable before importing: /g/One/game.exe\n\nReview it, edit any executable that looks wrong, then:\n    librarybridge lutris import --plan /p.json\n"
    );
    assert_eq!(
        planned(&Options { dry_run: true, ..planning(&["aa"]) }, "/p.json", &all, &vec![0]),
        "Dry run. Would write /p.json with:\n  One (wine runner, low confidence)\n\nNothing was written.\n"
    );
}

// -------------------------------------------------------------------- import

#[test]
fn what_is_in_the_way_of_an_import_is_named() {
    let none = vec![];
    assert_eq!(import_blocker(&planned_game("One"), &none), None);
    let nameless = Planned { name: Some("  ".to_string()), ..planned_game("x") };
    assert_eq!(import_blocker(&nameless, &none), Some(Blocker::NoName));
    let gone = Planned { exe_there: false, ..planned_game("One") };
    assert_eq!(import_blocker(&gone, &none), Some(Blocker::ExeGone));
    assert_eq!(blocker_reason(&gone, Blocker::ExeGone), "/g/game.exe is no longer there");
    let empty = Planned { exe: None, ..planned_game("One") };
    assert_eq!(import_blocker(&empty, &none), Some(Blocker::NothingToRun));
    let steam = Planned {
        exe: None,
        appid: Some("220".to_string()),
        runner: Some("steam".to_string()),
        ..planned_game("HL2")
    };
    assert_eq!(import_blocker(&steam, &none), Some(Blocker::Steam));
    let one = planned_game("One");
    let by_slug = vec![entry("one", None, "/c/1.yml")];
    assert_eq!(import_blocker(&one, &by_slug), Some(Blocker::Known));
    let by_exe = vec![entry("other", Some("/g//game.exe"), "/c/1.yml")];
    assert_eq!(import_blocker(&one, &by_exe), Some(Blocker::Known));
    assert_eq!(blocker_reason(&one, Blocker::Known), "Lutris already has it");
    assert_eq!(blocker_reason(&one, Blocker::NoName), "the plan gives no name");
    assert_eq!(
        blocker_reason(&one, Blocker::NothingToRun),
        "the plan has neither an executable nor a Steam app id"
    );
    assert_eq!(
        blocker_reason(&one, Blocker::Steam),
        "Lutris lists installed Steam games itself, so this would create a duplicate"
    );
}

#[test]
fn a_dry_run_names_what_would_happen() {
    let games = vec![planned_game("One"), Planned { name: None, ..planned_game("x") }];
    assert_eq!(dry_run(&options(), Packaging::Native, &games, &vec![]), None);
    let o = Options { dry_run: true, ..options() };
    assert_eq!(
        dry_run(&o, Packaging::Native, &games, &vec![]).unwrap(),
        "Lutris      native install\nDry run     2 games in the plan\n\n  add   One\n  skip  unnamed: the plan gives no name\n\nNothing was changed and Lutris was not started.\n"
    );
}

fn import_facts() -> ImportFacts {
    ImportFacts {
        write: Known::NotYet,
        running: Known::NotYet,
        install: Known::NotYet,
        entries: Known::NotYet,
        waiting: false,
        expired: false,
        record: Known::NotYet,
    }
}

struct Importing {
    running: bool,
    exit: Option<i32>,
    lands_after: usize,
    steps: Vec<ImportStep>,
}

impl Importing {
    fn run(&mut self, o: &Options, p: &Planned, first: bool) -> (Outcome, String) {
        let before = vec![entry("old", None, "/c/old.yml")];
        let after = |landed: bool| {
            let mut all = vec![entry("old", None, "/c/old.yml")];
            if landed {
                all.push(entry("one-2", None, "/c/one.yml"));
            }
            all
        };
        let mut f = import_facts();
        let mut text = String::new();
        let mut reads = 0;
        let done = if first { 0 } else { 1 };
        loop {
            match import(p, first, &before, &f) {
                Next::Take(step) => {
                    text.push_str(&import_announce(o, p, done, 2, &f, step));
                    self.steps.push(step);
                    match step {
                        ImportStep::WriteDefinition => f.write = Known::Got(()),
                        ImportStep::LookForLutris => f.running = Known::Got(self.running),
                        ImportStep::Install => {
                            f.install = match self.exit {
                                Some(code) => Known::Got(code),
                                None => Known::Failed,
                            }
                        }
                        ImportStep::ReadEntries => {
                            reads += 1;
                            f.entries = Known::Got(after(reads > self.lands_after));
                        }
                        ImportStep::Wait => {
                            f.waiting = true;
                            reads += 1;
                            f.entries = Known::Got(after(reads > self.lands_after));
                            f.expired = reads > 3;
                        }
                        ImportStep::Record(_) => f.record = Known::Got(()),
                    }
                }
                Next::Stop(outcome) => {
                    text.push_str(&import_closing(
                        o, p, done, 2, &f, outcome, "no Lutris command available",
                    ));
                    return (outcome, text);
                }
                Next::Failed(step) => panic!("{step:?}"),
            }
        }
    }

    fn new() -> Importing {
        Importing { running: false, exit: Some(0), lands_after: 0, steps: vec![] }
    }
}

#[test]
fn an_import_is_done_when_the_entry_appears() {
    let mut run = Importing::new();
    let (outcome, text) = run.run(&options(), &planned_game("One"), true);
    assert_eq!(outcome, Outcome::Added(1));
    assert_eq!(text, "  One\n    added, config at /c/one.yml\n");
    assert_eq!(
        run.steps,
        vec![
            ImportStep::WriteDefinition,
            ImportStep::LookForLutris,
            ImportStep::Install,
            ImportStep::ReadEntries,
            ImportStep::Record(1),
        ]
    );
    let mut run = Importing { lands_after: 2, exit: Some(5), ..Importing::new() };
    let (outcome, text) = run.run(&options(), &planned_game("One"), false);
    assert_eq!(outcome, Outcome::Added(1));
    assert!(!run.steps.contains(&ImportStep::LookForLutris));
    assert_eq!(
        text,
        "  One\n    Lutris exited with status 5 (its install dialog may have been cancelled)\n    Waiting for you to finish the Lutris dialog…\n    added, config at /c/one.yml\n"
    );
}

#[test]
fn an_import_that_does_not_land_is_reported() {
    let mut run = Importing { lands_after: 100, ..Importing::new() };
    let (outcome, text) = run.run(&options(), &planned_game("One"), true);
    assert_eq!(outcome, Outcome::TimedOut);
    assert!(text.ends_with(
        "    Lutris did not report a new entry within 120s. Check Lutris manually.\n"
    ));
    let mut run = Importing { exit: None, ..Importing::new() };
    let (outcome, text) = run.run(&options(), &planned_game("One"), true);
    assert_eq!(outcome, Outcome::NotRun);
    assert!(text.ends_with("    could not run Lutris: no Lutris command available\n"));
    let nameless = Planned { name: None, ..planned_game("x") };
    let mut run = Importing::new();
    let (outcome, text) = run.run(&options(), &nameless, true);
    assert_eq!(outcome, Outcome::Skipped(Blocker::NoName));
    assert_eq!(text, "  skipped unnamed: the plan gives no name\n");
    assert!(run.steps.is_empty());
}

#[test]
fn an_import_for_machines_names_its_phases() {
    let o = Options { json: true, ..options() };
    let events = |run: &mut Importing, first: bool| {
        let (_, text) = run.run(&o, &planned_game("One"), first);
        let lines: Vec<String> =
            text.lines().filter(|line| line.starts_with('{')).map(str::to_string).collect();
        lines
    };
    assert_eq!(
        events(&mut Importing::new(), true),
        vec!["{\"event\": \"lutris_opening\"}", "{\"event\": \"lutris_adding\", \"done\": 0, \"total\": 2}"]
    );
    assert_eq!(
        events(&mut Importing { running: true, ..Importing::new() }, true),
        vec!["{\"event\": \"lutris_adding\", \"done\": 0, \"total\": 2}"]
    );
    assert_eq!(
        events(&mut Importing::new(), false),
        vec![
            "{\"event\": \"lutris_adding\", \"done\": 1, \"total\": 2}",
            "{\"event\": \"lutris_adding\", \"done\": 1, \"total\": 2}"
        ]
    );
    assert_eq!(import_start(&o), "{\"event\": \"lutris_preparing\"}\n");
    assert_eq!(import_start(&options()), "");
    assert_eq!(
        import_header(Packaging::Flatpak, 2),
        "Lutris      flatpak install\nImporting   2 games\n\nLutris shows its own dialog for each game. Confirm each one there.\n\n"
    );
}

#[test]
fn imports_are_counted() {
    let t = tally(&vec![
        Outcome::Skipped(Blocker::Known),
        Outcome::Added(0),
        Outcome::NotRun,
        Outcome::TimedOut,
    ]);
    assert_eq!((t.imported, t.skipped, t.processed), (1, 3, 3));
    assert_eq!(
        import_end(&t),
        "\n1 added, 3 skipped.\nNo game files or prefixes were changed.\n"
    );
    assert_eq!(import_exit(&t), 0);
    assert_eq!(import_exit(&Tally { imported: 0, skipped: 1, processed: 1 }), 2);
    assert_eq!(import_exit(&Tally { imported: 0, skipped: 0, processed: 0 }), 0);
}

#[test]
fn a_definition_follows_the_plan() {
    let d = definition(&Planned { runner: None, ..planned_game("The One!") });
    assert_eq!((d.name.as_str(), d.slug.as_str(), d.runner.as_str()), ("The One!", "the-one", "wine"));
    assert_eq!(state_dir("/d"), "/d/lutris");
    assert_eq!(definition_path("/d/lutris", "the-one"), "/d/lutris/definitions/the-one.yml");
    assert_eq!(record_path("/d/lutris", "the-one"), "/d/lutris/imports/the-one.json");
}

// -------------------------------------------------------------------- forget

fn one() -> Definition {
    definition(&planned_game("The One!"))
}

fn forgetting(slug: &str) -> Options {
    Options { entry: Some(slug.to_string()), ..options() }
}

fn forget_run(o: &Options, look: Look, text: &str) -> (ForgetEnding, Vec<ForgetStep>, String) {
    let mut f = ForgetFacts { look: None, text: Known::NotYet, remove: Known::NotYet };
    let mut steps = vec![];
    loop {
        match forget(o, &f) {
            Next::Take(step) => {
                steps.push(step);
                match step {
                    ForgetStep::Look => f.look = Some(look),
                    ForgetStep::Read => f.text = Known::Got(text.to_string()),
                    ForgetStep::Remove => f.remove = Known::Got(()),
                }
            }
            Next::Stop(ending) => {
                return (ending, steps, forget_closing(o, "/d/r.json", &f, ending))
            }
            Next::Failed(step) => panic!("{step:?}"),
        }
    }
}

const FILE: Look = Look { symlink: false, file: true };

#[test]
fn a_record_is_written_and_forgotten() {
    let text = record_provenance(&one(), "/c/one.yml", 7);
    assert_eq!(
        text,
        "{\n  \"schema\": 1,\n  \"created\": 7,\n  \"slug\": \"the-one\",\n  \"name\": \"The One!\",\n  \"runner\": \"wine\",\n  \"exe\": \"/g/game.exe\",\n  \"lutris_config\": \"/c/one.yml\"\n}\n"
    );
    let (ending, steps, said) = forget_run(&forgetting("the-one"), FILE, &text);
    assert_eq!(ending, ForgetEnding::Forgotten);
    assert_eq!(steps, vec![ForgetStep::Look, ForgetStep::Read, ForgetStep::Remove]);
    assert_eq!(
        said,
        "Removed LibraryBridge's record of 'the-one'.\n\nThe Lutris entry itself is still there. LibraryBridge does not write to Lutris's\ndatabase, so removing the game is done in Lutris: right-click it and remove.\nIts config file is /c/one.yml\nNothing was deleted from your game files, prefix or saves.\n"
    );
    let dry = Options { dry_run: true, ..forgetting("the-one") };
    let (ending, steps, said) = forget_run(&dry, FILE, &text);
    assert_eq!(ending, ForgetEnding::DryRun);
    assert!(!steps.contains(&ForgetStep::Remove));
    assert_eq!(
        said,
        "Dry run. Would remove the import record for 'the-one'.\n/d/r.json\n"
    );
}

#[test]
fn what_is_not_a_record_is_not_removed() {
    let refused = |o: &Options, look: Look, text: &str| {
        let (ending, steps, said) = forget_run(o, look, text);
        assert!(!steps.contains(&ForgetStep::Remove));
        match ending {
            ForgetEnding::Refused(why) => (why, said),
            other => panic!("{other:?}"),
        }
    };
    let (why, said) = refused(&options(), FILE, "");
    assert_eq!(why, ForgetRefusal::NoEntry);
    assert_eq!(said, "forget needs --entry SLUG, as shown by `librarybridge lutris import`");
    let (why, said) = refused(&forgetting("../x"), FILE, "");
    assert_eq!(why, ForgetRefusal::NotSlug);
    assert!(said.starts_with("'../x' is not an import record name. Use the slug shown by `librarybridge lutris import`: letters, digits, dashes and underscores only, and no path."));
    let (why, said) = refused(&forgetting("x"), Look { symlink: true, file: true }, "");
    assert_eq!(why, ForgetRefusal::Symlink);
    assert_eq!(said, "/d/r.json: the record is a symlink, which LibraryBridge will not follow to delete something else.");
    let (why, said) = refused(&forgetting("x"), Look { symlink: false, file: false }, "");
    assert_eq!(why, ForgetRefusal::NoRecord);
    assert_eq!(said, "LibraryBridge has no record of importing 'x'. It will not touch entries it did not create.");
    let (why, said) = refused(&forgetting("x"), FILE, "nope");
    assert_eq!(why, ForgetRefusal::Unreadable);
    assert_eq!(said, "/d/r.json: unrecognised literal at byte 0");
    for text in ["{}", "{\"schema\": 1}", "{\"schema\": 1, \"slug\": \"y\"}", "{\"slug\": \"x\"}"] {
        let (why, said) = refused(&forgetting("x"), FILE, text);
        assert_eq!(why, ForgetRefusal::NotRecord);
        assert_eq!(said, "/d/r.json: this file is not a LibraryBridge import record, so it will not be removed.");
    }
    let quiet = "{\"schema\": 1, \"slug\": \"x\"}";
    let (ending, _, said) = forget_run(&forgetting("x"), FILE, quiet);
    assert_eq!(ending, ForgetEnding::Forgotten);
    assert!(!said.contains("Its config file"));
}

#[test]
fn slugs_are_names_and_not_paths() {
    for good in ["a", "half-life-2", "A_b-9", &"x".repeat(80)] {
        assert!(valid_slug(good), "{good}");
    }
    for bad in ["", ".", "..", "a.b", "a/b", "é", " ", &"x".repeat(81)] {
        assert!(!valid_slug(bad), "{bad}");
    }
    for name in ["Half-Life 2", "!!!", "Émile", &"long ".repeat(50)] {
        assert!(valid_slug(&slugify(name)), "{name}");
    }
}
