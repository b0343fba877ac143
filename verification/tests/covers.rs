//! The cover command, run against canned answers: nothing here talks to
//! SteamGridDB or touches a disk.

use librarybridge::cover_run::{
    cover, cover_refusal, cover_report, cover_tally, covers, covers_end, covers_exit, covers_list,
    covers_matches, emit_cover, no_key, query, shortlist, CoverFacts, CoverOutcome, CoverRefusal,
    CoverStep, CoverTally, Covers,
};
use librarybridge::covers::{
    art, ask, best_match, cover_dir, cover_path, download, existing, explain_curl, games, key_path,
    place, place_failure, read_key, run_curl, search, search_url, temporary_path, urlencode,
    with_thumbnails, Curl, Game, KeySources, Match, PlaceFacts, PlaceStep, MAX_MATCHES,
};
use librarybridge::json::parse;
use librarybridge::library::Options;
use librarybridge::lutris::{existing_entries, ConfigFile, Installation, Packaging};
use librarybridge::protocol::{Known, Next};

const KEY: &str = "test-key";

fn options() -> Options {
    Options {
        steam_root: None,
        data_dir: None,
        json: false,
        dry_run: false,
        force: false,
        assume_yes: false,
        roots: vec![],
        candidates: vec![],
        output: None,
        plan: None,
        entry: None,
        all: false,
        expect: None,
        record: None,
        keep_destination: false,
        replace_destination: false,
        apikey: None,
        game: None,
        query: None,
        cover_match: None,
        list_covers: false,
        matches: false,
        overwrite: false,
    }
}

fn answer(text: &str) -> Curl {
    Curl::Ran {
        success: true,
        code: Some(0),
        stdout: text.as_bytes().to_vec(),
        stderr: vec![],
    }
}

/// A library, what SteamGridDB would answer, and what became of it.
struct Fixture {
    installation: Installation,
    configs: Vec<ConfigFile>,
    files: Vec<String>,
    search: String,
    grids: Vec<(u64, String)>,
    download_works: bool,
    downloaded: Option<String>,
}

struct Run {
    code: i32,
    text: String,
}

impl Fixture {
    fn new() -> Fixture {
        Fixture {
            installation: Installation {
                packaging: Packaging::Native,
                config_dir: "/h/.local/share/lutris".to_string(),
                command: vec!["lutris".to_string()],
            },
            configs: vec![],
            files: vec![],
            search: String::new(),
            grids: vec![],
            download_works: true,
            downloaded: None,
        }
    }

    fn game(&mut self, slug: &str, name: &str) {
        self.configs.push(ConfigFile {
            path: format!("/h/.local/share/lutris/games/{slug}-1700000000.yml"),
            text: Some(format!(
                "name: '{name}'\ngame_slug: {slug}\nversion: test\nrunner: wine\n"
            )),
        });
    }

    fn cover(&mut self, slug: &str) {
        self.files.push(format!("/h/.local/share/lutris/coverart/{slug}.jpg"));
    }

    fn cover_exists(&self, slug: &str) -> bool {
        existing(&self.installation, slug, &self.files).is_some()
    }

    fn ask_art(&self, id: u64) -> Curl {
        match self.grids.iter().find(|(known, _)| *known == id) {
            Some((_, text)) => answer(text),
            None => answer(r#"{"success":true,"data":[]}"#),
        }
    }

    /// Put a cover in place, as the command's own steps say.
    fn put(&mut self, slug: &str, url: &str) -> Result<(), String> {
        let mut facts = PlaceFacts {
            dir: Known::NotYet,
            download: Known::NotYet,
            rename: Known::NotYet,
            clean: Known::NotYet,
        };
        let temporary = temporary_path(&self.installation, slug, 42);
        loop {
            match place(&facts) {
                Next::Take(PlaceStep::CreateDir) => facts.dir = Known::Got(()),
                Next::Take(PlaceStep::Download) => {
                    self.files.push(temporary.clone());
                    if self.download_works {
                        self.downloaded = Some(url.to_string());
                        facts.download = Known::Got(());
                    } else {
                        facts.download = Known::Failed;
                    }
                }
                Next::Take(PlaceStep::Rename) => {
                    self.files.retain(|file| *file != temporary);
                    self.files.push(cover_path(&self.installation, slug, "jpg"));
                    facts.rename = Known::Got(());
                }
                Next::Take(PlaceStep::Clean) => {
                    self.files.retain(|file| *file != temporary);
                    facts.clean = Known::Got(());
                }
                Next::Stop(()) => return Ok(()),
                Next::Failed(step) => {
                    return Err(place_failure(&self.installation, slug, step, "broken"))
                }
            }
        }
    }

    fn run(&mut self, o: &Options, key: Option<&str>) -> Result<Run, String> {
        let entries = existing_entries(&self.configs, &None);
        let all = games(&self.installation, &None, &entries, &self.files);
        let key = key.map(str::to_string);
        let work = match covers(o, &all, &key) {
            Covers::List => return Ok(Run { code: 0, text: covers_list(o, &all) }),
            Covers::NoKey => return Err(no_key(&key_path("/h/.local/share/librarybridge"))),
            Covers::Refused(why) => return Err(cover_refusal(o, &all, why)),
            Covers::Nothing => return Ok(Run { code: 0, text: String::new() }),
            Covers::LookUp(at) => {
                let text = query(o, &all[at]);
                let found = shortlist(search(&answer(&self.search))?);
                let runs: Vec<Curl> = found.iter().map(|m| self.ask_art(m.id)).collect();
                let found = with_thumbnails(found, &runs);
                return Ok(Run { code: 0, text: covers_matches(o, &all[at], &text, &found) });
            }
            Covers::Fetch(work) => work,
        };
        let mut outcomes = vec![];
        let mut text = String::new();
        for (done, &at) in work.targets.iter().enumerate() {
            let game = &all[at];
            let mut reason = String::new();
            let mut facts = CoverFacts {
                exists: None,
                found: Known::NotYet,
                art: Known::NotYet,
                place: Known::NotYet,
            };
            let outcome = loop {
                match cover(o, &work, game, &facts) {
                    Next::Take(CoverStep::LookForCover) => {
                        facts.exists = Some(self.cover_exists(&game.slug))
                    }
                    Next::Take(CoverStep::Search) => {
                        facts.found = match search(&answer(&self.search)) {
                            Ok(found) => Known::Got(found),
                            Err(why) => {
                                reason = why;
                                Known::Failed
                            }
                        }
                    }
                    Next::Take(CoverStep::FetchArt(at)) => {
                        let id = match &facts.found {
                            Known::Got(found) => found[at].id,
                            _ => unreachable!(),
                        };
                        facts.art = match art(&self.ask_art(id)) {
                            Ok(art) => Known::Got(art),
                            Err(why) => {
                                reason = why;
                                Known::Failed
                            }
                        }
                    }
                    Next::Take(CoverStep::Place) => {
                        let url = match &facts.art {
                            Known::Got(Some(art)) => art.url.clone(),
                            _ => unreachable!(),
                        };
                        facts.place = match self.put(&game.slug, &url) {
                            Ok(()) => Known::Got(()),
                            Err(why) => {
                                reason = why;
                                Known::Failed
                            }
                        }
                    }
                    Next::Stop(outcome) => break outcome,
                    Next::Failed(step) => panic!("{step:?}"),
                }
            };
            let total = work.targets.len();
            text.push_str(&cover_report(o, game, &facts, outcome, &reason, done + 1, total));
            outcomes.push(outcome);
        }
        let tally = cover_tally(&outcomes);
        text.push_str(&covers_end(o, &tally));
        Ok(Run { code: covers_exit(&tally), text })
    }

    fn delta() -> Fixture {
        let mut fixture = Fixture::new();
        fixture.game("delta", "Delta");
        fixture.search =
            r#"{"success":true,"data":[{"id":20,"name":"Delta Force"},{"id":21,"name":"Delta"}]}"#
                .to_string();
        fixture.grids = vec![
            (
                20,
                r#"{"success":true,"data":[{"url":"https://cdn.example/wrong.jpg","mime":"image/jpeg"}]}"#
                    .to_string(),
            ),
            (
                21,
                r#"{"success":true,"data":[{"url":"https://cdn.example/right.jpg","mime":"image/jpeg"}]}"#
                    .to_string(),
            ),
        ];
        fixture
    }
}

fn candidate(id: u64, name: &str) -> Match {
    Match {
        id,
        name: name.to_string(),
        thumb: None,
    }
}

#[test]
fn search_terms_are_url_encoded() {
    assert_eq!(
        urlencode("Assassin's Creed IV"),
        "Assassin%27s%20Creed%20IV"
    );
    assert_eq!(urlencode("AC/DC"), "AC%2FDC");
    assert_eq!(urlencode("Portal 2"), "Portal%202");
    assert_eq!(urlencode("Half-Life_2.0~"), "Half-Life_2.0~");
}

#[test]
fn the_best_match_prefers_an_exact_name_then_a_prefix() {
    let found = vec![
        candidate(1, "AC/DC Live: Rock Band"),
        candidate(2, "Assassin's Creed IV: Black Flag"),
    ];
    // An exact name wins even though it is not first.
    assert_eq!(
        best_match(&found, "Assassin's Creed IV: Black Flag")
            .unwrap()
            .id,
        2
    );
    // Case does not matter.
    assert_eq!(
        best_match(&found, "assassin's creed iv: black flag")
            .unwrap()
            .id,
        2
    );
    // A prefix is better than nothing.
    assert_eq!(best_match(&found, "Assassin's").unwrap().id, 2);
    // A name that matches nothing falls back to the first hit.
    assert_eq!(best_match(&found, "Black Flag").unwrap().id, 1);
    assert!(best_match(&[], "Anything").is_none());
}

#[test]
fn letters_outside_ascii_match_in_any_case() {
    let found = vec![candidate(1, "Other"), candidate(2, "ÉTÉ İ")];
    assert_eq!(best_match(&found, "été i\u{307}").unwrap().id, 2);
}

#[test]
fn listing_needs_no_key_and_reports_only_what_is_missing() {
    let mut fixture = Fixture::new();
    fixture.game("alpha", "Alpha Game");
    fixture.game("beta", "Beta Game");
    fixture.cover("beta");
    let o = Options { list_covers: true, json: true, ..options() };
    let text = fixture.run(&o, None).unwrap().text;
    assert!(text.contains("\"slug\": \"alpha\""), "{text}");
    assert!(!text.contains("\"slug\": \"beta\""), "{text}");
}

#[test]
fn a_missing_cover_is_downloaded_under_the_game_slug() {
    let mut fixture = Fixture::new();
    fixture.game("alpha", "Alpha Game");
    fixture.search = r#"{"success":true,"data":[{"id":10,"name":"Alpha Game"}]}"#.to_string();
    fixture.grids = vec![(
        10,
        r#"{"success":true,"data":[{"url":"https://cdn.example/alpha.jpg","thumb":"https://cdn.example/alpha-thumb.jpg","mime":"image/jpeg"}]}"#
            .to_string(),
    )];
    let o = Options { json: true, ..options() };
    let run = fixture.run(&o, Some(KEY)).unwrap();
    assert_eq!(run.code, 0);
    assert_eq!(
        fixture.downloaded.as_deref(),
        Some("https://cdn.example/alpha.jpg")
    );
    assert!(fixture.cover_exists("alpha"));
    assert_eq!(
        fixture.files,
        vec!["/h/.local/share/lutris/coverart/alpha.jpg".to_string()]
    );
}

#[test]
fn an_exact_name_match_wins_over_the_first_hit() {
    let mut fixture = Fixture::delta();
    let o = Options { json: true, ..options() };
    assert_eq!(fixture.run(&o, Some(KEY)).unwrap().code, 0);
    assert_eq!(
        fixture.downloaded.as_deref(),
        Some("https://cdn.example/right.jpg")
    );
}

#[test]
fn a_pinned_match_is_used_instead() {
    let mut fixture = Fixture::delta();
    let o = Options {
        game: Some("delta".to_string()),
        cover_match: Some("20".to_string()),
        ..options()
    };
    assert_eq!(fixture.run(&o, Some(KEY)).unwrap().code, 0);
    assert_eq!(
        fixture.downloaded.as_deref(),
        Some("https://cdn.example/wrong.jpg")
    );
}

#[test]
fn matches_are_listed_with_previews_and_change_nothing() {
    let mut fixture = Fixture::delta();
    fixture.grids = vec![
        (
            20,
            r#"{"success":true,"data":[{"url":"https://cdn.example/force.jpg","thumb":"https://cdn.example/force-thumb.jpg"}]}"#
                .to_string(),
        ),
        (
            21,
            r#"{"success":true,"data":[{"url":"https://cdn.example/delta.jpg","thumb":"https://cdn.example/delta-thumb.jpg"}]}"#
                .to_string(),
        ),
    ];
    let o = Options {
        game: Some("delta".to_string()),
        matches: true,
        json: true,
        ..options()
    };
    let run = fixture.run(&o, Some(KEY)).unwrap();
    let text = run.text;
    assert_eq!(run.code, 0);
    assert!(text.contains("\"id\": 20"), "{text}");
    assert!(text.contains("\"id\": 21"), "{text}");
    assert!(
        text.contains("https://cdn.example/delta-thumb.jpg"),
        "{text}"
    );
    assert!(!fixture.cover_exists("delta"), "nothing should be written");
    assert_eq!(fixture.downloaded, None);
}

#[test]
fn a_missing_key_is_explained_rather_than_guessed_at() {
    let mut fixture = Fixture::new();
    fixture.game("alpha", "Alpha Game");
    let o = Options { json: true, ..options() };
    let why = match fixture.run(&o, None) {
        Err(why) => why,
        Ok(_) => panic!("there is no key"),
    };
    assert!(why.contains("SteamGridDB API key"), "{why}");
    assert!(why.ends_with("save it to /h/.local/share/librarybridge/sgdb-api-key."), "{why}");
    assert!(!fixture.cover_exists("alpha"));
}

#[test]
fn an_existing_cover_is_left_alone_without_overwrite() {
    let mut fixture = Fixture::new();
    fixture.game("alpha", "Alpha Game");
    fixture.cover("alpha");
    fixture.search = r#"{"success":true,"data":[{"id":10,"name":"Alpha Game"}]}"#.to_string();
    fixture.grids = vec![(
        10,
        r#"{"success":true,"data":[{"url":"https://cdn.example/new.jpg"}]}"#.to_string(),
    )];
    let o = Options { json: true, ..options() };
    assert_eq!(fixture.run(&o, Some(KEY)).unwrap().code, 0);
    assert_eq!(fixture.downloaded, None);
    // Naming the game does not replace it either.
    let o = Options { game: Some("alpha".to_string()), ..options() };
    let run = fixture.run(&o, Some(KEY)).unwrap();
    assert!(run.text.contains("already has one"), "{}", run.text);
    assert_eq!(fixture.downloaded, None);
    // Being told to does.
    let o = Options { overwrite: true, ..options() };
    assert_eq!(fixture.run(&o, Some(KEY)).unwrap().code, 0);
    assert_eq!(fixture.downloaded.as_deref(), Some("https://cdn.example/new.jpg"));
}

#[test]
fn a_failed_download_leaves_nothing_where_a_cover_would_show() {
    let mut fixture = Fixture::new();
    fixture.download_works = false;
    fixture.game("alpha", "Alpha Game");
    fixture.search = r#"{"success":true,"data":[{"id":10,"name":"Alpha Game"}]}"#.to_string();
    fixture.grids = vec![(
        10,
        r#"{"success":true,"data":[{"url":"https://cdn.example/alpha.jpg"}]}"#.to_string(),
    )];
    let o = Options { json: true, ..options() };
    let run = fixture.run(&o, Some(KEY)).unwrap();
    assert_eq!(run.code, 2);
    assert!(!fixture.cover_exists("alpha"));
    // No temporary file is left behind either.
    assert!(fixture.files.is_empty(), "{:?}", fixture.files);
}

#[test]
fn a_game_that_cannot_be_matched_is_reported_and_nothing_is_written() {
    let mut fixture = Fixture::new();
    fixture.game("alpha", "Alpha Game");
    fixture.search = r#"{"success":true,"data":[]}"#.to_string();
    let o = Options { json: true, ..options() };
    let run = fixture.run(&o, Some(KEY)).unwrap();
    assert_eq!(run.code, 2);
    assert!(run.text.contains("\"status\": \"no_match\"") || run.text.contains("\"status\":\"no_match\""), "{}", run.text);
    assert!(!fixture.cover_exists("alpha"));
}

#[test]
fn a_dry_run_places_nothing() {
    let mut fixture = Fixture::delta();
    let o = Options { dry_run: true, ..options() };
    let run = fixture.run(&o, Some(KEY)).unwrap();
    assert_eq!(run.code, 0);
    assert!(run.text.contains("would use \"Delta\""), "{}", run.text);
    assert!(run.text.contains("0 saved, 1 skipped, 0 with no cover found."), "{}", run.text);
    assert_eq!(fixture.downloaded, None);
}

#[test]
fn a_line_of_the_report_is_padded() {
    let mut fixture = Fixture::delta();
    let run = fixture.run(&options(), Some(KEY)).unwrap();
    assert_eq!(
        run.text,
        format!(
            "  {:<44} saved from \"Delta\"\n\n1 saved, 0 skipped, 0 with no cover found.\nRestart Lutris to see them.\n",
            "Delta"
        )
    );
}

#[test]
fn a_full_slug_names_its_game() {
    let mut fixture = Fixture::new();
    fixture.game("portal", "Portal");
    fixture.game("portal-2", "Portal 2");
    let entries = existing_entries(&fixture.configs, &None);
    let all = games(&fixture.installation, &None, &entries, &fixture.files);
    let key = Some(KEY.to_string());
    for (wanted, slug) in [("portal", "portal"), ("portal-2", "portal-2"), ("portal-", "portal-2")] {
        let o = Options { game: Some(wanted.to_string()), ..options() };
        match covers(&o, &all, &key) {
            Covers::Fetch(work) => {
                assert_eq!(work.targets.len(), 1, "{wanted}");
                assert_eq!(all[work.targets[0]].slug, slug, "{wanted}");
            }
            other => panic!("{wanted}: {other:?}"),
        }
    }
}

#[test]
fn games_that_cannot_be_worked_on_are_refused() {
    let mut fixture = Fixture::new();
    fixture.game("delta", "Delta");
    fixture.game("delta-force", "Delta Force");
    let entries = existing_entries(&fixture.configs, &None);
    let all = games(&fixture.installation, &None, &entries, &fixture.files);
    let key = Some(KEY.to_string());
    let several = Options { game: Some("delt".to_string()), ..options() };
    assert!(matches!(
        covers(&several, &all, &key),
        Covers::Refused(CoverRefusal::Several(2))
    ));
    assert_eq!(
        cover_refusal(&several, &all, CoverRefusal::Several(2)),
        "'delt' matches 2 games. Use the full slug."
    );
    let none = Options { game: Some("omega".to_string()), ..options() };
    assert!(matches!(covers(&none, &all, &key), Covers::Refused(CoverRefusal::NoGame)));
    assert_eq!(
        cover_refusal(&none, &all, CoverRefusal::NoGame),
        "no Lutris game matches 'omega'. Run `librarybridge lutris covers --list` to see the slugs."
    );
    let bad = Options { cover_match: Some("x".to_string()), ..options() };
    assert!(matches!(covers(&bad, &all, &key), Covers::Refused(CoverRefusal::BadId)));
    assert_eq!(
        cover_refusal(&bad, &all, CoverRefusal::BadId),
        "--match takes a SteamGridDB id (a number), not 'x'"
    );
    let plus = Options { cover_match: Some("+20".to_string()), game: Some("delta-".to_string()), ..options() };
    match covers(&plus, &all, &key) {
        Covers::Fetch(work) => {
            assert_eq!(work.pinned, Some(20));
            assert!(work.replace);
            assert_eq!(work.targets, vec![1]);
        }
        other => panic!("{other:?}"),
    }
}

#[test]
fn a_full_library_has_nothing_to_do() {
    let mut fixture = Fixture::new();
    fixture.game("alpha", "Alpha Game");
    fixture.cover("alpha");
    let o = Options { list_covers: true, ..options() };
    assert_eq!(
        fixture.run(&o, None).unwrap().text,
        "Every game in Lutris already has cover art.\n"
    );
    let run = fixture.run(&options(), Some(KEY)).unwrap();
    assert_eq!((run.code, run.text.as_str()), (0, ""));
}

#[test]
fn what_is_missing_is_listed_for_people() {
    let mut fixture = Fixture::new();
    fixture.game("alpha", "Alpha Game");
    fixture.game("beta", "Beta Game");
    fixture.cover("beta");
    let o = Options { list_covers: true, ..options() };
    assert_eq!(
        fixture.run(&o, None).unwrap().text,
        "1 of 2 games have no cover art:\n  Alpha Game  (alpha)\n\nFetch them with:\n    librarybridge lutris covers\n"
    );
}

#[test]
fn the_key_is_looked_for_in_order() {
    let sources = |explicit: Option<&str>, environment: Option<&str>, saved: Option<&str>| KeySources {
        explicit: explicit.map(str::to_string),
        environment: environment.map(str::to_string),
        saved: saved.map(str::to_string),
    };
    assert_eq!(read_key(&sources(Some(" one \n"), Some("two"), Some("three"))).as_deref(), Some("one"));
    assert_eq!(read_key(&sources(None, Some(" two "), Some("three"))).as_deref(), Some("two"));
    assert_eq!(read_key(&sources(None, None, Some("three\n"))).as_deref(), Some("three"));
    assert_eq!(read_key(&sources(None, Some("  "), Some("three"))).as_deref(), Some("three"));
    assert_eq!(read_key(&sources(None, None, None)), None);
    assert_eq!(read_key(&sources(Some(" \n"), Some("two"), None)).as_deref(), Some("two"));
    assert_eq!(read_key(&sources(Some(""), Some(" "), Some(" three "))).as_deref(), Some("three"));
    assert_eq!(read_key(&sources(Some(" "), Some(""), Some("\t"))), None);
}

#[test]
fn covers_are_looked_for_under_the_slug() {
    let fixture = Fixture::new();
    assert_eq!(cover_dir(&fixture.installation), "/h/.local/share/lutris/coverart");
    let png = vec!["/h/.local/share/lutris/coverart/a.png".to_string()];
    assert_eq!(existing(&fixture.installation, "a", &png).as_deref(), Some(png[0].as_str()));
    assert!(existing(&fixture.installation, "b", &png).is_none());
}

#[test]
fn listed_games_are_shown_once() {
    let fixture = Fixture::new();
    let listed = Some(vec![
        ("b".to_string(), "B".to_string()),
        ("a".to_string(), "A".to_string()),
        ("b".to_string(), "Again".to_string()),
    ]);
    let all = games(&fixture.installation, &listed, &vec![], &vec![]);
    let slugs: Vec<&str> = all.iter().map(|game| game.slug.as_str()).collect();
    assert_eq!(slugs, vec!["a", "b"]);
    assert_eq!(all[1].name, "B");
}

#[test]
fn requests_name_the_key_and_the_url() {
    assert_eq!(
        search_url("AC/DC"),
        "https://www.steamgriddb.com/api/v2/search/autocomplete/AC%2FDC"
    );
    let words = ask("k", "https://x");
    assert_eq!(words.last().unwrap(), "https://x");
    assert!(words.iter().any(|word| word.contains("Bearer k")));
    let words = download("https://x/y.jpg", "/tmp/y");
    assert!(words.windows(2).any(|pair| pair[0] == "-o" && pair[1] == "/tmp/y"));
    assert_eq!(words.last().unwrap(), "https://x/y.jpg");
}

#[test]
fn a_failed_request_is_explained() {
    let failed = Curl::Ran {
        success: false,
        code: Some(22),
        stdout: vec![],
        stderr: b"  curl: (22) 401 \xff\n".to_vec(),
    };
    assert_eq!(
        run_curl(&failed).unwrap_err(),
        explain_curl(Some(22), "  curl: (22) 401 \u{fffd}\n")
    );
    let missing = Curl::NotRun { error: "No such file".to_string() };
    assert!(run_curl(&missing).unwrap_err().contains("No such file"));
    assert_eq!(run_curl(&answer("x")).unwrap(), b"x");
}

#[test]
fn a_refused_request_is_an_error() {
    assert!(search(&answer(r#"{"success":false,"errors":["Unauthorized"]}"#))
        .unwrap_err()
        .contains("Unauthorized"));
    assert!(search(&answer("not json")).is_err());
    let found = search(&answer(
        r#"{"success":true,"data":[{"id":1,"name":"A"},{"name":"no id"},{"id":2.5,"name":"B"},{"id":3}]}"#,
    ))
    .unwrap();
    let ids: Vec<u64> = found.iter().map(|m| m.id).collect();
    assert_eq!(ids[0], 1);
    assert!(!ids.contains(&2));
    assert!(art(&answer(r#"{"success":true,"data":[]}"#)).unwrap().is_none());
    let piece = art(&answer(r#"{"success":true,"data":[{"url":"u","thumb":"t"},{"url":"v"}]}"#))
        .unwrap()
        .unwrap();
    assert_eq!((piece.url.as_str(), piece.thumb.as_deref()), ("u", Some("t")));
}

#[test]
fn only_a_few_matches_are_shown() {
    let found: Vec<Match> = (0..20).map(|id| candidate(id, "m")).collect();
    assert_eq!(shortlist(found).len(), MAX_MATCHES);
    assert_eq!(shortlist(vec![candidate(1, "m")]).len(), 1);
}

#[test]
fn matches_are_shown_for_people() {
    let game = Game { slug: "delta".to_string(), name: "Delta".to_string(), cover: None };
    let found = vec![candidate(20, "Delta Force"), candidate(21, "Delta")];
    assert_eq!(
        covers_matches(&options(), &game, "Delta", &found),
        "Matches for Delta (searching \"Delta\"):\n  [20] Delta Force\n  [21] Delta\n\nUse one with:\n    librarybridge lutris covers --game delta --match 20\n"
    );
    assert_eq!(
        covers_matches(&options(), &game, "x", &vec![]),
        "SteamGridDB has no match for 'x'.\n"
    );
}

#[test]
fn outcomes_are_counted() {
    let tally = cover_tally(&vec![
        CoverOutcome::Saved(0),
        CoverOutcome::Exists,
        CoverOutcome::DryRun(0),
        CoverOutcome::NoMatch,
        CoverOutcome::NoCover(1),
        CoverOutcome::SearchFailed,
    ]);
    assert_eq!(tally, CoverTally { saved: 1, skipped: 2, failed: 3 });
    assert_eq!(covers_exit(&tally), 0);
    assert_eq!(covers_exit(&CoverTally { saved: 0, skipped: 1, failed: 1 }), 2);
    assert_eq!(covers_exit(&CoverTally { saved: 0, skipped: 1, failed: 0 }), 0);
}

#[test]
fn an_event_is_one_object_on_one_line() {
    let game = Game { slug: "delta".to_string(), name: "Del\n\"ta\"".to_string(), cover: None };
    let line = emit_cover(&game, "saved", 1, 12);
    assert_eq!(
        line,
        "{\"event\": \"cover\", \"slug\": \"delta\", \"name\": \"Del\\n\\\"ta\\\"\", \"status\": \"saved\", \"done\": 1, \"total\": 12}\n"
    );
    assert_eq!(line.find('\n'), Some(line.len() - 1));
    let read = parse(&line).unwrap();
    assert_eq!(read.get("event").unwrap().as_str(), Some("cover"));
    assert_eq!(read.get("name").unwrap().as_str(), Some("Del\n\"ta\""));
    assert_eq!(read.get("done").unwrap().as_u64(), Some(1));
    assert_eq!(read.get("total").unwrap().as_u64(), Some(12));
}
