use librarybridge::lutris::{
    command_line_is_lutris, command_line_is_self, existing_entries, exit_code, find_installations,
    games_in, install, is_running, lutris_base, names_from_cli, on_path, quote, scalar_fields,
    slugify, strip_trailing_id, titleize, ConfigFile, Definition, Installation, Looks, Output,
    Packaging, Process, Running, Surroundings,
};

fn surroundings() -> Surroundings {
    Surroundings {
        home: Some("/home/a".to_string()),
        config_home: None,
        data_home: None,
        path: Some("/usr/bin:/bin".to_string()),
    }
}

fn looks() -> Looks {
    Looks {
        modern_games: false,
        modern_db: false,
        legacy: false,
        on_path: false,
        base: false,
        flatpak: false,
        flatpak_games: false,
    }
}

fn installation() -> Installation {
    Installation {
        packaging: Packaging::Native,
        config_dir: "/home/a/.local/share/lutris".to_string(),
        command: vec!["lutris".to_string()],
    }
}

#[test]
fn reads_the_fields_that_matter_from_a_config() {
    let text = "game:\n  exe: /home/a/Games/x/Game.exe\n  prefix: /home/a/Games/x-prefix\n\
                    \nrunner: wine\nsystem:\n  env:\n    DXVK: '1'\n";
    let fields = scalar_fields(text);
    assert_eq!(fields.get("exe").unwrap(), "/home/a/Games/x/Game.exe");
    assert_eq!(fields.get("prefix").unwrap(), "/home/a/Games/x-prefix");
    assert_eq!(fields.get("runner").unwrap(), "wine");
}

#[test]
fn strips_the_id_lutris_appends_to_config_names() {
    assert_eq!(strip_trailing_id("half-life-2-1699999999"), "half-life-2");
    assert_eq!(strip_trailing_id("portal"), "portal");
    assert_eq!(strip_trailing_id("game-2"), "game");
}

/// The running check must not mistake `librarybridge lutris import` (or a
/// background `lutris scan`) for the Lutris application itself.
#[test]
fn our_own_lutris_arguments_are_never_a_running_lutris() {
    assert!(command_line_is_lutris("/usr/bin/lutris"));
    assert!(command_line_is_lutris("python3 /usr/bin/lutris"));
    assert!(command_line_is_lutris("flatpak run net.lutris.Lutris"));
    assert!(command_line_is_self(
        "librarybridge lutris import --plan /tmp/plan.json"
    ));
    assert!(command_line_is_self(
        "/opt/librarybridge/bin/librarybridge lutris scan --root /games"
    ));
    assert!(!command_line_is_self("/usr/bin/lutris"));
    assert!(!command_line_is_self("flatpak run net.lutris.Lutris"));
}

#[test]
fn slugs_are_url_shaped() {
    assert_eq!(
        slugify("Half-Life 2: Episode One"),
        "half-life-2-episode-one"
    );
    assert_eq!(slugify("  S.T.A.L.K.E.R.  "), "s-t-a-l-k-e-r");
    assert_eq!(slugify("!!!"), "game");
}

#[test]
fn yaml_quotes_awkward_paths() {
    let definition = Definition {
        name: "Tom's Game".into(),
        slug: "toms-game".into(),
        runner: "wine".into(),
        exe: Some("/mnt/My Games/Tom's Game/game.exe".into()),
        appid: None,
        prefix: Some("/home/a/prefix".into()),
        working_dir: None,
    };
    let yaml = definition.to_yaml();
    assert!(yaml.contains("name: 'Tom''s Game'"), "{yaml}");
    assert!(
        yaml.contains("exe: '/mnt/My Games/Tom''s Game/game.exe'"),
        "{yaml}"
    );
    assert!(!yaml.contains("appid"));
}

#[test]
fn steam_definitions_carry_an_appid_and_no_executable() {
    let definition = Definition {
        name: "Half-Life 2".into(),
        slug: "half-life-2".into(),
        runner: "steam".into(),
        exe: None,
        appid: Some("220".into()),
        prefix: None,
        working_dir: None,
    };
    let yaml = definition.to_yaml();
    assert!(yaml.contains("appid: '220'"), "{yaml}");
    assert!(!yaml.contains("exe:"), "{yaml}");
}

#[test]
fn a_whole_definition_is_written() {
    let definition = Definition {
        name: "Beneath a Steel Sky".into(),
        slug: "beneath-a-steel-sky".into(),
        runner: "wine".into(),
        exe: Some("/g/BASS.exe".into()),
        appid: None,
        prefix: Some("/p".into()),
        working_dir: Some("/g".into()),
    };
    assert_eq!(
        definition.to_yaml(),
        "name: 'Beneath a Steel Sky'\ngame_slug: 'beneath-a-steel-sky'\n\
         version: librarybridge-import\nslug: 'beneath-a-steel-sky-librarybridge'\nrunner: 'wine'\n\
         script:\n  game:\n    exe: '/g/BASS.exe'\n    prefix: '/p'\n    working_dir: '/g'\n"
    );
}

#[test]
fn long_slugs_are_cut() {
    let slug = slugify(&"a".repeat(200));
    assert!(slug.len() <= 80, "{slug}");
    assert_eq!(slugify("Émile"), "mile");
    assert_eq!(slugify("under_score"), "under-score");
}

#[test]
fn quotes_are_doubled() {
    assert_eq!(quote("a"), "'a'");
    assert_eq!(quote("it's"), "'it''s'");
    assert_eq!(quote("a\nb"), "'a\nb'");
    assert_eq!(quote(""), "''");
}

#[test]
fn quoted_values_are_read_back() {
    let text = format!("name: {}\n", quote("Tom's Game"));
    // The reader takes the outer quotes off and leaves the doubled one.
    assert_eq!(scalar_fields(&text).get("name").unwrap(), "Tom''s Game");
    let plain = format!("exe: {}\n", quote("/mnt/My Games/game.exe"));
    assert_eq!(
        scalar_fields(&plain).get("exe").unwrap(),
        "/mnt/My Games/game.exe"
    );
}

#[test]
fn the_first_field_of_a_name_counts() {
    let fields = scalar_fields("# note: x\nexe: one\nexe: two\nempty:\n- item: 3\nnothing here\n");
    assert_eq!(fields.get("exe").unwrap(), "one");
    assert!(fields.get("empty").is_none());
    assert!(fields.get("note").is_none());
}

#[test]
fn a_listing_is_found_behind_other_output() {
    let text = "2024 INFO starting\n[{\"slug\": \"alpha\", \"name\": \"Alpha\"}, {\"slug\": \"beta\"}]";
    let games = games_in(text).unwrap();
    assert_eq!(games[0], ("alpha".to_string(), "Alpha".to_string()));
    assert!(games_in("nothing here").is_none());
    assert!(games_in("[]").is_none());
}

#[test]
fn the_list_command_has_to_succeed() {
    let lutris = installation();
    assert_eq!(
        lutris.list_command(),
        Some(vec![
            "lutris".to_string(),
            "--list-games".to_string(),
            "--json".to_string()
        ])
    );
    let stdout = b"[{\"slug\": \"alpha\", \"name\": \"Alpha\"}]".to_vec();
    let good = Some(Output { success: true, stdout: stdout.clone() });
    assert_eq!(lutris.list_games(&good).unwrap().len(), 1);
    let bad = Some(Output { success: false, stdout });
    assert!(lutris.list_games(&bad).is_none());
    assert!(lutris.list_games(&None).is_none());
    let silent = Installation { command: vec![], ..installation() };
    assert!(silent.list_command().is_none());
}

#[test]
fn broken_bytes_in_a_listing_are_replaced() {
    let lutris = installation();
    let mut stdout = b"\xff [{\"slug\": \"alpha\", \"name\": \"Al".to_vec();
    stdout.push(0xfe);
    stdout.extend(b"pha\"}]");
    let games = lutris
        .list_games(&Some(Output { success: true, stdout }))
        .unwrap();
    assert_eq!(games[0].1, "Al\u{fffd}pha");
}

#[test]
fn the_directories_of_lutris_are_found() {
    let e = surroundings();
    assert_eq!(lutris_base(&e, &looks()), None);
    let modern = Looks { modern_db: true, legacy: true, ..looks() };
    assert_eq!(
        lutris_base(&e, &modern).as_deref(),
        Some("/home/a/.local/share/lutris")
    );
    let legacy = Looks { legacy: true, ..looks() };
    assert_eq!(lutris_base(&e, &legacy).as_deref(), Some("/home/a/.config/lutris"));
    let moved = Surroundings {
        config_home: Some("relative".to_string()),
        data_home: Some("/data".to_string()),
        ..surroundings()
    };
    assert_eq!(lutris_base(&moved, &modern).as_deref(), Some("/data/lutris"));
    assert_eq!(lutris_base(&moved, &legacy).as_deref(), Some("/home/a/.config/lutris"));
}

#[test]
fn installations_are_listed() {
    let e = surroundings();
    assert_eq!(find_installations(&e, &looks()).len(), 0);
    let both = Looks {
        modern_games: true,
        base: true,
        on_path: true,
        flatpak: true,
        flatpak_games: true,
        ..looks()
    };
    let found = find_installations(&e, &both);
    assert_eq!(found.len(), 2);
    assert_eq!(found[0].packaging, Packaging::Native);
    assert_eq!(found[0].command, vec!["lutris".to_string()]);
    assert_eq!(found[0].games_dir(), "/home/a/.local/share/lutris/games");
    assert_eq!(found[1].packaging, Packaging::Flatpak);
    assert_eq!(found[1].packaging.label(), "flatpak");
    assert_eq!(found[1].command[0], "flatpak");
}

#[test]
fn programs_are_looked_for_along_the_path() {
    assert_eq!(
        on_path(&surroundings(), "lutris"),
        vec!["/usr/bin/lutris".to_string(), "/bin/lutris".to_string()]
    );
    assert!(on_path(&Surroundings { path: None, ..surroundings() }, "lutris").is_empty());
}

#[test]
fn a_running_lutris_is_told_from_our_own_commands() {
    let process = |pid: &str, line: &str| Process {
        pid: pid.to_string(),
        command_line: line.as_bytes().to_vec(),
        name: None,
    };
    let ours = process("7", "librarybridge\0lutris\0import\0");
    let own = Running::Processes { own: "7".to_string(), all: vec![ours] };
    assert!(!is_running(&own));
    let other = Running::Processes {
        own: "1".to_string(),
        all: vec![process("7", "librarybridge\0lutris\0scan\0")],
    };
    assert!(!is_running(&other));
    let open = Running::Processes {
        own: "1".to_string(),
        all: vec![process("8", "/usr/bin/python3\0/usr/bin/lutris\0")],
    };
    assert!(is_running(&open));
    let listing = |text: &str| Running::Listing {
        output: Some(Output { success: true, stdout: text.as_bytes().to_vec() }),
    };
    assert!(is_running(&listing("init\n/usr/bin/lutris\n")));
    assert!(!is_running(&listing("init\nlibrarybridge lutris scan\n")));
    assert!(!is_running(&Running::Listing { output: None }));
}

#[test]
fn entries_are_read_from_config_files() {
    let files = vec![
        ConfigFile {
            path: "/l/games/portal-1700000000.yml".to_string(),
            text: Some("game:\n  exe: /g/portal.exe\nrunner: wine\n".to_string()),
        },
        ConfigFile {
            path: "/l/games/alpha-1700000000.yml".to_string(),
            text: Some("name: 'Alpha Game'\ngame_slug: alpha\nversion: test\nrunner: wine\n".to_string()),
        },
        ConfigFile { path: "/l/games/broken-1.yml".to_string(), text: None },
        ConfigFile { path: "/l/games/notes.txt".to_string(), text: Some("runner: wine\n".to_string()) },
    ];
    let listed = Some(vec![("portal".to_string(), "Portal".to_string())]);
    let entries = existing_entries(&files, &listed);
    assert_eq!(entries.len(), 2);
    assert_eq!(entries[0].slug, "alpha");
    assert_eq!(entries[0].name, "Alpha Game");
    assert_eq!(entries[1].slug, "portal");
    assert_eq!(entries[1].name, "Portal");
    assert_eq!(entries[1].exe.as_deref(), Some("/g/portal.exe"));
    assert_eq!(entries[1].config, "/l/games/portal-1700000000.yml");
}

#[test]
fn titles_are_made_of_slugs() {
    assert_eq!(titleize("half-life-2"), "Half Life 2");
    assert_eq!(titleize("élan--vital"), "Élan Vital");
    assert_eq!(titleize("ßtar"), "SStar");
    assert_eq!(titleize(""), "");
}

#[test]
fn listed_names_are_looked_up_by_slug() {
    let listed = Some(vec![
        ("alpha".to_string(), "Alpha".to_string()),
        ("beta".to_string(), "Beta".to_string()),
    ]);
    let names = names_from_cli(&listed);
    assert_eq!(names.get("beta").unwrap(), "Beta");
    assert!(names.get("gamma").is_none());
    assert!(names_from_cli(&None).get("alpha").is_none());
}

#[test]
fn the_install_command_names_the_file() {
    assert_eq!(
        install(&installation(), "/tmp/a.yml"),
        Ok(vec!["lutris".to_string(), "--install".to_string(), "/tmp/a.yml".to_string()])
    );
    let silent = Installation { command: vec![], ..installation() };
    assert_eq!(
        install(&silent, "/tmp/a.yml"),
        Err("no Lutris command available".to_string())
    );
    assert_eq!(exit_code(false, Some(3)), 3);
    assert_eq!(exit_code(false, None), -1);
}
