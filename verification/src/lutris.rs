//! Talking to Lutris: finding it, reading what it already knows about, and
//! generating install definitions for games it is missing.
//!
//! Nothing here writes to Lutris's database. Entries are created by handing
//! Lutris a YAML definition through its own install command, which is the
//! supported path and leaves Lutris in charge of its own files.

use vstd::prelude::*;
use vstd::utf8::*;

use crate::json::{parse, parsed, Value};
use crate::ordered::TextMap;
use crate::path::{
    extension_of, find_last, has_extension, is_absolute, join as join_path, last_of, rooted, stem,
    stem_of, under,
};
use crate::sorting::{
    in_order_by, lemma_in_order, lemma_in_order_map, lemma_sorting_is_stable, only, own_key, sort,
    Keyed,
};
use crate::text::{
    ascii_alnum, ascii_lower, ascii_lower_char, ascii_lowered, ascii_small, cat2, chars_of, ends,
    ends_with, find_char, find_from, is_ascii_alnum, is_blank, is_digit, join, joined,
    lemma_ascii_small, lemma_blanks, lemma_find_from, lemma_joined_with, lemma_one_word,
    lemma_split_piece, lemma_trimmed_by, lemma_trimmed_is_the_middle, lemma_views_push,
    lemma_words_concat, maybe, on_edge, same_text, split_at_char, split_char, text_of, trim,
    trim_back, trim_edge, trim_front, trimmed, trimmed_of, views, words, words_of, Edge,
};
use crate::unicode::{lossy, lossy_text, upper, uppercase};

verus! {

#[derive(Debug, Clone, Copy, PartialEq, Eq, Structural)]
pub enum Packaging {
    Native,
    Flatpak,
}

impl Packaging {
    pub open spec fn label_text(self) -> Seq<char> {
        match self {
            Packaging::Native => "native"@,
            Packaging::Flatpak => "flatpak"@,
        }
    }

    pub fn label(self) -> (text: &'static str)
        ensures
            text@ == self.label_text(),
    {
        match self {
            Packaging::Native => "native",
            Packaging::Flatpak => "flatpak",
        }
    }
}

#[derive(Debug, Clone)]
pub struct Installation {
    pub packaging: Packaging,
    pub config_dir: String,
    /// The command that launches Lutris, already split into arguments.
    pub command: Vec<String>,
}

/// What a command that was run printed.
#[derive(Debug)]
pub struct Output {
    pub success: bool,
    pub stdout: Vec<u8>,
}

// --------------------------------------------------------- the list of games

/// The first place where a list or an object starts.
pub open spec fn opening(s: Seq<char>) -> int {
    let list = find_from(s, '[', 0);
    let object = find_from(s, '{', 0);
    if list < object {
        list
    } else {
        object
    }
}

/// The games among some values: those that have a slug and a name.
pub open spec fn named(items: Seq<Value>) -> Seq<(Seq<char>, Seq<char>)>
    decreases items.len(),
{
    if items.len() == 0 {
        seq![]
    } else {
        let rest = named(items.drop_last());
        match (items.last().string("slug"@), items.last().string("name"@)) {
            (Some(slug), Some(name)) => rest.push((slug, name)),
            _ => rest,
        }
    }
}

/// The games that a listing names, if it can be read and names any.
pub open spec fn listed_in(text: Seq<char>) -> Option<Seq<(Seq<char>, Seq<char>)>> {
    if opening(text) >= text.len() {
        None
    } else {
        match parsed(encode_utf8(trimmed(text.skip(opening(text))))) {
            Err(_) => None,
            Ok(value) => {
                let games = named(value.as_array());
                if games.len() == 0 {
                    None
                } else {
                    Some(games)
                }
            },
        }
    }
}

pub open spec fn pair_views(pairs: Seq<(String, String)>) -> Seq<(Seq<char>, Seq<char>)> {
    pairs.map_values(|p: (String, String)| (p.0@, p.1@))
}

proof fn lemma_pairs_push(pairs: Seq<(String, String)>, p: (String, String))
    ensures
        pair_views(pairs.push(p)) == pair_views(pairs).push((p.0@, p.1@)),
{
    assert(pair_views(pairs.push(p)) =~= pair_views(pairs).push((p.0@, p.1@)));
}

/// Read the games out of a listing.
pub fn games_in(text: &str) -> (games: Option<Vec<(String, String)>>)
    ensures
        match listed_in(text@) {
            Some(l) => games matches Some(g) && pair_views(g@) == l,
            None => games is None,
        },
{
    let chars = chars_of(text);
    let list = find_char(&chars, '[', 0);
    let object = find_char(&chars, '{', 0);
    let start = if list < object {
        list
    } else {
        object
    };
    proof {
        lemma_find_from(chars@, '[', 0);
        lemma_find_from(chars@, '{', 0);
    }
    if start >= chars.len() {
        return None;
    }
    let rest = text_of(&chars, start, chars.len());
    assert(rest@ =~= text@.skip(start as int));
    let value = match parse(trim(rest.as_str()).as_str()) {
        Err(_) => return None,
        Ok(value) => value,
    };
    let items = value.as_array();
    let ghost all = value@.as_array();
    let mut games: Vec<(String, String)> = Vec::new();
    assert(all.take(0) =~= seq![]);
    assert(pair_views(games@) =~= seq![]);
    for i in 0..items.len()
        invariant
            all.len() == items@.len(),
            forall|k: int| 0 <= k < items@.len() ==> #[trigger] all[k] == items@[k]@,
            pair_views(games@) == named(all.take(i as int)),
    {
        proof {
            assert(all.take(i + 1).drop_last() =~= all.take(i as int));
            assert(all.take(i + 1).last() == items@[i as int]@);
        }
        match (items[i].string("slug"), items[i].string("name")) {
            (Some(slug), Some(name)) => {
                proof {
                    lemma_pairs_push(games@, (slug, name));
                }
                games.push((slug, name));
            },
            _ => {},
        }
    }
    assert(all.take(items@.len() as int) =~= all);
    if games.len() == 0 {
        assert(pair_views(games@).len() == 0);
        None
    } else {
        assert(pair_views(games@).len() > 0);
        Some(games)
    }
}

/// A command's words with more after them.
fn with_words(command: &Vec<String>, first: &str, second: &str) -> (all: Vec<String>)
    ensures
        views(all@) == views(command@) + seq![first@, second@],
{
    let mut all: Vec<String> = Vec::new();
    assert(views(all@) =~= views(command@).take(0));
    for i in 0..command.len()
        invariant
            views(all@) == views(command@).take(i as int),
    {
        let one = command[i].clone();
        proof {
            lemma_views_push(all@, one);
            assert(views(command@).take(i + 1) =~= views(command@).take(i as int).push(one@));
        }
        all.push(one);
    }
    assert(views(command@).take(command@.len() as int) =~= views(command@));
    let a = first.to_owned();
    let b = second.to_owned();
    proof {
        lemma_views_push(all@, a);
        lemma_views_push(all@.push(a), b);
    }
    all.push(a);
    all.push(b);
    assert(views(all@) =~= views(command@) + seq![first@, second@]);
    all
}

impl Installation {
    pub fn games_dir(&self) -> (path: String)
        ensures
            path@ == under(self.config_dir@, "games"@),
    {
        join_path(self.config_dir.as_str(), "games")
    }

    /// The command that lists the games, if there is any.
    pub fn list_command(&self) -> (command: Option<Vec<String>>)
        ensures
            match command {
                Some(c) => self.command@.len() > 0 && views(c@) == views(self.command@)
                    + seq!["--list-games"@, "--json"@],
                None => self.command@.len() == 0,
            },
    {
        if self.command.len() == 0 {
            None
        } else {
            Some(with_words(&self.command, "--list-games", "--json"))
        }
    }

    /// The games Lutris itself lists, as `(slug, display name)`.
    ///
    /// This is the authoritative set: it comes from Lutris rather than from the
    /// config files, which can hold leftovers and more than one file for the
    /// same game. `None` when the command is unavailable or reports nothing.
    pub fn list_games(&self, output: &Option<Output>) -> (games: Option<Vec<(String, String)>>)
        ensures
            match listed_by(*output) {
                Some(l) => games matches Some(g) && pair_views(g@) == l,
                None => games is None,
            },
    {
        match output {
            Some(o) => if o.success {
                games_in(lossy(o.stdout.as_slice()).as_str())
            } else {
                None
            },
            None => None,
        }
    }
}

/// The games in what the list command printed, if it ran and went well.
pub open spec fn listed_by(output: Option<Output>) -> Option<Seq<(Seq<char>, Seq<char>)>> {
    match output {
        Some(o) => if o.success {
            listed_in(lossy_text(o.stdout@))
        } else {
            None
        },
        None => None,
    }
}

// --------------------------------------------------------- where Lutris is

/// What the environment says of where things are.
#[derive(Debug)]
pub struct Surroundings {
    pub home: Option<String>,
    pub config_home: Option<String>,
    pub data_home: Option<String>,
    /// The search path for programs.
    pub path: Option<String>,
}

pub open spec fn home_of(e: Surroundings) -> Seq<char> {
    match e.home {
        Some(h) => h@,
        None => "."@,
    }
}

pub fn home(e: &Surroundings) -> (path: String)
    ensures
        path@ == home_of(*e),
{
    match &e.home {
        Some(h) => h.clone(),
        None => ".".to_owned(),
    }
}

/// A directory the environment gives, if it is absolute, or one in the home.
pub open spec fn base_of(given: Option<String>, e: Surroundings, usual: Seq<char>) -> Seq<char> {
    match given {
        Some(dir) if rooted(dir@) => dir@,
        _ => under(home_of(e), usual),
    }
}

pub fn config_home(e: &Surroundings) -> (path: String)
    ensures
        path@ == base_of(e.config_home, *e, ".config"@),
{
    match &e.config_home {
        Some(dir) => if is_absolute(dir.as_str()) {
            dir.clone()
        } else {
            join_path(home(e).as_str(), ".config")
        },
        None => join_path(home(e).as_str(), ".config"),
    }
}

pub fn data_home(e: &Surroundings) -> (path: String)
    ensures
        path@ == base_of(e.data_home, *e, ".local/share"@),
{
    match &e.data_home {
        Some(dir) => if is_absolute(dir.as_str()) {
            dir.clone()
        } else {
            join_path(home(e).as_str(), ".local/share")
        },
        None => join_path(home(e).as_str(), ".local/share"),
    }
}

/// What is where Lutris could be.
#[derive(Debug, Clone, Copy, PartialEq, Eq, Structural)]
pub struct Looks {
    /// `games` is a directory in the modern place.
    pub modern_games: bool,
    /// `pga.db` is a file in the modern place.
    pub modern_db: bool,
    /// The legacy place is a directory.
    pub legacy: bool,
    /// The program is on the search path.
    pub on_path: bool,
    /// The place that was chosen is a directory.
    pub base: bool,
    /// The Flatpak's directory is there.
    pub flatpak: bool,
    /// `games` is a directory in the Flatpak's data.
    pub flatpak_games: bool,
}

pub open spec fn modern_of(e: Surroundings) -> Seq<char> {
    under(base_of(e.data_home, e, ".local/share"@), "lutris"@)
}

pub open spec fn legacy_of(e: Surroundings) -> Seq<char> {
    under(base_of(e.config_home, e, ".config"@), "lutris"@)
}

/// Where Lutris keeps its data since it moved everything into the data home.
pub fn modern_base(e: &Surroundings) -> (path: String)
    ensures
        path@ == modern_of(*e),
{
    join_path(data_home(e).as_str(), "lutris")
}

/// Where earlier releases kept it.
pub fn legacy_base(e: &Surroundings) -> (path: String)
    ensures
        path@ == legacy_of(*e),
{
    join_path(config_home(e).as_str(), "lutris")
}

/// Which directory holds a Lutris installation's config: whichever of the two
/// actually exists, the modern one first.
pub open spec fn base_found(e: Surroundings, k: Looks) -> Option<Seq<char>> {
    if k.modern_games || k.modern_db {
        Some(modern_of(e))
    } else if k.legacy {
        Some(legacy_of(e))
    } else {
        None
    }
}

pub fn lutris_base(e: &Surroundings, k: &Looks) -> (path: Option<String>)
    ensures
        maybe(path) == base_found(*e, *k),
{
    if k.modern_games || k.modern_db {
        Some(modern_base(e))
    } else if k.legacy {
        Some(legacy_base(e))
    } else {
        None
    }
}

/// Where a program would be found, one place for each directory of the search
/// path.
pub open spec fn places_of(dirs: Seq<Seq<char>>, program: Seq<char>) -> Seq<Seq<char>> {
    dirs.map_values(|dir: Seq<char>| under(dir, program))
}

/// Where a program would be found on the search path, which has a colon between
/// its directories.
pub open spec fn places_on(path: Option<String>, program: Seq<char>) -> Seq<Seq<char>> {
    match path {
        Some(p) => places_of(split_at_char(p@, ':'), program),
        None => seq![],
    }
}

/// The files to look for to find a program on the search path without running
/// anything.
pub fn on_path(e: &Surroundings, program: &str) -> (places: Vec<String>)
    ensures
        views(places@) == places_on(e.path, program@),
{
    let mut places: Vec<String> = Vec::new();
    assert(views(places@) =~= seq![]);
    match &e.path {
        None => places,
        Some(p) => {
            let dirs = split_char(p.as_str(), ':');
            let ghost all = views(dirs@);
            assert(views(places@) =~= places_of(all.take(0), program@));
            for i in 0..dirs.len()
                invariant
                    all == views(dirs@),
                    views(places@) == places_of(all.take(i as int), program@),
            {
                let one = join_path(dirs[i].as_str(), program);
                proof {
                    lemma_views_push(places@, one);
                    assert(all[i as int] == dirs@[i as int]@);
                    assert(places_of(all.take(i + 1), program@) =~= places_of(
                        all.take(i as int),
                        program@,
                    ).push(one@));
                }
                places.push(one);
            }
            assert(all.take(dirs@.len() as int) =~= all);
            places
        },
    }
}

/// What an installation is.
pub struct InstallationView {
    pub packaging: Packaging,
    pub config_dir: Seq<char>,
    pub command: Seq<Seq<char>>,
}

impl View for Installation {
    type V = InstallationView;

    open spec fn view(&self) -> InstallationView {
        InstallationView {
            packaging: self.packaging,
            config_dir: self.config_dir@,
            command: views(self.command@),
        }
    }
}

pub open spec fn installation_views(all: Seq<Installation>) -> Seq<InstallationView> {
    all.map_values(|i: Installation| i@)
}

pub open spec fn native_of(e: Surroundings, k: Looks) -> InstallationView {
    InstallationView {
        packaging: Packaging::Native,
        config_dir: match base_found(e, k) {
            Some(base) => base,
            None => seq![],
        },
        command: seq!["lutris"@],
    }
}

pub open spec fn flatpak_dir(e: Surroundings) -> Seq<char> {
    under(home_of(e), ".var/app/net.lutris.Lutris"@)
}

pub open spec fn flatpak_of(e: Surroundings, k: Looks) -> InstallationView {
    InstallationView {
        packaging: Packaging::Flatpak,
        config_dir: under(
            flatpak_dir(e),
            if k.flatpak_games {
                "data/lutris"@
            } else {
                "config/lutris"@
            },
        ),
        command: seq!["flatpak"@, "run"@, "net.lutris.Lutris"@],
    }
}

/// Every Lutris installation there is. Both packagings can be present.
pub open spec fn installed(e: Surroundings, k: Looks) -> Seq<InstallationView> {
    let native = if k.on_path || (base_found(e, k) is Some && k.base) {
        seq![native_of(e, k)]
    } else {
        seq![]
    };
    if k.flatpak {
        native.push(flatpak_of(e, k))
    } else {
        native
    }
}

/// Where the Flatpak's own files are.
pub fn flatpak_app(e: &Surroundings) -> (path: String)
    ensures
        path@ == flatpak_dir(*e),
{
    join_path(home(e).as_str(), ".var/app/net.lutris.Lutris")
}

pub fn find_installations(e: &Surroundings, k: &Looks) -> (found: Vec<Installation>)
    ensures
        installation_views(found@) == installed(*e, *k),
{
    let mut found: Vec<Installation> = Vec::new();
    let base = lutris_base(e, k);
    let visible = k.on_path || (base.is_some() && k.base);
    let native_base = match base {
        Some(b) => b,
        None => String::new(),
    };
    if visible {
        let mut command: Vec<String> = Vec::new();
        command.push("lutris".to_owned());
        let native = Installation { packaging: Packaging::Native, config_dir: native_base, command };
        assert(native@.command =~= seq!["lutris"@]);
        assert(native@ == native_of(*e, *k));
        found.push(native);
    }
    let ghost first = installation_views(found@);
    assert(first =~= (if visible { seq![native_of(*e, *k)] } else { seq![] }));
    if k.flatpak {
        let app = flatpak_app(e);
        let base = if k.flatpak_games {
            join_path(app.as_str(), "data/lutris")
        } else {
            join_path(app.as_str(), "config/lutris")
        };
        let mut command: Vec<String> = Vec::new();
        command.push("flatpak".to_owned());
        command.push("run".to_owned());
        command.push("net.lutris.Lutris".to_owned());
        let flatpak = Installation { packaging: Packaging::Flatpak, config_dir: base, command };
        assert(flatpak@.command =~= seq!["flatpak"@, "run"@, "net.lutris.Lutris"@]);
        assert(flatpak@ == flatpak_of(*e, *k));
        found.push(flatpak);
        assert(installation_views(found@) =~= first.push(flatpak_of(*e, *k)));
    }
    found
}

// ------------------------------------------------------ whether it is running

/// Whether a word of a command line names Lutris.
pub open spec fn names_lutris(word: Seq<char>) -> bool {
    ||| word == "lutris"@
    ||| ends(word, "/lutris"@)
    ||| word == "net.lutris.lutris"@
    ||| ends(word, "/net.lutris.lutris"@)
}

/// Whether any word of a command line names Lutris.
pub open spec fn is_lutris(line: Seq<char>) -> bool {
    exists|i: int|
        0 <= i < words_of(ascii_lowered(line)).len() && #[trigger] names_lutris(
            words_of(ascii_lowered(line))[i],
        )
}

pub fn command_line_is_lutris(command_line: &str) -> (yes: bool)
    ensures
        yes == is_lutris(command_line@),
{
    let all = words(ascii_lower(command_line).as_str());
    let ghost w = words_of(ascii_lowered(command_line@));
    for i in 0..all.len()
        invariant
            views(all@) == w,
            w == words_of(ascii_lowered(command_line@)),
            forall|k: int| 0 <= k < i ==> !#[trigger] names_lutris(w[k]),
    {
        assert(w[i as int] == all@[i as int]@);
        let word = all[i].as_str();
        if same_text(word, "lutris") || ends_with(word, "/lutris") || same_text(
            word,
            "net.lutris.lutris",
        ) || ends_with(word, "/net.lutris.lutris") {
            assert(names_lutris(w[i as int]));
            return true;
        }
    }
    assert(w.len() == all@.len());
    false
}

/// Whether a command line belongs to LibraryBridge itself rather than to
/// Lutris: its own processes run as `librarybridge lutris import`, and the
/// `lutris` there is an argument.
pub open spec fn is_self(line: Seq<char>) -> bool {
    let w = words_of(ascii_lowered(line));
    w.len() > 0 && (w[0] == "librarybridge"@ || ends(w[0], "/librarybridge"@))
}

pub fn command_line_is_self(command_line: &str) -> (yes: bool)
    ensures
        yes == is_self(command_line@),
{
    let all = words(ascii_lower(command_line).as_str());
    if all.len() == 0 {
        assert(views(all@).len() == 0);
        return false;
    }
    assert(views(all@)[0] == all@[0]@);
    let first = all[0].as_str();
    same_text(first, "librarybridge") || ends_with(first, "/librarybridge")
}

/// A process: what it was started with, its arguments apart by zero bytes, and
/// the name it goes by.
#[derive(Debug)]
pub struct Process {
    pub pid: String,
    pub command_line: Vec<u8>,
    pub name: Option<String>,
}

/// A text with spaces for zero characters.
pub open spec fn spaced(s: Seq<char>) -> Seq<char> {
    s.map_values(|c: char| if c == '\0' { ' ' } else { c })
}

fn space_out(text: &str) -> (out: String)
    ensures
        out@ == spaced(text@),
{
    let mut out = String::new();
    assert(out@ =~= spaced(text@.take(0)));
    for c in it: text.chars()
        invariant
            it.seq() == text@,
            out@ == spaced(text@.take(it.index())),
    {
        if c == '\0' {
            out.push(' ');
        } else {
            out.push(c);
        }
        assert(out@ =~= spaced(text@.take(it.index() + 1)));
    }
    assert(text@.take(text@.len() as int) =~= text@);
    out
}

/// Whether a process is Lutris, and not the one that asks.
pub open spec fn runs_lutris(own: Seq<char>, p: Process) -> bool {
    let line = spaced(lossy_text(p.command_line@));
    &&& p.pid@ != own
    &&& !is_self(line)
    &&& is_lutris(line) || (p.name is Some && is_lutris(trimmed(p.name->Some_0@)))
}

fn process_runs_lutris(own: &str, p: &Process) -> (yes: bool)
    ensures
        yes == runs_lutris(own@, *p),
{
    if same_text(p.pid.as_str(), own) {
        return false;
    }
    let line = space_out(lossy(p.command_line.as_slice()).as_str());
    if command_line_is_self(line.as_str()) {
        return false;
    }
    if command_line_is_lutris(line.as_str()) {
        return true;
    }
    match &p.name {
        Some(name) => command_line_is_lutris(trim(name.as_str()).as_str()),
        None => false,
    }
}

/// What is known of what runs.
#[derive(Debug)]
pub enum Running {
    /// The processes, and the one that asks.
    Processes { own: String, all: Vec<Process> },
    /// A listing with a command line to a line, where that went well.
    Listing { output: Option<Output> },
}

/// Whether a line of a listing is Lutris.
pub open spec fn line_runs_lutris(line: Seq<char>) -> bool {
    !is_self(trimmed(line)) && is_lutris(trimmed(line))
}

pub open spec fn any_process(own: Seq<char>, all: Seq<Process>) -> bool {
    exists|i: int| 0 <= i < all.len() && runs_lutris(own, #[trigger] all[i])
}

pub open spec fn any_line(lines: Seq<Seq<char>>) -> bool {
    exists|i: int| 0 <= i < lines.len() && #[trigger] line_runs_lutris(lines[i])
}

pub open spec fn running_lutris(r: Running) -> bool {
    match r {
        Running::Processes { own, all } => any_process(own@, all@),
        Running::Listing { output } => match output {
            Some(o) => o.success && any_line(split_at_char(lossy_text(o.stdout@), '\n')),
            None => false,
        },
    }
}

fn find_process(own: &str, all: &Vec<Process>) -> (yes: bool)
    ensures
        yes == any_process(own@, all@),
{
    for i in 0..all.len()
        invariant
            forall|k: int| 0 <= k < i ==> !runs_lutris(own@, #[trigger] all@[k]),
    {
        if process_runs_lutris(own, &all[i]) {
            assert(runs_lutris(own@, all@[i as int]));
            return true;
        }
    }
    false
}

fn find_line(text: &str) -> (yes: bool)
    ensures
        yes == any_line(split_at_char(text@, '\n')),
{
    let lines = split_char(text, '\n');
    let ghost all = views(lines@);
    for i in 0..lines.len()
        invariant
            all == views(lines@),
            all == split_at_char(text@, '\n'),
            forall|k: int| 0 <= k < i ==> !#[trigger] line_runs_lutris(all[k]),
    {
        let line = trim(lines[i].as_str());
        assert(all[i as int] == lines@[i as int]@);
        if !command_line_is_self(line.as_str()) && command_line_is_lutris(line.as_str()) {
            assert(line_runs_lutris(all[i as int]));
            return true;
        }
    }
    false
}

/// Whether a Lutris process is already running.
///
/// The import command sends Lutris an install request either way, but knowing
/// this lets the window skip the opening step when Lutris is already there.
pub fn is_running(r: &Running) -> (yes: bool)
    ensures
        yes == running_lutris(*r),
{
    match r {
        Running::Processes { own, all } => find_process(own.as_str(), all),
        Running::Listing { output } => match output {
            Some(o) => o.success && find_line(lossy(o.stdout.as_slice()).as_str()),
            None => false,
        },
    }
}

/// The command that asks, and other commands of LibraryBridge, never count as a
/// running Lutris, whatever their arguments are.
pub proof fn lemma_own_commands_do_not_count(own: Seq<char>, all: Seq<Process>)
    requires
        forall|i: int|
            0 <= i < all.len() ==> (#[trigger] all[i]).pid@ == own || is_self(
                spaced(lossy_text(all[i].command_line@)),
            ),
    ensures
        !any_process(own, all),
{
}

// ------------------------------------------------------- what it already has

/// A game that Lutris has.
#[derive(Debug, Clone)]
pub struct Entry {
    pub slug: String,
    pub name: String,
    pub runner: String,
    pub exe: Option<String>,
    pub appid: Option<String>,
    pub prefix: Option<String>,
    pub config: String,
}

pub struct EntryView {
    pub slug: Seq<char>,
    pub name: Seq<char>,
    pub runner: Seq<char>,
    pub exe: Option<Seq<char>>,
    pub appid: Option<Seq<char>>,
    pub prefix: Option<Seq<char>>,
    pub config: Seq<char>,
}

impl View for Entry {
    type V = EntryView;

    open spec fn view(&self) -> EntryView {
        EntryView {
            slug: self.slug@,
            name: self.name@,
            runner: self.runner@,
            exe: maybe(self.exe),
            appid: maybe(self.appid),
            prefix: maybe(self.prefix),
            config: self.config@,
        }
    }
}

pub open spec fn entry_views(all: Seq<Entry>) -> Seq<EntryView> {
    all.map_values(|e: Entry| e@)
}

impl Keyed for Entry {
    open spec fn key(&self) -> Seq<char> {
        self.slug@
    }

    fn key_text(&self) -> (text: &str) {
        self.slug.as_str()
    }
}

/// Drop the number that Lutris appends to the name of a config file.
pub open spec fn without_id(stem: Seq<char>) -> Seq<char> {
    let dash = last_of(stem, '-');
    let tail = stem.skip(dash + 1);
    if dash >= 0 && tail.len() > 0 && forall|i: int|
        0 <= i < tail.len() ==> is_digit(#[trigger] tail[i]) {
        stem.take(dash)
    } else {
        stem
    }
}

/// Lutris names its config files `<slug>-<id>.yml`. Drop the trailing id.
pub fn strip_trailing_id(stem: &str) -> (slug: String)
    ensures
        slug@ == without_id(stem@),
{
    let chars = chars_of(stem);
    let after = find_last(&chars, '-');
    let ghost tail = stem@.skip(after as int);
    if after == 0 || after == chars.len() {
        return stem.to_owned();
    }
    for i in after..chars.len()
        invariant
            0 < after <= chars@.len(),
            chars@ == stem@,
            tail == stem@.skip(after as int),
            after == last_of(stem@, '-') + 1,
            forall|k: int| after <= k < i ==> is_digit(#[trigger] chars@[k]),
    {
        if !('0' <= chars[i] && chars[i] <= '9') {
            assert(tail[i - after] == chars@[i as int]);
            return stem.to_owned();
        }
    }
    assert forall|i: int| 0 <= i < tail.len() implies is_digit(#[trigger] tail[i]) by {
        assert(tail[i] == chars@[after + i]);
    }
    let head = text_of(&chars, 0, after - 1);
    assert(head@ =~= stem@.take(after - 1));
    head
}

/// The key and value of a line of a shallow YAML file, if it has both.
pub open spec fn field_of(raw: Seq<char>) -> Option<(Seq<char>, Seq<char>)> {
    let line = trimmed(raw);
    let colon = find_from(line, ':', 0);
    if line.len() == 0 || line[0] == '#' || line[0] == '-' || colon >= line.len() {
        None
    } else {
        let value = trimmed(line.skip(colon + 1));
        if value.len() == 0 {
            None
        } else {
            Some((trimmed(line.take(colon)), trimmed_of(value, Edge::Quote)))
        }
    }
}

fn read_field(raw: &str) -> (field: Option<(String, String)>)
    ensures
        match field_of(raw@) {
            Some((k, v)) => field matches Some(f) && f.0@ == k && f.1@ == v,
            None => field is None,
        },
{
    let line = trim(raw);
    let chars = chars_of(line.as_str());
    if chars.len() == 0 || chars[0] == '#' || chars[0] == '-' {
        return None;
    }
    let colon = find_char(&chars, ':', 0);
    proof {
        lemma_find_from(chars@, ':', 0);
    }
    if colon >= chars.len() {
        return None;
    }
    let rest = text_of(&chars, colon + 1, chars.len());
    assert(rest@ =~= line@.skip(colon + 1));
    let value = trim(rest.as_str());
    if chars_of(value.as_str()).len() == 0 {
        return None;
    }
    let key = text_of(&chars, 0, colon);
    assert(key@ =~= line@.take(colon as int));
    Some((trim(key.as_str()), trim_edge(value.as_str(), Edge::Quote)))
}

/// Every key and value of some lines. The first value of a key counts.
pub open spec fn fields_of(lines: Seq<Seq<char>>) -> Map<Seq<char>, Seq<char>>
    decreases lines.len(),
{
    if lines.len() == 0 {
        Map::empty()
    } else {
        let rest = fields_of(lines.drop_last());
        match field_of(lines.last()) {
            Some((k, v)) => if rest.contains_key(k) {
                rest
            } else {
                rest.insert(k, v)
            },
            None => rest,
        }
    }
}

/// A map with each value as text.
pub open spec fn as_texts(map: Map<Seq<char>, String>) -> Map<Seq<char>, Seq<char>> {
    map.map_values(|t: String| t@)
}

/// Collect every `key: value` pair in a YAML file, ignoring structure.
///
/// Lutris config files are shallow maps of scalars, and the only fields that
/// matter here are exe, appid, prefix and runner. Reading them flatly avoids
/// carrying a YAML parser for a job that does not need one.
pub fn scalar_fields(text: &str) -> (fields: TextMap<String>)
    ensures
        as_texts(fields@) == fields_of(split_at_char(text@, '\n')),
{
    let lines = split_char(text, '\n');
    let ghost all = views(lines@);
    let mut fields: TextMap<String> = TextMap::new();
    assert(as_texts(fields@) =~= fields_of(all.take(0)));
    for i in 0..lines.len()
        invariant
            all == views(lines@),
            as_texts(fields@) == fields_of(all.take(i as int)),
    {
        proof {
            assert(all.take(i + 1).drop_last() =~= all.take(i as int));
            assert(all[i as int] == lines@[i as int]@);
        }
        match read_field(lines[i].as_str()) {
            Some((key, value)) => {
                let ghost was = fields@;
                let ghost v = value;
                proof {
                    assert(as_texts(was).contains_key(key@) == was.contains_key(key@));
                    assert(as_texts(was.insert(key@, v)) =~= as_texts(was).insert(key@, v@));
                }
                fields.insert_if_absent(key, value);
            },
            None => {},
        }
    }
    assert(all.take(lines@.len() as int) =~= all);
    fields
}

/// A piece of a slug as a word of a title.
pub open spec fn capitalised(part: Seq<char>) -> Seq<char> {
    uppercase(part[0]) + part.skip(1)
}

/// The parts of a slug that are not empty, as words.
pub open spec fn title_words(parts: Seq<Seq<char>>) -> Seq<Seq<char>>
    decreases parts.len(),
{
    if parts.len() == 0 {
        seq![]
    } else if parts.last().len() == 0 {
        title_words(parts.drop_last())
    } else {
        title_words(parts.drop_last()).push(capitalised(parts.last()))
    }
}

pub open spec fn titled(slug: Seq<char>) -> Seq<char> {
    joined(title_words(split_at_char(slug, '-')), " "@)
}

/// A slug as a title.
pub fn titleize(slug: &str) -> (title: String)
    ensures
        title@ == titled(slug@),
{
    let parts = split_char(slug, '-');
    let ghost all = views(parts@);
    let mut words: Vec<String> = Vec::new();
    assert(views(words@) =~= title_words(all.take(0)));
    for i in 0..parts.len()
        invariant
            all == views(parts@),
            views(words@) == title_words(all.take(i as int)),
    {
        proof {
            assert(all.take(i + 1).drop_last() =~= all.take(i as int));
            assert(all[i as int] == parts@[i as int]@);
        }
        let chars = chars_of(parts[i].as_str());
        if chars.len() > 0 {
            let mut word = upper(chars[0]);
            let rest = text_of(&chars, 1, chars.len());
            word.append(rest.as_str());
            proof {
                assert(rest@ =~= parts@[i as int]@.skip(1));
                lemma_views_push(words@, word);
            }
            words.push(word);
        }
    }
    assert(all.take(parts@.len() as int) =~= all);
    join(&words, " ")
}

/// The names a listing gives by slug. The last name of a slug counts.
pub open spec fn names_of(listed: Seq<(Seq<char>, Seq<char>)>) -> Map<Seq<char>, Seq<char>>
    decreases listed.len(),
{
    if listed.len() == 0 {
        Map::empty()
    } else {
        names_of(listed.drop_last()).insert(listed.last().0, listed.last().1)
    }
}

pub open spec fn names_in(listed: Option<Vec<(String, String)>>) -> Map<Seq<char>, Seq<char>> {
    match listed {
        Some(l) => names_of(pair_views(l@)),
        None => Map::empty(),
    }
}

/// The names a listing gives, by slug.
pub fn names_from_cli(listed: &Option<Vec<(String, String)>>) -> (names: TextMap<String>)
    ensures
        as_texts(names@) == names_in(*listed),
{
    let mut names: TextMap<String> = TextMap::new();
    match listed {
        None => {
            assert(as_texts(names@) =~= names_in(*listed));
            names
        },
        Some(l) => {
            let ghost all = pair_views(l@);
            assert(as_texts(names@) =~= names_of(all.take(0)));
            for i in 0..l.len()
                invariant
                    all == pair_views(l@),
                    as_texts(names@) == names_of(all.take(i as int)),
            {
                let slug = l[i].0.clone();
                let name = l[i].1.clone();
                proof {
                    assert(all.take(i + 1).drop_last() =~= all.take(i as int));
                    assert(all[i as int] == (slug@, name@));
                    assert(as_texts(names@.insert(slug@, name)) =~= as_texts(names@).insert(
                        slug@,
                        name@,
                    ));
                }
                names.insert(slug, name);
            }
            assert(all.take(l@.len() as int) =~= all);
            names
        },
    }
}

/// A file in Lutris's config directory, and what it holds where it can be read.
#[derive(Debug)]
pub struct ConfigFile {
    pub path: String,
    pub text: Option<String>,
}

pub open spec fn lookup(map: Map<Seq<char>, Seq<char>>, key: Seq<char>) -> Option<Seq<char>> {
    if map.contains_key(key) {
        Some(map[key])
    } else {
        None
    }
}

fn look_up(map: &TextMap<String>, key: &str) -> (found: Option<String>)
    ensures
        maybe(found) == lookup(as_texts(map@), key@),
{
    match map.get(key) {
        Some(t) => Some(t.clone()),
        None => None,
    }
}

pub open spec fn or_else(found: Option<Seq<char>>, other: Seq<char>) -> Seq<char> {
    match found {
        Some(t) => t,
        None => other,
    }
}

/// The game that a config file speaks of.
///
/// The slug that identifies the game is the `game_slug` field Lutris writes,
/// not the filename, which carries a suffix. The names of a listing go first,
/// because they are the display names.
pub open spec fn entry_of(
    path: Seq<char>,
    text: Seq<char>,
    names: Map<Seq<char>, Seq<char>>,
) -> EntryView {
    let fields = fields_of(split_at_char(text, '\n'));
    let slug = or_else(lookup(fields, "game_slug"@), without_id(stem_of(path)));
    EntryView {
        slug,
        name: or_else(lookup(names, slug), or_else(lookup(fields, "name"@), titled(slug))),
        runner: or_else(lookup(fields, "runner"@), "unknown"@),
        exe: lookup(fields, "exe"@),
        appid: lookup(fields, "appid"@),
        prefix: lookup(fields, "prefix"@),
        config: path,
    }
}

fn read_entry(path: &str, text: &str, names: &TextMap<String>) -> (entry: Entry)
    ensures
        entry@ == entry_of(path@, text@, as_texts(names@)),
{
    let fields = scalar_fields(text);
    let slug = match look_up(&fields, "game_slug") {
        Some(s) => s,
        None => strip_trailing_id(stem(path).as_str()),
    };
    let name = match look_up(names, slug.as_str()) {
        Some(n) => n,
        None => match look_up(&fields, "name") {
            Some(n) => n,
            None => titleize(slug.as_str()),
        },
    };
    let runner = match look_up(&fields, "runner") {
        Some(r) => r,
        None => "unknown".to_owned(),
    };
    Entry {
        exe: look_up(&fields, "exe"),
        appid: look_up(&fields, "appid"),
        prefix: look_up(&fields, "prefix"),
        config: path.to_owned(),
        slug,
        name,
        runner,
    }
}

/// The games that config files speak of. Only `.yml` files that can be read
/// count.
pub open spec fn entries_of(files: Seq<ConfigFile>, names: Map<Seq<char>, Seq<char>>) -> Seq<EntryView>
    decreases files.len(),
{
    if files.len() == 0 {
        seq![]
    } else {
        let rest = entries_of(files.drop_last(), names);
        let file = files.last();
        if extension_of(file.path@) == Some("yml"@) && file.text is Some {
            rest.push(entry_of(file.path@, file.text->Some_0@, names))
        } else {
            rest
        }
    }
}

/// What Lutris already has, in the order of the slugs.
pub open spec fn known_games(files: Seq<ConfigFile>, listed: Option<Vec<(String, String)>>) -> Seq<
    EntryView,
> {
    in_order_by(entries_of(files, names_in(listed)), |e: EntryView| e.slug)
}

/// What Lutris already has.
///
/// Read from the per-game YAML files in its config directory rather than from
/// `pga.db`, so there is no SQLite dependency and no chance of disturbing the
/// database. Where the `lutris` command is available its game list is merged
/// in, because it carries the display names the YAML files do not.
pub fn existing_entries(files: &Vec<ConfigFile>, listed: &Option<Vec<(String, String)>>) -> (entries:
    Vec<Entry>)
    ensures
        entry_views(entries@) == known_games(files@, *listed),
{
    let names = names_from_cli(listed);
    let ghost known = names_in(*listed);
    let mut entries: Vec<Entry> = Vec::new();
    assert(entry_views(entries@) =~= entries_of(files@.take(0), known));
    for i in 0..files.len()
        invariant
            as_texts(names@) == known,
            entry_views(entries@) == entries_of(files@.take(i as int), known),
    {
        assert(files@.take(i + 1).drop_last() =~= files@.take(i as int));
        if has_extension(files[i].path.as_str(), "yml") {
            match &files[i].text {
                Some(text) => {
                    let entry = read_entry(files[i].path.as_str(), text.as_str(), &names);
                    let ghost was = entries@;
                    entries.push(entry);
                    assert(entry_views(entries@) =~= entry_views(was).push(entry@));
                },
                None => {},
            }
        }
    }
    assert(files@.take(files@.len() as int) =~= files@);
    proof {
        lemma_in_order_map(
            entries@,
            own_key::<Entry>(),
            |e: Entry| e@,
            |e: EntryView| e.slug,
        );
    }
    sort(entries)
}

// --------------------------------------------------------------- new entries

/// A name with everything but ASCII letters and digits made into single dashes,
/// and none at the start.
pub open spec fn dashed(name: Seq<char>) -> Seq<char>
    decreases name.len(),
{
    if name.len() == 0 {
        seq![]
    } else {
        let rest = dashed(name.drop_last());
        if is_ascii_alnum(name.last()) {
            rest.push(ascii_small(name.last()))
        } else if rest.len() == 0 || rest.last() == '-' {
            rest
        } else {
            rest.push('-')
        }
    }
}

/// The slug of a name.
pub open spec fn slug_of(name: Seq<char>) -> Seq<char> {
    let slug = trimmed_of(dashed(name), Edge::Dash);
    if slug.len() == 0 {
        "game"@
    } else if slug.len() <= 60 {
        slug
    } else {
        slug.take(60)
    }
}

pub fn slugify(name: &str) -> (slug: String)
    ensures
        slug@ == slug_of(name@),
{
    let mut raw = String::new();
    let mut last_dash = true;
    assert(name@.take(0) =~= seq![]);
    for c in it: name.chars()
        invariant
            it.seq() == name@,
            raw@ == dashed(name@.take(it.index())),
            last_dash == (raw@.len() == 0 || raw@.last() == '-'),
    {
        assert(name@.take(it.index() + 1).drop_last() =~= name@.take(it.index()));
        if ascii_alnum(c) {
            raw.push(ascii_lower_char(c));
            proof {
                lemma_small_alnum(c);
            }
            last_dash = false;
        } else if !last_dash {
            raw.push('-');
            last_dash = true;
        }
    }
    assert(name@.take(name@.len() as int) =~= name@);
    let slug = trim_edge(raw.as_str(), Edge::Dash);
    let chars = chars_of(slug.as_str());
    if chars.len() == 0 {
        "game".to_owned()
    } else if chars.len() <= 60 {
        slug
    } else {
        let short = text_of(&chars, 0, 60);
        assert(short@ =~= slug@.take(60));
        short
    }
}

proof fn lemma_small_alnum(c: char)
    requires
        is_ascii_alnum(c),
    ensures
        is_slug_char(ascii_small(c)),
        ascii_small(c) != '-',
{
}

/// A character that a slug can hold.
pub open spec fn is_slug_char(c: char) -> bool {
    is_digit(c) || ('a' <= c && c <= 'z') || c == '-'
}

proof fn lemma_dashed(name: Seq<char>)
    ensures
        forall|i: int| 0 <= i < dashed(name).len() ==> is_slug_char(#[trigger] dashed(name)[i]),
        forall|i: int, j: int|
            0 <= i < dashed(name).len() && j == i + 1 && j < dashed(name).len() ==> !(
            #[trigger] dashed(name)[i] == '-' && #[trigger] dashed(name)[j] == '-'),
        dashed(name).len() > 0 ==> dashed(name)[0] != '-',
    decreases name.len(),
{
    if name.len() > 0 {
        lemma_dashed(name.drop_last());
        if is_ascii_alnum(name.last()) {
            lemma_small_alnum(name.last());
        }
    }
}

proof fn lemma_trim_dash_front(s: Seq<char>)
    requires
        s.len() > 0 ==> s[0] != '-',
    ensures
        trim_front(s, Edge::Dash) == s,
{
}

proof fn lemma_trim_back_is_prefix(s: Seq<char>)
    ensures
        trim_back(s, Edge::Dash).len() <= s.len(),
        trim_back(s, Edge::Dash) == s.take(trim_back(s, Edge::Dash).len() as int),
    decreases s.len(),
{
    if s.len() > 0 && s.last() == '-' {
        lemma_trim_back_is_prefix(s.drop_last());
        let n = trim_back(s, Edge::Dash).len() as int;
        assert(s.drop_last().take(n) =~= s.take(n));
    } else {
        assert(s.take(s.len() as int) =~= s);
    }
}

/// Slugs are shaped for a URL: from one to sixty small letters, digits and
/// dashes, no dash at the start, and never two dashes together.
pub proof fn lemma_slug_is_url_shaped(name: Seq<char>)
    ensures
        1 <= slug_of(name).len() <= 60,
        forall|i: int| 0 <= i < slug_of(name).len() ==> is_slug_char(#[trigger] slug_of(name)[i]),
        slug_of(name)[0] != '-',
        forall|i: int, j: int|
            0 <= i < slug_of(name).len() && j == i + 1 && j < slug_of(name).len() ==> !(
            #[trigger] slug_of(name)[i] == '-' && #[trigger] slug_of(name)[j] == '-'),
{
    let d = dashed(name);
    lemma_dashed(name);
    lemma_trim_dash_front(d);
    lemma_trim_back_is_prefix(d);
    reveal_strlit("game");
    let t = trimmed_of(d, Edge::Dash);
    assert(t == d.take(t.len() as int));
}

/// A text with every single quote doubled.
pub open spec fn doubled(s: Seq<char>) -> Seq<char>
    decreases s.len(),
{
    if s.len() == 0 {
        seq![]
    } else if s.last() == '\'' {
        doubled(s.drop_last()).push('\'').push('\'')
    } else {
        doubled(s.drop_last()).push(s.last())
    }
}

/// A text as a YAML single-quoted scalar.
pub open spec fn quoted(s: Seq<char>) -> Seq<char> {
    "'"@ + doubled(s) + "'"@
}

/// YAML single-quoted scalar. Everything that is written out is a path or a
/// name that came off the filesystem, so it is quoted unconditionally.
pub fn quote(value: &str) -> (out: String)
    ensures
        out@ == quoted(value@),
{
    let mut out = "'".to_owned();
    let ghost start = out@;
    assert(start + doubled(value@.take(0)) =~= start);
    for c in it: value.chars()
        invariant
            it.seq() == value@,
            out@ == start + doubled(value@.take(it.index())),
    {
        assert(value@.take(it.index() + 1).drop_last() =~= value@.take(it.index()));
        if c == '\'' {
            out.push('\'');
            out.push('\'');
        } else {
            out.push(c);
        }
        assert(out@ =~= start + doubled(value@.take(it.index() + 1)));
    }
    assert(value@.take(value@.len() as int) =~= value@);
    out.append("'");
    out
}

/// What a YAML reader makes of the inside of a single-quoted scalar: two single
/// quotes are one.
pub open spec fn undoubled(s: Seq<char>) -> Seq<char>
    decreases s.len(),
{
    if s.len() == 0 {
        seq![]
    } else if s.len() >= 2 && s.last() == '\'' && s[s.len() - 2] == '\'' {
        undoubled(s.take(s.len() - 2)).push('\'')
    } else {
        undoubled(s.drop_last()).push(s.last())
    }
}

/// A quoted text reads as the text that was written.
pub proof fn lemma_quote_reads_back(s: Seq<char>)
    ensures
        undoubled(doubled(s)) == s,
    decreases s.len(),
{
    if s.len() > 0 {
        let head = s.drop_last();
        lemma_quote_reads_back(head);
        assert(head.push(s.last()) =~= s);
        if s.last() == '\'' {
            let d = doubled(s);
            assert(d.take(d.len() - 2) =~= doubled(head));
        } else {
            assert(doubled(s).drop_last() =~= doubled(head));
        }
    }
}

/// What is handed to Lutris to install a game.
#[derive(Debug, Clone)]
pub struct Definition {
    pub name: String,
    pub slug: String,
    pub runner: String,
    pub exe: Option<String>,
    pub appid: Option<String>,
    pub prefix: Option<String>,
    pub working_dir: Option<String>,
}

pub open spec fn yaml_appid_text(d: Definition) -> Seq<char> {
    match d.appid {
        Some(appid) => "    appid: "@ + quoted(appid@) + "\n"@,
        None => seq![],
    }
}

fn yaml_appid(d: &Definition) -> (out: String)
    ensures
        out@ == yaml_appid_text(*d),
{
    match &d.appid {
        Some(appid) => {
            let mut out = "    appid: ".to_owned();
            out.append(quote(appid.as_str()).as_str());
            out.append("\n");
            out
        },
        None => String::new(),
    }
}

pub open spec fn yaml_exe_text(d: Definition) -> Seq<char> {
    match d.exe {
        Some(exe) => "    exe: "@ + quoted(exe@) + "\n"@,
        None => seq![],
    }
}

fn yaml_exe(d: &Definition) -> (out: String)
    ensures
        out@ == yaml_exe_text(*d),
{
    match &d.exe {
        Some(exe) => {
            let mut out = "    exe: ".to_owned();
            out.append(quote(exe.as_str()).as_str());
            out.append("\n");
            out
        },
        None => String::new(),
    }
}

pub open spec fn yaml_prefix_text(d: Definition) -> Seq<char> {
    match d.prefix {
        Some(prefix) => "    prefix: "@ + quoted(prefix@) + "\n"@,
        None => seq![],
    }
}

fn yaml_prefix(d: &Definition) -> (out: String)
    ensures
        out@ == yaml_prefix_text(*d),
{
    match &d.prefix {
        Some(prefix) => {
            let mut out = "    prefix: ".to_owned();
            out.append(quote(prefix.as_str()).as_str());
            out.append("\n");
            out
        },
        None => String::new(),
    }
}

pub open spec fn yaml_working_dir_text(d: Definition) -> Seq<char> {
    match d.working_dir {
        Some(dir) => "    working_dir: "@ + quoted(dir@) + "\n"@,
        None => seq![],
    }
}

fn yaml_working_dir(d: &Definition) -> (out: String)
    ensures
        out@ == yaml_working_dir_text(*d),
{
    match &d.working_dir {
        Some(dir) => {
            let mut out = "    working_dir: ".to_owned();
            out.append(quote(dir.as_str()).as_str());
            out.append("\n");
            out
        },
        None => String::new(),
    }
}

pub open spec fn yaml_of(d: Definition) -> Seq<char> {
    "name: "@ + quoted(d.name@) + "\ngame_slug: "@ + quoted(d.slug@)
        + "\nversion: librarybridge-import\nslug: "@ + quoted(d.slug@ + "-librarybridge"@)
        + "\nrunner: "@ + quoted(d.runner@) + "\nscript:\n  game:\n"@ + yaml_appid_text(d)
        + yaml_exe_text(d) + yaml_prefix_text(d) + yaml_working_dir_text(d)
}

impl Definition {
    /// A Lutris install script. The shape follows Lutris's installer
    /// documentation; it is validated against the installed Lutris version at
    /// import time rather than assumed to be accepted.
    pub fn to_yaml(&self) -> (out: String)
        ensures
            out@ == yaml_of(*self),
    {
        let mut out = "name: ".to_owned();
        out.append(quote(self.name.as_str()).as_str());
        out.append("\ngame_slug: ");
        out.append(quote(self.slug.as_str()).as_str());
        out.append("\nversion: librarybridge-import\nslug: ");
        out.append(quote(cat2(self.slug.as_str(), "-librarybridge").as_str()).as_str());
        out.append("\nrunner: ");
        out.append(quote(self.runner.as_str()).as_str());
        out.append("\nscript:\n  game:\n");
        out.append(yaml_appid(self).as_str());
        out.append(yaml_exe(self).as_str());
        out.append(yaml_prefix(self).as_str());
        out.append(yaml_working_dir(self).as_str());
        out
    }
}

/// The command that hands one definition to Lutris.
pub fn install(installation: &Installation, yaml_path: &str) -> (command: Result<Vec<String>, String>)
    ensures
        match command {
            Ok(c) => installation.command@.len() > 0 && views(c@) == views(installation.command@)
                + seq!["--install"@, yaml_path@],
            Err(e) => installation.command@.len() == 0 && e@ == "no Lutris command available"@,
        },
{
    if installation.command.len() == 0 {
        Err("no Lutris command available".to_owned())
    } else {
        Ok(with_words(&installation.command, "--install", yaml_path))
    }
}

/// How an install command ended.
///
/// Lutris's exit code is not a reliable success signal: `--install` can exit
/// non-zero even when the entry landed, and the user can cancel the dialog. So
/// it is reported, and re-reading Lutris's config decides what it means.
pub open spec fn code_of(success: bool, code: Option<i32>) -> int {
    if success {
        0
    } else {
        match code {
            Some(c) => c as int,
            None => -1,
        }
    }
}

pub fn exit_code(success: bool, code: Option<i32>) -> (r: i32)
    ensures
        r == code_of(success, code),
{
    if success {
        0
    } else {
        match code {
            Some(c) => c,
            None => -1,
        }
    }
}

// ----------------------------------------------- what holds of what is read

/// A line with a key and a value reads as the key and the value, whatever
/// colons the value holds, and without the quotes around it.
pub proof fn lemma_line_reads_as_key_and_value(key: Seq<char>, value: Seq<char>)
    requires
        !key.contains(':'),
        key.len() > 0 ==> !is_blank(key[0]) && !is_blank(key.last()) && key[0] != '#' && key[0]
            != '-',
        exists|i: int| 0 <= i < value.len() && !is_blank(#[trigger] value[i]),
    ensures
        field_of(key + ": "@ + value) == Some((key, trimmed_of(trimmed(value), Edge::Quote))),
{
    reveal_strlit(": ");
    let raw = key + ": "@ + value;
    let cut = lemma_trimmed_is_the_middle(value, Edge::Blank);
    let seen = choose|i: int| 0 <= i < value.len() && !is_blank(#[trigger] value[i]);
    assert(cut.0 <= seen < cut.1) by {
        if seen < cut.0 {
            assert(on_edge(Edge::Blank, value[seen]));
        }
        if seen >= cut.1 {
            assert(on_edge(Edge::Blank, value[seen]));
        }
    }
    let n = key.len() as int;
    let end = n + 2 + cut.1;
    assert forall|i: int| end <= i < raw.len() implies on_edge(Edge::Blank, #[trigger] raw[i]) by {
        assert(raw[i] == value[i - n - 2]);
    }
    assert(raw[end - 1] == value[cut.1 - 1]);
    assert(raw[n] == ':');
    if n > 0 {
        assert(raw[0] == key[0]);
    }
    lemma_trimmed_by(raw, Edge::Blank, 0, end);
    let line = raw.subrange(0, end);
    lemma_find_from(line, ':', 0);
    assert(line[n] == ':');
    let colon = find_from(line, ':', 0);
    if colon < n {
        assert(key[colon] == line[colon]);
    }
    assert(colon == n);
    assert(line.take(colon) =~= key);
    lemma_trimmed_by(key, Edge::Blank, 0, n);
    assert(key.subrange(0, n) =~= key);
    let rest = line.skip(colon + 1);
    assert forall|i: int| 0 <= i < 1 + cut.0 implies on_edge(Edge::Blank, #[trigger] rest[i]) by {
        assert(rest[i] == raw[n + 1 + i]);
        if i > 0 {
            assert(rest[i] == value[i - 1]);
        }
    }
    assert(rest[1 + cut.0] == value[cut.0]);
    assert(rest[cut.1 as int] == value[cut.1 - 1]);
    lemma_trimmed_by(rest, Edge::Blank, 1 + cut.0, 1 + cut.1);
    assert(rest.subrange(1 + cut.0, 1 + cut.1) =~= value.subrange(cut.0, cut.1));
}

/// Quotes around a value are dropped, and none in it: what is left is the value
/// that was put between them.
pub proof fn lemma_outer_quotes_are_dropped(value: Seq<char>)
    requires
        value.len() > 0 ==> value[0] != '\'' && value[0] != '"' && value.last() != '\''
            && value.last() != '"',
    ensures
        trimmed_of("'"@ + value + "'"@, Edge::Quote) == value,
        trimmed_of("\""@ + value + "\""@, Edge::Quote) == value,
        trimmed_of(value, Edge::Quote) == value,
{
    reveal_strlit("'");
    reveal_strlit("\"");
    let n = value.len() as int;
    let single = "'"@ + value + "'"@;
    let double = "\""@ + value + "\""@;
    if n > 0 {
        assert(single[1] == value[0] && single[n] == value.last());
        assert(double[1] == value[0] && double[n] == value.last());
    }
    lemma_trimmed_by(single, Edge::Quote, 1, 1 + n);
    lemma_trimmed_by(double, Edge::Quote, 1, 1 + n);
    lemma_trimmed_by(value, Edge::Quote, 0, n);
    assert(single.subrange(1, 1 + n) =~= value);
    assert(double.subrange(1, 1 + n) =~= value);
    assert(value.subrange(0, n) =~= value);
}

/// A line is split at its first colon: no key holds one. What has no colon, no
/// value, or is a comment or an item of a list is no field.
pub proof fn lemma_no_key_holds_a_colon(raw: Seq<char>)
    ensures
        field_of(raw) matches Some((key, value)) ==> !key.contains(':'),
        !raw.contains(':') ==> field_of(raw) is None,
        forall|i: int|
            0 <= i < raw.len() && (#[trigger] raw[i] == '#' || raw[i] == '-') && (forall|j: int|
                0 <= j < i ==> is_blank(#[trigger] raw[j])) ==> field_of(raw) is None,
{
    let cut = lemma_trimmed_is_the_middle(raw, Edge::Blank);
    let line = trimmed(raw);
    lemma_find_from(line, ':', 0);
    let colon = find_from(line, ':', 0);
    if field_of(raw) is Some {
        let inner = line.take(colon);
        let c2 = lemma_trimmed_is_the_middle(inner, Edge::Blank);
        let key = field_of(raw)->Some_0.0;
        assert forall|i: int| 0 <= i < key.len() implies #[trigger] key[i] != ':' by {
            assert(key[i] == inner[c2.0 + i]);
            assert(inner[c2.0 + i] == line[c2.0 + i]);
        }
        assert(raw[cut.0 + colon] == ':');
    }
    assert forall|i: int|
        0 <= i < raw.len() && (#[trigger] raw[i] == '#' || raw[i] == '-') && (forall|j: int|
            0 <= j < i ==> is_blank(#[trigger] raw[j])) implies field_of(raw) is None by {
        let c = raw[i];
        assert(!is_blank(c));
        if cut.0 < i {
            if cut.0 < cut.1 {
                assert(!on_edge(Edge::Blank, raw[cut.0]));
                assert(is_blank(raw[cut.0]));
            } else {
                assert(on_edge(Edge::Blank, raw[i]));
            }
        }
        if i < cut.0 {
            assert(on_edge(Edge::Blank, raw[i]));
        }
        if cut.0 == i && cut.1 <= i {
            assert(on_edge(Edge::Blank, raw[i]));
        }
        assert(line[0] == raw[i]);
    }
}

/// Of several values of a key the first counts.
pub proof fn lemma_first_value_counts(lines: Seq<Seq<char>>, key: Seq<char>)
    ensures
        fields_of(lines).contains_key(key) <==> exists|i: int|
            0 <= i < lines.len() && (#[trigger] field_of(lines[i])) is Some && field_of(
                lines[i],
            )->Some_0.0 == key,
        forall|i: int|
            0 <= i < lines.len() && (#[trigger] field_of(lines[i])) is Some && field_of(
                lines[i],
            )->Some_0.0 == key && (forall|j: int|
                0 <= j < i ==> !((#[trigger] field_of(lines[j])) is Some && field_of(
                    lines[j],
                )->Some_0.0 == key)) ==> fields_of(lines)[key] == field_of(lines[i])->Some_0.1,
    decreases lines.len(),
{
    if lines.len() > 0 {
        let rest = lines.drop_last();
        lemma_first_value_counts(rest, key);
        let last = lines.len() - 1;
        assert forall|i: int| 0 <= i < last implies #[trigger] rest[i] == lines[i] by {}
        if fields_of(rest).contains_key(key) {
            let i = choose|i: int|
                0 <= i < rest.len() && (#[trigger] field_of(rest[i])) is Some && field_of(
                    rest[i],
                )->Some_0.0 == key;
            assert(field_of(lines[i]) is Some);
        }
        assert forall|i: int|
            0 <= i < lines.len() && (#[trigger] field_of(lines[i])) is Some && field_of(
                lines[i],
            )->Some_0.0 == key && (forall|j: int|
                0 <= j < i ==> !((#[trigger] field_of(lines[j])) is Some && field_of(
                    lines[j],
                )->Some_0.0 == key)) implies fields_of(lines)[key] == field_of(
            lines[i],
        )->Some_0.1 by {
            if i < last {
                assert(field_of(rest[i]) is Some);
                assert forall|j: int| 0 <= j < i implies !((#[trigger] field_of(rest[j])) is Some
                    && field_of(rest[j])->Some_0.0 == key) by {
                    assert(rest[j] == lines[j]);
                }
                assert(fields_of(rest).contains_key(key));
            } else if fields_of(rest).contains_key(key) {
                let k = choose|k: int|
                    0 <= k < rest.len() && (#[trigger] field_of(rest[k])) is Some && field_of(
                        rest[k],
                    )->Some_0.0 == key;
                assert(field_of(lines[k]) is Some && field_of(lines[k])->Some_0.0 == key);
            }
        }
        if exists|i: int|
            0 <= i < lines.len() && (#[trigger] field_of(lines[i])) is Some && field_of(
                lines[i],
            )->Some_0.0 == key {
            let i = choose|i: int|
                0 <= i < lines.len() && (#[trigger] field_of(lines[i])) is Some && field_of(
                    lines[i],
                )->Some_0.0 == key;
            if i < last {
                assert(field_of(rest[i]) is Some && field_of(rest[i])->Some_0.0 == key);
            }
        }
        if fields_of(lines).contains_key(key) && !fields_of(rest).contains_key(key) {
            assert(field_of(lines[last]) is Some && field_of(lines[last])->Some_0.0 == key);
        }
    }
}

/// The number that Lutris appends to a slug is dropped, and nothing else is.
pub proof fn lemma_only_the_id_is_dropped(slug: Seq<char>, id: Seq<char>)
    requires
        !id.contains('-'),
    ensures
        id.len() > 0 && (forall|i: int| 0 <= i < id.len() ==> '0' <= #[trigger] id[i] <= '9')
            ==> without_id(slug + "-"@ + id) == slug,
        id.len() == 0 || (exists|i: int|
            0 <= i < id.len() && !('0' <= #[trigger] id[i] <= '9')) ==> without_id(slug + "-"@ + id)
            == slug + "-"@ + id,
        !slug.contains('-') ==> without_id(slug) == slug,
{
    reveal_strlit("-");
    let stem = slug + "-"@ + id;
    lemma_last_of(stem, '-');
    lemma_last_of(slug, '-');
    let n = slug.len() as int;
    assert(stem[n] == '-');
    let dash = last_of(stem, '-');
    if dash > n {
        assert(id[dash - n - 1] == stem[dash]);
        assert(id.contains('-'));
    }
    assert(dash == n);
    assert(stem.skip(n + 1) =~= id);
    assert(stem.take(n) =~= slug);
    if exists|i: int| 0 <= i < id.len() && !('0' <= #[trigger] id[i] <= '9') {
        let i = choose|i: int| 0 <= i < id.len() && !('0' <= #[trigger] id[i] <= '9');
        assert(!is_digit(stem.skip(dash + 1)[i]));
    }
    if !slug.contains('-') {
        if last_of(slug, '-') >= 0 {
            assert(slug[last_of(slug, '-')] == '-');
        }
    }
}

proof fn lemma_last_of(s: Seq<char>, c: char)
    ensures
        -1 <= last_of(s, c) < s.len(),
        last_of(s, c) >= 0 ==> s[last_of(s, c)] == c,
        forall|i: int| last_of(s, c) < i < s.len() ==> #[trigger] s[i] != c,
    decreases s.len(),
{
    if s.len() > 0 && s.last() != c {
        lemma_last_of(s.drop_last(), c);
        assert forall|i: int| last_of(s, c) < i < s.len() implies #[trigger] s[i] != c by {
            if i < s.len() - 1 {
                assert(s.drop_last()[i] == s[i]);
            }
        }
    }
}

// ------------------------------------------------ what holds of every slug

/// The letters and digits of a text, in order.
pub open spec fn letters_in(s: Seq<char>) -> Seq<char>
    decreases s.len(),
{
    if s.len() == 0 {
        seq![]
    } else if ('0' <= s.last() <= '9') || ('a' <= s.last() <= 'z') || ('A' <= s.last() <= 'Z') {
        letters_in(s.drop_last()).push(s.last())
    } else {
        letters_in(s.drop_last())
    }
}

proof fn lemma_letters_concat(a: Seq<char>, b: Seq<char>)
    ensures
        letters_in(a + b) == letters_in(a) + letters_in(b),
    decreases b.len(),
{
    if b.len() == 0 {
        assert(a + b =~= a);
        assert(letters_in(a) + letters_in(b) =~= letters_in(a));
    } else {
        lemma_letters_concat(a, b.drop_last());
        assert((a + b).drop_last() =~= a + b.drop_last());
        assert(letters_in(a + b) =~= letters_in(a) + letters_in(b));
    }
}

proof fn lemma_dashed_keeps_letters(name: Seq<char>)
    ensures
        letters_in(dashed(name)) == ascii_lowered(letters_in(name)),
        dashed(name).len() <= name.len(),
        dashed(name).len() > 0 ==> dashed(name)[0] != '-',
        dashed(name).len() == 0 <==> letters_in(name).len() == 0,
    decreases name.len(),
{
    if name.len() > 0 {
        let rest = name.drop_last();
        lemma_dashed_keeps_letters(rest);
        let c = name.last();
        lemma_ascii_small(c);
        let d = dashed(name);
        if is_ascii_alnum(c) {
            assert(d.drop_last() =~= dashed(rest));
            assert(letters_in(d) == letters_in(dashed(rest)).push(ascii_small(c)));
            assert(ascii_lowered(letters_in(rest).push(c)) =~= ascii_lowered(letters_in(rest)).push(
                ascii_small(c),
            ));
        } else if d != dashed(rest) {
            assert(d.drop_last() =~= dashed(rest));
        }
    } else {
        assert(letters_in(dashed(name)) =~= ascii_lowered(letters_in(name)));
    }
}

/// No letter and no digit of a name is lost: they are what the slug holds
/// besides its dashes, in order and in small letters. Only what is longer than
/// sixty characters is cut, and then to sixty. A name without any is called
/// `game`.
pub proof fn lemma_slug_keeps_the_letters(name: Seq<char>)
    ensures
        letters_in(name).len() == 0 ==> slug_of(name) == "game"@,
        letters_in(name).len() > 0 && name.len() <= 60 ==> letters_in(slug_of(name))
            == ascii_lowered(letters_in(name)),
        letters_in(name).len() > 0 && slug_of(name).len() < 60 ==> letters_in(slug_of(name))
            == ascii_lowered(letters_in(name)),
        letters_in(name).len() > 0 ==> letters_in(slug_of(name)) == ascii_lowered(
            letters_in(name),
        ).take(letters_in(slug_of(name)).len() as int),
        letters_in(name).len() > 0 ==> slug_of(name).len() <= 60,
{
    let d = dashed(name);
    lemma_dashed_keeps_letters(name);
    lemma_trim_dash_front(d);
    lemma_trim_back_is_prefix(d);
    let t = trimmed_of(d, Edge::Dash);
    let n = t.len() as int;
    let cut = lemma_trimmed_is_the_middle(d, Edge::Dash);
    assert(d =~= d.take(n) + d.skip(n));
    lemma_letters_concat(d.take(n), d.skip(n));
    if d.len() > 0 {
        assert(cut.0 == 0) by {
            if cut.0 > 0 {
                assert(on_edge(Edge::Dash, d[0]));
            }
        }
        lemma_no_letters(d.skip(n));
        assert(letters_in(t) =~= ascii_lowered(letters_in(name)));
        assert(letters_in(name).len() > 0);
        assert(letters_in(t).len() > 0);
        if t.len() > 60 {
            assert(t =~= t.take(60) + t.skip(60));
            lemma_letters_concat(t.take(60), t.skip(60));
            let some = letters_in(t.take(60));
            assert(letters_in(t).take(some.len() as int) =~= some);
        } else {
            assert(letters_in(t).take(letters_in(t).len() as int) =~= letters_in(t));
        }
    }
}

proof fn lemma_no_letters(s: Seq<char>)
    requires
        forall|i: int| 0 <= i < s.len() ==> #[trigger] s[i] == '-',
    ensures
        letters_in(s) == Seq::<char>::empty(),
    decreases s.len(),
{
    if s.len() > 0 {
        lemma_no_letters(s.drop_last());
    }
}

proof fn lemma_dashed_prefix(a: Seq<char>, b: Seq<char>)
    ensures
        dashed(a).len() <= dashed(a + b).len(),
        dashed(a + b).take(dashed(a).len() as int) == dashed(a),
    decreases b.len(),
{
    if b.len() == 0 {
        assert(a + b =~= a);
        assert(dashed(a).take(dashed(a).len() as int) =~= dashed(a));
    } else {
        lemma_dashed_prefix(a, b.drop_last());
        assert((a + b).drop_last() =~= a + b.drop_last());
        assert(dashed(a + b).take(dashed(a).len() as int) =~= dashed(a + b.drop_last()).take(
            dashed(a).len() as int,
        ));
    }
}

/// Whether a text is made of letters and digits.
pub open spec fn is_one_part(s: Seq<char>) -> bool {
    &&& s.len() > 0
    &&& forall|i: int|
        0 <= i < s.len() ==> ('0' <= #[trigger] s[i] <= '9') || ('a' <= s[i] <= 'z') || ('A' <= s[i]
            <= 'Z')
}

proof fn lemma_dashed_part(head: Seq<char>, part: Seq<char>)
    requires
        is_one_part(part),
    ensures
        dashed(head + part) == dashed(head) + ascii_lowered(part),
    decreases part.len(),
{
    let rest = part.drop_last();
    assert((head + part).drop_last() =~= head + rest);
    assert(is_ascii_alnum(part[part.len() - 1]));
    if rest.len() > 0 {
        assert forall|i: int| 0 <= i < rest.len() implies ('0' <= #[trigger] rest[i] <= '9') || (
        'a' <= rest[i] <= 'z') || ('A' <= rest[i] <= 'Z') by {
            assert(rest[i] == part[i]);
        }
        lemma_dashed_part(head, rest);
    } else {
        assert(head + rest =~= head);
    }
    assert(dashed(head + part) =~= dashed(head) + ascii_lowered(part));
}

proof fn lemma_dashed_gap(head: Seq<char>, gap: Seq<char>)
    requires
        gap.len() > 0,
        forall|i: int| 0 <= i < gap.len() ==> !is_ascii_alnum(#[trigger] gap[i]),
        dashed(head).len() > 0,
        dashed(head).last() != '-',
    ensures
        dashed(head + gap) == dashed(head).push('-'),
    decreases gap.len(),
{
    let rest = gap.drop_last();
    assert((head + gap).drop_last() =~= head + rest);
    assert(!is_ascii_alnum(gap[gap.len() - 1]));
    if rest.len() > 0 {
        assert forall|i: int| 0 <= i < rest.len() implies !is_ascii_alnum(#[trigger] rest[i]) by {
            assert(rest[i] == gap[i]);
        }
        lemma_dashed_gap(head, rest);
    } else {
        assert(head + rest =~= head);
    }
}

proof fn lemma_dashed_lead(gap: Seq<char>)
    requires
        forall|i: int| 0 <= i < gap.len() ==> !is_ascii_alnum(#[trigger] gap[i]),
    ensures
        dashed(gap) == Seq::<char>::empty(),
    decreases gap.len(),
{
    if gap.len() > 0 {
        let rest = gap.drop_last();
        assert forall|i: int| 0 <= i < rest.len() implies !is_ascii_alnum(#[trigger] rest[i]) by {
            assert(rest[i] == gap[i]);
        }
        assert(!is_ascii_alnum(gap[gap.len() - 1]));
        lemma_dashed_lead(rest);
    }
}

/// Two words of a name become two parts of its slug with one dash between
/// them, whatever stands between, before and after them.
pub proof fn lemma_slug_of_words(
    before: Seq<char>,
    a: Seq<char>,
    gap: Seq<char>,
    b: Seq<char>,
    after: Seq<char>,
)
    requires
        is_one_part(a),
        is_one_part(b),
        gap.len() > 0,
        forall|i: int| 0 <= i < gap.len() ==> !is_ascii_alnum(#[trigger] gap[i]),
        forall|i: int| 0 <= i < before.len() ==> !is_ascii_alnum(#[trigger] before[i]),
        forall|i: int| 0 <= i < after.len() ==> !is_ascii_alnum(#[trigger] after[i]),
        a.len() + b.len() < 60,
    ensures
        slug_of(before + a + gap + b + after) == ascii_lowered(a) + "-"@ + ascii_lowered(b),
        slug_of(before + a + after) == ascii_lowered(a),
{
    reveal_strlit("-");
    lemma_dashed_lead(before);
    lemma_dashed_part(before, a);
    let la = ascii_lowered(a);
    let lb = ascii_lowered(b);
    assert(dashed(before + a) =~= la);
    lemma_part_ends(a);
    lemma_part_ends(b);
    lemma_dashed_gap(before + a, gap);
    lemma_dashed_part(before + a + gap, b);
    let two = la + "-"@ + lb;
    assert(dashed(before + a + gap + b) =~= two);
    assert(two.last() == lb.last());
    lemma_slug_tail(before + a + gap + b, after, two);
    lemma_slug_tail(before + a, after, la);
}

proof fn lemma_part_ends(a: Seq<char>)
    requires
        is_one_part(a),
    ensures
        ascii_lowered(a).len() > 0,
        ascii_lowered(a)[0] != '-',
        ascii_lowered(a).last() != '-',
{
    lemma_ascii_small(a[0]);
    lemma_ascii_small(a[a.len() - 1]);
    assert(ascii_lowered(a)[0] == ascii_small(a[0]));
    assert(ascii_lowered(a).last() == ascii_small(a[a.len() - 1]));
}

proof fn lemma_slug_tail(name: Seq<char>, after: Seq<char>, slug: Seq<char>)
    requires
        dashed(name) == slug,
        0 < slug.len() <= 60,
        slug[0] != '-',
        slug.last() != '-',
        forall|i: int| 0 <= i < after.len() ==> !is_ascii_alnum(#[trigger] after[i]),
    ensures
        slug_of(name + after) == slug,
{
    let n = slug.len() as int;
    if after.len() == 0 {
        assert(name + after =~= name);
        lemma_trimmed_by(slug, Edge::Dash, 0, n);
        assert(slug.subrange(0, n) =~= slug);
    } else {
        lemma_dashed_gap(name, after);
        let d = slug.push('-');
        assert(d[0] == slug[0] && d[n - 1] == slug.last());
        lemma_trimmed_by(d, Edge::Dash, 0, n);
        assert(d.subrange(0, n) =~= slug);
    }
}

// ------------------------------------------- a definition that is read again

/// Whether a value is written between quotes as it is: no quote in it, none at
/// its ends, and no line end.
pub open spec fn writes_plainly(s: Seq<char>) -> bool {
    &&& forall|i: int| 0 <= i < s.len() ==> #[trigger] s[i] != '\'' && s[i] != '\n'
    &&& s.len() > 0 ==> s[0] != '"' && s.last() != '"'
}

proof fn lemma_doubled_plain(s: Seq<char>)
    requires
        forall|i: int| 0 <= i < s.len() ==> #[trigger] s[i] != '\'',
    ensures
        doubled(s) == s,
    decreases s.len(),
{
    if s.len() > 0 {
        lemma_doubled_plain(s.drop_last());
        assert(s.drop_last().push(s.last()) =~= s);
    }
}

/// A line that was written with a quoted value reads as its key and value.
proof fn lemma_quoted_line(lead: Seq<char>, key: Seq<char>, value: Seq<char>)
    requires
        writes_plainly(value),
        forall|i: int| 0 <= i < lead.len() ==> #[trigger] lead[i] == ' ',
        key.len() > 0,
        forall|i: int| 0 <= i < key.len() ==> 'a' <= #[trigger] key[i] <= 'z' || key[i] == '_',
    ensures
        field_of(lead + key + ": "@ + quoted(value)) == Some((key, value)),
        !(lead + key + ": "@ + quoted(value)).contains('\n'),
{
    reveal_strlit(": ");
    reveal_strlit("'");
    lemma_doubled_plain(value);
    let q = quoted(value);
    assert(q =~= "'"@ + value + "'"@);
    let bare = key + ": "@ + q;
    let raw = lead + key + ": "@ + q;
    assert(raw =~= lead + bare);
    assert(q[0] == '\'' && q.last() == '\'');
    assert(!is_blank(q[0]));
    assert(!is_blank(key[0]) && !is_blank(key[key.len() - 1]));
    assert(key[0] != '#' && key[0] != '-');
    assert(!key.contains(':')) by {
        assert forall|i: int| 0 <= i < key.len() implies #[trigger] key[i] != ':' by {}
    }
    lemma_line_reads_as_key_and_value(key, q);
    lemma_outer_quotes_are_dropped(value);
    let n = q.len() as int;
    lemma_trimmed_by(q, Edge::Blank, 0, n);
    assert(q.subrange(0, n) =~= q);
    let m = bare.len() as int;
    assert(bare[0] == key[0] && bare[m - 1] == q.last());
    lemma_trimmed_by(bare, Edge::Blank, 0, m);
    let k = lead.len() as int;
    assert(raw[k] == bare[0] && raw[k + m - 1] == bare[m - 1]);
    assert forall|i: int| 0 <= i < k implies on_edge(Edge::Blank, #[trigger] raw[i]) by {
        assert(raw[i] == lead[i]);
    }
    lemma_trimmed_by(raw, Edge::Blank, k, k + m);
    assert(raw.subrange(k, k + m) =~= bare.subrange(0, m));
    assert forall|i: int| 0 <= i < raw.len() implies #[trigger] raw[i] != '\n' by {
        if i >= k {
            assert(raw[i] == bare[i - k]);
            if i - k < key.len() {
                assert(bare[i - k] == key[i - k]);
            } else if i - k >= key.len() + 2 {
                let j = i - k - key.len() - 2;
                assert(bare[i - k] == q[j]);
                if 0 < j < q.len() - 1 {
                    assert(q[j] == value[j - 1]);
                }
            }
        } else {
            assert(raw[i] == lead[i]);
        }
    }
}

/// The lines that an optional value of a definition takes.
spec fn optional_line(key: Seq<char>, value: Option<String>) -> Seq<Seq<char>> {
    match value {
        Some(v) => seq!["    "@ + key + ": "@ + quoted(v@)],
        None => seq![],
    }
}

/// Some lines, each with a line end after it, and then the lines of the rest.
spec fn all_lines(lines: Seq<Seq<char>>) -> Seq<char>
    decreases lines.len(),
{
    if lines.len() == 0 {
        seq![]
    } else {
        lines[0] + seq!['\n'] + all_lines(lines.skip(1))
    }
}

proof fn lemma_all_lines(lines: Seq<Seq<char>>)
    requires
        forall|i: int| 0 <= i < lines.len() ==> !(#[trigger] lines[i]).contains('\n'),
    ensures
        split_at_char(all_lines(lines), '\n') == lines.push(seq![]),
    decreases lines.len(),
{
    if lines.len() == 0 {
        lemma_find_from(Seq::<char>::empty(), '\n', 0);
        assert(split_at_char(all_lines(lines), '\n') =~= lines.push(seq![]));
    } else {
        let rest = lines.skip(1);
        assert forall|i: int| 0 <= i < rest.len() implies !(#[trigger] rest[i]).contains('\n') by {
            assert(rest[i] == lines[i + 1]);
        }
        lemma_all_lines(rest);
        lemma_split_piece(lines[0], '\n', all_lines(rest));
        assert(seq![lines[0]] + rest.push(seq![]) =~= lines.push(seq![]));
    }
}

proof fn lemma_all_lines_concat(a: Seq<Seq<char>>, b: Seq<Seq<char>>)
    ensures
        all_lines(a + b) == all_lines(a) + all_lines(b),
    decreases a.len(),
{
    if a.len() == 0 {
        assert(a + b =~= b);
        assert(all_lines(a) + all_lines(b) =~= all_lines(b));
    } else {
        lemma_all_lines_concat(a.skip(1), b);
        assert((a + b).skip(1) =~= a.skip(1) + b);
        assert(all_lines(a + b) =~= all_lines(a) + all_lines(b));
    }
}

/// A key without a value is no field.
proof fn lemma_no_value(lead: Seq<char>, key: Seq<char>)
    requires
        forall|i: int| 0 <= i < lead.len() ==> #[trigger] lead[i] == ' ',
        key.len() > 0,
        forall|i: int| 0 <= i < key.len() ==> 'a' <= #[trigger] key[i] <= 'z' || key[i] == '_',
    ensures
        field_of(lead + key + ":"@) is None,
        !(lead + key + ":"@).contains('\n'),
{
    reveal_strlit(":");
    let raw = lead + key + ":"@;
    let k = lead.len() as int;
    let n = raw.len() as int;
    assert(raw[k] == key[0] && raw[n - 1] == ':');
    assert forall|i: int| 0 <= i < k implies on_edge(Edge::Blank, #[trigger] raw[i]) by {
        assert(raw[i] == lead[i]);
    }
    lemma_trimmed_by(raw, Edge::Blank, k, n);
    let line = raw.subrange(k, n);
    lemma_find_from(line, ':', 0);
    let colon = find_from(line, ':', 0);
    assert(line[line.len() - 1] == ':');
    if colon < line.len() - 1 {
        assert(line[colon] == key[colon]);
    }
    assert(line.skip(colon + 1) =~= Seq::<char>::empty());
    lemma_trimmed_by(Seq::<char>::empty(), Edge::Blank, 0, 0);
    assert(trimmed(line.skip(colon + 1)).len() == 0);
    assert forall|i: int| 0 <= i < n implies #[trigger] raw[i] != '\n' by {
        if i < k {
            assert(raw[i] == lead[i]);
        } else if i < n - 1 {
            assert(raw[i] == key[i - k]);
        }
    }
}

proof fn lemma_fields_push(lines: Seq<Seq<char>>, line: Seq<char>)
    ensures
        fields_of(lines.push(line)) == match field_of(line) {
            Some((k, v)) => if fields_of(lines).contains_key(k) {
                fields_of(lines)
            } else {
                fields_of(lines).insert(k, v)
            },
            None => fields_of(lines),
        },
{
    assert(lines.push(line).drop_last() =~= lines);
}

/// One more optional line of a definition.
proof fn lemma_optional_field(lines: Seq<Seq<char>>, key: Seq<char>, value: Option<String>)
    requires
        value matches Some(v) ==> writes_plainly(v@),
        key.len() > 0,
        forall|i: int| 0 <= i < key.len() ==> 'a' <= #[trigger] key[i] <= 'z' || key[i] == '_',
        !fields_of(lines).contains_key(key),
        forall|i: int| 0 <= i < lines.len() ==> !(#[trigger] lines[i]).contains('\n'),
    ensures
        fields_of(lines + optional_line(key, value)) == match value {
            Some(v) => fields_of(lines).insert(key, v@),
            None => fields_of(lines),
        },
        forall|i: int|
            0 <= i < (lines + optional_line(key, value)).len() ==> !(#[trigger] (lines
                + optional_line(key, value))[i]).contains('\n'),
        all_lines(lines + optional_line(key, value)) == all_lines(lines) + match value {
            Some(v) => "    "@ + key + ": "@ + quoted(v@) + "\n"@,
            None => seq![],
        },
{
    reveal_strlit("    ");
    reveal_strlit("\n");
    lemma_all_lines_concat(lines, optional_line(key, value));
    match value {
        Some(v) => {
            lemma_quoted_line("    "@, key, v@);
            let line = "    "@ + key + ": "@ + quoted(v@);
            assert(lines + optional_line(key, value) =~= lines.push(line));
            lemma_fields_push(lines, line);
            assert(optional_line(key, value).skip(1) =~= seq![]);
            assert(all_lines(optional_line(key, value).skip(1)) =~= seq![]);
            assert(all_lines(optional_line(key, value)) =~= line + "\n"@);
        },
        None => {
            assert(lines + optional_line(key, value) =~= lines);
        },
    }
}

/// The first lines of a definition, and what they read as.
proof fn lemma_definition_head(d: Definition) -> (lines: Seq<Seq<char>>)
    requires
        writes_plainly(d.name@),
        writes_plainly(d.slug@),
        writes_plainly(d.runner@),
    ensures
        forall|i: int| 0 <= i < lines.len() ==> !(#[trigger] lines[i]).contains('\n'),
        all_lines(lines) == "name: "@ + quoted(d.name@) + "\ngame_slug: "@ + quoted(d.slug@)
            + "\nversion: librarybridge-import\nslug: "@ + quoted(d.slug@ + "-librarybridge"@)
            + "\nrunner: "@ + quoted(d.runner@) + "\nscript:\n  game:\n"@,
        fields_of(lines).dom() =~= set!["name"@, "game_slug"@, "version"@, "slug"@, "runner"@],
        fields_of(lines)["name"@] == d.name@,
        fields_of(lines)["game_slug"@] == d.slug@,
        fields_of(lines)["runner"@] == d.runner@,
{
    reveal_strlit("name");
    reveal_strlit("game_slug");
    reveal_strlit("version");
    reveal_strlit("slug");
    reveal_strlit("runner");
    reveal_strlit("script");
    reveal_strlit("game");
    reveal_strlit("  ");
    reveal_strlit("librarybridge-import");
    reveal_strlit("-librarybridge");
    let none = Seq::<char>::empty();
    let other = d.slug@ + "-librarybridge"@;
    assert(writes_plainly(other)) by {
        assert forall|i: int| 0 <= i < other.len() implies #[trigger] other[i] != '\'' && other[i]
            != '\n' by {
            if i < d.slug@.len() {
                assert(other[i] == d.slug@[i]);
            }
        }
        if d.slug@.len() > 0 {
            assert(other[0] == d.slug@[0]);
        }
    }
    lemma_quoted_line(none, "name"@, d.name@);
    lemma_quoted_line(none, "game_slug"@, d.slug@);
    lemma_quoted_line(none, "slug"@, other);
    lemma_quoted_line(none, "runner"@, d.runner@);
    lemma_no_value(none, "script"@);
    lemma_no_value("  "@, "game"@);
    let imported = "librarybridge-import"@;
    assert(!is_blank(imported[0]));
    assert(!"version"@.contains(':'));
    lemma_line_reads_as_key_and_value("version"@, imported);
    let l0 = none + "name"@ + ": "@ + quoted(d.name@);
    let l1 = none + "game_slug"@ + ": "@ + quoted(d.slug@);
    let l2 = "version"@ + ": "@ + imported;
    let l3 = none + "slug"@ + ": "@ + quoted(other);
    let l4 = none + "runner"@ + ": "@ + quoted(d.runner@);
    let l5 = none + "script"@ + ":"@;
    let l6 = "  "@ + "game"@ + ":"@;
    reveal_strlit(": ");
    assert(!l2.contains('\n'));
    let s0 = Seq::<Seq<char>>::empty();
    let s1 = s0.push(l0);
    let s2 = s1.push(l1);
    let s3 = s2.push(l2);
    let s4 = s3.push(l3);
    let s5 = s4.push(l4);
    let s6 = s5.push(l5);
    let s7 = s6.push(l6);
    assert("name"@ != "slug"@) by {
        assert("name"@[0] != "slug"@[0]);
    }
    lemma_fields_push(s0, l0);
    lemma_fields_push(s1, l1);
    lemma_fields_push(s2, l2);
    lemma_fields_push(s3, l3);
    lemma_fields_push(s4, l4);
    lemma_fields_push(s5, l5);
    lemma_fields_push(s6, l6);
    lemma_lines_push(s0, l0);
    lemma_lines_push(s1, l1);
    lemma_lines_push(s2, l2);
    lemma_lines_push(s3, l3);
    lemma_lines_push(s4, l4);
    lemma_lines_push(s5, l5);
    lemma_lines_push(s6, l6);
    lemma_head_text(d, all_lines(s7));
    s7
}

proof fn lemma_lines_push(lines: Seq<Seq<char>>, line: Seq<char>)
    ensures
        all_lines(lines.push(line)) == all_lines(lines) + line + seq!['\n'],
{
    lemma_all_lines_concat(lines, seq![line]);
    assert(lines + seq![line] =~= lines.push(line));
    assert(seq![line].skip(1) =~= seq![]);
    assert(all_lines(seq![line].skip(1)) =~= seq![]);
    assert(all_lines(seq![line]) =~= line + seq!['\n']);
    assert(all_lines(lines) + (line + seq!['\n']) =~= all_lines(lines) + line + seq!['\n']);
}

proof fn lemma_head_text(d: Definition, text: Seq<char>)
    requires
        ({
            let none = Seq::<char>::empty();
            let e = seq!['\n'];
            text == none + (none + "name"@ + ": "@ + quoted(d.name@)) + e + (none + "game_slug"@
                + ": "@ + quoted(d.slug@)) + e + ("version"@ + ": "@ + "librarybridge-import"@) + e
                + (none + "slug"@ + ": "@ + quoted(d.slug@ + "-librarybridge"@)) + e + (none
                + "runner"@ + ": "@ + quoted(d.runner@)) + e + (none + "script"@ + ":"@) + e
                + ("  "@ + "game"@ + ":"@) + e
        }),
    ensures
        text == "name: "@ + quoted(d.name@) + "\ngame_slug: "@ + quoted(d.slug@)
            + "\nversion: librarybridge-import\nslug: "@ + quoted(d.slug@ + "-librarybridge"@)
            + "\nrunner: "@ + quoted(d.runner@) + "\nscript:\n  game:\n"@,
{
    reveal_strlit("name");
    reveal_strlit("game_slug");
    reveal_strlit("version");
    reveal_strlit("slug");
    reveal_strlit("runner");
    reveal_strlit("script");
    reveal_strlit("game");
    reveal_strlit("  ");
    reveal_strlit(":");
    reveal_strlit(": ");
    reveal_strlit("librarybridge-import");
    reveal_strlit("name: ");
    reveal_strlit("\ngame_slug: ");
    reveal_strlit("\nversion: librarybridge-import\nslug: ");
    reveal_strlit("\nrunner: ");
    reveal_strlit("\nscript:\n  game:\n");
    let none = Seq::<char>::empty();
    let e = seq!['\n'];
    let a = quoted(d.name@);
    let b = quoted(d.slug@);
    let c = quoted(d.slug@ + "-librarybridge"@);
    let f = quoted(d.runner@);
    assert(none + (none + "name"@ + ": "@ + a) =~= "name: "@ + a);
    let t1 = "name: "@ + a;
    assert(t1 + e + (none + "game_slug"@ + ": "@ + b) =~= t1 + "\ngame_slug: "@ + b);
    let t2 = t1 + "\ngame_slug: "@ + b;
    assert(t2 + e + ("version"@ + ": "@ + "librarybridge-import"@) + e + (none + "slug"@ + ": "@
        + c) =~= t2 + "\nversion: librarybridge-import\nslug: "@ + c);
    let t3 = t2 + "\nversion: librarybridge-import\nslug: "@ + c;
    assert(t3 + e + (none + "runner"@ + ": "@ + f) =~= t3 + "\nrunner: "@ + f);
    let t4 = t3 + "\nrunner: "@ + f;
    assert(t4 + e + (none + "script"@ + ":"@) + e + ("  "@ + "game"@ + ":"@) + e =~= t4
        + "\nscript:\n  game:\n"@);
}

/// A definition says of a game what it was made with: read as a config, it gives
/// the name, the slug, the runner and each of the paths and ids that are there,
/// and none that is not.
pub proof fn lemma_definition_reads_back(d: Definition, path: Seq<char>)
    requires
        writes_plainly(d.name@),
        writes_plainly(d.slug@),
        writes_plainly(d.runner@),
        d.appid matches Some(v) ==> writes_plainly(v@),
        d.exe matches Some(v) ==> writes_plainly(v@),
        d.prefix matches Some(v) ==> writes_plainly(v@),
        d.working_dir matches Some(v) ==> writes_plainly(v@),
    ensures
        entry_of(path, yaml_of(d), Map::empty()) == (EntryView {
            slug: d.slug@,
            name: d.name@,
            runner: d.runner@,
            exe: maybe(d.exe),
            appid: maybe(d.appid),
            prefix: maybe(d.prefix),
            config: path,
        }),
        lookup(fields_of(split_at_char(yaml_of(d), '\n')), "working_dir"@) == maybe(d.working_dir),
{
    let head = lemma_definition_head(d);
    lemma_definition_keys();
    lemma_definition_tail(d, head);
}

proof fn lemma_definition_keys()
    ensures
        forall|k: Seq<char>| #[trigger]
            set!["name"@, "game_slug"@, "version"@, "slug"@, "runner"@].contains(k) ==> k
                != "appid"@ && k != "exe"@ && k != "prefix"@ && k != "working_dir"@,
        "appid"@ != "exe"@ && "appid"@ != "prefix"@ && "appid"@ != "working_dir"@,
        "exe"@ != "prefix"@ && "exe"@ != "working_dir"@ && "prefix"@ != "working_dir"@,
{
    reveal_strlit("name");
    reveal_strlit("game_slug");
    reveal_strlit("version");
    reveal_strlit("slug");
    reveal_strlit("runner");
    reveal_strlit("appid");
    reveal_strlit("exe");
    reveal_strlit("prefix");
    reveal_strlit("working_dir");
    assert("name"@.len() == 4 && "slug"@.len() == 4 && "game_slug"@.len() == 9);
    assert("version"@.len() == 7 && "runner"@.len() == 6 && "appid"@.len() == 5);
    assert("exe"@.len() == 3 && "prefix"@.len() == 6 && "working_dir"@.len() == 11);
    assert("runner"@[0] != "prefix"@[0]);
    assert("runner"@ != "prefix"@);
}

proof fn lemma_definition_tail(d: Definition, head: Seq<Seq<char>>)
    requires
        d.appid matches Some(v) ==> writes_plainly(v@),
        d.exe matches Some(v) ==> writes_plainly(v@),
        d.prefix matches Some(v) ==> writes_plainly(v@),
        d.working_dir matches Some(v) ==> writes_plainly(v@),
        forall|i: int| 0 <= i < head.len() ==> !(#[trigger] head[i]).contains('\n'),
        all_lines(head) == "name: "@ + quoted(d.name@) + "\ngame_slug: "@ + quoted(d.slug@)
            + "\nversion: librarybridge-import\nslug: "@ + quoted(d.slug@ + "-librarybridge"@)
            + "\nrunner: "@ + quoted(d.runner@) + "\nscript:\n  game:\n"@,
        fields_of(head).dom() == set!["name"@, "game_slug"@, "version"@, "slug"@, "runner"@],
        fields_of(head)["name"@] == d.name@,
        fields_of(head)["game_slug"@] == d.slug@,
        fields_of(head)["runner"@] == d.runner@,
    ensures
        ({
            let m = fields_of(split_at_char(yaml_of(d), '\n'));
            &&& lookup(m, "name"@) == Some(d.name@)
            &&& lookup(m, "game_slug"@) == Some(d.slug@)
            &&& lookup(m, "runner"@) == Some(d.runner@)
            &&& lookup(m, "appid"@) == maybe(d.appid)
            &&& lookup(m, "exe"@) == maybe(d.exe)
            &&& lookup(m, "prefix"@) == maybe(d.prefix)
            &&& lookup(m, "working_dir"@) == maybe(d.working_dir)
        }),
{
    lemma_definition_keys();
    reveal_strlit("appid");
    reveal_strlit("exe");
    reveal_strlit("prefix");
    reveal_strlit("working_dir");
    lemma_optional_field(head, "appid"@, d.appid);
    let a = head + optional_line("appid"@, d.appid);
    lemma_optional_field(a, "exe"@, d.exe);
    let b = a + optional_line("exe"@, d.exe);
    lemma_optional_field(b, "prefix"@, d.prefix);
    let c = b + optional_line("prefix"@, d.prefix);
    lemma_optional_field(c, "working_dir"@, d.working_dir);
    let e = c + optional_line("working_dir"@, d.working_dir);
    lemma_all_lines(e);
    lemma_fields_push(e, seq![]);
    lemma_no_key_holds_a_colon(seq![]);
    lemma_yaml_lines(d);
    assert(yaml_of(d) =~= all_lines(e));
    let names = set!["name"@, "game_slug"@, "version"@, "slug"@, "runner"@];
    assert(names.contains("name"@) && names.contains("game_slug"@) && names.contains("runner"@));
}

/// The optional lines as they stand in a definition.
proof fn lemma_yaml_lines(d: Definition)
    ensures
        yaml_appid_text(d) == match d.appid {
            Some(v) => "    "@ + "appid"@ + ": "@ + quoted(v@) + "\n"@,
            None => seq![],
        },
        yaml_exe_text(d) == match d.exe {
            Some(v) => "    "@ + "exe"@ + ": "@ + quoted(v@) + "\n"@,
            None => seq![],
        },
        yaml_prefix_text(d) == match d.prefix {
            Some(v) => "    "@ + "prefix"@ + ": "@ + quoted(v@) + "\n"@,
            None => seq![],
        },
        yaml_working_dir_text(d) == match d.working_dir {
            Some(v) => "    "@ + "working_dir"@ + ": "@ + quoted(v@) + "\n"@,
            None => seq![],
        },
{
    reveal_strlit("    ");
    reveal_strlit(": ");
    reveal_strlit("appid");
    reveal_strlit("exe");
    reveal_strlit("prefix");
    reveal_strlit("working_dir");
    reveal_strlit("    appid: ");
    reveal_strlit("    exe: ");
    reveal_strlit("    prefix: ");
    reveal_strlit("    working_dir: ");
    assert("    appid: "@ =~= "    "@ + "appid"@ + ": "@);
    assert("    exe: "@ =~= "    "@ + "exe"@ + ": "@);
    assert("    prefix: "@ =~= "    "@ + "prefix"@ + ": "@);
    assert("    working_dir: "@ =~= "    "@ + "working_dir"@ + ": "@);
}

// ------------------------------------------------ what holds of the listing

/// Whether a value is a game: an object with a text as its slug and one as its
/// name.
pub open spec fn is_game(v: Value, slug: Seq<char>, name: Seq<char>) -> bool {
    v matches Value::Object(m) && m.contains_key("slug"@) && m["slug"@] == Value::Text(slug)
        && m.contains_key("name"@) && m["name"@] == Value::Text(name)
}

/// The games of a listing are told in the order in which they come, each with
/// its slug and its name, and what is no game is passed over.
pub proof fn lemma_games_are_told_in_order(a: Seq<Value>, b: Seq<Value>, v: Value)
    ensures
        named(a + b) == named(a) + named(b),
        forall|slug: Seq<char>, name: Seq<char>| #[trigger]
            is_game(v, slug, name) ==> named(seq![v]) == seq![(slug, name)],
        !(exists|slug: Seq<char>, name: Seq<char>| #[trigger] is_game(v, slug, name)) ==> named(
            seq![v],
        ).len() == 0,
    decreases b.len(),
{
    assert(seq![v].drop_last() =~= Seq::<Value>::empty());
    assert(seq![v].last() == v);
    assert(named(seq![v].drop_last()) =~= seq![]);
    assert forall|slug: Seq<char>, name: Seq<char>| #[trigger] is_game(v, slug, name) implies named(
        seq![v],
    ) == seq![(slug, name)] by {
        assert(named(seq![v]) =~= seq![(slug, name)]);
    }
    if named(seq![v]).len() > 0 {
        let one = named(seq![v])[0];
        assert(is_game(v, one.0, one.1));
    }
    if b.len() == 0 {
        assert(a + b =~= a);
        assert(named(a) + named(b) =~= named(a));
    } else {
        lemma_games_are_told_in_order(a, b.drop_last(), v);
        assert((a + b).drop_last() =~= a + b.drop_last());
        assert((a + b).last() == b.last());
        assert(named(a + b) =~= named(a) + named(b));
    }
}

/// What is printed before the listing does not matter. The listing is a list of
/// games, and one that names none counts as no listing.
pub proof fn lemma_noise_before_a_listing(noise: Seq<char>, rest: Seq<char>)
    requires
        !noise.contains('['),
        !noise.contains('{'),
        rest.len() > 0,
        rest[0] == '[' || rest[0] == '{',
    ensures
        listed_in(noise) is None,
        listed_in(noise + rest) == listed_in(rest),
        listed_in(rest) is Some <==> parsed(encode_utf8(trimmed(rest))) is Ok && parsed(
            encode_utf8(trimmed(rest)),
        )->Ok_0 is Array && named(
            parsed(encode_utf8(trimmed(rest)))->Ok_0->Array_0,
        ).len() > 0,
        listed_in(rest) matches Some(games) ==> games == named(
            parsed(encode_utf8(trimmed(rest)))->Ok_0->Array_0,
        ),
{
    let text = noise + rest;
    let n = noise.len() as int;
    lemma_find_from(noise, '[', 0);
    lemma_find_from(noise, '{', 0);
    if find_from(noise, '[', 0) < n {
        assert(noise.contains(noise[find_from(noise, '[', 0)]));
    }
    if find_from(noise, '{', 0) < n {
        assert(noise.contains(noise[find_from(noise, '{', 0)]));
    }
    lemma_find_from(text, '[', 0);
    lemma_find_from(text, '{', 0);
    lemma_find_from(rest, '[', 0);
    lemma_find_from(rest, '{', 0);
    let a = find_from(text, '[', 0);
    let b = find_from(text, '{', 0);
    if a < n {
        assert(noise[a] == '[');
        assert(noise.contains('['));
    }
    if b < n {
        assert(noise[b] == '{');
        assert(noise.contains('{'));
    }
    assert(text[n] == rest[0]);
    assert(opening(text) == n);
    assert(opening(rest) == 0);
    assert(text.skip(n) =~= rest);
    assert(rest.skip(0) =~= rest);
    let r = parsed(encode_utf8(trimmed(rest)));
    if r is Ok && !(r->Ok_0 is Array) {
        assert(r->Ok_0.as_array() =~= seq![]);
    }
}

/// A listing is only read of a command that was run and went well.
pub proof fn lemma_which_listings_are_read(output: Option<Output>)
    ensures
        listed_by(output) is Some ==> output is Some && output->Some_0.success,
        output is Some && output->Some_0.success ==> listed_by(output) == listed_in(
            lossy_text(output->Some_0.stdout@),
        ),
{
}

// ------------------------------------------------- what holds of where it is

/// The environment counts where it names a path from the root, and the usual
/// place in the home counts elsewhere. Lutris's directory is named `lutris` in
/// it.
pub proof fn lemma_where_lutris_keeps_things(e: Surroundings)
    requires
        e.home is Some,
        e.home->Some_0@.len() > 0,
        e.home->Some_0@.last() != '/',
    ensures
        e.data_home is None || !rooted(e.data_home->Some_0@) ==> modern_of(e) == e.home->Some_0@
            + "/.local/share/lutris"@,
        e.config_home is None || !rooted(e.config_home->Some_0@) ==> legacy_of(e)
            == e.home->Some_0@ + "/.config/lutris"@,
        e.data_home is Some && rooted(e.data_home->Some_0@) && e.data_home->Some_0@.last() != '/'
            ==> modern_of(e) == e.data_home->Some_0@ + "/lutris"@,
        e.config_home is Some && rooted(e.config_home->Some_0@) && e.config_home->Some_0@.last()
            != '/' ==> legacy_of(e) == e.config_home->Some_0@ + "/lutris"@,
        flatpak_dir(e) == e.home->Some_0@ + "/.var/app/net.lutris.Lutris"@,
{
    reveal_strlit("/");
    reveal_strlit("lutris");
    reveal_strlit("/lutris");
    reveal_strlit(".local/share");
    reveal_strlit(".config");
    reveal_strlit("/.local/share/lutris");
    reveal_strlit("/.config/lutris");
    reveal_strlit(".var/app/net.lutris.Lutris");
    reveal_strlit("/.var/app/net.lutris.Lutris");
    let h = e.home->Some_0@;
    assert(under(under(h, ".local/share"@), "lutris"@) =~= h + "/.local/share/lutris"@);
    assert(under(under(h, ".config"@), "lutris"@) =~= h + "/.config/lutris"@);
    assert(flatpak_dir(e) =~= h + "/.var/app/net.lutris.Lutris"@);
    if e.data_home is Some && rooted(e.data_home->Some_0@) && e.data_home->Some_0@.last() != '/' {
        assert(modern_of(e) =~= e.data_home->Some_0@ + "/lutris"@);
    }
    if e.config_home is Some && rooted(e.config_home->Some_0@) && e.config_home->Some_0@.last()
        != '/' {
        assert(legacy_of(e) =~= e.config_home->Some_0@ + "/lutris"@);
    }
}

/// The modern place counts where it holds games or the database, whatever is in
/// the legacy one, and the legacy one counts where the modern one does not.
pub proof fn lemma_modern_place_goes_first(e: Surroundings, k: Looks)
    ensures
        base_found(e, k) == Some(modern_of(e)) <== k.modern_games || k.modern_db,
        base_found(e, k) == Some(legacy_of(e)) <== !k.modern_games && !k.modern_db && k.legacy,
        base_found(e, k) is None <==> !k.modern_games && !k.modern_db && !k.legacy,
{
}

/// Lutris counts as installed where its program is on the search path or its
/// directory is there, and as a Flatpak where the Flatpak's directory is. Each
/// is started by its own command, and the one that is not a Flatpak goes first.
pub proof fn lemma_what_is_installed(e: Surroundings, k: Looks)
    ensures
        installed(e, k).len() == (if k.on_path || (base_found(e, k) is Some && k.base) {
            1int
        } else {
            0int
        }) + (if k.flatpak {
            1int
        } else {
            0int
        }),
        k.flatpak ==> installed(e, k).last().packaging == Packaging::Flatpak && installed(
            e,
            k,
        ).last().command == seq!["flatpak"@, "run"@, "net.lutris.Lutris"@],
        k.flatpak && k.flatpak_games ==> installed(e, k).last().config_dir == under(
            flatpak_dir(e),
            "data/lutris"@,
        ),
        k.flatpak && !k.flatpak_games ==> installed(e, k).last().config_dir == under(
            flatpak_dir(e),
            "config/lutris"@,
        ),
        k.on_path || (base_found(e, k) is Some && k.base) ==> installed(e, k)[0].packaging
            == Packaging::Native && installed(e, k)[0].command == seq!["lutris"@],
        (k.on_path || (base_found(e, k) is Some && k.base)) && base_found(e, k) is Some
            ==> installed(e, k)[0].config_dir == base_found(e, k)->Some_0,
{
}

/// A program is looked for in each directory of the search path in turn.
pub proof fn lemma_search_path_in_turn(dir: Seq<char>, rest: Seq<char>, program: Seq<char>)
    requires
        !dir.contains(':'),
    ensures
        places_of(split_at_char(dir + seq![':'] + rest, ':'), program) == seq![under(dir, program)]
            + places_of(split_at_char(rest, ':'), program),
        places_of(split_at_char(dir, ':'), program) == seq![under(dir, program)],
        places_on(None, program).len() == 0,
{
    lemma_split_piece(dir, ':', rest);
    let all = split_at_char(dir + seq![':'] + rest, ':');
    assert(places_of(all, program) =~= seq![under(dir, program)] + places_of(
        split_at_char(rest, ':'),
        program,
    ));
    lemma_find_from(dir, ':', 0);
    if find_from(dir, ':', 0) < dir.len() {
        assert(dir.contains(dir[find_from(dir, ':', 0)]));
    }
    assert(split_at_char(dir, ':') =~= seq![dir]);
    assert(places_of(split_at_char(dir, ':'), program) =~= seq![under(dir, program)]);
}

// -------------------------------------------- what holds of whether it runs

proof fn lemma_lowered_concat(a: Seq<char>, blank: char, b: Seq<char>)
    requires
        is_blank(blank),
    ensures
        ascii_lowered(a + seq![blank] + b) == ascii_lowered(a) + seq![blank] + ascii_lowered(b),
{
    lemma_ascii_small(blank);
    assert(ascii_lowered(a + seq![blank] + b) =~= ascii_lowered(a) + seq![blank] + ascii_lowered(b));
}

/// Each word of a command line is looked at by itself: a line names Lutris where
/// either side of a blank in it does.
pub proof fn lemma_words_are_looked_at_apart(a: Seq<char>, blank: char, b: Seq<char>)
    requires
        is_blank(blank),
    ensures
        is_lutris(a + seq![blank] + b) <==> is_lutris(a) || is_lutris(b),
{
    lemma_lowered_concat(a, blank, b);
    let la = ascii_lowered(a);
    let lb = ascii_lowered(b);
    lemma_words_concat(la, blank, lb);
    let wa = words_of(la);
    let wb = words_of(lb);
    let w = words_of(ascii_lowered(a + seq![blank] + b));
    assert(w =~= wa + wb);
    if is_lutris(a) {
        let i = choose|i: int| 0 <= i < wa.len() && #[trigger] names_lutris(wa[i]);
        assert(w[i] == wa[i]);
        assert(names_lutris(w[i]));
    }
    if is_lutris(b) {
        let i = choose|i: int| 0 <= i < wb.len() && #[trigger] names_lutris(wb[i]);
        assert(w[wa.len() + i] == wb[i]);
        assert(names_lutris(w[wa.len() + i]));
    }
    if is_lutris(a + seq![blank] + b) {
        let i = choose|i: int| 0 <= i < w.len() && #[trigger] names_lutris(w[i]);
        if i < wa.len() {
            assert(names_lutris(wa[i]));
        } else {
            assert(wb[i - wa.len()] == w[i]);
            assert(names_lutris(wb[i - wa.len()]));
        }
    }
}

proof fn lemma_lowered_word(word: Seq<char>)
    requires
        word.len() > 0,
        forall|i: int| 0 <= i < word.len() ==> !is_blank(#[trigger] word[i]),
    ensures
        words_of(ascii_lowered(word)) == seq![ascii_lowered(word)],
{
    let l = ascii_lowered(word);
    assert forall|i: int| 0 <= i < l.len() implies !is_blank(#[trigger] l[i]) by {
        lemma_ascii_small(word[i]);
        lemma_blanks(l[i]);
        assert(!is_blank(word[i]));
    }
    lemma_one_word(l);
}

/// A word names Lutris where it is `lutris` or `net.lutris.Lutris`, in whatever
/// case, or a path to one of them. A name that only starts or ends like it does
/// not.
pub proof fn lemma_which_words_name_lutris(word: Seq<char>)
    requires
        word.len() > 0,
        forall|i: int| 0 <= i < word.len() ==> !is_blank(#[trigger] word[i]),
    ensures
        is_lutris(word) <==> ascii_lowered(word) == "lutris"@ || ends(
            ascii_lowered(word),
            "/lutris"@,
        ) || ascii_lowered(word) == "net.lutris.lutris"@ || ends(
            ascii_lowered(word),
            "/net.lutris.lutris"@,
        ),
        !is_lutris(seq![]),
{
    lemma_lowered_word(word);
    let w = words_of(ascii_lowered(word));
    assert(w[0] == ascii_lowered(word));
    if names_lutris(ascii_lowered(word)) {
        assert(names_lutris(w[0]));
    }
    assert(ascii_lowered(Seq::<char>::empty()) =~= seq![]);
    lemma_one_word(seq![]);
}

/// Whether a command line is LibraryBridge's own is told by its first word alone.
pub proof fn lemma_first_word_tells_own(word: Seq<char>, blank: char, rest: Seq<char>)
    requires
        word.len() > 0,
        forall|i: int| 0 <= i < word.len() ==> !is_blank(#[trigger] word[i]),
        is_blank(blank),
    ensures
        is_self(word + seq![blank] + rest) <==> ascii_lowered(word) == "librarybridge"@ || ends(
            ascii_lowered(word),
            "/librarybridge"@,
        ),
        is_self(word) <==> is_self(word + seq![blank] + rest),
        !is_self(seq![]),
{
    lemma_lowered_word(word);
    lemma_lowered_concat(word, blank, rest);
    lemma_words_concat(ascii_lowered(word), blank, ascii_lowered(rest));
    assert(words_of(ascii_lowered(word + seq![blank] + rest))[0] == ascii_lowered(word));
    assert(words_of(ascii_lowered(word))[0] == ascii_lowered(word));
    assert(ascii_lowered(Seq::<char>::empty()) =~= seq![]);
    lemma_one_word(seq![]);
}

/// A process counts as a running Lutris where its command line names Lutris or
/// its name does, unless it is the one that asks or another of LibraryBridge.
pub proof fn lemma_which_processes_count(own: String, all: Vec<Process>, i: int)
    requires
        0 <= i < all@.len(),
        all@[i].pid@ != own@,
        !is_self(spaced(lossy_text(all@[i].command_line@))),
    ensures
        is_lutris(spaced(lossy_text(all@[i].command_line@))) ==> running_lutris(
            Running::Processes { own, all },
        ),
        all@[i].name is Some && is_lutris(trimmed(all@[i].name->Some_0@)) ==> running_lutris(
            Running::Processes { own, all },
        ),
        !is_lutris(spaced(lossy_text(all@[i].command_line@))) && all@[i].name is None
            ==> !runs_lutris(own@, all@[i]),
{
    if runs_lutris(own@, all@[i]) {
        assert(any_process(own@, all@));
    }
}

/// A listing of command lines is looked at line by line, where the command that
/// made it went well.
pub proof fn lemma_which_lines_count(line: Seq<char>, rest: Seq<char>)
    requires
        !line.contains('\n'),
    ensures
        any_line(split_at_char(line + seq!['\n'] + rest, '\n')) <==> (is_lutris(trimmed(line))
            && !is_self(trimmed(line))) || any_line(split_at_char(rest, '\n')),
        !running_lutris(Running::Listing { output: None }),
{
    lemma_split_piece(line, '\n', rest);
    let all = split_at_char(line + seq!['\n'] + rest, '\n');
    let tail = split_at_char(rest, '\n');
    assert(all[0] == line);
    assert(forall|i: int| 0 <= i < tail.len() ==> #[trigger] tail[i] == all[i + 1]);
    if line_runs_lutris(line) {
        assert(line_runs_lutris(all[0]));
    }
    if any_line(tail) {
        let i = choose|i: int| 0 <= i < tail.len() && #[trigger] line_runs_lutris(tail[i]);
        assert(line_runs_lutris(all[i + 1]));
    }
    if any_line(all) {
        let i = choose|i: int| 0 <= i < all.len() && #[trigger] line_runs_lutris(all[i]);
        if i > 0 {
            assert(line_runs_lutris(tail[i - 1]));
        }
    }
}

/// The arguments of a process are told apart by blanks where zero characters
/// were, and nothing else changes.
pub proof fn lemma_arguments_are_spaced(s: Seq<char>, i: int)
    requires
        0 <= i < s.len(),
    ensures
        spaced(s).len() == s.len(),
        s[i] == '\0' ==> spaced(s)[i] == ' ',
        s[i] != '\0' ==> spaced(s)[i] == s[i],
{
}

// ------------------------------------------------- what holds of the entries

/// A slug becomes a title word by word: each dash parts two words, each of which
/// has its first character made large.
pub proof fn lemma_title_of_words(part: Seq<char>, rest: Seq<char>)
    requires
        part.len() > 0,
        !part.contains('-'),
    ensures
        titled(part) == uppercase(part[0]) + part.skip(1),
        title_words(split_at_char(rest, '-')).len() > 0 ==> titled(part + seq!['-'] + rest)
            == titled(part) + seq![' '] + titled(rest),
        titled(seq!['-'] + rest) == titled(rest),
{
    reveal_strlit(" ");
    assert(" "@ =~= seq![' ']);
    lemma_find_from(part, '-', 0);
    if find_from(part, '-', 0) < part.len() {
        assert(part.contains(part[find_from(part, '-', 0)]));
    }
    assert(split_at_char(part, '-') =~= seq![part]);
    lemma_title_words_front(part, seq![]);
    assert(seq![part] + Seq::<Seq<char>>::empty() =~= seq![part]);
    assert(title_words(Seq::<Seq<char>>::empty()).len() == 0);
    let one = capitalised(part);
    assert(title_words(seq![part]) =~= seq![one]);
    assert(joined(seq![one], " "@) =~= one);
    lemma_split_piece(part, '-', rest);
    let tail = split_at_char(rest, '-');
    lemma_title_words_front(part, tail);
    if title_words(tail).len() > 0 {
        lemma_joined_with(one, title_words(tail), " "@);
    }
    let none = Seq::<char>::empty();
    lemma_split_piece(none, '-', rest);
    assert(none + seq!['-'] + rest =~= seq!['-'] + rest);
    lemma_title_words_front(none, tail);
    assert(Seq::<Seq<char>>::empty() + title_words(tail) =~= title_words(tail));
}

proof fn lemma_title_words_front(part: Seq<char>, tail: Seq<Seq<char>>)
    ensures
        part.len() > 0 ==> title_words(seq![part] + tail) == seq![capitalised(part)] + title_words(
            tail,
        ),
        part.len() == 0 ==> title_words(seq![part] + tail) == title_words(tail),
    decreases tail.len(),
{
    let all = seq![part] + tail;
    if tail.len() == 0 {
        assert(all.drop_last() =~= Seq::<Seq<char>>::empty());
        assert(title_words(all.drop_last()).len() == 0);
        assert(all.last() == part);
        if part.len() > 0 {
            assert(title_words(all) =~= seq![capitalised(part)] + title_words(tail));
        } else {
            assert(title_words(all) =~= title_words(tail));
        }
    } else {
        lemma_title_words_front(part, tail.drop_last());
        assert(all.drop_last() =~= seq![part] + tail.drop_last());
        assert(all.last() == tail.last());
        if part.len() > 0 {
            assert(title_words(all) =~= seq![capitalised(part)] + title_words(tail));
        } else {
            assert(title_words(all) =~= title_words(tail));
        }
    }
}

/// A slug that is listed more than once has the name that comes last. A slug that
/// is not listed has none.
pub proof fn lemma_last_name_counts(
    listed: Seq<(Seq<char>, Seq<char>)>,
    slug: Seq<char>,
    name: Seq<char>,
    other: Seq<char>,
)
    ensures
        lookup(names_of(listed.push((slug, name))), slug) == Some(name),
        other != slug ==> lookup(names_of(listed.push((slug, name))), other) == lookup(
            names_of(listed),
            other,
        ),
        lookup(names_of(seq![]), other) is None,
{
    assert(listed.push((slug, name)).drop_last() =~= listed);
}

/// A game is known by its `game_slug`, or else by the name of its file without
/// the number. It has the name that Lutris lists, or else its own, or else a
/// title made of the slug.
pub proof fn lemma_where_an_entry_is_from(
    path: Seq<char>,
    text: Seq<char>,
    names: Map<Seq<char>, Seq<char>>,
)
    ensures
        ({
            let fields = fields_of(split_at_char(text, '\n'));
            let e = entry_of(path, text, names);
            &&& fields.contains_key("game_slug"@) ==> e.slug == fields["game_slug"@]
            &&& !fields.contains_key("game_slug"@) ==> e.slug == without_id(stem_of(path))
            &&& names.contains_key(e.slug) ==> e.name == names[e.slug]
            &&& !names.contains_key(e.slug) && fields.contains_key("name"@) ==> e.name
                == fields["name"@]
            &&& !names.contains_key(e.slug) && !fields.contains_key("name"@) ==> e.name == titled(
                e.slug,
            )
            &&& !fields.contains_key("runner"@) ==> e.runner == "unknown"@
            &&& fields.contains_key("runner"@) ==> e.runner == fields["runner"@]
            &&& e.exe is Some <==> fields.contains_key("exe"@)
            &&& e.exe is Some ==> e.exe == Some(fields["exe"@])
            &&& e.appid is Some <==> fields.contains_key("appid"@)
            &&& e.appid is Some ==> e.appid == Some(fields["appid"@])
            &&& e.prefix is Some <==> fields.contains_key("prefix"@)
            &&& e.prefix is Some ==> e.prefix == Some(fields["prefix"@])
            &&& e.config == path
        }),
{
}

/// Every `.yml` file that can be read is a game, and no other file is.
pub proof fn lemma_which_files_count(
    a: Seq<ConfigFile>,
    b: Seq<ConfigFile>,
    f: ConfigFile,
    names: Map<Seq<char>, Seq<char>>,
)
    ensures
        entries_of(a + b, names) == entries_of(a, names) + entries_of(b, names),
        extension_of(f.path@) == Some("yml"@) && f.text is Some ==> entries_of(seq![f], names)
            == seq![entry_of(f.path@, f.text->Some_0@, names)],
        extension_of(f.path@) != Some("yml"@) || f.text is None ==> entries_of(
            seq![f],
            names,
        ).len() == 0,
    decreases b.len(),
{
    assert(seq![f].drop_last() =~= Seq::<ConfigFile>::empty());
    assert(seq![f].last() == f);
    assert(entries_of(seq![f].drop_last(), names).len() == 0);
    if extension_of(f.path@) == Some("yml"@) && f.text is Some {
        assert(entries_of(seq![f], names) =~= seq![entry_of(f.path@, f.text->Some_0@, names)]);
    }
    if b.len() == 0 {
        assert(a + b =~= a);
        assert(entries_of(a, names) + entries_of(b, names) =~= entries_of(a, names));
    } else {
        lemma_which_files_count(a, b.drop_last(), f, names);
        assert((a + b).drop_last() =~= a + b.drop_last());
        assert((a + b).last() == b.last());
        assert(entries_of(a + b, names) =~= entries_of(a, names) + entries_of(b, names));
    }
}

/// What Lutris has is told in the order of the slugs, with nothing left out, and
/// those with one slug in the order of their files.
pub proof fn lemma_entries_are_in_order(
    files: Seq<ConfigFile>,
    listed: Option<Vec<(String, String)>>,
    slug: Seq<char>,
)
    ensures
        known_games(files, listed).to_multiset() == entries_of(
            files,
            names_in(listed),
        ).to_multiset(),
        forall|i: int, j: int|
            0 <= i < j < known_games(files, listed).len() ==> !crate::ordered::precedes(
                (#[trigger] known_games(files, listed)[j]).slug,
                (#[trigger] known_games(files, listed)[i]).slug,
            ),
        only(known_games(files, listed), |e: EntryView| e.slug, slug) == only(
            entries_of(files, names_in(listed)),
            |e: EntryView| e.slug,
            slug,
        ),
{
    let key = |e: EntryView| e.slug;
    let all = entries_of(files, names_in(listed));
    lemma_in_order(all, key);
    lemma_sorting_is_stable(all, key, slug);
    let sorted = known_games(files, listed);
    assert forall|i: int, j: int| 0 <= i < j < sorted.len() implies !crate::ordered::precedes(
        (#[trigger] sorted[j]).slug,
        (#[trigger] sorted[i]).slug,
    ) by {
        assert(!crate::ordered::precedes(key(sorted[j]), key(sorted[i])));
    }
}

/// The exit code of a command that went well is zero. Any other has its own, or
/// -1 where it has none.
pub proof fn lemma_how_a_command_ended(success: bool, code: Option<i32>)
    ensures
        success ==> code_of(success, code) == 0,
        !success && code is Some ==> code_of(success, code) == code->Some_0,
        !success && code is None ==> code_of(success, code) == -1,
{
}

/// Blanks around a line make no difference, nor do those behind its colon. A key
/// with nothing but blanks behind its colon has no value and is no field.
pub proof fn lemma_blanks_around_a_field(a: Seq<char>, raw: Seq<char>, b: Seq<char>)
    requires
        forall|i: int| 0 <= i < a.len() ==> is_blank(#[trigger] a[i]),
        forall|i: int| 0 <= i < b.len() ==> is_blank(#[trigger] b[i]),
    ensures
        trimmed(a + raw + b) == trimmed(raw),
        field_of(a + raw + b) == field_of(raw),
        !raw.contains(':') ==> field_of(raw + seq![':'] + b) is None,
{
    let s = a + raw + b;
    let n = a.len() as int;
    let cut = lemma_trimmed_is_the_middle(raw, Edge::Blank);
    let x = cut.0;
    let y = cut.1;
    assert forall|i: int| 0 <= i < n + x implies on_edge(Edge::Blank, #[trigger] s[i]) by {
        if i < n {
            assert(s[i] == a[i]);
        } else {
            assert(s[i] == raw[i - n]);
        }
    }
    assert forall|i: int| n + y <= i < s.len() implies on_edge(Edge::Blank, #[trigger] s[i]) by {
        if i < n + raw.len() {
            assert(s[i] == raw[i - n]);
        } else {
            assert(s[i] == b[i - n - raw.len()]);
        }
    }
    if x < y {
        assert(s[n + x] == raw[x] && s[n + y - 1] == raw[y - 1]);
    }
    lemma_trimmed_by(s, Edge::Blank, n + x, n + y);
    assert(s.subrange(n + x, n + y) =~= raw.subrange(x, y));
    if !raw.contains(':') {
        lemma_nothing_behind_the_colon(raw, b);
    }
}

proof fn lemma_nothing_behind_the_colon(raw: Seq<char>, b: Seq<char>)
    requires
        !raw.contains(':'),
        forall|i: int| 0 <= i < b.len() ==> is_blank(#[trigger] b[i]),
    ensures
        field_of(raw + seq![':'] + b) is None,
{
    let s = raw + seq![':'] + b;
    let cut = lemma_trimmed_is_the_middle(s, Edge::Blank);
    let line = trimmed(s);
    lemma_find_from(line, ':', 0);
    let colon = find_from(line, ':', 0);
    let at = raw.len() as int;
    assert(s[at] == ':');
    lemma_blanks(':');
    assert(!on_edge(Edge::Blank, s[at]));
    assert(cut.0 <= at < cut.1);
    assert(line[at - cut.0] == ':');
    if colon < at - cut.0 {
        assert(raw[cut.0 + colon] == ':');
        assert(raw.contains(':'));
    }
    if colon < line.len() {
        let rest = line.skip(colon + 1);
        assert forall|i: int| 0 <= i < rest.len() implies on_edge(Edge::Blank, #[trigger] rest[i]) by {
            assert(rest[i] == s[cut.0 + colon + 1 + i]);
            assert(rest[i] == b[cut.0 + colon + i - at]);
        }
        lemma_trimmed_by(rest, Edge::Blank, rest.len() as int, rest.len() as int);
        assert(trimmed(rest).len() == 0);
    }
}


/// Without a home directory, places are taken from where the command runs.
pub proof fn lemma_places_without_a_home(e: Surroundings)
    requires
        e.home is None,
    ensures
        e.data_home is None ==> modern_of(e) == "./.local/share/lutris"@,
        e.config_home is None ==> legacy_of(e) == "./.config/lutris"@,
        flatpak_dir(e) == "./.var/app/net.lutris.Lutris"@,
{
    reveal_strlit(".");
    reveal_strlit("/");
    reveal_strlit("lutris");
    reveal_strlit(".local/share");
    reveal_strlit(".config");
    reveal_strlit(".var/app/net.lutris.Lutris");
    reveal_strlit("./.local/share/lutris");
    reveal_strlit("./.config/lutris");
    reveal_strlit("./.var/app/net.lutris.Lutris");
    assert("."@ + "/"@ + ".var/app/net.lutris.Lutris"@ =~= "./.var/app/net.lutris.Lutris"@);
    assert("."@ + "/"@ + ".local/share"@ + "/"@ + "lutris"@ =~= "./.local/share/lutris"@);
    assert("."@ + "/"@ + ".config"@ + "/"@ + "lutris"@ =~= "./.config/lutris"@);
}

} // verus!
