//! The `librarybridge lutris` commands that only read: which one is asked for,
//! what is installed, and what a scan found.

use vstd::prelude::*;

use crate::covers::{is_start, lemma_begins_is_start};
use crate::document::{
    bracketed_text, emit_with_two, emit_with_two_text, json_bool, json_bracketed, json_object,
    json_optional, json_string, json_text, member, member_text, object_text, optional_text, truth,
};
use crate::library::Options;
use crate::lutris::{Installation, Packaging};
use crate::path::{join as join_path, under};
use crate::sorting::{
    dedup, in_order, in_order_by, lemma_first_of_a_key_is_kept, lemma_in_order, lemma_in_order_map,
    lemma_without_repeats, lemma_without_repeats_map, own_key, sort, texts_in_order, without_repeats,
    without_repeats_by,
};
use crate::text::{
    begins, cat2, cat3, decimal, decimal_of, each, ends, for_each, join, joined,
    lemma_each_mentions, lemma_joined_mentions, lemma_mentions_in, lemma_mentions_piece,
    lemma_mentions_through, lemma_views_push, mentions, same_text, starts_with, views,
};

verus! {

#[derive(Debug, Clone, Copy, PartialEq, Eq, Structural)]
pub enum Command {
    Detect,
    Scan,
    Plan,
    Import,
    Covers,
    Forget,
}

pub open spec fn command_of(word: Seq<char>) -> Option<Command> {
    if word == "detect"@ {
        Some(Command::Detect)
    } else if word == "scan"@ {
        Some(Command::Scan)
    } else if word == "plan"@ {
        Some(Command::Plan)
    } else if word == "import"@ {
        Some(Command::Import)
    } else if word == "covers"@ {
        Some(Command::Covers)
    } else if word == "forget"@ {
        Some(Command::Forget)
    } else {
        None
    }
}

/// Which command is asked for.
pub fn dispatch(arguments: &Vec<String>) -> (r: Result<Command, String>)
    ensures
        if arguments@.len() == 0 {
            r matches Err(e) && e@
                == "lutris needs a command: detect, scan, plan, import, covers or forget."@
        } else {
            match command_of(arguments@[0]@) {
                Some(c) => r == Ok::<Command, String>(c),
                None => r matches Err(e) && e@ == "unknown lutris command '"@ + arguments@[0]@
                    + "'. Try detect, scan, plan, import, covers or forget."@,
            }
        },
{
    if arguments.len() == 0 {
        return Err(
            "lutris needs a command: detect, scan, plan, import, covers or forget.".to_owned(),
        );
    }
    let word = arguments[0].as_str();
    if same_text(word, "detect") {
        Ok(Command::Detect)
    } else if same_text(word, "scan") {
        Ok(Command::Scan)
    } else if same_text(word, "plan") {
        Ok(Command::Plan)
    } else if same_text(word, "import") {
        Ok(Command::Import)
    } else if same_text(word, "covers") {
        Ok(Command::Covers)
    } else if same_text(word, "forget") {
        Ok(Command::Forget)
    } else {
        Err(
            cat3(
                "unknown lutris command '",
                word,
                "'. Try detect, scan, plan, import, covers or forget.",
            ),
        )
    }
}

/// Where records of imports and definitions are kept.
pub fn state_dir(app_data_dir: &str) -> (path: String)
    ensures
        path@ == under(app_data_dir@, "lutris"@),
{
    join_path(app_data_dir, "lutris")
}

/// The installation that is worked with: the first.
pub open spec fn worked_with(found: Seq<Installation>) -> Option<Installation> {
    if found.len() > 0 {
        Some(found[0])
    } else {
        None
    }
}

pub fn require_lutris<'a>(found: &'a Vec<Installation>) -> (r: Result<&'a Installation, String>)
    ensures
        match r {
            Ok(i) => worked_with(found@) == Some(*i),
            Err(e) => worked_with(found@) is None && e@
                == "Lutris was not found. Install it from your distribution's packages or from \
                    Flathub as net.lutris.Lutris, then run this again."@,
        },
{
    if found.len() > 0 {
        Ok(&found[0])
    } else {
        Err(
            "Lutris was not found. Install it from your distribution's packages or from Flathub as \
                net.lutris.Lutris, then run this again.".to_owned(),
        )
    }
}

// -------------------------------------------------------------------- detect

/// An installation, and the runner of each game it has.
#[derive(Debug)]
pub struct Detected {
    pub packaging: Packaging,
    pub config_dir: String,
    pub runners: Vec<String>,
}

/// Texts in order, each once.
pub open spec fn distinct(texts: Seq<Seq<char>>) -> Seq<Seq<char>> {
    without_repeats_by(texts_in_order(texts), |t: Seq<char>| t)
}

fn copy_texts(texts: &Vec<String>) -> (out: Vec<String>)
    ensures
        out@ == texts@,
{
    let mut out: Vec<String> = Vec::new();
    for i in 0..texts.len()
        invariant
            out@ == texts@.take(i as int),
    {
        out.push(texts[i].clone());
        assert(texts@.take(i + 1) =~= texts@.take(i as int).push(texts@[i as int]));
    }
    assert(texts@.take(texts@.len() as int) =~= texts@);
    out
}

fn distinct_texts(texts: &Vec<String>) -> (out: Vec<String>)
    ensures
        views(out@) == distinct(views(texts@)),
{
    let all = copy_texts(texts);
    let ghost f = |s: String| s@;
    let ghost same = |t: Seq<char>| t;
    proof {
        lemma_in_order_map(all@, own_key::<String>(), f, same);
        lemma_without_repeats_map(in_order(all@), own_key::<String>(), f, same);
        assert(views(all@) =~= all@.map_values(f));
        assert(views(without_repeats(in_order(all@))) =~= without_repeats(
            in_order(all@),
        ).map_values(f));
    }
    dedup(sort(all))
}

pub open spec fn runners_line_text(runners: Seq<Seq<char>>) -> Seq<char> {
    if runners.len() > 0 {
        "Runners     "@ + joined(runners, ", "@) + "\n"@
    } else {
        seq![]
    }
}

fn runners_line(runners: &Vec<String>) -> (out: String)
    ensures
        out@ == runners_line_text(views(runners@)),
{
    if runners.len() > 0 {
        let mut out = "Runners     ".to_owned();
        out.append(join(runners, ", ").as_str());
        out.append("\n");
        out
    } else {
        String::new()
    }
}

pub open spec fn detected_block_text(d: Detected) -> Seq<char> {
    "Lutris      "@ + d.packaging.label_text() + " install\nConfig      "@ + d.config_dir@
        + "\nKnows about "@ + decimal_of(d.runners@.len()) + " games\n"@
        + runners_line_text(distinct(views(d.runners@))) + "\n"@
}

fn detected_block(d: &Detected) -> (out: String)
    ensures
        out@ == detected_block_text(*d),
{
    let mut out = "Lutris      ".to_owned();
    out.append(d.packaging.label());
    out.append(" install\nConfig      ");
    out.append(d.config_dir.as_str());
    out.append("\nKnows about ");
    out.append(decimal(d.runners.len() as u64).as_str());
    out.append(" games\n");
    out.append(runners_line(&distinct_texts(&d.runners)).as_str());
    out.append("\n");
    out
}

pub open spec fn detected_json_text(d: Detected) -> Seq<char> {
    "    {\"packaging\": \""@ + d.packaging.label_text() + "\", \"config\": \""@ + d.config_dir@
        + "\", \"games\": "@ + decimal_of(d.runners@.len()) + "}"@
}

fn detected_json(d: &Detected) -> (out: String)
    ensures
        out@ == detected_json_text(*d),
{
    let mut out = "    {\"packaging\": \"".to_owned();
    out.append(d.packaging.label());
    out.append("\", \"config\": \"");
    out.append(d.config_dir.as_str());
    out.append("\", \"games\": ");
    out.append(decimal(d.runners.len() as u64).as_str());
    out.append("}");
    out
}

pub open spec fn detected_blocks(all: Seq<Detected>) -> Seq<char>
    decreases all.len(),
{
    if all.len() == 0 {
        seq![]
    } else {
        detected_blocks(all.drop_last()) + detected_block_text(all.last())
    }
}

pub open spec fn detected_rows(all: Seq<Detected>) -> Seq<Seq<char>> {
    all.map_values(|d: Detected| detected_json_text(d))
}

pub open spec fn detect_text(json: bool, all: Seq<Detected>) -> Seq<char> {
    if json {
        "{\n  \"schema\": 1,\n  \"lutris\": [\n"@ + joined(detected_rows(all), ",\n"@) + "\n  \
            ]\n}\n"@
    } else if all.len() == 0 {
        "Lutris was not found.\n\nInstall it from your distribution's packages, or from Flathub:\n    \
            flatpak install flathub net.lutris.Lutris\n"@
    } else {
        detected_blocks(all)
    }
}

/// The exit code of looking for installations.
pub open spec fn detect_code(json: bool, found: nat) -> i32 {
    if !json && found == 0 {
        2
    } else {
        0
    }
}

/// What is said of the installations, and the exit code.
pub fn detect(o: &Options, all: &Vec<Detected>) -> (r: (String, i32))
    ensures
        r.0@ == detect_text(o.json, all@),
        r.1 == detect_code(o.json, all@.len()),
{
    if o.json {
        let mut rows: Vec<String> = Vec::new();
        assert(views(rows@) =~= detected_rows(all@.take(0)));
        for i in 0..all.len()
            invariant
                views(rows@) == detected_rows(all@.take(i as int)),
        {
            let row = detected_json(&all[i]);
            proof {
                lemma_views_push(rows@, row);
                assert(detected_rows(all@.take(i + 1)) =~= detected_rows(all@.take(i as int)).push(
                    row@,
                ));
            }
            rows.push(row);
        }
        assert(all@.take(all@.len() as int) =~= all@);
        let mut out = "{\n  \"schema\": 1,\n  \"lutris\": [\n".to_owned();
        out.append(join(&rows, ",\n").as_str());
        out.append("\n  ]\n}\n");
        return (out, 0);
    }
    if all.len() == 0 {
        return (
            "Lutris was not found.\n\nInstall it from your distribution's packages, or from \
                Flathub:\n    flatpak install flathub net.lutris.Lutris\n".to_owned(),
            2,
        );
    }
    let mut out = String::new();
    for i in 0..all.len()
        invariant
            out@ == detected_blocks(all@.take(i as int)),
    {
        out.append(detected_block(&all[i]).as_str());
        assert(all@.take(i + 1).drop_last() =~= all@.take(i as int));
    }
    assert(all@.take(all@.len() as int) =~= all@);
    (out, 0)
}

// ---------------------------------------------------------------- candidates

/// A game that a scan found.
#[derive(Debug)]
pub struct Candidate {
    pub id: String,
    pub name: String,
    pub runner: String,
    pub source: String,
    pub exe: Option<String>,
    pub appid: Option<String>,
    pub prefix: Option<String>,
    pub working_dir: Option<String>,
    /// How sure the scan is, in a word.
    pub confidence: String,
    /// Whether that is the least it can be.
    pub unsure: bool,
    pub in_lutris: bool,
    pub eligible: bool,
    pub blocking_reason: Option<String>,
    pub filesystem_warning: Option<String>,
    pub launch_warnings: Vec<String>,
    pub alternatives: Vec<String>,
    pub reasons: Vec<String>,
}

/// The members of a candidate as an object.
pub open spec fn candidate_members(c: Candidate, indent: Seq<char>) -> Seq<Seq<char>> {
    seq![
        member_text(indent, "id"@, json_text(c.id@)),
        member_text(indent, "name"@, json_text(c.name@)),
        member_text(indent, "runner"@, json_text(c.runner@)),
        member_text(indent, "source"@, json_text(c.source@)),
        member_text(indent, "exe"@, optional_text(c.exe)),
        member_text(indent, "appid"@, optional_text(c.appid)),
        member_text(indent, "prefix"@, optional_text(c.prefix)),
        member_text(indent, "working_dir"@, optional_text(c.working_dir)),
        member_text(indent, "confidence"@, json_text(c.confidence@)),
        member_text(indent, "in_lutris"@, truth(c.in_lutris)),
        member_text(indent, "eligible"@, truth(c.eligible)),
        member_text(indent, "blocking_reason"@, optional_text(c.blocking_reason)),
        member_text(indent, "filesystem_warning"@, optional_text(c.filesystem_warning)),
        member_text(indent, "warnings"@, bracketed_text(views(c.launch_warnings@))),
        member_text(indent, "alternatives"@, bracketed_text(views(c.alternatives@))),
        member_text(indent, "reasons"@, bracketed_text(views(c.reasons@))),
    ]
}

/// A candidate as an object, with an indent before every line.
pub open spec fn candidate_json_text(c: Candidate, indent: Seq<char>) -> Seq<char> {
    indent + object_text(indent, candidate_members(c, indent))
}

pub fn candidate_json(c: &Candidate, indent: &str) -> (out: String)
    ensures
        out@ == candidate_json_text(*c, indent@),
{
    let members: Vec<String> = vec![
        member(indent, "id", json_string(c.id.as_str()).as_str()),
        member(indent, "name", json_string(c.name.as_str()).as_str()),
        member(indent, "runner", json_string(c.runner.as_str()).as_str()),
        member(indent, "source", json_string(c.source.as_str()).as_str()),
        member(indent, "exe", json_optional(&c.exe).as_str()),
        member(indent, "appid", json_optional(&c.appid).as_str()),
        member(indent, "prefix", json_optional(&c.prefix).as_str()),
        member(indent, "working_dir", json_optional(&c.working_dir).as_str()),
        member(indent, "confidence", json_string(c.confidence.as_str()).as_str()),
        member(indent, "in_lutris", json_bool(c.in_lutris)),
        member(indent, "eligible", json_bool(c.eligible)),
        member(indent, "blocking_reason", json_optional(&c.blocking_reason).as_str()),
        member(indent, "filesystem_warning", json_optional(&c.filesystem_warning).as_str()),
        member(indent, "warnings", json_bracketed(&c.launch_warnings).as_str()),
        member(indent, "alternatives", json_bracketed(&c.alternatives).as_str()),
        member(indent, "reasons", json_bracketed(&c.reasons).as_str()),
    ];
    assert(views(members@) =~= candidate_members(*c, indent@));
    cat2(indent, json_object(indent, &members).as_str())
}

pub open spec fn candidate_rows(all: Seq<Candidate>) -> Seq<Seq<char>> {
    all.map_values(|c: Candidate| candidate_json_text(c, "    "@))
}

/// The candidates that are shown: those Lutris does not have, or all of them.
pub open spec fn shown_of(o: Options, all: Seq<Candidate>) -> Seq<Candidate>
    decreases all.len(),
{
    if all.len() == 0 {
        seq![]
    } else if o.all || !all.last().in_lutris {
        shown_of(o, all.drop_last()).push(all.last())
    } else {
        shown_of(o, all.drop_last())
    }
}

// ---------------------------------------------------------------------- scan

/// A progress line for machine output. The final document is still the only
/// thing that ever follows, so a script that ignores these lines is unaffected.
pub open spec fn emit_scan_text(o: Options, done: usize, total: usize) -> Seq<char> {
    if o.json && o.roots@.len() > 0 {
        emit_with_two_text(
            true,
            "scanning"@,
            "done"@,
            decimal_of(done as nat),
            "total"@,
            decimal_of(total as nat),
        )
    } else {
        seq![]
    }
}

pub fn emit_scan(o: &Options, done: usize, total: usize) -> (out: String)
    ensures
        out@ == emit_scan_text(*o, done, total),
{
    if o.json && o.roots.len() > 0 {
        emit_with_two(
            true,
            "scanning",
            "done",
            decimal(done as u64).as_str(),
            "total",
            decimal(total as u64).as_str(),
        )
    } else {
        String::new()
    }
}

/// Said on the standard error where there is no Lutris to compare with.
pub open spec fn no_lutris_note_text() -> Seq<char> {
    "librarybridge: Lutris was not found, so nothing can be marked as already added.\n"@
}

pub fn no_lutris_note() -> (out: String)
    ensures
        out@ == no_lutris_note_text(),
{
    "librarybridge: Lutris was not found, so nothing can be marked as already added.\n".to_owned()
}

pub open spec fn no_folders_text(o: Options) -> Seq<char> {
    if o.roots@.len() == 0 {
        "No folders were given, so only Steam libraries were checked.\nPoint at a games folder to \
            find everything else:\n    librarybridge lutris scan --root /run/media/you/Games\n\
            \n"@
    } else {
        seq![]
    }
}

fn no_folders(o: &Options) -> (out: String)
    ensures
        out@ == no_folders_text(*o),
{
    if o.roots.len() == 0 {
        "No folders were given, so only Steam libraries were checked.\nPoint at a games folder to \
            find everything else:\n    librarybridge lutris scan --root /run/media/you/Games\n\
            \n".to_owned()
    } else {
        String::new()
    }
}

pub open spec fn appid_line_text(c: Candidate) -> Seq<char> {
    match c.appid {
        Some(appid) => "      steam app   "@ + appid@ + "\n"@,
        None => seq![],
    }
}

fn appid_line(c: &Candidate) -> (out: String)
    ensures
        out@ == appid_line_text(*c),
{
    match &c.appid {
        Some(appid) => {
            let mut out = "      steam app   ".to_owned();
            out.append(appid.as_str());
            out.append("\n");
            out
        },
        None => String::new(),
    }
}

pub open spec fn exe_line_text(c: Candidate) -> Seq<char> {
    match c.exe {
        Some(exe) => "      executable  "@ + exe@ + "\n"@,
        None => seq![],
    }
}

fn exe_line(c: &Candidate) -> (out: String)
    ensures
        out@ == exe_line_text(*c),
{
    match &c.exe {
        Some(exe) => {
            let mut out = "      executable  ".to_owned();
            out.append(exe.as_str());
            out.append("\n");
            out
        },
        None => String::new(),
    }
}

pub open spec fn prefix_line_text(c: Candidate) -> Seq<char> {
    match c.prefix {
        Some(prefix) => "      prefix      "@ + prefix@ + "\n"@,
        None => seq![],
    }
}

fn prefix_line(c: &Candidate) -> (out: String)
    ensures
        out@ == prefix_line_text(*c),
{
    match &c.prefix {
        Some(prefix) => {
            let mut out = "      prefix      ".to_owned();
            out.append(prefix.as_str());
            out.append("\n");
            out
        },
        None => String::new(),
    }
}

/// What else it could be, the first of them marked.
pub open spec fn maybe_text(alternatives: Seq<Seq<char>>) -> Seq<char> {
    if alternatives.len() == 0 {
        seq![]
    } else {
        "      or maybe    "@ + alternatives[0] + "\n"@ + each(
            alternatives.skip(1),
            "                  "@,
            "\n"@,
        )
    }
}

fn or_maybe(alternatives: &Vec<String>) -> (out: String)
    ensures
        out@ == maybe_text(views(alternatives@)),
{
    if alternatives.len() == 0 {
        return String::new();
    }
    let mut rest: Vec<String> = Vec::new();
    let ghost all = views(alternatives@).skip(1);
    assert(views(rest@) =~= all.take(0));
    for i in 1..alternatives.len()
        invariant
            alternatives@.len() > 0,
            all == views(alternatives@).skip(1),
            views(rest@) == all.take(i - 1),
    {
        let one = alternatives[i].clone();
        proof {
            lemma_views_push(rest@, one);
            assert(all[i - 1] == one@);
            assert(all.take(i as int) =~= all.take(i - 1).push(one@));
        }
        rest.push(one);
    }
    assert(all.take(all.len() as int) =~= all);
    let mut out = "      or maybe    ".to_owned();
    out.append(alternatives[0].as_str());
    out.append("\n");
    out.append(for_each(&rest, "                  ", "\n").as_str());
    out
}

pub open spec fn warning_line_text(c: Candidate) -> Seq<char> {
    match c.filesystem_warning {
        Some(warning) => "      warning     "@ + warning@
                + "\n                  adding it to Lutris will not fix that on its own\n"@,
        None => seq![],
    }
}

fn warning_line(c: &Candidate) -> (out: String)
    ensures
        out@ == warning_line_text(*c),
{
    match &c.filesystem_warning {
        Some(warning) => {
            let mut out = "      warning     ".to_owned();
            out.append(warning.as_str());
            out.append("\n                  adding it to Lutris will not fix that on its own\n");
            out
        },
        None => String::new(),
    }
}

pub open spec fn had_line_text(c: Candidate) -> Seq<char> {
    if c.in_lutris {
        "      note        Lutris already has this one\n"@
    } else {
        seq![]
    }
}

fn had_line(c: &Candidate) -> (out: String)
    ensures
        out@ == had_line_text(*c),
{
    if c.in_lutris {
        "      note        Lutris already has this one\n".to_owned()
    } else {
        String::new()
    }
}

pub open spec fn shown_candidate_text(c: Candidate) -> Seq<char> {
    "\n  ["@ + c.id@ + "] "@ + c.name@ + "\n      runner      "@ + c.runner@ + " ("@ + c.source@
        + " source)\n"@ + appid_line_text(c) + exe_line_text(c) + prefix_line_text(c)
        + "      confidence  "@ + c.confidence@ + "\n"@
        + each(views(c.reasons@), "      because     "@, "\n"@)
        + maybe_text(views(c.alternatives@)) + warning_line_text(c)
        + each(views(c.launch_warnings@), "      launch      "@, "\n                  this shows up \
            the first time you run it\n"@)
        + had_line_text(c)
}

pub fn shown_candidate(c: &Candidate) -> (out: String)
    ensures
        out@ == shown_candidate_text(*c),
{
    let mut out = "\n  [".to_owned();
    out.append(c.id.as_str());
    out.append("] ");
    out.append(c.name.as_str());
    out.append("\n      runner      ");
    out.append(c.runner.as_str());
    out.append(" (");
    out.append(c.source.as_str());
    out.append(" source)\n");
    out.append(appid_line(c).as_str());
    out.append(exe_line(c).as_str());
    out.append(prefix_line(c).as_str());
    out.append("      confidence  ");
    out.append(c.confidence.as_str());
    out.append("\n");
    out.append(for_each(&c.reasons, "      because     ", "\n").as_str());
    out.append(or_maybe(&c.alternatives).as_str());
    out.append(warning_line(c).as_str());
    out.append(for_each(&c.launch_warnings, "      launch      ", "\n                  this shows \
        up the first time you run it\n").as_str());
    out.append(had_line(c).as_str());
    out
}

pub open spec fn shown_candidates(all: Seq<Candidate>) -> Seq<char>
    decreases all.len(),
{
    if all.len() == 0 {
        seq![]
    } else {
        shown_candidates(all.drop_last()) + shown_candidate_text(all.last())
    }
}

/// How many of the candidates are Steam games.
pub open spec fn steam_in(all: Seq<Candidate>) -> nat
    decreases all.len(),
{
    if all.len() == 0 {
        0
    } else if all.last().source@ == "steam"@ {
        steam_in(all.drop_last()) + 1
    } else {
        steam_in(all.drop_last())
    }
}

pub open spec fn steam_note_text(count: usize) -> Seq<char> {
    if count > 0 {
        decimal_of(count as nat)
            + " of these are Steam games. Lutris shows installed Steam games through\nits own Steam \
                source, so importing them usually makes a duplicate entry.\n\n"@
    } else {
        seq![]
    }
}

fn steam_note(count: usize) -> (out: String)
    ensures
        out@ == steam_note_text(count),
{
    if count > 0 {
        let mut out = decimal(count as u64);
        out.append(" of these are Steam games. Lutris shows installed Steam games through\n\
            its own Steam source, so importing them usually makes a duplicate entry.\n\n");
        out
    } else {
        String::new()
    }
}

pub open spec fn scan_json_text(shown: Seq<Candidate>) -> Seq<char> {
    "{\n  \"schema\": 1,\n  \"candidates\": [\n"@ + joined(candidate_rows(shown), ",\n"@)
        + "\n  ]\n}\n"@
}

pub open spec fn found_text(shown: Seq<Candidate>) -> Seq<char> {
    "Found "@ + decimal_of(shown.len()) + " games not in Lutris\n"@ + shown_candidates(shown) + "\n"@
        + steam_note_text(steam_in(shown) as usize)
        + "To add some of them:\n    librarybridge lutris plan --candidate "@ + shown[0].id@
        + " --output plan.json\n    librarybridge lutris import --plan plan.json\n"@
}

/// What a scan reports.
pub open spec fn lutris_scan_text(o: Options, all: Seq<Candidate>) -> Seq<char> {
    let shown = shown_of(o, all);
    if o.json {
        scan_json_text(shown)
    } else if shown.len() == 0 {
        no_folders_text(o) + "Nothing found that Lutris does not already have.\n"@
    } else {
        no_folders_text(o) + found_text(shown)
    }
}

/// The places of the candidates that are shown.
pub open spec fn picked(all: Seq<Candidate>, places: Seq<usize>) -> Seq<Candidate> {
    places.map_values(|i: usize| all[i as int])
}

fn shown_places(o: &Options, all: &Vec<Candidate>) -> (places: Vec<usize>)
    ensures
        picked(all@, places@) == shown_of(*o, all@),
        forall|k: int| 0 <= k < places@.len() ==> (#[trigger] places@[k]) < all@.len(),
{
    let mut places: Vec<usize> = Vec::new();
    assert(picked(all@, places@) =~= shown_of(*o, all@.take(0)));
    for i in 0..all.len()
        invariant
            picked(all@, places@) == shown_of(*o, all@.take(i as int)),
            forall|k: int| 0 <= k < places@.len() ==> (#[trigger] places@[k]) < all@.len(),
    {
        assert(all@.take(i + 1).drop_last() =~= all@.take(i as int));
        if o.all || !all[i].in_lutris {
            let ghost was = places@;
            places.push(i);
            assert(picked(all@, places@) =~= picked(all@, was).push(all@[i as int]));
        }
    }
    assert(all@.take(all@.len() as int) =~= all@);
    places
}

/// Rows of a document, one for each candidate that is picked.
pub fn pick_rows(all: &Vec<Candidate>, places: &Vec<usize>) -> (rows: Vec<String>)
    requires
        forall|k: int| 0 <= k < places@.len() ==> (#[trigger] places@[k]) < all@.len(),
    ensures
        views(rows@) == candidate_rows(picked(all@, places@)),
{
    let ghost chosen = picked(all@, places@);
    let mut rows: Vec<String> = Vec::new();
    assert(views(rows@) =~= candidate_rows(chosen.take(0)));
    for i in 0..places.len()
        invariant
            chosen == picked(all@, places@),
            forall|k: int| 0 <= k < places@.len() ==> (#[trigger] places@[k]) < all@.len(),
            views(rows@) == candidate_rows(chosen.take(i as int)),
    {
        assert(places@[i as int] < all@.len());
        let row = candidate_json(&all[places[i]], "    ");
        proof {
            lemma_views_push(rows@, row);
            assert(candidate_rows(chosen.take(i + 1)) =~= candidate_rows(
                chosen.take(i as int),
            ).push(row@));
        }
        rows.push(row);
    }
    assert(chosen.take(places@.len() as int) =~= chosen);
    rows
}

fn show_picked(all: &Vec<Candidate>, places: &Vec<usize>) -> (r: (String, usize))
    requires
        forall|k: int| 0 <= k < places@.len() ==> (#[trigger] places@[k]) < all@.len(),
    ensures
        r.0@ == shown_candidates(picked(all@, places@)),
        r.1 == steam_in(picked(all@, places@)),
{
    let ghost chosen = picked(all@, places@);
    let mut out = String::new();
    let mut steam: usize = 0;
    for i in 0..places.len()
        invariant
            chosen == picked(all@, places@),
            forall|k: int| 0 <= k < places@.len() ==> (#[trigger] places@[k]) < all@.len(),
            out@ == shown_candidates(chosen.take(i as int)),
            steam == steam_in(chosen.take(i as int)),
            steam <= i,
    {
        assert(places@[i as int] < all@.len());
        assert(chosen.take(i + 1).drop_last() =~= chosen.take(i as int));
        let c = &all[places[i]];
        assert(chosen.take(i + 1).last() == *c);
        out.append(shown_candidate(c).as_str());
        if same_text(c.source.as_str(), "steam") {
            steam = steam + 1;
        }
    }
    assert(chosen.take(places@.len() as int) =~= chosen);
    (out, steam)
}

/// Report what a scan found.
pub fn scan(o: &Options, all: &Vec<Candidate>) -> (out: String)
    ensures
        out@ == lutris_scan_text(*o, all@),
{
    let places = shown_places(o, all);
    let ghost shown = shown_of(*o, all@);
    assert(shown.len() == places@.len());
    if o.json {
        let mut out = "{\n  \"schema\": 1,\n  \"candidates\": [\n".to_owned();
        out.append(join(&pick_rows(all, &places), ",\n").as_str());
        out.append("\n  ]\n}\n");
        return out;
    }
    let mut out = no_folders(o);
    if places.len() == 0 {
        out.append("Nothing found that Lutris does not already have.\n");
        return out;
    }
    let (blocks, steam) = show_picked(all, &places);
    let mut found = "Found ".to_owned();
    found.append(decimal(places.len() as u64).as_str());
    found.append(" games not in Lutris\n");
    found.append(blocks.as_str());
    found.append("\n");
    found.append(steam_note(steam).as_str());
    found.append("To add some of them:\n    librarybridge lutris plan --candidate ");
    assert(places@[0] < all@.len());
    assert(shown[0] == all@[places@[0] as int]);
    found.append(all[places[0]].id.as_str());
    found.append(" --output plan.json\n    librarybridge lutris import --plan plan.json\n");
    out.append(found.as_str());
    out
}

// ---------------------------------------------------------------------- plan

/// Why a plan is refused.
#[derive(Debug, Clone, Copy, PartialEq, Eq, Structural)]
pub enum PlanRefusal {
    NoCandidates,
    NoOutput,
    /// Nothing matches what is wanted, by its place.
    NoMatch(usize),
    /// So many match what is wanted, by its place.
    Several(usize, usize),
    /// A candidate cannot be imported, by its place.
    Blocked(usize),
}

/// How many candidates have an id that starts with what is wanted.
pub open spec fn count_for(all: Seq<Candidate>, wanted: Seq<char>) -> nat
    decreases all.len(),
{
    if all.len() == 0 {
        0
    } else if begins(all.last().id@, wanted) {
        count_for(all.drop_last(), wanted) + 1
    } else {
        count_for(all.drop_last(), wanted)
    }
}

/// The first candidate whose id starts with what is wanted, or the length.
pub open spec fn first_for(all: Seq<Candidate>, wanted: Seq<char>) -> int
    decreases all.len(),
{
    if all.len() == 0 || begins(all[0].id@, wanted) {
        0
    } else {
        1 + first_for(all.skip(1), wanted)
    }
}

/// The candidates that are wanted, each by a text that only its id starts with.
pub open spec fn wanted_places(all: Seq<Candidate>, wanted: Seq<Seq<char>>) -> Result<
    Seq<usize>,
    PlanRefusal,
>
    decreases wanted.len(),
{
    if wanted.len() == 0 {
        Ok(seq![])
    } else {
        match wanted_places(all, wanted.drop_last()) {
            Err(r) => Err(r),
            Ok(places) => {
                let n = count_for(all, wanted.last());
                if n == 1 {
                    Ok(places.push(first_for(all, wanted.last()) as usize))
                } else if n == 0 {
                    Err(PlanRefusal::NoMatch((wanted.len() - 1) as usize))
                } else {
                    Err(PlanRefusal::Several((wanted.len() - 1) as usize, n as usize))
                }
            },
        }
    }
}

/// The first of some candidates that cannot be imported, or -1.
pub open spec fn first_blocked(all: Seq<Candidate>, places: Seq<usize>) -> int
    decreases places.len(),
{
    if places.len() == 0 {
        -1
    } else if first_blocked(all, places.drop_last()) >= 0 {
        first_blocked(all, places.drop_last())
    } else if !all[places.last() as int].eligible {
        places.last() as int
    } else {
        -1
    }
}

/// What a plan is made of. It is refused rather than written with rows that the
/// import would drop.
pub open spec fn plan_of(o: Options, all: Seq<Candidate>) -> Result<Seq<usize>, PlanRefusal> {
    if o.candidates@.len() == 0 {
        Err(PlanRefusal::NoCandidates)
    } else if o.output is None {
        Err(PlanRefusal::NoOutput)
    } else {
        match wanted_places(all, views(o.candidates@)) {
            Err(r) => Err(r),
            Ok(places) => if first_blocked(all, places) >= 0 {
                Err(PlanRefusal::Blocked(first_blocked(all, places) as usize))
            } else {
                Ok(places)
            },
        }
    }
}

fn count_matching(all: &Vec<Candidate>, wanted: &str) -> (r: (usize, usize))
    ensures
        r.0 == count_for(all@, wanted@),
        r.1 == first_for(all@, wanted@),
        r.0 > 0 ==> r.1 < all@.len(),
        r.0 <= all@.len(),
{
    let mut n: usize = 0;
    let mut first: usize = all.len();
    for i in 0..all.len()
        invariant
            n == count_for(all@.take(i as int), wanted@),
            n <= i,
            n == 0 ==> first == all@.len() && forall|k: int|
                0 <= k < i ==> !begins((#[trigger] all@[k]).id@, wanted@),
            n > 0 ==> first < i && begins(all@[first as int].id@, wanted@) && forall|k: int|
                0 <= k < first ==> !begins((#[trigger] all@[k]).id@, wanted@),
    {
        assert(all@.take(i + 1).drop_last() =~= all@.take(i as int));
        if starts_with(all[i].id.as_str(), wanted) {
            if n == 0 {
                first = i;
            }
            n = n + 1;
        }
    }
    assert(all@.take(all@.len() as int) =~= all@);
    proof {
        lemma_first_for(all@, wanted@, first as int);
    }
    (n, first)
}

proof fn lemma_first_for(all: Seq<Candidate>, wanted: Seq<char>, at: int)
    requires
        0 <= at <= all.len(),
        forall|k: int| 0 <= k < at ==> !begins((#[trigger] all[k]).id@, wanted),
        at < all.len() ==> begins(all[at].id@, wanted),
    ensures
        first_for(all, wanted) == at,
    decreases at,
{
    if at > 0 {
        let rest = all.skip(1);
        assert forall|k: int| 0 <= k < at - 1 implies !begins((#[trigger] rest[k]).id@, wanted) by {
            assert(rest[k] == all[k + 1]);
        }
        assert(!begins(all[0].id@, wanted));
        lemma_first_for(rest, wanted, at - 1);
    }
}

/// Choose what a plan is made of.
pub fn plan(o: &Options, all: &Vec<Candidate>) -> (r: Result<Vec<usize>, PlanRefusal>)
    ensures
        match plan_of(*o, all@) {
            Ok(p) => r matches Ok(places) && places@ == p,
            Err(e) => r matches Err(f) && f == e,
        },
        r matches Ok(places) ==> forall|k: int|
            0 <= k < places@.len() ==> (#[trigger] places@[k]) < all@.len(),
{
    if o.candidates.len() == 0 {
        return Err(PlanRefusal::NoCandidates);
    }
    if o.output.is_none() {
        return Err(PlanRefusal::NoOutput);
    }
    let ghost wanted = views(o.candidates@);
    let mut places: Vec<usize> = Vec::new();
    assert(wanted.take(0) =~= seq![]);
    for i in 0..o.candidates.len()
        invariant
            o.candidates@.len() > 0,
            o.output is Some,
            wanted == views(o.candidates@),
            wanted_places(all@, wanted.take(i as int)) == Ok::<Seq<usize>, PlanRefusal>(places@),
            forall|k: int| 0 <= k < places@.len() ==> (#[trigger] places@[k]) < all@.len(),
    {
        let (n, first) = count_matching(all, o.candidates[i].as_str());
        proof {
            assert(wanted.take(i + 1).drop_last() =~= wanted.take(i as int));
            assert(wanted[i as int] == o.candidates@[i as int]@);
            assert(wanted.take(i + 1).last() == wanted[i as int]);
        }
        if n != 1 {
            proof {
                lemma_wanted_stops(all@, wanted, i + 1);
            }
            return Err(
                if n == 0 {
                    PlanRefusal::NoMatch(i)
                } else {
                    PlanRefusal::Several(i, n)
                },
            );
        }
        places.push(first);
    }
    assert(wanted.take(o.candidates@.len() as int) =~= wanted);
    let ghost all_places = places@;
    assert(all_places.take(0) =~= seq![]);
    for i in 0..places.len()
        invariant
            o.candidates@.len() > 0,
            o.output is Some,
            all_places == places@,
            wanted_places(all@, views(o.candidates@)) == Ok::<Seq<usize>, PlanRefusal>(places@),
            forall|k: int| 0 <= k < places@.len() ==> (#[trigger] places@[k]) < all@.len(),
            first_blocked(all@, all_places.take(i as int)) == -1,
    {
        assert(places@[i as int] < all@.len());
        assert(all_places.take(i + 1).drop_last() =~= all_places.take(i as int));
        if !all[places[i]].eligible {
            proof {
                lemma_blocked_stays(all@, all_places, i + 1);
            }
            return Err(PlanRefusal::Blocked(places[i]));
        }
    }
    assert(all_places.take(places@.len() as int) =~= all_places);
    Ok(places)
}

proof fn lemma_wanted_stops(all: Seq<Candidate>, wanted: Seq<Seq<char>>, n: int)
    requires
        0 <= n <= wanted.len(),
        wanted_places(all, wanted.take(n)) is Err,
    ensures
        wanted_places(all, wanted) == wanted_places(all, wanted.take(n)),
    decreases wanted.len(),
{
    if n < wanted.len() {
        assert(wanted.drop_last().take(n) =~= wanted.take(n));
        lemma_wanted_stops(all, wanted.drop_last(), n);
    } else {
        assert(wanted.take(n) =~= wanted);
    }
}

proof fn lemma_blocked_stays(all: Seq<Candidate>, places: Seq<usize>, n: int)
    requires
        0 <= n <= places.len(),
        first_blocked(all, places.take(n)) >= 0,
    ensures
        first_blocked(all, places) == first_blocked(all, places.take(n)),
    decreases places.len(),
{
    if n < places.len() {
        assert(places.drop_last().take(n) =~= places.take(n));
        lemma_blocked_stays(all, places.drop_last(), n);
    } else {
        assert(places.take(n) =~= places);
    }
}

pub open spec fn why_blocked(c: Candidate) -> Seq<char> {
    match c.blocking_reason {
        Some(r) => r@,
        None => "it is not eligible"@,
    }
}

fn blocked_because(c: &Candidate) -> (out: String)
    ensures
        out@ == why_blocked(*c),
{
    match &c.blocking_reason {
        Some(r) => r.clone(),
        None => "it is not eligible".to_owned(),
    }
}

pub open spec fn no_match_text(wanted: Seq<char>) -> Seq<char> {
    "no candidate matches '"@ + wanted
        + "'. Run the same scan again with the same --root arguments to see current ids."@
}

fn no_match(wanted: &str) -> (out: String)
    ensures
        out@ == no_match_text(wanted@),
{
    let mut out = "no candidate matches '".to_owned();
    out.append(wanted);
    out.append("'. Run the same scan again with the same --root arguments to see current ids.");
    out
}

pub open spec fn several_text(wanted: Seq<char>, n: usize) -> Seq<char> {
    "'"@ + wanted + "' matches "@ + decimal_of(n as nat) + " candidates. Use the full id."@
}

fn several(wanted: &str, n: usize) -> (out: String)
    ensures
        out@ == several_text(wanted@, n),
{
    let mut out = "'".to_owned();
    out.append(wanted);
    out.append("' matches ");
    out.append(decimal(n as u64).as_str());
    out.append(" candidates. Use the full id.");
    out
}

pub open spec fn blocked_text(c: Candidate) -> Seq<char> {
    c.name@ + " cannot be imported: "@ + why_blocked(c) + ". Leave it out of the selection."@
}

fn blocked(c: &Candidate) -> (out: String)
    ensures
        out@ == blocked_text(*c),
{
    let mut out = c.name.clone();
    out.append(" cannot be imported: ");
    out.append(blocked_because(c).as_str());
    out.append(". Leave it out of the selection.");
    out
}

pub open spec fn plan_refusal_text(o: Options, all: Seq<Candidate>, r: PlanRefusal) -> Seq<char> {
    match r {
        PlanRefusal::NoCandidates =>
            "plan needs at least one --candidate ID from `librarybridge lutris scan`."@,
        PlanRefusal::NoOutput => "plan needs --output PATH for the file to write"@,
        PlanRefusal::NoMatch(i) => no_match_text(o.candidates@[i as int]@),
        PlanRefusal::Several(i, n) => several_text(o.candidates@[i as int]@, n),
        PlanRefusal::Blocked(i) => blocked_text(all[i as int]),
    }
}

/// Say why a plan is refused.
pub fn plan_refusal(o: &Options, all: &Vec<Candidate>, r: PlanRefusal) -> (out: String)
    requires
        plan_of(*o, all@) == Err::<Seq<usize>, PlanRefusal>(r),
    ensures
        out@ == plan_refusal_text(*o, all@, r),
{
    assert(all@.len() == all.len());
    assert(o.candidates@.len() == o.candidates.len());
    match r {
        PlanRefusal::NoCandidates => "plan needs at least one --candidate ID from `librarybridge \
            lutris scan`.".to_owned(),
        PlanRefusal::NoOutput => "plan needs --output PATH for the file to write".to_owned(),
        PlanRefusal::NoMatch(i) => {
            proof {
                lemma_refusal_places(all@, views(o.candidates@));
                if wanted_places(all@, views(o.candidates@)) is Ok {
                    lemma_blocked_place(all@, wanted_places(all@, views(o.candidates@))->Ok_0);
                }
            }
            no_match(o.candidates[i].as_str())
        },
        PlanRefusal::Several(i, n) => {
            proof {
                lemma_refusal_places(all@, views(o.candidates@));
            }
            several(o.candidates[i].as_str(), n)
        },
        PlanRefusal::Blocked(i) => {
            proof {
                lemma_refusal_places(all@, views(o.candidates@));
                lemma_blocked_place(all@, wanted_places(all@, views(o.candidates@))->Ok_0);
            }
            blocked(&all[i])
        },
    }
}

proof fn lemma_count_first(all: Seq<Candidate>, wanted: Seq<char>)
    ensures
        count_for(all, wanted) <= all.len(),
        0 <= first_for(all, wanted) <= all.len(),
        count_for(all, wanted) > 0 ==> first_for(all, wanted) < all.len(),
    decreases all.len(),
{
    lemma_first_bound(all, wanted);
    if all.len() > 0 {
        lemma_count_first(all.drop_last(), wanted);
        if count_for(all, wanted) > 0 && first_for(all, wanted) >= all.len() {
            lemma_first_none(all, wanted);
            lemma_count_none(all, wanted);
        }
    }
}

proof fn lemma_first_bound(all: Seq<Candidate>, wanted: Seq<char>)
    ensures
        0 <= first_for(all, wanted) <= all.len(),
    decreases all.len(),
{
    if all.len() > 0 && !begins(all[0].id@, wanted) {
        lemma_first_bound(all.skip(1), wanted);
    }
}

proof fn lemma_first_none(all: Seq<Candidate>, wanted: Seq<char>)
    requires
        first_for(all, wanted) >= all.len(),
    ensures
        forall|k: int| 0 <= k < all.len() ==> !begins((#[trigger] all[k]).id@, wanted),
    decreases all.len(),
{
    if all.len() > 0 {
        lemma_first_none(all.skip(1), wanted);
        assert forall|k: int| 0 <= k < all.len() implies !begins((#[trigger] all[k]).id@, wanted) by {
            if k > 0 {
                assert(all.skip(1)[k - 1] == all[k]);
            }
        }
    }
}

proof fn lemma_count_none(all: Seq<Candidate>, wanted: Seq<char>)
    requires
        forall|k: int| 0 <= k < all.len() ==> !begins((#[trigger] all[k]).id@, wanted),
    ensures
        count_for(all, wanted) == 0,
    decreases all.len(),
{
    if all.len() > 0 {
        assert forall|k: int| 0 <= k < all.len() - 1 implies !begins(
            (#[trigger] all.drop_last()[k]).id@,
            wanted,
        ) by {
            assert(all.drop_last()[k] == all[k]);
        }
        lemma_count_none(all.drop_last(), wanted);
        assert(!begins(all[all.len() - 1].id@, wanted));
    }
}

/// What a refusal speaks of is there.
proof fn lemma_refusal_places(all: Seq<Candidate>, wanted: Seq<Seq<char>>)
    requires
        wanted.len() <= usize::MAX,
        all.len() <= usize::MAX,
    ensures
        match wanted_places(all, wanted) {
            Ok(places) => forall|k: int|
                0 <= k < places.len() ==> (#[trigger] places[k]) < all.len(),
            Err(PlanRefusal::NoMatch(i)) => i < wanted.len(),
            Err(PlanRefusal::Several(i, n)) => i < wanted.len(),
            Err(_) => false,
        },
    decreases wanted.len(),
{
    if wanted.len() > 0 {
        lemma_refusal_places(all, wanted.drop_last());
        lemma_count_first(all, wanted.last());
    }
}

proof fn lemma_blocked_place(all: Seq<Candidate>, places: Seq<usize>)
    requires
        forall|k: int| 0 <= k < places.len() ==> (#[trigger] places[k]) < all.len(),
    ensures
        -1 <= first_blocked(all, places) < all.len(),
        first_blocked(all, places) >= 0 ==> !all[first_blocked(all, places)].eligible,
    decreases places.len(),
{
    if places.len() > 0 {
        assert forall|k: int| 0 <= k < places.len() - 1 implies (#[trigger] places.drop_last()[k])
            < all.len() by {
            assert(places.drop_last()[k] == places[k]);
        }
        lemma_blocked_place(all, places.drop_last());
        assert(places[places.len() - 1] < all.len());
    }
}

/// Every candidate of a plan can be imported.
pub proof fn lemma_plan_holds_only_eligible(o: Options, all: Seq<Candidate>)
    requires
        all.len() <= usize::MAX,
        o.candidates@.len() <= usize::MAX,
        plan_of(o, all) is Ok,
    ensures
        forall|k: int|
            0 <= k < plan_of(o, all)->Ok_0.len() ==> (#[trigger] plan_of(o, all)->Ok_0[k])
                < all.len() && all[plan_of(o, all)->Ok_0[k] as int].eligible,
{
    let places = plan_of(o, all)->Ok_0;
    lemma_refusal_places(all, views(o.candidates@));
    lemma_none_blocked(all, places);
}

proof fn lemma_none_blocked(all: Seq<Candidate>, places: Seq<usize>)
    requires
        first_blocked(all, places) < 0,
    ensures
        forall|k: int| 0 <= k < places.len() ==> all[(#[trigger] places[k]) as int].eligible,
    decreases places.len(),
{
    if places.len() > 0 {
        lemma_none_blocked(all, places.drop_last());
        assert forall|k: int| 0 <= k < places.len() implies all[(#[trigger] places[k]) as int].eligible by {
            if k < places.len() - 1 {
                assert(places.drop_last()[k] == places[k]);
            }
        }
    }
}

/// The games of a plan as a list.
pub open spec fn games_text(chosen: Seq<Candidate>) -> Seq<char> {
    "[\n"@ + joined(candidate_rows(chosen), ",\n"@) + "\n  ]"@
}

pub open spec fn plan_members(created: u64, chosen: Seq<Candidate>) -> Seq<Seq<char>> {
    seq![
        member_text(""@, "schema"@, "1"@),
        member_text(""@, "created"@, decimal_of(created as nat)),
        member_text(""@, "games"@, games_text(chosen)),
    ]
}

pub open spec fn plan_document_of(created: u64, chosen: Seq<Candidate>) -> Seq<char> {
    object_text(""@, plan_members(created, chosen)) + "\n"@
}

/// The plan as it is written.
pub fn plan_document(created: u64, all: &Vec<Candidate>, places: &Vec<usize>) -> (out: String)
    requires
        forall|k: int| 0 <= k < places@.len() ==> (#[trigger] places@[k]) < all@.len(),
    ensures
        out@ == plan_document_of(created, picked(all@, places@)),
{
    let games = cat3("[\n", join(&pick_rows(all, places), ",\n").as_str(), "\n  ]");
    let members: Vec<String> = vec![
        member("", "schema", "1"),
        member("", "created", decimal(created).as_str()),
        member("", "games", games.as_str()),
    ];
    assert(views(members@) =~= plan_members(created, picked(all@, places@)));
    cat2(json_object("", &members).as_str(), "\n")
}

/// What is written to the plan file. A dry run is read-only in every command,
/// and writing the plan file is still a write.
pub fn plan_to_write(
    o: &Options,
    created: u64,
    all: &Vec<Candidate>,
    places: &Vec<usize>,
) -> (out: Option<String>)
    requires
        forall|k: int| 0 <= k < places@.len() ==> (#[trigger] places@[k]) < all@.len(),
    ensures
        match out {
            Some(text) => !o.dry_run && text@ == plan_document_of(created, picked(all@, places@)),
            None => o.dry_run,
        },
{
    if o.dry_run {
        None
    } else {
        Some(plan_document(created, all, places))
    }
}

pub open spec fn planned_line_text(c: Candidate) -> Seq<char> {
    "  "@ + c.name@ + " ("@ + c.runner@ + " runner, "@ + c.confidence@ + " confidence)\n"@
}

fn planned_line(c: &Candidate) -> (out: String)
    ensures
        out@ == planned_line_text(*c),
{
    let mut out = "  ".to_owned();
    out.append(c.name.as_str());
    out.append(" (");
    out.append(c.runner.as_str());
    out.append(" runner, ");
    out.append(c.confidence.as_str());
    out.append(" confidence)\n");
    out
}

pub open spec fn exe_or_nothing(c: Candidate) -> Seq<char> {
    match c.exe {
        Some(e) => e@,
        None => seq![],
    }
}

fn shown_exe(c: &Candidate) -> (out: String)
    ensures
        out@ == exe_or_nothing(*c),
{
    match &c.exe {
        Some(e) => e.clone(),
        None => String::new(),
    }
}

pub open spec fn check_line_text(c: Candidate) -> Seq<char> {
    if c.unsure {
        "    check the executable before importing: "@ + exe_or_nothing(c) + "\n"@
    } else {
        seq![]
    }
}

fn check_line(c: &Candidate) -> (out: String)
    ensures
        out@ == check_line_text(*c),
{
    if c.unsure {
        let mut out = "    check the executable before importing: ".to_owned();
        out.append(shown_exe(c).as_str());
        out.append("\n");
        out
    } else {
        String::new()
    }
}

/// The lines of a plan. What is unsure is pointed out once it is written.
pub open spec fn planned_lines(chosen: Seq<Candidate>, written: bool) -> Seq<char>
    decreases chosen.len(),
{
    if chosen.len() == 0 {
        seq![]
    } else if written {
        planned_lines(chosen.drop_last(), written) + planned_line_text(chosen.last())
            + check_line_text(chosen.last())
    } else {
        planned_lines(chosen.drop_last(), written) + planned_line_text(chosen.last())
    }
}

fn list_planned(all: &Vec<Candidate>, places: &Vec<usize>, written: bool) -> (out: String)
    requires
        forall|k: int| 0 <= k < places@.len() ==> (#[trigger] places@[k]) < all@.len(),
    ensures
        out@ == planned_lines(picked(all@, places@), written),
{
    let ghost chosen = picked(all@, places@);
    let mut out = String::new();
    for i in 0..places.len()
        invariant
            chosen == picked(all@, places@),
            forall|k: int| 0 <= k < places@.len() ==> (#[trigger] places@[k]) < all@.len(),
            out@ == planned_lines(chosen.take(i as int), written),
    {
        assert(places@[i as int] < all@.len());
        let c = &all[places[i]];
        assert(chosen.take(i + 1).drop_last() =~= chosen.take(i as int));
        assert(chosen.take(i + 1).last() == *c);
        out.append(planned_line(c).as_str());
        if written {
            out.append(check_line(c).as_str());
        }
    }
    assert(chosen.take(places@.len() as int) =~= chosen);
    out
}

pub open spec fn planned_text(output: Seq<char>, chosen: Seq<Candidate>, dry_run: bool) -> Seq<char> {
    if dry_run {
        "Dry run. Would write "@ + output + " with:\n"@ + planned_lines(chosen, false)
            + "\nNothing was written.\n"@
    } else {
        "Wrote "@ + output + " with "@ + decimal_of(chosen.len()) + " games:\n"@ + planned_lines(
            chosen,
            true,
        )
            + "\nReview it, edit any executable that looks wrong, then:\n    librarybridge lutris \
                import --plan "@
            + output + "\n"@
    }
}

/// What is said of a plan. A dry run is read-only in every command, and writing
/// the plan file is still a write, so on a dry run it has not been written.
pub fn planned(o: &Options, output: &str, all: &Vec<Candidate>, places: &Vec<usize>) -> (out: String)
    requires
        forall|k: int| 0 <= k < places@.len() ==> (#[trigger] places@[k]) < all@.len(),
    ensures
        out@ == planned_text(output@, picked(all@, places@), o.dry_run),
{
    if o.dry_run {
        let mut out = "Dry run. Would write ".to_owned();
        out.append(output);
        out.append(" with:\n");
        out.append(list_planned(all, places, false).as_str());
        out.append("\nNothing was written.\n");
        out
    } else {
        let mut out = "Wrote ".to_owned();
        out.append(output);
        out.append(" with ");
        out.append(decimal(places.len() as u64).as_str());
        out.append(" games:\n");
        out.append(list_planned(all, places, true).as_str());
        out.append(
            "\nReview it, edit any executable that looks wrong, then:\n    librarybridge lutris \
                import --plan ",
        );
        out.append(output);
        out.append("\n");
        assert(picked(all@, places@).len() == places@.len());
        out
    }
}

// --------------------------------------------------- what holds of a command

/// A command is asked for by its name, and by nothing else.
pub proof fn lemma_commands_are_named(word: Seq<char>)
    ensures
        command_of(word) == Some(Command::Detect) <==> word == "detect"@,
        command_of(word) == Some(Command::Scan) <==> word == "scan"@,
        command_of(word) == Some(Command::Plan) <==> word == "plan"@,
        command_of(word) == Some(Command::Import) <==> word == "import"@,
        command_of(word) == Some(Command::Covers) <==> word == "covers"@,
        command_of(word) == Some(Command::Forget) <==> word == "forget"@,
{
    reveal_strlit("detect");
    reveal_strlit("scan");
    reveal_strlit("plan");
    reveal_strlit("import");
    reveal_strlit("covers");
    reveal_strlit("forget");
    assert("detect"@[0] == 'd' && "scan"@[0] == 's' && "plan"@[0] == 'p' && "import"@[0] == 'i'
        && "covers"@[0] == 'c' && "forget"@[0] == 'f');
}

/// The runners are told in order, each once, and none is left out or made up.
pub proof fn lemma_runners_are_told_once(texts: Seq<Seq<char>>, t: Seq<char>)
    ensures
        distinct(texts).contains(t) <==> texts.contains(t),
        forall|i: int, j: int|
            0 <= i < j < distinct(texts).len() ==> crate::ordered::precedes(
                #[trigger] distinct(texts)[i],
                #[trigger] distinct(texts)[j],
            ),
{
    broadcast use vstd::seq_lib::group_to_multiset_ensures;

    let same = |x: Seq<char>| x;
    let sorted = in_order_by(texts, same);
    lemma_in_order(texts, same);
    lemma_without_repeats(sorted, same);
    let kept = distinct(texts);
    if texts.contains(t) {
        assert(texts.to_multiset().count(t) > 0);
        assert(sorted.to_multiset().count(t) > 0);
        assert(sorted.contains(t));
        let j = choose|j: int| 0 <= j < sorted.len() && sorted[j] == t;
        let i = choose|i: int|
            0 <= i < without_repeats_by(sorted, same).len() && same(
                #[trigger] without_repeats_by(sorted, same)[i],
            ) == same(sorted[j]);
        assert(kept[i] == t);
    }
    if kept.contains(t) {
        let i = choose|i: int| 0 <= i < kept.len() && kept[i] == t;
        let m = lemma_first_of_a_key_is_kept(texts, same, i);
        assert(texts[m] == t);
    }
}

/// The candidates that are shown are those that Lutris does not have, or all of
/// them where that is asked for, in the order they have. Those from Steam are
/// counted.
pub proof fn lemma_which_candidates_are_shown(
    o: Options,
    a: Seq<Candidate>,
    b: Seq<Candidate>,
    c: Candidate,
)
    ensures
        shown_of(o, a + b) == shown_of(o, a) + shown_of(o, b),
        o.all || !c.in_lutris ==> shown_of(o, seq![c]) == seq![c],
        !o.all && c.in_lutris ==> shown_of(o, seq![c]).len() == 0,
        steam_in(a + b) == steam_in(a) + steam_in(b),
        steam_in(seq![c]) == if c.source@ == "steam"@ { 1nat } else { 0nat },
    decreases b.len(),
{
    assert(seq![c].drop_last() =~= Seq::<Candidate>::empty());
    assert(shown_of(o, seq![c].drop_last()).len() == 0);
    assert(steam_in(seq![c].drop_last()) == 0);
    if o.all || !c.in_lutris {
        assert(shown_of(o, seq![c]) =~= seq![c]);
    }
    if b.len() == 0 {
        assert(a + b =~= a);
        assert(shown_of(o, a) + shown_of(o, b) =~= shown_of(o, a));
    } else {
        lemma_which_candidates_are_shown(o, a, b.drop_last(), c);
        assert((a + b).drop_last() =~= a + b.drop_last());
        assert((a + b).last() == b.last());
        assert(shown_of(o, a + b) =~= shown_of(o, a) + shown_of(o, b));
    }
}

/// A candidate is shown with its id, which a plan takes, and its name.
proof fn lemma_shown_candidate(c: Candidate)
    ensures
        mentions(shown_candidate_text(c), "["@ + c.id@ + "] "@ + c.name@),
        c.exe is Some ==> mentions(shown_candidate_text(c), c.exe->Some_0@),
        c.appid is Some ==> mentions(shown_candidate_text(c), c.appid->Some_0@),
        c.prefix is Some ==> mentions(shown_candidate_text(c), c.prefix->Some_0@),
{
    let part = "["@ + c.id@ + "] "@ + c.name@;
    reveal_strlit("\n  [");
    reveal_strlit("[");
    let t0 = "\n  ["@ + c.id@ + "] "@ + c.name@;
    assert(t0 =~= seq!['\n', ' ', ' '] + part);
    lemma_mentions_piece(seq!['\n', ' ', ' '], part, seq![]);
    let t1 = t0 + "\n      runner      "@;
    let t2 = t1 + c.runner@;
    let t3 = t2 + " ("@;
    let t4 = t3 + c.source@;
    let t5 = t4 + " source)\n"@;
    let a = appid_line_text(c);
    let b = exe_line_text(c);
    let p = prefix_line_text(c);
    let t6 = t5 + a;
    let t7 = t6 + b;
    let t8 = t7 + p;
    lemma_mentions_in(seq![], t0, "\n      runner      "@, part);
    lemma_mentions_in(seq![], t1, c.runner@, part);
    lemma_mentions_in(seq![], t2, " ("@, part);
    lemma_mentions_in(seq![], t3, c.source@, part);
    lemma_mentions_in(seq![], t4, " source)\n"@, part);
    lemma_mentions_in(seq![], t5, a, part);
    lemma_mentions_in(seq![], t6, b, part);
    lemma_mentions_in(seq![], t7, p, part);
    lemma_shown_tail(c, t8, part);
    if c.appid is Some {
        let x = c.appid->Some_0@;
        lemma_mentions_piece("      steam app   "@, x, "\n"@);
        lemma_mentions_in(t5, a, seq![], x);
        lemma_mentions_in(seq![], t6, b, x);
        lemma_mentions_in(seq![], t7, p, x);
        lemma_shown_tail(c, t8, x);
    }
    if c.exe is Some {
        let x = c.exe->Some_0@;
        lemma_mentions_piece("      executable  "@, x, "\n"@);
        lemma_mentions_in(t6, b, seq![], x);
        lemma_mentions_in(seq![], t7, p, x);
        lemma_shown_tail(c, t8, x);
    }
    if c.prefix is Some {
        let x = c.prefix->Some_0@;
        lemma_mentions_piece("      prefix      "@, x, "\n"@);
        lemma_mentions_in(t7, p, seq![], x);
        lemma_shown_tail(c, t8, x);
    }
}

proof fn lemma_shown_tail(c: Candidate, head: Seq<char>, part: Seq<char>)
    requires
        mentions(head, part),
    ensures
        mentions(
            head + "      confidence  "@ + c.confidence@ + "\n"@ + each(
                views(c.reasons@),
                "      because     "@,
                "\n"@,
            ) + maybe_text(views(c.alternatives@)) + warning_line_text(c) + each(
                views(c.launch_warnings@),
                "      launch      "@,
                "\n                  this shows up the first time you run it\n"@,
            ) + had_line_text(c),
            part,
        ),
{
    let t0 = head + "      confidence  "@;
    let t1 = t0 + c.confidence@;
    let t2 = t1 + "\n"@;
    let r = each(views(c.reasons@), "      because     "@, "\n"@);
    let m = maybe_text(views(c.alternatives@));
    let w = warning_line_text(c);
    let l = each(
        views(c.launch_warnings@),
        "      launch      "@,
        "\n                  this shows up the first time you run it\n"@,
    );
    let t3 = t2 + r;
    let t4 = t3 + m;
    let t5 = t4 + w;
    let t6 = t5 + l;
    lemma_mentions_in(seq![], head, "      confidence  "@, part);
    lemma_mentions_in(seq![], t0, c.confidence@, part);
    lemma_mentions_in(seq![], t1, "\n"@, part);
    lemma_mentions_in(seq![], t2, r, part);
    lemma_mentions_in(seq![], t3, m, part);
    lemma_mentions_in(seq![], t4, w, part);
    lemma_mentions_in(seq![], t5, l, part);
    lemma_mentions_in(seq![], t6, had_line_text(c), part);
}

proof fn lemma_shown_candidates(all: Seq<Candidate>, i: int)
    requires
        0 <= i < all.len(),
    ensures
        mentions(shown_candidates(all), shown_candidate_text(all[i])),
    decreases all.len(),
{
    let head = shown_candidates(all.drop_last());
    let block = shown_candidate_text(all.last());
    if i == all.len() - 1 {
        lemma_mentions_piece(head, block, seq![]);
    } else {
        lemma_shown_candidates(all.drop_last(), i);
        lemma_mentions_in(seq![], head, block, shown_candidate_text(all[i]));
    }
}

/// A scan shows every candidate that is to be shown, with the id that a plan
/// takes, its name and what it would run. A document has the whole candidate.
pub proof fn lemma_scan_shows_every_candidate(o: Options, all: Seq<Candidate>, i: int)
    requires
        0 <= i < shown_of(o, all).len(),
    ensures
        !o.json ==> mentions(
            lutris_scan_text(o, all),
            "["@ + shown_of(o, all)[i].id@ + "] "@ + shown_of(o, all)[i].name@,
        ),
        !o.json && shown_of(o, all)[i].exe is Some ==> mentions(
            lutris_scan_text(o, all),
            shown_of(o, all)[i].exe->Some_0@,
        ),
        o.json ==> mentions(
            lutris_scan_text(o, all),
            candidate_json_text(shown_of(o, all)[i], "    "@),
        ),
{
    let shown = shown_of(o, all);
    let c = shown[i];
    if o.json {
        let rows = candidate_rows(shown);
        assert(rows[i] == candidate_json_text(c, "    "@));
        lemma_joined_mentions(rows, ",\n"@, i);
        lemma_mentions_in(
            "{\n  \"schema\": 1,\n  \"candidates\": [\n"@,
            joined(rows, ",\n"@),
            "\n  ]\n}\n"@,
            rows[i],
        );
    } else {
        lemma_shown_candidate(c);
        lemma_shown_candidates(shown, i);
        lemma_scan_has_blocks(o, all, shown_candidate_text(c));
        lemma_mentions_through(
            lutris_scan_text(o, all),
            shown_candidate_text(c),
            "["@ + c.id@ + "] "@ + c.name@,
        );
        if c.exe is Some {
            lemma_mentions_through(
                lutris_scan_text(o, all),
                shown_candidate_text(c),
                c.exe->Some_0@,
            );
        }
    }
}

proof fn lemma_scan_has_blocks(o: Options, all: Seq<Candidate>, part: Seq<char>)
    requires
        !o.json,
        shown_of(o, all).len() > 0,
        mentions(shown_candidates(shown_of(o, all)), part),
    ensures
        mentions(lutris_scan_text(o, all), part),
{
    let shown = shown_of(o, all);
    let a = "Found "@ + decimal_of(shown.len()) + " games not in Lutris\n"@;
    let blocks = shown_candidates(shown);
    let b = a + blocks;
    let c = b + "\n"@;
    let note = steam_note_text(steam_in(shown) as usize);
    let d = c + note;
    let e = d + "To add some of them:\n    librarybridge lutris plan --candidate "@;
    let f = e + shown[0].id@;
    lemma_mentions_in(a, blocks, seq![], part);
    lemma_mentions_in(seq![], b, "\n"@, part);
    lemma_mentions_in(seq![], c, note, part);
    lemma_mentions_in(
        seq![],
        d,
        "To add some of them:\n    librarybridge lutris plan --candidate "@,
        part,
    );
    lemma_mentions_in(seq![], e, shown[0].id@, part);
    lemma_mentions_in(
        seq![],
        f,
        " --output plan.json\n    librarybridge lutris import --plan plan.json\n"@,
        part,
    );
    lemma_mentions_in(no_folders_text(o), found_text(shown), seq![], part);
}

// ------------------------------------------------------- what holds of a plan

/// Whether what is wanted is the start of a candidate's id.
pub open spec fn is_meant(wanted: Seq<char>, c: Candidate) -> bool {
    is_start(wanted, c.id@)
}

/// The candidates that what is wanted could mean: none, just the first of them,
/// or two and more.
proof fn lemma_count(all: Seq<Candidate>, wanted: Seq<char>)
    ensures
        count_for(all, wanted) == 0 ==> forall|k: int|
            0 <= k < all.len() ==> !is_meant(wanted, #[trigger] all[k]),
        count_for(all, wanted) == 1 ==> 0 <= first_for(all, wanted) < all.len() && is_meant(
            wanted,
            all[first_for(all, wanted)],
        ) && forall|k: int|
            0 <= k < all.len() && k != first_for(all, wanted) ==> !is_meant(
                wanted,
                #[trigger] all[k],
            ),
        count_for(all, wanted) >= 2 ==> exists|j: int, k: int|
            0 <= j < k < all.len() && is_meant(wanted, #[trigger] all[j]) && is_meant(
                wanted,
                #[trigger] all[k],
            ),
    decreases all.len(),
{
    if all.len() > 0 {
        let head = all.drop_last();
        let n = all.len() - 1;
        lemma_count(head, wanted);
        lemma_begins_is_start(all.last().id@, wanted);
        assert forall|k: int| 0 <= k < n implies #[trigger] all[k] == head[k] by {}
        let old_count = count_for(head, wanted);
        if begins(all.last().id@, wanted) {
            if old_count == 0 {
                assert forall|k: int| 0 <= k < n implies !begins((#[trigger] all[k]).id@, wanted) by {
                    assert(!is_meant(wanted, head[k]));
                    lemma_begins_is_start(all[k].id@, wanted);
                }
                lemma_first_for(all, wanted, n);
                assert forall|k: int| 0 <= k < all.len() && k != n implies !is_meant(
                    wanted,
                    #[trigger] all[k],
                ) by {
                    assert(!is_meant(wanted, head[k]));
                }
            } else if old_count == 1 {
                let j = first_for(head, wanted);
                assert(is_meant(wanted, all[j]) && is_meant(wanted, all[n]));
            } else {
                let (j, k) = choose|j: int, k: int|
                    0 <= j < k < head.len() && is_meant(wanted, #[trigger] head[j]) && is_meant(
                        wanted,
                        #[trigger] head[k],
                    );
                assert(is_meant(wanted, all[j]) && is_meant(wanted, all[k]));
            }
        } else {
            if old_count == 0 {
                assert forall|k: int| 0 <= k < all.len() implies !is_meant(wanted, #[trigger] all[k]) by {
                    if k < n {
                        assert(!is_meant(wanted, head[k]));
                    }
                }
            } else if old_count == 1 {
                let j = first_for(head, wanted);
                assert forall|k: int| 0 <= k < j implies !begins((#[trigger] all[k]).id@, wanted) by {
                    assert(!is_meant(wanted, head[k]));
                    lemma_begins_is_start(all[k].id@, wanted);
                }
                lemma_begins_is_start(all[j].id@, wanted);
                lemma_first_for(all, wanted, j);
                assert forall|k: int| 0 <= k < all.len() && k != j implies !is_meant(
                    wanted,
                    #[trigger] all[k],
                ) by {
                    if k < n {
                        assert(!is_meant(wanted, head[k]));
                    }
                }
            } else {
                let (j, k) = choose|j: int, k: int|
                    0 <= j < k < head.len() && is_meant(wanted, #[trigger] head[j]) && is_meant(
                        wanted,
                        #[trigger] head[k],
                    );
                assert(is_meant(wanted, all[j]) && is_meant(wanted, all[k]));
            }
        }
    }
}

/// Whether a text means one candidate and no other.
pub open spec fn means(wanted: Seq<char>, all: Seq<Candidate>, at: int) -> bool {
    &&& 0 <= at < all.len()
    &&& is_meant(wanted, all[at])
    &&& forall|k: int| 0 <= k < all.len() && k != at ==> !is_meant(wanted, #[trigger] all[k])
}

/// Each text that was given means one candidate, and the plan has that one, in
/// the order they were given. A refusal says which text means none or more than
/// one.
pub proof fn lemma_plan_is_what_was_asked_for(all: Seq<Candidate>, wanted: Seq<Seq<char>>)
    requires
        all.len() <= usize::MAX,
        wanted.len() <= usize::MAX,
    ensures
        match wanted_places(all, wanted) {
            Ok(places) => places.len() == wanted.len() && forall|i: int|
                0 <= i < wanted.len() ==> means(
                    #[trigger] wanted[i],
                    all,
                    places[i] as int,
                ),
            Err(PlanRefusal::NoMatch(i)) => i < wanted.len() && forall|k: int|
                0 <= k < all.len() ==> !is_meant(wanted[i as int], #[trigger] all[k]),
            Err(PlanRefusal::Several(i, n)) => i < wanted.len() && n >= 2 && exists|
                j: int,
                k: int,
            |
                0 <= j < k < all.len() && is_meant(wanted[i as int], #[trigger] all[j]) && is_meant(
                    wanted[i as int],
                    #[trigger] all[k],
                ),
            Err(_) => false,
        },
    decreases wanted.len(),
{
    if wanted.len() > 0 {
        let head = wanted.drop_last();
        let last = wanted.last();
        lemma_plan_is_what_was_asked_for(all, head);
        lemma_count(all, last);
        lemma_count_first(all, last);
        match wanted_places(all, head) {
            Ok(places) => {
                if count_for(all, last) == 1 {
                    let now = wanted_places(all, wanted)->Ok_0;
                    assert forall|i: int| 0 <= i < wanted.len() implies means(
                        #[trigger] wanted[i],
                        all,
                        now[i] as int,
                    ) by {
                        if i < head.len() {
                            assert(head[i] == wanted[i]);
                            assert(means(head[i], all, places[i] as int));
                            assert(now[i] == places[i]);
                        }
                    }
                } else if count_for(all, last) >= 2 {
                    let (j, k) = choose|j: int, k: int|
                        0 <= j < k < all.len() && is_meant(last, #[trigger] all[j]) && is_meant(
                            last,
                            #[trigger] all[k],
                        );
                    assert(is_meant(wanted[wanted.len() - 1], all[j]));
                    assert(is_meant(wanted[wanted.len() - 1], all[k]));
                }
            },
            Err(r) => {
                match r {
                    PlanRefusal::NoMatch(i) => {
                        assert(head[i as int] == wanted[i as int]);
                    },
                    PlanRefusal::Several(i, n) => {
                        assert(head[i as int] == wanted[i as int]);
                    },
                    _ => {},
                }
            },
        }
    }
}

/// Whether nothing is in the way of a plan: something is asked for, a file is
/// named, and every text means one candidate that can be imported.
pub open spec fn can_be_planned(o: Options, all: Seq<Candidate>) -> bool {
    &&& o.candidates@.len() > 0
    &&& o.output is Some
    &&& forall|i: int|
        0 <= i < o.candidates@.len() ==> exists|at: int|
            #[trigger] means((#[trigger] o.candidates@[i])@, all, at) && all[at].eligible
}

/// A plan is refused exactly where something is in its way.
pub proof fn lemma_plan_refusals_have_a_reason(o: Options, all: Seq<Candidate>)
    requires
        all.len() <= usize::MAX,
        o.candidates@.len() <= usize::MAX,
    ensures
        can_be_planned(o, all) ==> plan_of(o, all) is Ok,
        plan_of(o, all) == Err::<Seq<usize>, PlanRefusal>(PlanRefusal::NoCandidates)
            <==> o.candidates@.len() == 0,
        plan_of(o, all) == Err::<Seq<usize>, PlanRefusal>(PlanRefusal::NoOutput)
            <==> o.candidates@.len() > 0 && o.output is None,
        plan_of(o, all) matches Err(PlanRefusal::Blocked(i)) ==> i < all.len()
            && !all[i as int].eligible,
        plan_of(o, all) matches Ok(places) ==> places.len() == o.candidates@.len() && forall|i: int|
            0 <= i < places.len() ==> means(
                (#[trigger] o.candidates@[i])@,
                all,
                places[i] as int,
            ) && all[places[i] as int].eligible,
{
    let wanted = views(o.candidates@);
    lemma_plan_is_what_was_asked_for(all, wanted);
    lemma_refusal_places(all, wanted);
    if wanted_places(all, wanted) is Ok {
        let places = wanted_places(all, wanted)->Ok_0;
        lemma_blocked_place(all, places);
        if first_blocked(all, places) < 0 {
            lemma_none_blocked(all, places);
        }
        assert forall|i: int| 0 <= i < places.len() implies means(
            (#[trigger] o.candidates@[i])@,
            all,
            places[i] as int,
        ) by {
            assert(wanted[i] == o.candidates@[i]@);
        }
    }
    if can_be_planned(o, all) {
        lemma_planned_is_not_refused(o, all);
    }
}

proof fn lemma_planned_is_not_refused(o: Options, all: Seq<Candidate>)
    requires
        all.len() <= usize::MAX,
        o.candidates@.len() <= usize::MAX,
        can_be_planned(o, all),
    ensures
        plan_of(o, all) is Ok,
{
    let wanted = views(o.candidates@);
    lemma_plan_is_what_was_asked_for(all, wanted);
    lemma_refusal_places(all, wanted);
    match wanted_places(all, wanted) {
        Ok(places) => {
            lemma_blocked_at(all, places);
            if first_blocked(all, places) >= 0 {
                let k = choose|k: int|
                    0 <= k < places.len() && #[trigger] places[k] as int == first_blocked(
                        all,
                        places,
                    );
                lemma_blocked_place(all, places);
                assert(wanted[k] == o.candidates@[k]@);
                assert(means(wanted[k], all, places[k] as int));
                let at = choose|at: int|
                    #[trigger] means(o.candidates@[k]@, all, at) && all[at].eligible;
                if at != places[k] as int {
                    assert(!is_meant(wanted[k], all[at]));
                }
            }
        },
        Err(PlanRefusal::NoMatch(i)) => {
            assert(wanted[i as int] == o.candidates@[i as int]@);
            let at = choose|at: int|
                #[trigger] means(o.candidates@[i as int]@, all, at) && all[at].eligible;
            assert(is_meant(wanted[i as int], all[at]));
        },
        Err(PlanRefusal::Several(i, n)) => {
            assert(wanted[i as int] == o.candidates@[i as int]@);
            let at = choose|at: int|
                #[trigger] means(o.candidates@[i as int]@, all, at) && all[at].eligible;
            let (j, k) = choose|j: int, k: int|
                0 <= j < k < all.len() && is_meant(wanted[i as int], #[trigger] all[j]) && is_meant(
                    wanted[i as int],
                    #[trigger] all[k],
                );
            if j != at {
                assert(!is_meant(wanted[i as int], all[j]));
            } else {
                assert(!is_meant(wanted[i as int], all[k]));
            }
        },
        _ => {},
    }
}

proof fn lemma_blocked_at(all: Seq<Candidate>, places: Seq<usize>)
    ensures
        first_blocked(all, places) >= 0 ==> exists|k: int|
            0 <= k < places.len() && #[trigger] places[k] as int == first_blocked(all, places),
    decreases places.len(),
{
    if places.len() > 0 {
        let head = places.drop_last();
        lemma_blocked_at(all, head);
        if first_blocked(all, head) >= 0 {
            let k = choose|k: int|
                0 <= k < head.len() && #[trigger] head[k] as int == first_blocked(all, head);
            assert(places[k] as int == first_blocked(all, places));
        } else if first_blocked(all, places) >= 0 {
            assert(places[places.len() - 1] as int == first_blocked(all, places));
        }
    }
}

/// A refusal names what was given or the game that is held back, and why.
pub proof fn lemma_plan_refusal_names_it(o: Options, all: Seq<Candidate>, r: PlanRefusal)
    ensures
        r matches PlanRefusal::NoMatch(i) ==> mentions(
            plan_refusal_text(o, all, r),
            o.candidates@[i as int]@,
        ),
        r matches PlanRefusal::Several(i, n) ==> mentions(
            plan_refusal_text(o, all, r),
            o.candidates@[i as int]@,
        ) && mentions(plan_refusal_text(o, all, r), decimal_of(n as nat)),
        r matches PlanRefusal::Blocked(i) ==> mentions(
            plan_refusal_text(o, all, r),
            all[i as int].name@,
        ) && (all[i as int].blocking_reason is Some ==> mentions(
            plan_refusal_text(o, all, r),
            all[i as int].blocking_reason->Some_0@,
        )),
{
    match r {
        PlanRefusal::NoMatch(i) => {
            lemma_mentions_piece(
                "no candidate matches '"@,
                o.candidates@[i as int]@,
                "'. Run the same scan again with the same --root arguments to see current ids."@,
            );
        },
        PlanRefusal::Several(i, n) => {
            let w = o.candidates@[i as int]@;
            let d = decimal_of(n as nat);
            let a = "'"@ + w;
            let b = a + "' matches "@;
            let c = b + d;
            lemma_mentions_piece("'"@, w, seq![]);
            lemma_mentions_in(seq![], a, "' matches "@, w);
            lemma_mentions_in(seq![], b, d, w);
            lemma_mentions_in(seq![], c, " candidates. Use the full id."@, w);
            lemma_mentions_piece(b, d, seq![]);
            lemma_mentions_in(seq![], c, " candidates. Use the full id."@, d);
        },
        PlanRefusal::Blocked(i) => {
            let name = all[i as int].name@;
            let why = why_blocked(all[i as int]);
            let a = name + " cannot be imported: "@;
            let b = a + why;
            lemma_mentions_piece(seq![], name, " cannot be imported: "@);
            lemma_mentions_in(seq![], a, why, name);
            lemma_mentions_in(seq![], b, ". Leave it out of the selection."@, name);
            lemma_mentions_piece(a, why, seq![]);
            lemma_mentions_in(seq![], b, ". Leave it out of the selection."@, why);
        },
        _ => {},
    }
}

proof fn lemma_planned_lines(chosen: Seq<Candidate>, written: bool, i: int)
    requires
        0 <= i < chosen.len(),
    ensures
        mentions(planned_lines(chosen, written), planned_line_text(chosen[i])),
        written && chosen[i].unsure ==> mentions(
            planned_lines(chosen, written),
            check_line_text(chosen[i]),
        ),
    decreases chosen.len(),
{
    let head = planned_lines(chosen.drop_last(), written);
    let line = planned_line_text(chosen.last());
    let check = check_line_text(chosen.last());
    if i == chosen.len() - 1 {
        lemma_mentions_piece(head, line, seq![]);
        lemma_mentions_in(seq![], head + line, check, line);
        lemma_mentions_piece(head + line, check, seq![]);
    } else {
        lemma_planned_lines(chosen.drop_last(), written, i);
        let part = planned_line_text(chosen[i]);
        lemma_mentions_in(seq![], head, line, part);
        lemma_mentions_in(seq![], head + line, check, part);
        if written && chosen[i].unsure {
            let c = check_line_text(chosen[i]);
            lemma_mentions_in(seq![], head, line, c);
            lemma_mentions_in(seq![], head + line, check, c);
        }
    }
}

/// What is said of a plan names the file and every game of it. An executable
/// that is unsure is pointed out where the plan was written.
pub proof fn lemma_plan_report_names_every_game(
    output: Seq<char>,
    chosen: Seq<Candidate>,
    dry_run: bool,
    i: int,
)
    requires
        0 <= i < chosen.len(),
    ensures
        mentions(planned_text(output, chosen, dry_run), planned_line_text(chosen[i])),
        mentions(planned_text(output, chosen, dry_run), output),
        !dry_run && chosen[i].unsure && chosen[i].exe is Some ==> mentions(
            planned_text(output, chosen, dry_run),
            chosen[i].exe->Some_0@,
        ),
{
    lemma_planned_lines(chosen, !dry_run, i);
    let lines = planned_lines(chosen, !dry_run);
    let part = planned_line_text(chosen[i]);
    if dry_run {
        let a = "Dry run. Would write "@ + output;
        let b = a + " with:\n"@;
        let c = b + lines;
        lemma_mentions_in(b, lines, seq![], part);
        lemma_mentions_in(seq![], c, "\nNothing was written.\n"@, part);
        lemma_mentions_piece("Dry run. Would write "@, output, seq![]);
        lemma_mentions_in(seq![], a, " with:\n"@, output);
        lemma_mentions_in(seq![], b, lines, output);
        lemma_mentions_in(seq![], c, "\nNothing was written.\n"@, output);
    } else {
        let head = "Wrote "@ + output + " with "@ + decimal_of(chosen.len()) + " games:\n"@;
        let review = "\nReview it, edit any executable that looks wrong, then:\n    librarybridge \
            lutris import --plan "@;
        let a = head + lines;
        let b = a + review;
        let c = b + output;
        lemma_mentions_in(head, lines, seq![], part);
        lemma_mentions_in(seq![], a, review, part);
        lemma_mentions_in(seq![], b, output, part);
        lemma_mentions_in(seq![], c, "\n"@, part);
        lemma_mentions_piece(b, output, seq![]);
        lemma_mentions_in(seq![], c, "\n"@, output);
        if chosen[i].unsure && chosen[i].exe is Some {
            let exe = chosen[i].exe->Some_0@;
            let check = check_line_text(chosen[i]);
            lemma_mentions_piece("    check the executable before importing: "@, exe, "\n"@);
            lemma_mentions_through(lines, check, exe);
            lemma_mentions_in(head, lines, seq![], exe);
            lemma_mentions_in(seq![], a, review, exe);
            lemma_mentions_in(seq![], b, output, exe);
            lemma_mentions_in(seq![], c, "\n"@, exe);
        }
    }
}

// --------------------------------------------------- what holds of detection

proof fn lemma_detected_blocks(all: Seq<Detected>, i: int)
    requires
        0 <= i < all.len(),
    ensures
        mentions(detected_blocks(all), detected_block_text(all[i])),
    decreases all.len(),
{
    let head = detected_blocks(all.drop_last());
    let block = detected_block_text(all.last());
    if i == all.len() - 1 {
        lemma_mentions_piece(head, block, seq![]);
    } else {
        lemma_detected_blocks(all.drop_last(), i);
        lemma_mentions_in(seq![], head, block, detected_block_text(all[i]));
    }
}

/// Every installation is told with its config directory and how many games it
/// has. Finding none is a failure to people and an empty list to machines.
pub proof fn lemma_every_installation_is_told(json: bool, all: Seq<Detected>, i: int)
    requires
        0 <= i < all.len(),
    ensures
        !json ==> mentions(
            detect_text(json, all),
            "Config      "@ + all[i].config_dir@ + "\nKnows about "@ + decimal_of(
                all[i].runners@.len(),
            ) + " games\n"@,
        ),
        json ==> mentions(
            detect_text(json, all),
            "\"config\": \""@ + all[i].config_dir@ + "\", \"games\": "@ + decimal_of(
                all[i].runners@.len(),
            ) + "}"@,
        ),
        forall|n: nat| #[trigger] detect_code(json, n) == 2 <==> !json && n == 0,
        forall|n: nat| #[trigger] detect_code(json, n) == 0 <==> json || n > 0,
{
    let d = all[i];
    let n = decimal_of(d.runners@.len());
    if json {
        let part = "\"config\": \""@ + d.config_dir@ + "\", \"games\": "@ + n + "}"@;
        let rows = detected_rows(all);
        let head = "    {\"packaging\": \""@ + d.packaging.label_text();
        reveal_strlit("\", \"config\": \"");
        reveal_strlit("\"config\": \"");
        assert(rows[i] == detected_json_text(d));
        assert(detected_json_text(d) =~= head + seq!['"', ',', ' '] + part);
        lemma_mentions_piece(head + seq!['"', ',', ' '], part, seq![]);
        lemma_joined_mentions(rows, ",\n"@, i);
        lemma_mentions_through(joined(rows, ",\n"@), rows[i], part);
        lemma_mentions_in(
            "{\n  \"schema\": 1,\n  \"lutris\": [\n"@,
            joined(rows, ",\n"@),
            "\n  ]\n}\n"@,
            part,
        );
    } else {
        let part = "Config      "@ + d.config_dir@ + "\nKnows about "@ + n + " games\n"@;
        let head = "Lutris      "@ + d.packaging.label_text();
        let tail = runners_line_text(distinct(views(d.runners@))) + "\n"@;
        reveal_strlit(" install\nConfig      ");
        reveal_strlit(" install\n");
        reveal_strlit("Config      ");
        assert(detected_block_text(d) =~= head + " install\n"@ + part + tail);
        lemma_mentions_piece(head + " install\n"@, part, tail);
        lemma_detected_blocks(all, i);
        lemma_mentions_through(detected_blocks(all), detected_block_text(d), part);
    }
}

/// The installation that is worked with is the first that was found.
pub proof fn lemma_first_installation_is_worked_with(first: Installation, rest: Seq<Installation>)
    ensures
        worked_with(seq![first] + rest) == Some(first),
        worked_with(seq![]) is None,
{
}


/// What is known of a candidate is shown with it.
pub proof fn lemma_what_is_noted_of_a_candidate(c: Candidate, i: int)
    ensures
        c.appid matches Some(appid) ==> mentions(
            shown_candidate_text(c),
            "      steam app   "@ + appid@ + "\n"@,
        ),
        c.exe matches Some(exe) ==> mentions(
            shown_candidate_text(c),
            "      executable  "@ + exe@ + "\n"@,
        ),
        c.prefix matches Some(prefix) ==> mentions(
            shown_candidate_text(c),
            "      prefix      "@ + prefix@ + "\n"@,
        ),
        mentions(shown_candidate_text(c), c.runner@),
        mentions(shown_candidate_text(c), c.source@),
        mentions(shown_candidate_text(c), c.confidence@),
        0 <= i < c.reasons@.len() ==> mentions(
            shown_candidate_text(c),
            "      because     "@ + c.reasons@[i]@ + "\n"@,
        ),
        0 <= i < c.alternatives@.len() ==> mentions(
            shown_candidate_text(c),
            c.alternatives@[i]@ + "\n"@,
        ),
        c.filesystem_warning matches Some(warning) ==> mentions(
            shown_candidate_text(c),
            "      warning     "@ + warning@,
        ),
        0 <= i < c.launch_warnings@.len() ==> mentions(
            shown_candidate_text(c),
            "      launch      "@ + c.launch_warnings@[i]@,
        ),
        c.in_lutris ==> mentions(
            shown_candidate_text(c),
            "      note        Lutris already has this one\n"@,
        ),
{
    let whole = shown_candidate_text(c);
    lemma_candidate_lines(c);
    lemma_candidate_tail(c);
    if 0 <= i < c.reasons@.len() {
        let all = views(c.reasons@);
        lemma_each_mentions(all, "      because     "@, "\n"@, i);
        lemma_mentions_through(
            whole,
            each(all, "      because     "@, "\n"@),
            "      because     "@ + all[i] + "\n"@,
        );
    }
    if 0 <= i < c.alternatives@.len() {
        let all = views(c.alternatives@);
        let line = all[i] + "\n"@;
        let rest = each(all.skip(1), "                  "@, "\n"@);
        let head = "      or maybe    "@ + all[0] + "\n"@;
        if i == 0 {
            assert(maybe_text(all) =~= "      or maybe    "@ + line + rest);
            lemma_mentions_piece("      or maybe    "@, line, rest);
        } else {
            assert(all.skip(1)[i - 1] == all[i]);
            lemma_each_mentions(all.skip(1), "                  "@, "\n"@, i - 1);
            let part = "                  "@ + all[i] + "\n"@;
            assert(part =~= "                  "@ + line);
            lemma_mentions_piece("                  "@, line, seq![]);
            lemma_mentions_through(rest, part, line);
            lemma_mentions_in(head, rest, seq![], line);
        }
        lemma_mentions_through(whole, maybe_text(all), line);
    }
    if c.filesystem_warning is Some {
        let part = "      warning     "@ + c.filesystem_warning->Some_0@;
        lemma_mentions_piece(
            seq![],
            part,
            "\n                  adding it to Lutris will not fix that on its own\n"@,
        );
        lemma_mentions_through(whole, warning_line_text(c), part);
    }
    if 0 <= i < c.launch_warnings@.len() {
        let all = views(c.launch_warnings@);
        let tail = "\n                  this shows up the first time you run it\n"@;
        let part = "      launch      "@ + all[i];
        lemma_each_mentions(all, "      launch      "@, tail, i);
        lemma_mentions_piece(seq![], part, tail);
        lemma_mentions_through(each(all, "      launch      "@, tail), part + tail, part);
        lemma_mentions_through(whole, each(all, "      launch      "@, tail), part);
    }
}

proof fn lemma_candidate_lines(c: Candidate)
    ensures
        mentions(shown_candidate_text(c), c.runner@),
        mentions(shown_candidate_text(c), c.source@),
        mentions(shown_candidate_text(c), appid_line_text(c)),
        mentions(shown_candidate_text(c), exe_line_text(c)),
        mentions(shown_candidate_text(c), prefix_line_text(c)),
        mentions(shown_candidate_text(c), c.confidence@),
{
    let a0 = "\n  ["@;
    let a1 = a0 + c.id@;
    let a2 = a1 + "] "@;
    let a3 = a2 + c.name@;
    let a4 = a3 + "\n      runner      "@;
    let a5 = a4 + c.runner@;
    let a6 = a5 + " ("@;
    let a7 = a6 + c.source@;
    let a8 = a7 + " source)\n"@;
    let a9 = a8 + appid_line_text(c);
    let a10 = a9 + exe_line_text(c);
    let a11 = a10 + prefix_line_text(c);
    let a12 = a11 + "      confidence  "@;
    let a13 = a12 + c.confidence@;
    let a14 = a13 + "\n"@;
    let a15 = a14 + each(views(c.reasons@), "      because     "@, "\n"@);
    let a16 = a15 + maybe_text(views(c.alternatives@));
    let a17 = a16 + warning_line_text(c);
    let a18 = a17
        + each(views(c.launch_warnings@), "      launch      "@,
        "\n                  this shows up the first time you run it\n"@);
    let a19 = a18 + had_line_text(c);
    lemma_mentions_piece(a4, c.runner@, seq![]);
    lemma_mentions_in(seq![], a5, " ("@, c.runner@);
    lemma_mentions_in(seq![], a6, c.source@, c.runner@);
    lemma_mentions_in(seq![], a7, " source)\n"@, c.runner@);
    lemma_mentions_in(seq![], a8, appid_line_text(c), c.runner@);
    lemma_mentions_in(seq![], a9, exe_line_text(c), c.runner@);
    lemma_mentions_in(seq![], a10, prefix_line_text(c), c.runner@);
    lemma_mentions_in(seq![], a11, "      confidence  "@, c.runner@);
    lemma_mentions_in(seq![], a12, c.confidence@, c.runner@);
    lemma_mentions_in(seq![], a13, "\n"@, c.runner@);
    lemma_mentions_in(seq![], a14, each(views(c.reasons@), "      because     "@, "\n"@),
        c.runner@);
    lemma_mentions_in(seq![], a15, maybe_text(views(c.alternatives@)), c.runner@);
    lemma_mentions_in(seq![], a16, warning_line_text(c), c.runner@);
    lemma_mentions_in(seq![], a17, each(views(c.launch_warnings@), "      launch      "@,
        "\n                  this shows up the first time you run it\n"@), c.runner@);
    lemma_mentions_in(seq![], a18, had_line_text(c), c.runner@);
    lemma_mentions_piece(a6, c.source@, seq![]);
    lemma_mentions_in(seq![], a7, " source)\n"@, c.source@);
    lemma_mentions_in(seq![], a8, appid_line_text(c), c.source@);
    lemma_mentions_in(seq![], a9, exe_line_text(c), c.source@);
    lemma_mentions_in(seq![], a10, prefix_line_text(c), c.source@);
    lemma_mentions_in(seq![], a11, "      confidence  "@, c.source@);
    lemma_mentions_in(seq![], a12, c.confidence@, c.source@);
    lemma_mentions_in(seq![], a13, "\n"@, c.source@);
    lemma_mentions_in(seq![], a14, each(views(c.reasons@), "      because     "@, "\n"@),
        c.source@);
    lemma_mentions_in(seq![], a15, maybe_text(views(c.alternatives@)), c.source@);
    lemma_mentions_in(seq![], a16, warning_line_text(c), c.source@);
    lemma_mentions_in(seq![], a17, each(views(c.launch_warnings@), "      launch      "@,
        "\n                  this shows up the first time you run it\n"@), c.source@);
    lemma_mentions_in(seq![], a18, had_line_text(c), c.source@);
    lemma_mentions_piece(a8, appid_line_text(c), seq![]);
    lemma_mentions_in(seq![], a9, exe_line_text(c), appid_line_text(c));
    lemma_mentions_in(seq![], a10, prefix_line_text(c), appid_line_text(c));
    lemma_mentions_in(seq![], a11, "      confidence  "@, appid_line_text(c));
    lemma_mentions_in(seq![], a12, c.confidence@, appid_line_text(c));
    lemma_mentions_in(seq![], a13, "\n"@, appid_line_text(c));
    lemma_mentions_in(seq![], a14, each(views(c.reasons@), "      because     "@, "\n"@),
        appid_line_text(c));
    lemma_mentions_in(seq![], a15, maybe_text(views(c.alternatives@)), appid_line_text(c));
    lemma_mentions_in(seq![], a16, warning_line_text(c), appid_line_text(c));
    lemma_mentions_in(seq![], a17, each(views(c.launch_warnings@), "      launch      "@,
        "\n                  this shows up the first time you run it\n"@), appid_line_text(c));
    lemma_mentions_in(seq![], a18, had_line_text(c), appid_line_text(c));
    lemma_mentions_piece(a9, exe_line_text(c), seq![]);
    lemma_mentions_in(seq![], a10, prefix_line_text(c), exe_line_text(c));
    lemma_mentions_in(seq![], a11, "      confidence  "@, exe_line_text(c));
    lemma_mentions_in(seq![], a12, c.confidence@, exe_line_text(c));
    lemma_mentions_in(seq![], a13, "\n"@, exe_line_text(c));
    lemma_mentions_in(seq![], a14, each(views(c.reasons@), "      because     "@, "\n"@),
        exe_line_text(c));
    lemma_mentions_in(seq![], a15, maybe_text(views(c.alternatives@)), exe_line_text(c));
    lemma_mentions_in(seq![], a16, warning_line_text(c), exe_line_text(c));
    lemma_mentions_in(seq![], a17, each(views(c.launch_warnings@), "      launch      "@,
        "\n                  this shows up the first time you run it\n"@), exe_line_text(c));
    lemma_mentions_in(seq![], a18, had_line_text(c), exe_line_text(c));
    lemma_mentions_piece(a10, prefix_line_text(c), seq![]);
    lemma_mentions_in(seq![], a11, "      confidence  "@, prefix_line_text(c));
    lemma_mentions_in(seq![], a12, c.confidence@, prefix_line_text(c));
    lemma_mentions_in(seq![], a13, "\n"@, prefix_line_text(c));
    lemma_mentions_in(seq![], a14, each(views(c.reasons@), "      because     "@, "\n"@),
        prefix_line_text(c));
    lemma_mentions_in(seq![], a15, maybe_text(views(c.alternatives@)), prefix_line_text(c));
    lemma_mentions_in(seq![], a16, warning_line_text(c), prefix_line_text(c));
    lemma_mentions_in(seq![], a17, each(views(c.launch_warnings@), "      launch      "@,
        "\n                  this shows up the first time you run it\n"@), prefix_line_text(c));
    lemma_mentions_in(seq![], a18, had_line_text(c), prefix_line_text(c));
    lemma_mentions_piece(a12, c.confidence@, seq![]);
    lemma_mentions_in(seq![], a13, "\n"@, c.confidence@);
    lemma_mentions_in(seq![], a14, each(views(c.reasons@), "      because     "@, "\n"@),
        c.confidence@);
    lemma_mentions_in(seq![], a15, maybe_text(views(c.alternatives@)), c.confidence@);
    lemma_mentions_in(seq![], a16, warning_line_text(c), c.confidence@);
    lemma_mentions_in(seq![], a17, each(views(c.launch_warnings@), "      launch      "@,
        "\n                  this shows up the first time you run it\n"@), c.confidence@);
    lemma_mentions_in(seq![], a18, had_line_text(c), c.confidence@);
    assert(a19 == shown_candidate_text(c));
}

proof fn lemma_candidate_tail(c: Candidate)
    ensures
        mentions(shown_candidate_text(c), each(views(c.reasons@), "      because     "@, "\n"@)),
        mentions(shown_candidate_text(c), maybe_text(views(c.alternatives@))),
        mentions(shown_candidate_text(c), warning_line_text(c)),
        mentions(shown_candidate_text(c), each(views(c.launch_warnings@), "      launch      "@,
            "\n                  this shows up the first time you run it\n"@)),
        mentions(shown_candidate_text(c), had_line_text(c)),
{
    let a0 = "\n  ["@;
    let a1 = a0 + c.id@;
    let a2 = a1 + "] "@;
    let a3 = a2 + c.name@;
    let a4 = a3 + "\n      runner      "@;
    let a5 = a4 + c.runner@;
    let a6 = a5 + " ("@;
    let a7 = a6 + c.source@;
    let a8 = a7 + " source)\n"@;
    let a9 = a8 + appid_line_text(c);
    let a10 = a9 + exe_line_text(c);
    let a11 = a10 + prefix_line_text(c);
    let a12 = a11 + "      confidence  "@;
    let a13 = a12 + c.confidence@;
    let a14 = a13 + "\n"@;
    let a15 = a14 + each(views(c.reasons@), "      because     "@, "\n"@);
    let a16 = a15 + maybe_text(views(c.alternatives@));
    let a17 = a16 + warning_line_text(c);
    let a18 = a17
        + each(views(c.launch_warnings@), "      launch      "@,
        "\n                  this shows up the first time you run it\n"@);
    let a19 = a18 + had_line_text(c);
    lemma_mentions_piece(a14, each(views(c.reasons@), "      because     "@, "\n"@), seq![]);
    lemma_mentions_in(seq![], a15, maybe_text(views(c.alternatives@)), each(views(c.reasons@),
        "      because     "@, "\n"@));
    lemma_mentions_in(seq![], a16, warning_line_text(c), each(views(c.reasons@),
        "      because     "@, "\n"@));
    lemma_mentions_in(seq![], a17, each(views(c.launch_warnings@), "      launch      "@,
        "\n                  this shows up the first time you run it\n"@), each(views(c.reasons@),
        "      because     "@, "\n"@));
    lemma_mentions_in(seq![], a18, had_line_text(c), each(views(c.reasons@), "      because     "@,
        "\n"@));
    lemma_mentions_piece(a15, maybe_text(views(c.alternatives@)), seq![]);
    lemma_mentions_in(seq![], a16, warning_line_text(c), maybe_text(views(c.alternatives@)));
    lemma_mentions_in(seq![], a17, each(views(c.launch_warnings@), "      launch      "@,
        "\n                  this shows up the first time you run it\n"@),
        maybe_text(views(c.alternatives@)));
    lemma_mentions_in(seq![], a18, had_line_text(c), maybe_text(views(c.alternatives@)));
    lemma_mentions_piece(a16, warning_line_text(c), seq![]);
    lemma_mentions_in(seq![], a17, each(views(c.launch_warnings@), "      launch      "@,
        "\n                  this shows up the first time you run it\n"@), warning_line_text(c));
    lemma_mentions_in(seq![], a18, had_line_text(c), warning_line_text(c));
    lemma_mentions_piece(a17, each(views(c.launch_warnings@), "      launch      "@,
        "\n                  this shows up the first time you run it\n"@), seq![]);
    lemma_mentions_in(seq![], a18, had_line_text(c), each(views(c.launch_warnings@),
        "      launch      "@, "\n                  this shows up the first time you run it\n"@));
    lemma_mentions_piece(a18, had_line_text(c), seq![]);
    assert(a19 == shown_candidate_text(c));
}

/// A scan says how many games it found and how many of them are Steam's own;
/// without folders it says that none were given.
pub proof fn lemma_what_a_scan_says(o: Options, all: Seq<Candidate>)
    requires
        !o.json,
        all.len() <= usize::MAX,
    ensures
        shown_of(o, all).len() > 0 ==> mentions(
            lutris_scan_text(o, all),
            "Found "@ + decimal_of(shown_of(o, all).len()) + " games not in Lutris\n"@,
        ),
        shown_of(o, all).len() > 0 && steam_in(shown_of(o, all)) > 0 ==> mentions(
            lutris_scan_text(o, all),
            decimal_of(steam_in(shown_of(o, all))) + " of these are Steam games."@,
        ),
        shown_of(o, all).len() == 0 ==> ends(
            lutris_scan_text(o, all),
            "Nothing found that Lutris does not already have.\n"@,
        ),
        o.roots@.len() == 0 ==> mentions(
            lutris_scan_text(o, all),
            "No folders were given, so only Steam libraries were checked.\n"@,
        ),
        o.roots@.len() > 0 && shown_of(o, all).len() == 0 ==> lutris_scan_text(o, all)
            == "Nothing found that Lutris does not already have.\n"@,
{
    let shown = shown_of(o, all);
    let whole = lutris_scan_text(o, all);
    let none = no_folders_text(o);
    let nothing = "Nothing found that Lutris does not already have.\n"@;
    lemma_shown_are_fewer(o, all);
    lemma_steam_are_fewer(shown);
    if shown.len() > 0 {
        lemma_found_lines(shown);
        let first = "Found "@ + decimal_of(shown.len()) + " games not in Lutris\n"@;
        lemma_mentions_in(none, found_text(shown), seq![], first);
        if steam_in(shown) > 0 {
            let part = decimal_of(steam_in(shown)) + " of these are Steam games."@;
            lemma_steam_line(steam_in(shown) as usize);
            lemma_mentions_through(
                found_text(shown),
                steam_note_text(steam_in(shown) as usize),
                part,
            );
            lemma_mentions_in(none, found_text(shown), seq![], part);
        }
    } else {
        assert(whole.skip(whole.len() - nothing.len()) =~= nothing);
        assert(seq![] + nothing =~= nothing);
    }
    if o.roots@.len() == 0 {
        lemma_no_folders_line(o);
        let part = "No folders were given, so only Steam libraries were checked.\n"@;
        if shown.len() > 0 {
            lemma_mentions_in(seq![], none, found_text(shown), part);
        } else {
            lemma_mentions_in(seq![], none, nothing, part);
        }
    }
}

proof fn lemma_shown_are_fewer(o: Options, all: Seq<Candidate>)
    ensures
        shown_of(o, all).len() <= all.len(),
    decreases all.len(),
{
    if all.len() > 0 {
        lemma_shown_are_fewer(o, all.drop_last());
    }
}

proof fn lemma_steam_are_fewer(all: Seq<Candidate>)
    ensures
        steam_in(all) <= all.len(),
    decreases all.len(),
{
    if all.len() > 0 {
        lemma_steam_are_fewer(all.drop_last());
    }
}

proof fn lemma_steam_line(count: usize)
    requires
        count > 0,
    ensures
        mentions(
            steam_note_text(count),
            decimal_of(count as nat) + " of these are Steam games."@,
        ),
{
    reveal_strlit(
        " of these are Steam games. Lutris shows installed Steam games through\nits own Steam \
                source, so importing them usually makes a duplicate entry.\n\n",
    );
    reveal_strlit(" of these are Steam games.");
    let said = " of these are Steam games. Lutris shows installed Steam games through\nits own Steam \
                source, so importing them usually makes a duplicate entry.\n\n"@;
    let start = " of these are Steam games."@;
    assert(said.take(start.len() as int) =~= start);
    let part = decimal_of(count as nat) + start;
    assert(steam_note_text(count) =~= part + said.skip(start.len() as int));
    lemma_mentions_piece(seq![], part, said.skip(start.len() as int));
}

proof fn lemma_no_folders_line(o: Options)
    requires
        o.roots@.len() == 0,
    ensures
        mentions(
            no_folders_text(o),
            "No folders were given, so only Steam libraries were checked.\n"@,
        ),
{
    reveal_strlit(
        "No folders were given, so only Steam libraries were checked.\nPoint at a games folder to \
            find everything else:\n    librarybridge lutris scan --root /run/media/you/Games\n\
            \n",
    );
    reveal_strlit("No folders were given, so only Steam libraries were checked.\n");
    let whole = no_folders_text(o);
    let part = "No folders were given, so only Steam libraries were checked.\n"@;
    assert(whole.take(part.len() as int) =~= part);
    assert(whole =~= part + whole.skip(part.len() as int));
    lemma_mentions_piece(seq![], part, whole.skip(part.len() as int));
}

proof fn lemma_found_lines(shown: Seq<Candidate>)
    ensures
        mentions(
            found_text(shown),
            "Found "@ + decimal_of(shown.len()) + " games not in Lutris\n"@,
        ),
        mentions(found_text(shown), steam_note_text(steam_in(shown) as usize)),
{
    let first = "Found "@ + decimal_of(shown.len()) + " games not in Lutris\n"@;
    let note = steam_note_text(steam_in(shown) as usize);
    let a = first + shown_candidates(shown);
    let b = a + "\n"@;
    let c = b + note;
    let d = c + "To add some of them:\n    librarybridge lutris plan --candidate "@;
    let e = d + shown[0].id@;
    let last = " --output plan.json\n    librarybridge lutris import --plan plan.json\n"@;
    lemma_mentions_piece(seq![], first, shown_candidates(shown));
    lemma_mentions_in(seq![], a, "\n"@, first);
    lemma_mentions_in(seq![], b, note, first);
    lemma_mentions_in(
        seq![],
        c,
        "To add some of them:\n    librarybridge lutris plan --candidate "@,
        first,
    );
    lemma_mentions_in(seq![], d, shown[0].id@, first);
    lemma_mentions_in(seq![], e, last, first);
    lemma_mentions_piece(b, note, seq![]);
    lemma_mentions_in(
        seq![],
        c,
        "To add some of them:\n    librarybridge lutris plan --candidate "@,
        note,
    );
    lemma_mentions_in(seq![], d, shown[0].id@, note);
    lemma_mentions_in(seq![], e, last, note);
}

/// A candidate that is not eligible and gives no reason is still refused with
/// words.
pub proof fn lemma_a_refusal_is_never_bare(o: Options, all: Seq<Candidate>, i: usize)
    requires
        all[i as int].blocking_reason is None,
    ensures
        mentions(plan_refusal_text(o, all, PlanRefusal::Blocked(i)), "it is not eligible"@),
{
    let head = all[i as int].name@ + " cannot be imported: "@;
    lemma_mentions_piece(
        head,
        "it is not eligible"@,
        ". Leave it out of the selection."@,
    );
}


/// The first thing that is wrong with a selection is the one that is told: what
/// stands before it is in order.
pub proof fn lemma_first_fault_is_told(o: Options, all: Seq<Candidate>)
    requires
        all.len() <= usize::MAX,
        o.candidates@.len() <= usize::MAX,
    ensures
        plan_of(o, all) matches Err(PlanRefusal::NoMatch(i)) ==> wanted_places(
            all,
            views(o.candidates@).take(i as int),
        ) is Ok,
        plan_of(o, all) matches Err(PlanRefusal::Several(i, _)) ==> wanted_places(
            all,
            views(o.candidates@).take(i as int),
        ) is Ok,
        plan_of(o, all) matches Err(PlanRefusal::Blocked(i)) ==> exists|k: int|
            is_first_blocked(all, wanted_places(all, views(o.candidates@))->Ok_0, k, i),
{
    let wanted = views(o.candidates@);
    lemma_first_unmatched(all, wanted);
    lemma_plan_is_what_was_asked_for(all, wanted);
    if wanted_places(all, wanted) is Ok {
        let places = wanted_places(all, wanted)->Ok_0;
        let k = lemma_first_blocked_is_first(all, places);
        if let Err(PlanRefusal::Blocked(i)) = plan_of(o, all) {
            assert(is_first_blocked(all, places, k, i));
        }
    }
}

/// Whether the place at `k` is `i`, what is there is not eligible, and all that
/// stands before it is.
pub open spec fn is_first_blocked(
    all: Seq<Candidate>,
    places: Seq<usize>,
    k: int,
    i: usize,
) -> bool {
    &&& 0 <= k < places.len() && places[k] == i
    &&& !all[i as int].eligible
    &&& forall|j: int| 0 <= j < k ==> all[#[trigger] places[j] as int].eligible
}

proof fn lemma_first_unmatched(all: Seq<Candidate>, wanted: Seq<Seq<char>>)
    requires
        all.len() <= usize::MAX,
        wanted.len() <= usize::MAX,
    ensures
        wanted_places(all, wanted) matches Err(PlanRefusal::NoMatch(i)) ==> i < wanted.len()
            && wanted_places(all, wanted.take(i as int)) is Ok,
        wanted_places(all, wanted) matches Err(PlanRefusal::Several(i, _)) ==> i < wanted.len()
            && wanted_places(all, wanted.take(i as int)) is Ok,
    decreases wanted.len(),
{
    if wanted.len() > 0 {
        let rest = wanted.drop_last();
        lemma_first_unmatched(all, rest);
        assert(wanted.take(wanted.len() - 1) =~= rest);
        if let Err(r) = wanted_places(all, rest) {
            match r {
                PlanRefusal::NoMatch(i) => {
                    assert(rest.take(i as int) =~= wanted.take(i as int));
                },
                PlanRefusal::Several(i, _) => {
                    assert(rest.take(i as int) =~= wanted.take(i as int));
                },
                _ => {},
            }
        }
    }
}

proof fn lemma_first_blocked_is_first(all: Seq<Candidate>, places: Seq<usize>) -> (k: int)
    ensures
        first_blocked(all, places) >= 0 ==> is_first_blocked(
            all,
            places,
            k,
            first_blocked(all, places) as usize,
        ),
        first_blocked(all, places) < 0 ==> forall|j: int|
            0 <= j < places.len() ==> all[#[trigger] places[j] as int].eligible,
    decreases places.len(),
{
    if places.len() == 0 {
        0
    } else {
        let rest = places.drop_last();
        let k = lemma_first_blocked_is_first(all, rest);
        assert forall|j: int|
            0 <= j < rest.len()
                && all[rest[j] as int].eligible implies all[#[trigger] places[j] as int]
            .eligible by {
            assert(rest[j] == places[j]);
        }
        if first_blocked(all, rest) >= 0 {
            assert(rest[k] == places[k]);
            assert forall|j: int| 0 <= j < k implies all[#[trigger] places[j] as int].eligible by {
                assert(all[rest[j] as int].eligible);
            }
            k
        } else {
            assert forall|j: int| 0 <= j < rest.len() implies all[#[trigger] places[j] as int]
                .eligible by {
                assert(all[rest[j] as int].eligible);
            }
            places.len() - 1
        }
    }
}

/// A game whose executable is unsure is pointed out when its plan is written.
pub proof fn lemma_unsure_games_are_pointed_out(c: Candidate)
    ensures
        c.unsure ==> begins(
            check_line_text(c),
            "    check the executable before importing: "@,
        ),
        !c.unsure ==> check_line_text(c).len() == 0,
{
    let head = "    check the executable before importing: "@;
    if c.unsure {
        assert(check_line_text(c).take(head.len() as int) =~= head);
    }
}

} // verus!
