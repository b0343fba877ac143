//! Handing the games of a plan to Lutris.
//!
//! The plan is a proposal, not an instruction: everything is rechecked. Lutris
//! is asked to install each game through its own command, and whether that
//! worked is decided by what is in its config afterwards.

use vstd::prelude::*;
use vstd::utf8::*;

use crate::covers::{is_start, lemma_begins_is_start};
use crate::document::{
    bracketed_text, emit, emit_text, emit_with_two, emit_with_two_text, event_line, json_object,
    json_string, json_text, member, member_text, object_text, optional_text, quoted_all, truth,
};
use crate::json::{items_of, parse, parsed, Json, MAX_BYTES, Value};
use crate::library::Options;
use crate::lutris::{slug_of, slugify, Definition, Entry, Packaging};
use crate::lutris_cmd::{
    candidate_json_text, candidate_members, candidate_rows, games_text, plan_document_of,
    plan_members, Candidate,
};
use crate::number::whole;
use crate::path::{alike, join as join_path, lemma_steps_under, same_path, steps, under};
use crate::protocol::{Known, Next};
use crate::text::{
    begins, cat2, cat3, cat5, decimal, decimal_of, is_blank, joined, lemma_mentions_in,
    lemma_mentions_piece, lemma_mentions_self, lemma_trimmed_is_the_middle, maybe, mentions,
    on_edge, same_text, signed, signed_of, starts_with, trim, trimmed, views, Edge,
};
use crate::written::{
    is_gap, is_member, lemma_decimal_is_digits, lemma_document_reads, lemma_is_member,
    lemma_one_is_one, lemma_reads_gap, lemma_reads_list, lemma_reads_number, lemma_reads_object,
    lemma_reads_optional, lemma_reads_text, lemma_reads_truth, lemma_with_members, optional_value,
    reads_as, with_members,
};

verus! {

/// How long to keep waiting for a Lutris install dialog to write its config, in
/// seconds. `lutris --install` returns as soon as the window opens, so without
/// a wait a game that the user is still confirming would be reported as
/// skipped. The wait ends the moment the entry appears.
pub const POLL_SECONDS: u64 = 120;

/// Whether a wait that began at `started` is over. Both are in seconds.
pub open spec fn wait_is_over(started: u64, now: u64) -> bool {
    now >= started + POLL_SECONDS
}

pub fn waited_enough(started: u64, now: u64) -> (yes: bool)
    ensures
        yes == wait_is_over(started, now),
{
    now >= started && now - started >= POLL_SECONDS
}

// ------------------------------------------------------------------ the plan

/// The plan that is to be read.
pub fn plan_to_read(o: &Options) -> (r: Result<String, String>)
    ensures
        match o.plan {
            Some(path) => r matches Ok(p) && p@ == path@,
            None => r matches Err(e) && e@
                == "import needs --plan PATH, produced by `librarybridge lutris plan`"@,
        },
{
    match &o.plan {
        Some(path) => Ok(path.clone()),
        None => Err(
            "import needs --plan PATH, produced by `librarybridge lutris plan`".to_owned(),
        ),
    }
}

/// A game of a plan.
#[derive(Debug)]
pub struct Planned {
    pub name: Option<String>,
    pub runner: Option<String>,
    pub exe: Option<String>,
    pub appid: Option<String>,
    pub prefix: Option<String>,
    pub working_dir: Option<String>,
    /// Whether the executable is a file, once that has been looked at.
    pub exe_there: bool,
}

pub struct PlannedView {
    pub name: Option<Seq<char>>,
    pub runner: Option<Seq<char>>,
    pub exe: Option<Seq<char>>,
    pub appid: Option<Seq<char>>,
    pub prefix: Option<Seq<char>>,
    pub working_dir: Option<Seq<char>>,
    pub exe_there: bool,
}

impl View for Planned {
    type V = PlannedView;

    open spec fn view(&self) -> PlannedView {
        PlannedView {
            name: maybe(self.name),
            runner: maybe(self.runner),
            exe: maybe(self.exe),
            appid: maybe(self.appid),
            prefix: maybe(self.prefix),
            working_dir: maybe(self.working_dir),
            exe_there: self.exe_there,
        }
    }
}

pub open spec fn planned_views(all: Seq<Planned>) -> Seq<PlannedView> {
    all.map_values(|p: Planned| p@)
}

/// The game that a value in a plan describes.
pub open spec fn planned_in(v: Value) -> PlannedView {
    PlannedView {
        name: v.string("name"@),
        runner: v.string("runner"@),
        exe: v.string("exe"@),
        appid: v.string("appid"@),
        prefix: v.string("prefix"@),
        working_dir: v.string("working_dir"@),
        exe_there: false,
    }
}

fn read_planned(game: &Json) -> (p: Planned)
    ensures
        p@ == planned_in(game@),
{
    Planned {
        name: game.string("name"),
        runner: game.string("runner"),
        exe: game.string("exe"),
        appid: game.string("appid"),
        prefix: game.string("prefix"),
        working_dir: game.string("working_dir"),
        exe_there: false,
    }
}

/// The games of a plan, or what is wrong with it.
pub open spec fn plan_in(v: Value) -> Result<Seq<PlannedView>, Seq<char>> {
    let one = match v.get("schema"@) {
        Some(s) => s.as_u64() == Some(1u64),
        None => false,
    };
    if !one {
        Err("unrecognised plan schema"@)
    } else if v.list("games"@).len() == 0 {
        Err("the plan has no games in it"@)
    } else {
        Ok(v.list("games"@).map_values(|g: Value| planned_in(g)))
    }
}

/// The games of a plan file, or what is wrong with it.
pub open spec fn plan_file(text: Seq<char>) -> Result<Seq<PlannedView>, Seq<char>> {
    match parsed(encode_utf8(text)) {
        Err(f) => Err(f.text()),
        Ok(v) => plan_in(v),
    }
}

/// Read a plan file.
pub fn read_plan(path: &str, text: &str) -> (r: Result<Vec<Planned>, String>)
    ensures
        match plan_file(text@) {
            Ok(games) => r matches Ok(p) && planned_views(p@) == games,
            Err(why) => r matches Err(e) && e@ == path@ + ": "@ + why,
        },
{
    let plan = match parse(text) {
        Err(e) => return Err(cat3(path, ": ", e.as_str())),
        Ok(plan) => plan,
    };
    let one = match plan.get("schema") {
        Some(s) => match s.as_u64() {
            Some(n) => n == 1,
            None => false,
        },
        None => false,
    };
    if !one {
        return Err(cat3(path, ": ", "unrecognised plan schema"));
    }
    let items = plan.list("games");
    let ghost all = items_of(items@);
    if items.len() == 0 {
        assert(all.len() == 0);
        return Err(cat3(path, ": ", "the plan has no games in it"));
    }
    let ghost games = all.map_values(|g: Value| planned_in(g));
    let mut out: Vec<Planned> = Vec::new();
    assert(planned_views(out@) =~= games.take(0));
    for i in 0..items.len()
        invariant
            all == items_of(items@),
            games == all.map_values(|g: Value| planned_in(g)),
            planned_views(out@) == games.take(i as int),
    {
        let one = read_planned(&items[i]);
        proof {
            assert(all[i as int] == items@[i as int]@);
            assert(games[i as int] == one@);
        }
        let ghost was = out@;
        out.push(one);
        assert(planned_views(out@) =~= planned_views(was).push(one@));
        assert(games.take(i + 1) =~= games.take(i as int).push(one@));
    }
    assert(games.take(items@.len() as int) =~= games);
    Ok(out)
}

// ------------------------------------------- a plan that was written before

/// What a list of texts is read as.
pub open spec fn list_value(texts: Seq<String>) -> Value {
    Value::Array(views(texts).map_values(|t: Seq<char>| Value::Text(t)))
}

proof fn lemma_reads_texts(texts: Seq<String>)
    ensures
        reads_as(bracketed_text(views(texts)), list_value(texts), 3),
{
    reveal_strlit(",");
    reveal_strlit(" ");
    reveal_strlit(", ");
    let all = views(texts);
    let ts = quoted_all(all);
    let vs = all.map_values(|t: Seq<char>| Value::Text(t));
    let none = Seq::<char>::empty();
    assert forall|i: int| 0 <= i < ts.len() implies reads_as(#[trigger] ts[i], vs[i], 4) by {
        lemma_reads_text(all[i], 4);
    }
    lemma_reads_list(none, ts, " "@, none, vs, 3);
    assert(","@ + " "@ =~= ", "@);
    assert("["@ + none + joined(ts, ", "@) + (none + "]"@) =~= bracketed_text(all));
}

/// The keys of a candidate as an object.
pub open spec fn candidate_keys() -> Seq<Seq<char>> {
    seq![
        "id"@,
        "name"@,
        "runner"@,
        "source"@,
        "exe"@,
        "appid"@,
        "prefix"@,
        "working_dir"@,
        "confidence"@,
        "in_lutris"@,
        "eligible"@,
        "blocking_reason"@,
        "filesystem_warning"@,
        "warnings"@,
        "alternatives"@,
        "reasons"@,
    ]
}

/// What the members of a candidate are read as.
pub open spec fn candidate_values(c: Candidate) -> Seq<Value> {
    seq![
        Value::Text(c.id@),
        Value::Text(c.name@),
        Value::Text(c.runner@),
        Value::Text(c.source@),
        optional_value(c.exe),
        optional_value(c.appid),
        optional_value(c.prefix),
        optional_value(c.working_dir),
        Value::Text(c.confidence@),
        Value::Bool(c.in_lutris),
        Value::Bool(c.eligible),
        optional_value(c.blocking_reason),
        optional_value(c.filesystem_warning),
        list_value(c.launch_warnings@),
        list_value(c.alternatives@),
        list_value(c.reasons@),
    ]
}

/// What a candidate is read as.
pub open spec fn candidate_value(c: Candidate) -> Value {
    Value::Object(with_members(Map::empty(), candidate_keys(), candidate_values(c)))
}

/// The place of a key among them, told by its length and its first letter.
spec fn place_of_key(key: Seq<char>) -> int {
    if key.len() == 2 {
        0
    } else if key.len() == 4 {
        1
    } else if key.len() == 6 && key[0] == 'r' {
        2
    } else if key.len() == 6 && key[0] == 's' {
        3
    } else if key.len() == 3 {
        4
    } else if key.len() == 5 {
        5
    } else if key.len() == 6 {
        6
    } else if key.len() == 11 {
        7
    } else if key.len() == 10 {
        8
    } else if key.len() == 9 {
        9
    } else if key.len() == 8 && key[0] == 'e' {
        10
    } else if key.len() == 15 {
        11
    } else if key.len() == 18 {
        12
    } else if key.len() == 8 {
        13
    } else if key.len() == 12 {
        14
    } else {
        15
    }
}

proof fn lemma_candidate_key(i: int)
    requires
        0 <= i < 16,
    ensures
        place_of_key(candidate_keys()[i]) == i,
{
    if i == 0 {
        reveal_strlit("id");
    } else if i == 1 {
        reveal_strlit("name");
    } else if i == 2 {
        reveal_strlit("runner");
    } else if i == 3 {
        reveal_strlit("source");
    } else if i == 4 {
        reveal_strlit("exe");
    } else if i == 5 {
        reveal_strlit("appid");
    } else if i == 6 {
        reveal_strlit("prefix");
    } else if i == 7 {
        reveal_strlit("working_dir");
    } else if i == 8 {
        reveal_strlit("confidence");
    } else if i == 9 {
        reveal_strlit("in_lutris");
    } else if i == 10 {
        reveal_strlit("eligible");
    } else if i == 11 {
        reveal_strlit("blocking_reason");
    } else if i == 12 {
        reveal_strlit("filesystem_warning");
    } else if i == 13 {
        reveal_strlit("warnings");
    } else if i == 14 {
        reveal_strlit("alternatives");
    } else {
        reveal_strlit("reasons");
    }
}

proof fn lemma_reads_member(c: Candidate, indent: Seq<char>, i: int)
    requires
        is_gap(indent),
        0 <= i < 16,
    ensures
        is_member(
            candidate_members(c, indent)[i],
            candidate_keys()[i],
            candidate_values(c)[i],
            2,
        ),
{
    let key = candidate_keys()[i];
    let value = candidate_values(c)[i];
    lemma_candidate_key(i);
    if i == 0 {
        lemma_reads_text(c.id@, 3);
        lemma_is_member(indent, key, json_text(c.id@), value, 2);
    } else if i == 1 {
        lemma_reads_text(c.name@, 3);
        lemma_is_member(indent, key, json_text(c.name@), value, 2);
    } else if i == 2 {
        lemma_reads_text(c.runner@, 3);
        lemma_is_member(indent, key, json_text(c.runner@), value, 2);
    } else if i == 3 {
        lemma_reads_text(c.source@, 3);
        lemma_is_member(indent, key, json_text(c.source@), value, 2);
    } else if i == 4 {
        lemma_reads_optional(c.exe, 3);
        lemma_is_member(indent, key, optional_text(c.exe), value, 2);
    } else if i == 5 {
        lemma_reads_optional(c.appid, 3);
        lemma_is_member(indent, key, optional_text(c.appid), value, 2);
    } else if i == 6 {
        lemma_reads_optional(c.prefix, 3);
        lemma_is_member(indent, key, optional_text(c.prefix), value, 2);
    } else if i == 7 {
        lemma_reads_optional(c.working_dir, 3);
        lemma_is_member(indent, key, optional_text(c.working_dir), value, 2);
    } else if i == 8 {
        lemma_reads_text(c.confidence@, 3);
        lemma_is_member(indent, key, json_text(c.confidence@), value, 2);
    } else if i == 9 {
        lemma_reads_truth(c.in_lutris, 3);
        lemma_is_member(indent, key, truth(c.in_lutris), value, 2);
    } else if i == 10 {
        lemma_reads_truth(c.eligible, 3);
        lemma_is_member(indent, key, truth(c.eligible), value, 2);
    } else if i == 11 {
        lemma_reads_optional(c.blocking_reason, 3);
        lemma_is_member(indent, key, optional_text(c.blocking_reason), value, 2);
    } else if i == 12 {
        lemma_reads_optional(c.filesystem_warning, 3);
        lemma_is_member(indent, key, optional_text(c.filesystem_warning), value, 2);
    } else if i == 13 {
        lemma_reads_texts(c.launch_warnings@);
        lemma_is_member(indent, key, bracketed_text(views(c.launch_warnings@)), value, 2);
    } else if i == 14 {
        lemma_reads_texts(c.alternatives@);
        lemma_is_member(indent, key, bracketed_text(views(c.alternatives@)), value, 2);
    } else {
        lemma_reads_texts(c.reasons@);
        lemma_is_member(indent, key, bracketed_text(views(c.reasons@)), value, 2);
    }
}

proof fn lemma_reads_candidate(c: Candidate)
    ensures
        reads_as(candidate_json_text(c, "    "@), candidate_value(c), 2),
{
    reveal_strlit("    ");
    let indent = "    "@;
    assert(is_gap(indent));
    assert forall|i: int| 0 <= i < 16 implies is_member(
        #[trigger] candidate_members(c, indent)[i],
        candidate_keys()[i],
        candidate_values(c)[i],
        2,
    ) by {
        lemma_reads_member(c, indent, i);
    }
    lemma_reads_object(indent, candidate_members(c, indent), candidate_keys(), candidate_values(c), 2);
    lemma_reads_gap(
        indent,
        object_text(indent, candidate_members(c, indent)),
        candidate_value(c),
        2,
    );
}

/// The game that a candidate becomes in a plan that is read again.
pub open spec fn planned_from(c: Candidate) -> PlannedView {
    PlannedView {
        name: Some(c.name@),
        runner: Some(c.runner@),
        exe: maybe(c.exe),
        appid: maybe(c.appid),
        prefix: maybe(c.prefix),
        working_dir: maybe(c.working_dir),
        exe_there: false,
    }
}

proof fn lemma_member_of_candidate(c: Candidate, at: int)
    requires
        0 <= at < 16,
    ensures
        candidate_value(c).get(candidate_keys()[at]) == Some(candidate_values(c)[at]),
{
    let keys = candidate_keys();
    lemma_candidate_key(at);
    assert forall|i: int| at < i < keys.len() implies #[trigger] keys[i] != keys[at] by {
        lemma_candidate_key(i);
    }
    lemma_with_members(Map::empty(), keys, candidate_values(c), keys[at], at);
}

proof fn lemma_candidate_is_planned(c: Candidate)
    ensures
        planned_in(candidate_value(c)) == planned_from(c),
{
    lemma_member_of_candidate(c, 1);
    lemma_member_of_candidate(c, 2);
    lemma_member_of_candidate(c, 4);
    lemma_member_of_candidate(c, 5);
    lemma_member_of_candidate(c, 6);
    lemma_member_of_candidate(c, 7);
}

/// What the list of games of a plan is read as.
pub open spec fn games_value(chosen: Seq<Candidate>) -> Value {
    Value::Array(chosen.map_values(|c: Candidate| candidate_value(c)))
}

proof fn lemma_reads_games(chosen: Seq<Candidate>)
    ensures
        reads_as(games_text(chosen), games_value(chosen), 1),
{
    reveal_strlit("[");
    reveal_strlit("]");
    reveal_strlit("[\n");
    reveal_strlit("\n");
    reveal_strlit(",");
    reveal_strlit(",\n");
    reveal_strlit("\n  ]");
    reveal_strlit("\n  ");
    let rows = candidate_rows(chosen);
    let values = chosen.map_values(|c: Candidate| candidate_value(c));
    assert forall|i: int| 0 <= i < rows.len() implies reads_as(#[trigger] rows[i], values[i], 2) by {
        lemma_reads_candidate(chosen[i]);
    }
    lemma_reads_list("\n"@, rows, "\n"@, "\n  "@, values, 1);
    assert(","@ + "\n"@ =~= ",\n"@);
    assert("\n  "@ + "]"@ =~= "\n  ]"@);
    assert("["@ + "\n"@ =~= "[\n"@);
}

pub open spec fn plan_keys() -> Seq<Seq<char>> {
    seq!["schema"@, "created"@, "games"@]
}

pub open spec fn plan_values(created: u64, chosen: Seq<Candidate>) -> Seq<Value> {
    seq![
        Value::Number("1"@),
        Value::Number(decimal_of(created as nat)),
        games_value(chosen),
    ]
}

proof fn lemma_reads_plan_member(created: u64, chosen: Seq<Candidate>, i: int)
    requires
        0 <= i < 3,
    ensures
        is_member(
            plan_members(created, chosen)[i],
            plan_keys()[i],
            plan_values(created, chosen)[i],
            0,
        ),
{
    reveal_strlit("");
    let key = plan_keys()[i];
    let value = plan_values(created, chosen)[i];
    if i == 0 {
        reveal_strlit("schema");
        lemma_one_is_one();
        lemma_reads_number("1"@, 1);
        lemma_is_member(""@, key, "1"@, value, 0);
    } else if i == 1 {
        reveal_strlit("created");
        lemma_decimal_is_digits(created as nat);
        lemma_reads_number(decimal_of(created as nat), 1);
        lemma_is_member(""@, key, decimal_of(created as nat), value, 0);
    } else {
        reveal_strlit("games");
        lemma_reads_games(chosen);
        lemma_is_member(""@, key, games_text(chosen), value, 0);
    }
}

/// The games of a plan that was written are the games that were put into it,
/// every text as it was. A game without an executable or without an application
/// id keeps that it has none.
pub proof fn lemma_plan_reads_back(created: u64, chosen: Seq<Candidate>)
    requires
        chosen.len() > 0,
        encode_utf8(plan_document_of(created, chosen)).len() <= MAX_BYTES,
    ensures
        plan_file(plan_document_of(created, chosen)) == Ok::<Seq<PlannedView>, Seq<char>>(
            chosen.map_values(|c: Candidate| planned_from(c)),
        ),
{
    let keys = plan_keys();
    let vs = plan_values(created, chosen);
    let ts = plan_members(created, chosen);
    assert forall|i: int| 0 <= i < ts.len() implies is_member(#[trigger] ts[i], keys[i], vs[i], 0) by {
        lemma_reads_plan_member(created, chosen, i);
    }
    reveal_strlit("");
    lemma_reads_object(""@, ts, keys, vs, 0);
    let v = Value::Object(with_members(Map::empty(), keys, vs));
    lemma_document_reads(object_text(""@, ts), v);
    reveal_strlit("schema");
    reveal_strlit("created");
    reveal_strlit("games");
    lemma_with_members(Map::empty(), keys, vs, "schema"@, 0);
    lemma_with_members(Map::empty(), keys, vs, "games"@, 2);
    lemma_one_is_one();
    let values = chosen.map_values(|c: Candidate| candidate_value(c));
    let games = values.map_values(|g: Value| planned_in(g));
    assert forall|i: int| 0 <= i < chosen.len() implies games[i] == planned_from(chosen[i]) by {
        lemma_candidate_is_planned(chosen[i]);
    }
    assert(games =~= chosen.map_values(|c: Candidate| planned_from(c)));
}

// --------------------------------------------------------- what is in the way

/// Why a planned game cannot be imported.
#[derive(Debug, Clone, Copy, PartialEq, Eq, Structural)]
pub enum Blocker {
    NoName,
    ExeGone,
    NothingToRun,
    Steam,
    Known,
}

pub open spec fn or_empty(t: Option<Seq<char>>) -> Seq<char> {
    match t {
        Some(t) => t,
        None => seq![],
    }
}

/// Whether an entry of Lutris is the game: the same slug, the same executable
/// or the same app id.
pub open spec fn same_game(p: PlannedView, e: Entry) -> bool {
    ||| e.slug@ == slug_of(or_empty(p.name))
    ||| (p.exe is Some && e.exe is Some && alike(e.exe->Some_0@, p.exe->Some_0))
    ||| (p.appid is Some && e.appid is Some && e.appid->Some_0@ == p.appid->Some_0)
}

pub open spec fn already_there(p: PlannedView, before: Seq<Entry>) -> bool {
    exists|i: int| 0 <= i < before.len() && same_game(p, #[trigger] before[i])
}

pub open spec fn blocker_of(p: PlannedView, before: Seq<Entry>) -> Option<Blocker> {
    if trimmed(or_empty(p.name)).len() == 0 {
        Some(Blocker::NoName)
    } else if p.exe is Some && !p.exe_there {
        Some(Blocker::ExeGone)
    } else if p.exe is None && p.appid is None {
        Some(Blocker::NothingToRun)
    } else if p.runner == Some("steam"@) {
        Some(Blocker::Steam)
    } else if already_there(p, before) {
        Some(Blocker::Known)
    } else {
        None
    }
}

fn name_or_empty(p: &Planned) -> (out: String)
    ensures
        out@ == or_empty(p@.name),
{
    match &p.name {
        Some(n) => n.clone(),
        None => String::new(),
    }
}

fn matches_entry(p: &Planned, slug: &str, e: &Entry) -> (yes: bool)
    requires
        slug@ == slug_of(or_empty(p@.name)),
    ensures
        yes == same_game(p@, *e),
{
    if same_text(e.slug.as_str(), slug) {
        return true;
    }
    match (&p.exe, &e.exe) {
        (Some(a), Some(b)) => if same_path(b.as_str(), a.as_str()) {
            return true;
        },
        _ => {},
    }
    match (&p.appid, &e.appid) {
        (Some(a), Some(b)) => same_text(b.as_str(), a.as_str()),
        _ => false,
    }
}

/// Why a planned game cannot be imported, or `None` if it can. Used by both
/// the dry run and the real run so the two always agree.
pub fn import_blocker(p: &Planned, before: &Vec<Entry>) -> (why: Option<Blocker>)
    ensures
        why == blocker_of(p@, before@),
{
    let name = name_or_empty(p);
    let bare = trim(name.as_str());
    proof {
        reveal_strlit("");
        if bare@.len() == 0 {
            assert(bare@ =~= ""@);
        }
    }
    if same_text(bare.as_str(), "") {
        return Some(Blocker::NoName);
    }
    if p.exe.is_some() && !p.exe_there {
        return Some(Blocker::ExeGone);
    }
    if p.exe.is_none() && p.appid.is_none() {
        return Some(Blocker::NothingToRun);
    }
    match &p.runner {
        Some(r) => if same_text(r.as_str(), "steam") {
            return Some(Blocker::Steam);
        },
        None => {},
    }
    let slug = slugify(name.as_str());
    for i in 0..before.len()
        invariant
            slug@ == slug_of(or_empty(p@.name)),
            forall|k: int| 0 <= k < i ==> !same_game(p@, #[trigger] before@[k]),
            trimmed(or_empty(p@.name)).len() > 0,
            !(p.exe is Some && !p.exe_there),
            !(p.exe is None && p.appid is None),
            p@.runner != Some("steam"@),
    {
        if matches_entry(p, slug.as_str(), &before[i]) {
            assert(same_game(p@, before@[i as int]));
            assert(already_there(p@, before@));
            return Some(Blocker::Known);
        }
    }
    assert(!already_there(p@, before@));
    None
}

pub open spec fn blocker_text(p: PlannedView, b: Blocker) -> Seq<char> {
    match b {
        Blocker::NoName => "the plan gives no name"@,
        Blocker::ExeGone => or_empty(p.exe) + " is no longer there"@,
        Blocker::NothingToRun => "the plan has neither an executable nor a Steam app id"@,
        Blocker::Steam =>
            "Lutris lists installed Steam games itself, so this would create a duplicate"@,
        Blocker::Known => "Lutris already has it"@,
    }
}

/// Say why a planned game cannot be imported.
pub fn blocker_reason(p: &Planned, b: Blocker) -> (out: String)
    ensures
        out@ == blocker_text(p@, b),
{
    match b {
        Blocker::NoName => "the plan gives no name".to_owned(),
        Blocker::ExeGone => match &p.exe {
            Some(e) => cat2(e.as_str(), " is no longer there"),
            None => {
                let out = " is no longer there".to_owned();
                assert(out@ =~= or_empty(p@.exe) + out@);
                out
            },
        },
        Blocker::NothingToRun => "the plan has neither an executable nor a Steam app id".to_owned(),
        Blocker::Steam => "Lutris lists installed Steam games itself, so this would create a \
            duplicate".to_owned(),
        Blocker::Known => "Lutris already has it".to_owned(),
    }
}

/// The name that is shown.
pub open spec fn title_of(p: PlannedView) -> Seq<char> {
    match p.name {
        Some(n) => n,
        None => "unnamed"@,
    }
}

fn title(p: &Planned) -> (out: String)
    ensures
        out@ == title_of(p@),
{
    match &p.name {
        Some(n) => n.clone(),
        None => "unnamed".to_owned(),
    }
}

// ------------------------------------------------------------------- dry run

/// A line of a dry run.
pub open spec fn preview_text(p: PlannedView, before: Seq<Entry>) -> Seq<char> {
    match blocker_of(p, before) {
        Some(b) => "  skip  "@ + title_of(p) + ": "@ + blocker_text(p, b) + "\n"@,
        None => "  add   "@ + title_of(p) + "\n"@,
    }
}

fn preview(p: &Planned, before: &Vec<Entry>) -> (out: String)
    ensures
        out@ == preview_text(p@, before@),
{
    match import_blocker(p, before) {
        Some(b) => cat5(
            "  skip  ",
            title(p).as_str(),
            ": ",
            blocker_reason(p, b).as_str(),
            "\n",
        ),
        None => cat3("  add   ", title(p).as_str(), "\n"),
    }
}

pub open spec fn previews(games: Seq<PlannedView>, before: Seq<Entry>) -> Seq<char>
    decreases games.len(),
{
    if games.len() == 0 {
        seq![]
    } else {
        previews(games.drop_last(), before) + preview_text(games.last(), before)
    }
}

pub open spec fn dry_run_text(
    packaging: Packaging,
    games: Seq<PlannedView>,
    before: Seq<Entry>,
) -> Seq<char> {
    "Lutris      "@ + packaging.label_text() + " install\nDry run     "@ + decimal_of(games.len())
        + " games in the plan\n\n"@ + previews(games, before)
        + "\nNothing was changed and Lutris was not started.\n"@
}

/// What a dry run reports, where one is asked for. It validates the whole
/// proposal and stops: it writes no definition, records nothing, and never
/// starts Lutris.
pub fn dry_run(
    o: &Options,
    packaging: Packaging,
    games: &Vec<Planned>,
    before: &Vec<Entry>,
) -> (out: Option<String>)
    ensures
        match out {
            Some(text) => o.dry_run && text@ == dry_run_text(
                packaging,
                planned_views(games@),
                before@,
            ),
            None => !o.dry_run,
        },
{
    if !o.dry_run {
        return None;
    }
    let ghost all = planned_views(games@);
    let mut lines = String::new();
    for i in 0..games.len()
        invariant
            all == planned_views(games@),
            lines@ == previews(all.take(i as int), before@),
    {
        lines.append(preview(&games[i], before).as_str());
        assert(all.take(i + 1).drop_last() =~= all.take(i as int));
        assert(all[i as int] == games@[i as int]@);
    }
    assert(all.take(games@.len() as int) =~= all);
    let mut out = "Lutris      ".to_owned();
    out.append(packaging.label());
    out.append(" install\nDry run     ");
    out.append(decimal(games.len() as u64).as_str());
    out.append(" games in the plan\n\n");
    out.append(lines.as_str());
    out.append("\nNothing was changed and Lutris was not started.\n");
    Some(out)
}

// ------------------------------------------------------------------ one game

#[derive(Debug, Clone, Copy, PartialEq, Eq, Structural)]
pub enum ImportStep {
    WriteDefinition,
    /// See whether Lutris is already open.
    LookForLutris,
    Install,
    ReadEntries,
    /// Wait a little and read Lutris's entries again.
    Wait,
    /// Record where the game came from, and the entry it became, by its place.
    Record(usize),
}

/// How the import of one game ends.
#[derive(Debug, Clone, Copy, PartialEq, Eq, Structural)]
pub enum Outcome {
    Skipped(Blocker),
    /// Lutris could not be run.
    NotRun,
    /// It became an entry, by its place.
    Added(usize),
    TimedOut,
}

pub type ImportNext = Next<ImportStep, Outcome>;

/// What is known of the import of one game.
#[derive(Debug)]
pub struct ImportFacts {
    pub write: Known<()>,
    pub running: Known<bool>,
    /// The exit code of the install command.
    pub install: Known<i32>,
    /// What Lutris has, as last read.
    pub entries: Known<Vec<Entry>>,
    pub waiting: bool,
    /// Whether the wait is over.
    pub expired: bool,
    pub record: Known<()>,
}

/// Whether an entry was not there before.
pub open spec fn is_new(e: Entry, before: Seq<Entry>) -> bool {
    forall|i: int| 0 <= i < before.len() ==> !alike((#[trigger] before[i]).config@, e.config@)
}

/// Whether an executable is the one that was planned. Neither having one counts
/// as the same.
pub open spec fn same_exe(p: PlannedView, e: Entry) -> bool {
    match (p.exe, e.exe) {
        (Some(a), Some(b)) => alike(b@, a),
        (None, None) => true,
        _ => false,
    }
}

/// Whether an entry is what became of a game.
pub open spec fn is_landed(p: PlannedView, before: Seq<Entry>, e: Entry) -> bool {
    is_new(e, before) && (begins(e.slug@, slug_of(title_of(p))) || same_exe(p, e))
}

/// The first entry that is what became of a game, or the length.
pub open spec fn landed_at(p: PlannedView, before: Seq<Entry>, after: Seq<Entry>) -> int
    decreases after.len(),
{
    if after.len() == 0 || is_landed(p, before, after[0]) {
        0
    } else {
        1 + landed_at(p, before, after.skip(1))
    }
}

/// What comes next in importing one game. `first` says whether no game has been
/// handed to Lutris yet.
pub open spec fn import_next(
    p: PlannedView,
    first: bool,
    before: Seq<Entry>,
    f: ImportFacts,
) -> ImportNext {
    if blocker_of(p, before) is Some {
        Next::Stop(Outcome::Skipped(blocker_of(p, before)->Some_0))
    } else if f.write is NotYet {
        Next::Take(ImportStep::WriteDefinition)
    } else if f.write is Failed {
        Next::Failed(ImportStep::WriteDefinition)
    } else if first && f.running !is Got {
        Next::Take(ImportStep::LookForLutris)
    } else if f.install is NotYet {
        Next::Take(ImportStep::Install)
    } else if f.install is Failed {
        Next::Stop(Outcome::NotRun)
    } else if f.entries !is Got {
        Next::Take(ImportStep::ReadEntries)
    } else {
        let at = landed_at(p, before, f.entries->Got_0@);
        if at < f.entries->Got_0@.len() {
            match f.record {
                Known::NotYet => Next::Take(ImportStep::Record(at as usize)),
                Known::Failed => Next::Failed(ImportStep::Record(at as usize)),
                Known::Got(_) => Next::Stop(Outcome::Added(at as usize)),
            }
        } else if f.expired {
            Next::Stop(Outcome::TimedOut)
        } else {
            Next::Take(ImportStep::Wait)
        }
    }
}

fn appeared(e: &Entry, before: &Vec<Entry>) -> (yes: bool)
    ensures
        yes == is_new(*e, before@),
{
    for i in 0..before.len()
        invariant
            forall|k: int| 0 <= k < i ==> !alike((#[trigger] before@[k]).config@, e.config@),
    {
        if same_path(before[i].config.as_str(), e.config.as_str()) {
            return false;
        }
    }
    true
}

fn became(p: &Planned, slug: &str, before: &Vec<Entry>, e: &Entry) -> (yes: bool)
    requires
        slug@ == slug_of(title_of(p@)),
    ensures
        yes == is_landed(p@, before@, *e),
{
    if !appeared(e, before) {
        return false;
    }
    if starts_with(e.slug.as_str(), slug) {
        return true;
    }
    match (&p.exe, &e.exe) {
        (Some(a), Some(b)) => same_path(b.as_str(), a.as_str()),
        (None, None) => true,
        _ => false,
    }
}

proof fn lemma_landed_at(p: PlannedView, before: Seq<Entry>, after: Seq<Entry>, at: int)
    requires
        0 <= at <= after.len(),
        forall|k: int| 0 <= k < at ==> !is_landed(p, before, #[trigger] after[k]),
        at < after.len() ==> is_landed(p, before, after[at]),
    ensures
        landed_at(p, before, after) == at,
    decreases at,
{
    if at > 0 {
        let rest = after.skip(1);
        assert forall|k: int| 0 <= k < at - 1 implies !is_landed(p, before, #[trigger] rest[k]) by {
            assert(rest[k] == after[k + 1]);
        }
        assert(!is_landed(p, before, after[0]));
        lemma_landed_at(p, before, rest, at - 1);
    }
}

fn find_landed(p: &Planned, before: &Vec<Entry>, after: &Vec<Entry>) -> (at: usize)
    ensures
        at == landed_at(p@, before@, after@),
        at <= after@.len(),
{
    let slug = slugify(title(p).as_str());
    let mut at: usize = 0;
    while at < after.len() && !became(p, slug.as_str(), before, &after[at])
        invariant
            slug@ == slug_of(title_of(p@)),
            at <= after@.len(),
            forall|k: int| 0 <= k < at ==> !is_landed(p@, before@, #[trigger] after@[k]),
        decreases after@.len() - at,
    {
        at = at + 1;
    }
    proof {
        lemma_landed_at(p@, before@, after@, at as int);
    }
    at
}

/// Say what comes next in importing one game.
pub fn import(p: &Planned, first: bool, before: &Vec<Entry>, f: &ImportFacts) -> (n: ImportNext)
    ensures
        n == import_next(p@, first, before@, *f),
{
    match import_blocker(p, before) {
        Some(b) => return Next::Stop(Outcome::Skipped(b)),
        None => {},
    }
    match &f.write {
        Known::NotYet => return Next::Take(ImportStep::WriteDefinition),
        Known::Failed => return Next::Failed(ImportStep::WriteDefinition),
        Known::Got(_) => {},
    }
    if first && !matches!(f.running, Known::Got(_)) {
        return Next::Take(ImportStep::LookForLutris);
    }
    match &f.install {
        Known::NotYet => return Next::Take(ImportStep::Install),
        Known::Failed => return Next::Stop(Outcome::NotRun),
        Known::Got(_) => {},
    }
    let entries = match &f.entries {
        Known::Got(x) => x,
        _ => return Next::Take(ImportStep::ReadEntries),
    };
    let at = find_landed(p, before, entries);
    if at < entries.len() {
        match &f.record {
            Known::NotYet => Next::Take(ImportStep::Record(at)),
            Known::Failed => Next::Failed(ImportStep::Record(at)),
            Known::Got(_) => Next::Stop(Outcome::Added(at)),
        }
    } else if f.expired {
        Next::Stop(Outcome::TimedOut)
    } else {
        Next::Take(ImportStep::Wait)
    }
}

// ------------------------------------------------- what holds of every import

/// A dry run says that a game is added exactly where the run itself goes on to
/// hand it to Lutris.
pub proof fn lemma_dry_run_agrees(p: PlannedView, first: bool, before: Seq<Entry>, f: ImportFacts)
    requires
        f.write is NotYet,
    ensures
        preview_text(p, before) == "  add   "@ + title_of(p) + "\n"@ <== import_next(
            p,
            first,
            before,
            f,
        ) == ImportNext::Take(ImportStep::WriteDefinition),
        import_next(p, first, before, f) == ImportNext::Take(ImportStep::WriteDefinition)
            <==> blocker_of(p, before) is None,
        import_next(p, first, before, f) is Stop <==> blocker_of(p, before) is Some,
{
}

/// Steam games are never handed to Lutris, which lists them itself.
pub proof fn lemma_steam_games_are_not_imported(
    p: PlannedView,
    first: bool,
    before: Seq<Entry>,
    f: ImportFacts,
)
    requires
        p.runner == Some("steam"@),
    ensures
        import_next(p, first, before, f) is Stop,
        import_next(p, first, before, f)->Stop_0 is Skipped,
{
}

/// Nothing that Lutris already has is handed to it again, nothing without a
/// name is, and nothing whose executable is gone.
pub proof fn lemma_only_what_is_new_is_imported(
    p: PlannedView,
    first: bool,
    before: Seq<Entry>,
    f: ImportFacts,
    s: ImportStep,
)
    requires
        import_next(p, first, before, f) == ImportNext::Take(s),
    ensures
        !already_there(p, before),
        trimmed(or_empty(p.name)).len() > 0,
        p.exe is Some ==> p.exe_there,
        p.exe is Some || p.appid is Some,
{
}

/// A game is only reported as added where an entry appeared that was not there
/// before and is the game's.
pub proof fn lemma_added_means_an_entry_appeared(
    p: PlannedView,
    first: bool,
    before: Seq<Entry>,
    f: ImportFacts,
    at: usize,
)
    requires
        f.entries is Got ==> f.entries->Got_0@.len() <= usize::MAX,
        import_next(p, first, before, f) == ImportNext::Stop(Outcome::Added(at)),
    ensures
        at < f.entries->Got_0@.len(),
        is_landed(p, before, f.entries->Got_0@[at as int]),
{
    lemma_landed(p, before, f.entries->Got_0@);
}

proof fn lemma_landed(p: PlannedView, before: Seq<Entry>, after: Seq<Entry>)
    ensures
        0 <= landed_at(p, before, after) <= after.len(),
        landed_at(p, before, after) < after.len() ==> is_landed(
            p,
            before,
            after[landed_at(p, before, after)],
        ),
    decreases after.len(),
{
    if after.len() > 0 && !is_landed(p, before, after[0]) {
        lemma_landed(p, before, after.skip(1));
    }
}

// ------------------------------------------------------------ what is written

pub open spec fn runner_or_wine(p: PlannedView) -> Seq<char> {
    match p.runner {
        Some(r) => r,
        None => "wine"@,
    }
}

fn copy_optional(t: &Option<String>) -> (out: Option<String>)
    ensures
        maybe(out) == maybe(*t),
{
    match t {
        Some(t) => Some(t.clone()),
        None => None,
    }
}

/// Whether a definition is that of a planned game.
pub open spec fn defines(d: Definition, p: PlannedView) -> bool {
    &&& d.name@ == title_of(p)
    &&& d.slug@ == slug_of(title_of(p))
    &&& d.runner@ == runner_or_wine(p)
    &&& maybe(d.exe) == p.exe
    &&& maybe(d.appid) == p.appid
    &&& maybe(d.prefix) == p.prefix
    &&& maybe(d.working_dir) == p.working_dir
}

/// The definition that is handed to Lutris.
pub fn definition(p: &Planned) -> (d: Definition)
    ensures
        defines(d, p@),
{
    let name = title(p);
    let slug = slugify(name.as_str());
    let runner = match &p.runner {
        Some(r) => r.clone(),
        None => "wine".to_owned(),
    };
    Definition {
        name,
        slug,
        runner,
        exe: copy_optional(&p.exe),
        appid: copy_optional(&p.appid),
        prefix: copy_optional(&p.prefix),
        working_dir: copy_optional(&p.working_dir),
    }
}

/// Where definitions are written.
pub fn definitions_dir(state_dir: &str) -> (path: String)
    ensures
        path@ == under(state_dir@, "definitions"@),
{
    join_path(state_dir, "definitions")
}

/// The file a definition is written to.
pub open spec fn definition_file(state_dir: Seq<char>, slug: Seq<char>) -> Seq<char> {
    under(under(state_dir, "definitions"@), slug + ".yml"@)
}

pub fn definition_path(state_dir: &str, slug: &str) -> (path: String)
    ensures
        path@ == definition_file(state_dir@, slug@),
{
    join_path(definitions_dir(state_dir).as_str(), cat2(slug, ".yml").as_str())
}

/// Where records of imports are kept.
pub fn records_dir(state_dir: &str) -> (path: String)
    ensures
        path@ == under(state_dir@, "imports"@),
{
    join_path(state_dir, "imports")
}

/// The file a record of an import is kept in.
pub open spec fn record_file(state_dir: Seq<char>, slug: Seq<char>) -> Seq<char> {
    under(under(state_dir, "imports"@), slug + ".json"@)
}

pub fn record_path(state_dir: &str, slug: &str) -> (path: String)
    ensures
        path@ == record_file(state_dir@, slug@),
{
    join_path(records_dir(state_dir).as_str(), cat2(slug, ".json").as_str())
}

pub open spec fn exe_text(d: Definition) -> Seq<char> {
    match d.exe {
        Some(e) => e@,
        None => seq![],
    }
}

fn exe_or_empty(d: &Definition) -> (out: String)
    ensures
        out@ == exe_text(*d),
{
    match &d.exe {
        Some(e) => e.clone(),
        None => String::new(),
    }
}

pub open spec fn record_members(d: Definition, config: Seq<char>, created: u64) -> Seq<Seq<char>> {
    seq![
        member_text(""@, "schema"@, "1"@),
        member_text(""@, "created"@, decimal_of(created as nat)),
        member_text(""@, "slug"@, json_text(d.slug@)),
        member_text(""@, "name"@, json_text(d.name@)),
        member_text(""@, "runner"@, json_text(d.runner@)),
        member_text(""@, "exe"@, json_text(exe_text(d))),
        member_text(""@, "lutris_config"@, json_text(config)),
    ]
}

pub open spec fn record_provenance_text(
    d: Definition,
    config: Seq<char>,
    created: u64,
) -> Seq<char> {
    object_text(""@, record_members(d, config, created)) + "\n"@
}

/// The record of an import: what was handed over, and the config it became.
pub fn record_provenance(d: &Definition, config: &str, created: u64) -> (out: String)
    ensures
        out@ == record_provenance_text(*d, config@, created),
{
    let members: Vec<String> = vec![
        member("", "schema", "1"),
        member("", "created", decimal(created).as_str()),
        member("", "slug", json_string(d.slug.as_str()).as_str()),
        member("", "name", json_string(d.name.as_str()).as_str()),
        member("", "runner", json_string(d.runner.as_str()).as_str()),
        member("", "exe", json_string(exe_or_empty(d).as_str()).as_str()),
        member("", "lutris_config", json_string(config).as_str()),
    ];
    assert(views(members@) =~= record_members(*d, config@, created));
    cat2(json_object("", &members).as_str(), "\n")
}

// --------------------------------------------------------------- what is said

pub open spec fn import_start_text(o: Options) -> Seq<char> {
    emit_text(o.json, "lutris_preparing"@)
}

pub fn import_start(o: &Options) -> (out: String)
    ensures
        out@ == import_start_text(*o),
{
    emit(o.json, "lutris_preparing")
}

pub open spec fn import_header_text(packaging: Packaging, count: usize) -> Seq<char> {
    "Lutris      "@ + packaging.label_text() + " install\nImporting   "@
        + decimal_of(count as nat)
        + " games\n\nLutris shows its own dialog for each game. Confirm each one there.\n\n"@
}

pub fn import_header(packaging: Packaging, count: usize) -> (out: String)
    ensures
        out@ == import_header_text(packaging, count),
{
    let mut out = "Lutris      ".to_owned();
    out.append(packaging.label());
    out.append(" install\nImporting   ");
    out.append(decimal(count as u64).as_str());
    out.append(" games\n\nLutris shows its own dialog for each game. Confirm each one there.\n\n");
    out
}

pub open spec fn adding_text(o: Options, done: usize, total: usize) -> Seq<char> {
    emit_with_two_text(
        o.json,
        "lutris_adding"@,
        "done"@,
        decimal_of(done as nat),
        "total"@,
        decimal_of(total as nat),
    )
}

fn adding(o: &Options, done: usize, total: usize) -> (out: String)
    ensures
        out@ == adding_text(*o, done, total),
{
    emit_with_two(
        o.json,
        "lutris_adding",
        "done",
        decimal(done as u64).as_str(),
        "total",
        decimal(total as u64).as_str(),
    )
}

/// Whether Lutris was already open when the first game was handed to it.
pub open spec fn was_open(done: usize, f: ImportFacts) -> bool {
    done == 0 && f.running == Known::Got(true)
}

fn already_open(done: usize, f: &ImportFacts) -> (yes: bool)
    ensures
        yes == was_open(done, *f),
{
    done == 0 && matches!(f.running, Known::Got(true))
}

/// The phase that is reported before Lutris is asked.
pub open spec fn phase_text(o: Options, done: usize, total: usize, f: ImportFacts) -> Seq<char> {
    if was_open(done, f) || done > 0 {
        adding_text(o, done, total)
    } else {
        emit_text(o.json, "lutris_opening"@)
    }
}

fn phase(o: &Options, done: usize, total: usize, f: &ImportFacts) -> (out: String)
    ensures
        out@ == phase_text(*o, done, total, *f),
{
    if already_open(done, f) || done > 0 {
        adding(o, done, total)
    } else {
        emit(o.json, "lutris_opening")
    }
}

/// The phase that is reported once Lutris has been asked.
pub open spec fn asked_text(o: Options, done: usize, total: usize, f: ImportFacts) -> Seq<char> {
    if was_open(done, f) {
        seq![]
    } else {
        adding_text(o, done, total)
    }
}

fn asked(o: &Options, done: usize, total: usize, f: &ImportFacts) -> (out: String)
    ensures
        out@ == asked_text(*o, done, total, *f),
{
    if already_open(done, f) {
        String::new()
    } else {
        adding(o, done, total)
    }
}

/// A non-zero exit is not proof nothing was added.
pub open spec fn exit_text(f: ImportFacts) -> Seq<char> {
    if f.install is Got && f.install->Got_0 != 0 {
        "    Lutris exited with status "@ + signed_of(f.install->Got_0 as int)
            + " (its install dialog may have been cancelled)\n"@
    } else {
        seq![]
    }
}

fn exit_line(f: &ImportFacts) -> (out: String)
    ensures
        out@ == exit_text(*f),
{
    match &f.install {
        Known::Got(code) => if *code != 0 {
            cat3(
                "    Lutris exited with status ",
                signed(*code).as_str(),
                " (its install dialog may have been cancelled)\n",
            )
        } else {
            String::new()
        },
        _ => String::new(),
    }
}

/// What is said before a step is taken, where `done` games of `total` have been
/// handed to Lutris.
pub open spec fn import_announcement(
    o: Options,
    p: PlannedView,
    done: usize,
    total: usize,
    f: ImportFacts,
    s: ImportStep,
) -> Seq<char> {
    match s {
        ImportStep::LookForLutris => "  "@ + title_of(p) + "\n"@,
        ImportStep::Install => if done == 0 {
            phase_text(o, done, total, f)
        } else {
            "  "@ + title_of(p) + "\n"@ + phase_text(o, done, total, f)
        },
        ImportStep::ReadEntries => asked_text(o, done, total, f) + exit_text(f),
        ImportStep::Wait => if f.waiting {
            seq![]
        } else {
            "    Waiting for you to finish the Lutris dialog…\n"@
        },
        _ => seq![],
    }
}

/// Say what there is to say before a step is taken.
pub fn import_announce(
    o: &Options,
    p: &Planned,
    done: usize,
    total: usize,
    f: &ImportFacts,
    s: ImportStep,
) -> (out: String)
    ensures
        out@ == import_announcement(*o, p@, done, total, *f, s),
{
    match s {
        ImportStep::LookForLutris => cat3("  ", title(p).as_str(), "\n"),
        ImportStep::Install => if done == 0 {
            phase(o, done, total, f)
        } else {
            let mut out = cat3("  ", title(p).as_str(), "\n");
            out.append(phase(o, done, total, f).as_str());
            out
        },
        ImportStep::ReadEntries => {
            let mut out = asked(o, done, total, f);
            out.append(exit_line(f).as_str());
            out
        },
        ImportStep::Wait => if f.waiting {
            String::new()
        } else {
            "    Waiting for you to finish the Lutris dialog…\n".to_owned()
        },
        _ => String::new(),
    }
}

pub open spec fn timed_out_text() -> Seq<char> {
    "    Lutris did not report a new entry within "@ + decimal_of(POLL_SECONDS as nat)
        + "s. Check Lutris manually.\n"@
}

fn timed_out() -> (out: String)
    ensures
        out@ == timed_out_text(),
{
    let mut out = "    Lutris did not report a new entry within ".to_owned();
    out.append(decimal(POLL_SECONDS).as_str());
    out.append("s. Check Lutris manually.\n");
    out
}

/// The config of the entry at a place.
pub open spec fn config_at(f: ImportFacts, at: usize) -> Seq<char> {
    if f.entries is Got && at < f.entries->Got_0@.len() {
        f.entries->Got_0@[at as int].config@
    } else {
        seq![]
    }
}

/// The config of the entry that a game became.
pub fn landed_config(f: &ImportFacts, at: usize) -> (config: String)
    ensures
        config@ == config_at(*f, at),
{
    match &f.entries {
        Known::Got(all) => if at < all.len() {
            all[at].config.clone()
        } else {
            String::new()
        },
        _ => String::new(),
    }
}

/// What is said where the import of one game ends. `message` is why Lutris
/// could not be run.
pub open spec fn import_closing_text(
    o: Options,
    p: PlannedView,
    done: usize,
    total: usize,
    f: ImportFacts,
    e: Outcome,
    message: Seq<char>,
) -> Seq<char> {
    match e {
        Outcome::Skipped(b) => "  skipped "@ + title_of(p) + ": "@ + blocker_text(p, b) + "\n"@,
        Outcome::NotRun => asked_text(o, done, total, f) + "    could not run Lutris: "@ + message
            + "\n"@,
        Outcome::Added(at) => "    added, config at "@ + config_at(f, at) + "\n"@,
        Outcome::TimedOut => timed_out_text(),
    }
}

/// Say what there is to say where the import of one game ends.
pub fn import_closing(
    o: &Options,
    p: &Planned,
    done: usize,
    total: usize,
    f: &ImportFacts,
    e: Outcome,
    message: &str,
) -> (out: String)
    ensures
        out@ == import_closing_text(*o, p@, done, total, *f, e, message@),
{
    match e {
        Outcome::Skipped(b) => cat5(
            "  skipped ",
            title(p).as_str(),
            ": ",
            blocker_reason(p, b).as_str(),
            "\n",
        ),
        Outcome::NotRun => {
            let mut out = asked(o, done, total, f);
            out.append("    could not run Lutris: ");
            out.append(message);
            out.append("\n");
            out
        },
        Outcome::Added(at) => cat3("    added, config at ", landed_config(f, at).as_str(), "\n"),
        Outcome::TimedOut => timed_out(),
    }
}

// ------------------------------------------------------------------ the tally

/// How many games were added, how many were not, and how many were handed to
/// Lutris at all.
#[derive(Debug, Clone, Copy, PartialEq, Eq, Structural)]
pub struct Tally {
    pub imported: usize,
    pub skipped: usize,
    pub processed: usize,
}

pub open spec fn imported_in(outcomes: Seq<Outcome>) -> nat
    decreases outcomes.len(),
{
    if outcomes.len() == 0 {
        0
    } else if outcomes.last() is Added {
        imported_in(outcomes.drop_last()) + 1
    } else {
        imported_in(outcomes.drop_last())
    }
}

pub open spec fn processed_in(outcomes: Seq<Outcome>) -> nat
    decreases outcomes.len(),
{
    if outcomes.len() == 0 {
        0
    } else if outcomes.last() is Skipped {
        processed_in(outcomes.drop_last())
    } else {
        processed_in(outcomes.drop_last()) + 1
    }
}

/// Count how games ended.
pub fn tally(outcomes: &Vec<Outcome>) -> (t: Tally)
    ensures
        t.imported == imported_in(outcomes@),
        t.imported + t.skipped == outcomes@.len(),
        t.processed == processed_in(outcomes@),
{
    let mut t = Tally { imported: 0, skipped: 0, processed: 0 };
    for i in 0..outcomes.len()
        invariant
            t.imported == imported_in(outcomes@.take(i as int)),
            t.imported + t.skipped == i,
            t.processed == processed_in(outcomes@.take(i as int)),
            t.processed <= i,
    {
        assert(outcomes@.take(i + 1).drop_last() =~= outcomes@.take(i as int));
        match outcomes[i] {
            Outcome::Skipped(_) => {
                t.skipped = t.skipped + 1;
            },
            Outcome::Added(_) => {
                t.imported = t.imported + 1;
                t.processed = t.processed + 1;
            },
            _ => {
                t.skipped = t.skipped + 1;
                t.processed = t.processed + 1;
            },
        }
    }
    assert(outcomes@.take(outcomes@.len() as int) =~= outcomes@);
    t
}

/// What is said at the end.
pub open spec fn import_end_text(t: Tally) -> Seq<char> {
    "\n"@ + decimal_of(t.imported as nat) + " added, "@ + decimal_of(t.skipped as nat)
        + " skipped.\nNo game files or prefixes were changed.\n"@
}

pub fn import_end(t: &Tally) -> (out: String)
    ensures
        out@ == import_end_text(*t),
{
    let mut out = "\n".to_owned();
    out.append(decimal(t.imported as u64).as_str());
    out.append(" added, ");
    out.append(decimal(t.skipped as u64).as_str());
    out.append(" skipped.\nNo game files or prefixes were changed.\n");
    out
}

/// The exit code. Part of the job succeeding is a success for the caller even
/// if some games had to be skipped; failure is reported only when nothing was
/// added at all.
pub open spec fn import_code(t: Tally) -> i32 {
    if t.imported == 0 && t.skipped > 0 {
        2
    } else {
        0
    }
}

pub fn import_exit(t: &Tally) -> (code: i32)
    ensures
        code == import_code(*t),
{
    if t.imported == 0 && t.skipped > 0 {
        2
    } else {
        0
    }
}

// ------------------------------------------------- what holds of the blockers

/// Whether Lutris has a game already, by its slug, its executable or its
/// application id.
pub open spec fn lutris_has(p: PlannedView, e: Entry) -> bool {
    ||| p.name is Some && e.slug@ == slug_of(p.name->Some_0)
    ||| p.exe is Some && e.exe is Some && alike(e.exe->Some_0@, p.exe->Some_0)
    ||| p.appid is Some && e.appid is Some && e.appid->Some_0@ == p.appid->Some_0
}

/// Whether a planned game can be imported.
pub open spec fn can_be_imported(p: PlannedView, before: Seq<Entry>) -> bool {
    &&& p.name is Some && exists|i: int|
        0 <= i < p.name->Some_0.len() && !is_blank(#[trigger] p.name->Some_0[i])
    &&& p.exe is Some ==> p.exe_there
    &&& p.exe is Some || p.appid is Some
    &&& p.runner != Some("steam"@)
    &&& forall|i: int| 0 <= i < before.len() ==> !lutris_has(p, #[trigger] before[i])
}

proof fn lemma_has_a_name(p: PlannedView)
    ensures
        trimmed(or_empty(p.name)).len() > 0 <==> p.name is Some && exists|i: int|
            0 <= i < p.name->Some_0.len() && !is_blank(#[trigger] p.name->Some_0[i]),
{
    let t = or_empty(p.name);
    let cut = lemma_trimmed_is_the_middle(t, Edge::Blank);
    if trimmed(t).len() == 0 {
        assert forall|i: int| 0 <= i < t.len() implies is_blank(#[trigger] t[i]) by {
            assert(on_edge(Edge::Blank, t[i]));
        }
    } else {
        assert(!on_edge(Edge::Blank, t[cut.0]));
        assert(!is_blank(p.name->Some_0[cut.0]));
    }
}

/// A planned game is held back exactly where it cannot be imported, and for the
/// reason that is told.
pub proof fn lemma_blockers_have_a_reason(p: PlannedView, before: Seq<Entry>)
    ensures
        blocker_of(p, before) is None <==> can_be_imported(p, before),
        blocker_of(p, before) == Some(Blocker::NoName) <==> !(p.name is Some && exists|i: int|
            0 <= i < p.name->Some_0.len() && !is_blank(#[trigger] p.name->Some_0[i])),
        blocker_of(p, before) == Some(Blocker::ExeGone) ==> p.exe is Some && !p.exe_there,
        blocker_of(p, before) == Some(Blocker::NothingToRun) ==> p.exe is None && p.appid is None,
        blocker_of(p, before) == Some(Blocker::Steam) ==> p.runner == Some("steam"@),
        blocker_of(p, before) == Some(Blocker::Known) ==> exists|i: int|
            0 <= i < before.len() && lutris_has(p, #[trigger] before[i]),
{
    lemma_has_a_name(p);
    if trimmed(or_empty(p.name)).len() > 0 {
        assert forall|i: int| 0 <= i < before.len() implies lutris_has(p, #[trigger] before[i])
            == same_game(p, before[i]) by {}
        if already_there(p, before) {
            let i = choose|i: int| 0 <= i < before.len() && same_game(p, #[trigger] before[i]);
            assert(lutris_has(p, before[i]));
        }
        if exists|i: int| 0 <= i < before.len() && lutris_has(p, #[trigger] before[i]) {
            let i = choose|i: int| 0 <= i < before.len() && lutris_has(p, #[trigger] before[i]);
            assert(same_game(p, before[i]));
        }
    }
}

/// What is in the way is told with the file that is gone.
pub proof fn lemma_blocker_names_the_file(p: PlannedView)
    requires
        p.exe is Some,
    ensures
        mentions(blocker_text(p, Blocker::ExeGone), p.exe->Some_0),
{
    lemma_mentions_piece(seq![], p.exe->Some_0, " is no longer there"@);
}

// --------------------------------------------------- what holds of an import

/// An import ends early for one reason alone: something is in the way, or a step
/// of its own failed. A wait ends where it ran out and no entry appeared.
pub proof fn lemma_import_ends_for_a_reason(
    p: PlannedView,
    first: bool,
    before: Seq<Entry>,
    f: ImportFacts,
)
    requires
        f.entries is Got ==> f.entries->Got_0@.len() <= usize::MAX,
    ensures
        import_next(p, first, before, f) matches Next::Stop(Outcome::Skipped(b)) ==> blocker_of(
            p,
            before,
        ) == Some(b),
        import_next(p, first, before, f) == ImportNext::Stop(Outcome::NotRun) ==> f.install
            is Failed,
        import_next(p, first, before, f) == ImportNext::Stop(Outcome::TimedOut) ==> f.expired
            && f.entries is Got && forall|i: int|
            0 <= i < f.entries->Got_0@.len() ==> !is_landed(
                p,
                before,
                #[trigger] f.entries->Got_0@[i],
            ),
        import_next(p, first, before, f) matches Next::Stop(Outcome::Added(_)) ==> f.record is Got,
        import_next(p, first, before, f) matches Next::Failed(s) ==> (s is WriteDefinition
            && f.write is Failed) || (s is Record && f.record is Failed),
{
    if f.entries is Got {
        lemma_landed_least(p, before, f.entries->Got_0@);
        lemma_landed(p, before, f.entries->Got_0@);
    }
}

proof fn lemma_landed_least(p: PlannedView, before: Seq<Entry>, after: Seq<Entry>)
    ensures
        forall|k: int|
            0 <= k < landed_at(p, before, after) && k < after.len() ==> !is_landed(
                p,
                before,
                #[trigger] after[k],
            ),
    decreases after.len(),
{
    if after.len() > 0 && !is_landed(p, before, after[0]) {
        let rest = after.skip(1);
        lemma_landed_least(p, before, rest);
        assert forall|k: int|
            0 <= k < landed_at(p, before, after) && k < after.len() implies !is_landed(
            p,
            before,
            #[trigger] after[k],
        ) by {
            if k > 0 {
                assert(rest[k - 1] == after[k]);
            }
        }
    }
}

/// A game that can be imported goes through: its definition is written, Lutris
/// is looked for before the first game and only then, it is asked to install,
/// and its entries are read until one is the game's. The first of those is what
/// is recorded and told.
pub proof fn lemma_import_goes_through(
    p: PlannedView,
    first: bool,
    before: Seq<Entry>,
    f: ImportFacts,
    at: int,
)
    requires
        can_be_imported(p, before),
    ensures
        f.write is NotYet ==> import_next(p, first, before, f) == ImportNext::Take(
            ImportStep::WriteDefinition,
        ),
        f.write is Got && first && f.running is NotYet ==> import_next(p, first, before, f)
            == ImportNext::Take(ImportStep::LookForLutris),
        f.write is Got && (!first || f.running is Got) && f.install is NotYet ==> import_next(
            p,
            first,
            before,
            f,
        ) == ImportNext::Take(ImportStep::Install),
        f.write is Got && (!first || f.running is Got) && f.install is Got && f.entries is NotYet
            ==> import_next(p, first, before, f) == ImportNext::Take(ImportStep::ReadEntries),
        f.write is Got && (!first || f.running is Got) && f.install is Got && f.entries is Got
            && f.entries->Got_0@.len() <= usize::MAX && 0 <= at < f.entries->Got_0@.len()
            && is_landed(p, before, f.entries->Got_0@[at]) && (forall|k: int|
            0 <= k < at ==> !is_landed(p, before, #[trigger] f.entries->Got_0@[k])) ==> {
            &&& f.record is NotYet ==> import_next(p, first, before, f) == ImportNext::Take(
                ImportStep::Record(at as usize),
            )
            &&& f.record is Got ==> import_next(p, first, before, f) == ImportNext::Stop(
                Outcome::Added(at as usize),
            )
        },
        f.write is Got && (!first || f.running is Got) && f.install is Got && f.entries is Got
            && !f.expired && (forall|k: int|
            0 <= k < f.entries->Got_0@.len() ==> !is_landed(
                p,
                before,
                #[trigger] f.entries->Got_0@[k],
            )) ==> import_next(p, first, before, f) == ImportNext::Take(ImportStep::Wait),
{
    lemma_blockers_have_a_reason(p, before);
    if f.entries is Got {
        let all = f.entries->Got_0@;
        if 0 <= at < all.len() && is_landed(p, before, all[at]) && (forall|k: int|
            0 <= k < at ==> !is_landed(p, before, #[trigger] all[k])) {
            lemma_landed_at(p, before, all, at);
        }
        if forall|k: int| 0 <= k < all.len() ==> !is_landed(p, before, #[trigger] all[k]) {
            lemma_landed_at(p, before, all, all.len() as int);
        }
    }
}

/// An entry is what became of a game where it was not there before and has a
/// slug that starts with the game's, or its executable, or none where the game
/// has none either.
pub proof fn lemma_what_a_game_becomes(p: PlannedView, before: Seq<Entry>, e: Entry)
    requires
        p.name is Some,
    ensures
        is_landed(p, before, e) ==> forall|i: int|
            0 <= i < before.len() ==> !alike((#[trigger] before[i]).config@, e.config@),
        is_landed(p, before, e) ==> is_start(slug_of(p.name->Some_0), e.slug@) || (p.exe is Some
            && e.exe is Some && alike(e.exe->Some_0@, p.exe->Some_0)) || (p.exe is None && e.exe
            is None),
        (forall|i: int|
            0 <= i < before.len() ==> !alike((#[trigger] before[i]).config@, e.config@)) && (
        is_start(slug_of(p.name->Some_0), e.slug@) || (p.exe is Some && e.exe is Some && alike(
            e.exe->Some_0@,
            p.exe->Some_0,
        )) || (p.exe is None && e.exe is None)) ==> is_landed(p, before, e),
{
    lemma_begins_is_start(e.slug@, slug_of(p.name->Some_0));
}

/// A wait is over after two minutes and not a second sooner.
pub proof fn lemma_how_long_a_wait_is(started: u64, now: u64)
    ensures
        wait_is_over(started, now) <==> now - started >= 120,
{
}

// ------------------------------------------------------ what holds of a plan

/// A plan is read exactly where it is of schema 1 and has a game, and every game
/// of it is read, in order.
pub proof fn lemma_which_plans_are_read(m: Map<Seq<char>, Value>)
    ensures
        plan_in(Value::Object(m)) is Ok <==> m.contains_key("schema"@) && m["schema"@] is Number
            && whole(m["schema"@]->Number_0) == Some(1u64) && m.contains_key("games"@)
            && m["games"@] is Array && m["games"@]->Array_0.len() > 0,
        plan_in(Value::Object(m)) matches Ok(games) ==> games.len() == m["games"@]->Array_0.len()
            && forall|i: int|
            0 <= i < games.len() ==> #[trigger] games[i] == planned_in(m["games"@]->Array_0[i]),
        plan_in(Value::Null) is Err,
{
}

/// A game of a plan has the texts that stand under its own keys. What is no text
/// is none, and no executable counts as there before it was looked at.
pub proof fn lemma_what_a_planned_game_is(m: Map<Seq<char>, Value>, t: Seq<char>)
    ensures
        planned_in(Value::Object(m)).name == Some(t) <==> m.contains_key("name"@) && m["name"@]
            == Value::Text(t),
        planned_in(Value::Object(m)).runner == Some(t) <==> m.contains_key("runner"@)
            && m["runner"@] == Value::Text(t),
        planned_in(Value::Object(m)).exe == Some(t) <==> m.contains_key("exe"@) && m["exe"@]
            == Value::Text(t),
        planned_in(Value::Object(m)).appid == Some(t) <==> m.contains_key("appid"@)
            && m["appid"@] == Value::Text(t),
        planned_in(Value::Object(m)).prefix == Some(t) <==> m.contains_key("prefix"@)
            && m["prefix"@] == Value::Text(t),
        planned_in(Value::Object(m)).working_dir == Some(t) <==> m.contains_key("working_dir"@)
            && m["working_dir"@] == Value::Text(t),
        !planned_in(Value::Object(m)).exe_there,
{
}

/// What is handed to Lutris is what was planned, under the slug of the name. The
/// runner is the one that was planned, or Wine where none was.
pub proof fn lemma_what_is_handed_over(d: Definition, p: PlannedView)
    requires
        defines(d, p),
        p.name is Some,
    ensures
        d.name@ == p.name->Some_0,
        d.slug@ == slug_of(p.name->Some_0),
        p.runner is Some ==> d.runner@ == p.runner->Some_0,
        p.runner is None ==> d.runner@ == "wine"@,
        p.exe is Some <==> d.exe is Some,
        p.exe is Some ==> d.exe->Some_0@ == p.exe->Some_0,
        p.appid is Some <==> d.appid is Some,
        p.appid is Some ==> d.appid->Some_0@ == p.appid->Some_0,
        p.prefix is Some <==> d.prefix is Some,
        p.prefix is Some ==> d.prefix->Some_0@ == p.prefix->Some_0,
        p.working_dir is Some <==> d.working_dir is Some,
        p.working_dir is Some ==> d.working_dir->Some_0@ == p.working_dir->Some_0,
{
}

// ---------------------------------------------------- what holds of the words

/// A game counts as added where it was, as handed over where it was not held
/// back, and each counts once. A run that added nothing and had games to add
/// ends in the exit code of a failure, and no other does.
pub proof fn lemma_each_game_counts_once(
    a: Seq<Outcome>,
    b: Seq<Outcome>,
    e: Outcome,
    t: Tally,
)
    ensures
        imported_in(a + b) == imported_in(a) + imported_in(b),
        processed_in(a + b) == processed_in(a) + processed_in(b),
        imported_in(seq![e]) == if e is Added { 1nat } else { 0nat },
        processed_in(seq![e]) == if e is Skipped { 0nat } else { 1nat },
        import_code(t) == 2 <==> t.imported == 0 && t.skipped > 0,
        import_code(t) != 2 ==> import_code(t) == 0,
    decreases b.len(),
{
    assert(seq![e].drop_last() =~= Seq::<Outcome>::empty());
    assert(imported_in(seq![e].drop_last()) == 0);
    assert(processed_in(seq![e].drop_last()) == 0);
    if b.len() == 0 {
        assert(a + b =~= a);
    } else {
        lemma_each_game_counts_once(a, b.drop_last(), e, t);
        assert((a + b).drop_last() =~= a + b.drop_last());
        assert((a + b).last() == b.last());
    }
}

proof fn lemma_previews(games: Seq<PlannedView>, before: Seq<Entry>, i: int)
    requires
        0 <= i < games.len(),
    ensures
        mentions(previews(games, before), preview_text(games[i], before)),
    decreases games.len(),
{
    let head = previews(games.drop_last(), before);
    let line = preview_text(games.last(), before);
    if i == games.len() - 1 {
        lemma_mentions_piece(head, line, seq![]);
    } else {
        lemma_previews(games.drop_last(), before, i);
        lemma_mentions_in(seq![], head, line, preview_text(games[i], before));
    }
}

/// A dry run has a line for every game of the plan, which says that it would be
/// added or why not.
pub proof fn lemma_dry_run_tells_every_game(
    packaging: Packaging,
    games: Seq<PlannedView>,
    before: Seq<Entry>,
    i: int,
)
    requires
        0 <= i < games.len(),
        games[i].name is Some,
    ensures
        can_be_imported(games[i], before) ==> mentions(
            dry_run_text(packaging, games, before),
            "  add   "@ + games[i].name->Some_0 + "\n"@,
        ),
        blocker_of(games[i], before) matches Some(b) ==> mentions(
            dry_run_text(packaging, games, before),
            "  skip  "@ + games[i].name->Some_0 + ": "@ + blocker_text(games[i], b) + "\n"@,
        ),
{
    lemma_blockers_have_a_reason(games[i], before);
    let line = preview_text(games[i], before);
    lemma_previews(games, before, i);
    let head = "Lutris      "@ + packaging.label_text() + " install\nDry run     "@ + decimal_of(
        games.len(),
    ) + " games in the plan\n\n"@;
    lemma_mentions_in(
        head,
        previews(games, before),
        "\nNothing was changed and Lutris was not started.\n"@,
        line,
    );
}

/// What is said at the end of a game's import names the game that was held back
/// and why, the config it became, or why Lutris could not be run.
pub proof fn lemma_closing_says_what_came_of_it(
    o: Options,
    p: PlannedView,
    done: usize,
    total: usize,
    f: ImportFacts,
    e: Outcome,
    message: Seq<char>,
)
    requires
        p.name is Some,
    ensures
        e matches Outcome::Skipped(b) ==> import_closing_text(o, p, done, total, f, e, message)
            == "  skipped "@ + p.name->Some_0 + ": "@ + blocker_text(p, b) + "\n"@,
        e is NotRun ==> mentions(import_closing_text(o, p, done, total, f, e, message), message),
        e matches Outcome::Added(at) ==> (f.entries is Got && at < f.entries->Got_0@.len()
            ==> mentions(
            import_closing_text(o, p, done, total, f, e, message),
            f.entries->Got_0@[at as int].config@,
        )),
{
    match e {
        Outcome::NotRun => {
            let a = asked_text(o, done, total, f) + "    could not run Lutris: "@;
            lemma_mentions_piece(a, message, "\n"@);
        },
        Outcome::Added(at) => {
            lemma_mentions_piece("    added, config at "@, config_at(f, at), "\n"@);
        },
        _ => {},
    }
}

/// Definitions and records are kept apart, each in a directory of its own, under
/// the slug of the game.
pub proof fn lemma_where_definitions_and_records_are(state_dir: Seq<char>, slug: Seq<char>)
    requires
        slug.len() > 0,
        !slug.contains('/'),
    ensures
        steps(definition_file(state_dir, slug)) == steps(state_dir).push("definitions"@).push(
            slug + ".yml"@,
        ),
        steps(record_file(state_dir, slug)) == steps(state_dir).push("imports"@).push(
            slug + ".json"@,
        ),
{
    reveal_strlit(".");
    reveal_strlit("definitions");
    reveal_strlit("imports");
    reveal_strlit(".yml");
    reveal_strlit(".json");
    let a = slug + ".yml"@;
    let b = slug + ".json"@;
    assert forall|k: int| 0 <= k < slug.len() implies slug[k] != '/' by {}
    assert forall|k: int| 0 <= k < a.len() implies a[k] != '/' by {
        if k < slug.len() {
            assert(a[k] == slug[k]);
        }
    }
    assert forall|k: int| 0 <= k < b.len() implies b[k] != '/' by {
        if k < slug.len() {
            assert(b[k] == slug[k]);
        }
    }
    assert("definitions"@.len() == 11 && "imports"@.len() == 7 && "."@.len() == 1);
    lemma_steps_under(state_dir, "definitions"@);
    lemma_steps_under(state_dir, "imports"@);
    lemma_steps_under(under(state_dir, "definitions"@), a);
    lemma_steps_under(under(state_dir, "imports"@), b);
}


/// Each game is named before Lutris is asked about it. A machine is told that
/// Lutris opens only before the first game and only when it was not running;
/// in every other case it is told how many games are done.
pub proof fn lemma_import_tells_each_game(
    o: Options,
    p: PlannedView,
    done: usize,
    total: usize,
    f: ImportFacts,
)
    requires
        p.name is Some,
    ensures
        mentions(
            import_announcement(o, p, 0, total, f, ImportStep::LookForLutris),
            p.name->Some_0,
        ),
        done > 0 ==> mentions(
            import_announcement(o, p, done, total, f, ImportStep::Install),
            p.name->Some_0,
        ),
        o.json && done == 0 && f.running != Known::Got(true) ==> import_announcement(
            o,
            p,
            done,
            total,
            f,
            ImportStep::Install,
        ) == event_line("lutris_opening"@, seq![], seq![]),
        o.json && (done > 0 || f.running == Known::Got(true)) ==> mentions(
            import_announcement(o, p, done, total, f, ImportStep::Install),
            event_line(
                "lutris_adding"@,
                seq!["done"@, "total"@],
                seq![decimal_of(done as nat), decimal_of(total as nat)],
            ),
        ),
        o.json && (done > 0 || f.running != Known::Got(true)) ==> mentions(
            import_announcement(o, p, done, total, f, ImportStep::ReadEntries),
            event_line(
                "lutris_adding"@,
                seq!["done"@, "total"@],
                seq![decimal_of(done as nat), decimal_of(total as nat)],
            ),
        ),
        done == 0 && f.running == Known::Got(true) && f.install == Known::<i32>::Got(0)
            ==> import_announcement(
            o,
            p,
            done,
            total,
            f,
            ImportStep::ReadEntries,
        ).len() == 0,
        f.install is Got && f.install->Got_0 != 0 ==> mentions(
            import_announcement(o, p, done, total, f, ImportStep::ReadEntries),
            " exited with status "@ + signed_of(f.install->Got_0 as int),
        ),
        !o.json && f.install == Known::<i32>::Got(0) ==> import_announcement(
            o,
            p,
            done,
            total,
            f,
            ImportStep::ReadEntries,
        ).len() == 0,
        f.waiting ==> import_announcement(o, p, done, total, f, ImportStep::Wait).len() == 0,
        !f.waiting ==> import_announcement(o, p, done, total, f, ImportStep::Wait).len() > 0,
{
    let name = p.name->Some_0;
    lemma_mentions_piece("  "@, name, "\n"@);
    let phase = phase_text(o, done, total, f);
    lemma_mentions_in(seq![], "  "@ + name + "\n"@, phase, name);
    lemma_mentions_piece("  "@ + name + "\n"@, phase, seq![]);
    lemma_mentions_self(phase);
    lemma_mentions_piece(seq![], asked_text(o, done, total, f), exit_text(f));
    if f.install is Got && f.install->Got_0 != 0 {
        let status = signed_of(f.install->Got_0 as int);
        reveal_strlit("    Lutris exited with status ");
        reveal_strlit("    Lutris");
        reveal_strlit(" exited with status ");
        assert("    Lutris exited with status "@ =~= "    Lutris"@ + " exited with status "@);
        let tail = " (its install dialog may have been cancelled)\n"@;
        assert(exit_text(f) =~= "    Lutris"@ + (" exited with status "@ + status) + tail);
        lemma_mentions_piece("    Lutris"@, " exited with status "@ + status, tail);
        lemma_mentions_in(
            asked_text(o, done, total, f),
            exit_text(f),
            seq![],
            " exited with status "@ + status,
        );
    }
    reveal_strlit("    Waiting for you to finish the Lutris dialog…\n");
}


/// What could not be done ends a game: a definition or a record that could not
/// be written fails it, Lutris that could not be run leaves it out, and a wait
/// that is over is not taken up again.
pub proof fn lemma_what_ends_a_game(
    p: PlannedView,
    first: bool,
    before: Seq<Entry>,
    f: ImportFacts,
    at: int,
)
    requires
        can_be_imported(p, before),
    ensures
        f.write is Failed ==> import_next(p, first, before, f) == ImportNext::Failed(
            ImportStep::WriteDefinition,
        ),
        f.write is Got && (!first || f.running is Got) && f.install is Failed ==> import_next(
            p,
            first,
            before,
            f,
        ) == ImportNext::Stop(Outcome::NotRun),
        f.write is Got && (!first || f.running is Got) && f.install is Got && f.entries is Got
            && f.entries->Got_0@.len() <= usize::MAX && 0 <= at < f.entries->Got_0@.len()
            && is_landed(p, before, f.entries->Got_0@[at]) && (forall|k: int|
            0 <= k < at ==> !is_landed(p, before, #[trigger] f.entries->Got_0@[k])) && f.record
            is Failed ==> import_next(p, first, before, f) == ImportNext::Failed(
            ImportStep::Record(at as usize),
        ),
        f.write is Got && (!first || f.running is Got) && f.install is Got && f.entries is Got
            && f.expired && (forall|k: int|
            0 <= k < f.entries->Got_0@.len() ==> !is_landed(
                p,
                before,
                #[trigger] f.entries->Got_0@[k],
            )) ==> import_next(p, first, before, f) == ImportNext::Stop(Outcome::TimedOut),
        import_next(p, first, before, f) == ImportNext::Take(ImportStep::Install) ==> f.write is Got
            && (first ==> f.running is Got),
        import_next(p, first, before, f) == ImportNext::Take(ImportStep::ReadEntries) ==> f.install
            is Got,
        import_next(p, first, before, f) == ImportNext::Take(ImportStep::Wait) ==> f.entries is Got
            && !f.expired,
{
    lemma_blockers_have_a_reason(p, before);
    if f.entries is Got {
        let all = f.entries->Got_0@;
        if 0 <= at < all.len() && is_landed(p, before, all[at]) && (forall|k: int|
            0 <= k < at ==> !is_landed(p, before, #[trigger] all[k])) {
            lemma_landed_at(p, before, all, at);
        }
        if forall|k: int| 0 <= k < all.len() ==> !is_landed(p, before, #[trigger] all[k]) {
            lemma_landed_at(p, before, all, all.len() as int);
        }
    }
}


/// How an import that waited in vain says so, what its end tells, and what it
/// says before it starts.
pub proof fn lemma_what_an_import_says(
    o: Options,
    p: PlannedView,
    done: usize,
    total: usize,
    f: ImportFacts,
    message: Seq<char>,
    t: Tally,
    packaging: Packaging,
    count: usize,
)
    ensures
        mentions(
            import_closing_text(o, p, done, total, f, Outcome::TimedOut, message),
            " within "@ + decimal_of(120) + "s."@,
        ),
        mentions(
            import_end_text(t),
            decimal_of(t.imported as nat) + " added, "@ + decimal_of(t.skipped as nat)
                + " skipped."@,
        ),
        o.json ==> import_start_text(o) == event_line("lutris_preparing"@, seq![], seq![]),
        !o.json ==> import_start_text(o).len() == 0,
        mentions(
            import_header_text(packaging, count),
            "\nImporting   "@ + decimal_of(count as nat) + " games\n"@,
        ),
        packaging is Native ==> mentions(import_header_text(packaging, count), "native"@),
        packaging is Flatpak ==> mentions(import_header_text(packaging, count), "flatpak"@),
        p.name is None ==> mentions(
            import_announcement(o, p, done, total, f, ImportStep::LookForLutris),
            "unnamed"@,
        ),
{
    reveal_strlit("    Lutris did not report a new entry within ");
    reveal_strlit("    Lutris did not report a new entry");
    reveal_strlit(" within ");
    reveal_strlit("s. Check Lutris manually.\n");
    reveal_strlit("s.");
    reveal_strlit(" Check Lutris manually.\n");
    let head = "    Lutris did not report a new entry"@;
    let tail = " Check Lutris manually.\n"@;
    let part = " within "@ + decimal_of(120) + "s."@;
    assert(timed_out_text() =~= head + part + tail);
    lemma_mentions_piece(head, part, tail);
    lemma_import_end_tells(t);
    lemma_import_header_tells(packaging, count);
    lemma_mentions_piece("  "@, title_of(p), "\n"@);
}

proof fn lemma_import_end_tells(t: Tally)
    ensures
        mentions(
            import_end_text(t),
            decimal_of(t.imported as nat) + " added, "@ + decimal_of(t.skipped as nat)
                + " skipped."@,
        ),
{
    reveal_strlit(" skipped.\nNo game files or prefixes were changed.\n");
    reveal_strlit(" skipped.");
    reveal_strlit("\nNo game files or prefixes were changed.\n");
    let tail = "\nNo game files or prefixes were changed.\n"@;
    let part = decimal_of(t.imported as nat) + " added, "@ + decimal_of(t.skipped as nat)
        + " skipped."@;
    assert(import_end_text(t) =~= "\n"@ + part + tail);
    lemma_mentions_piece("\n"@, part, tail);
}

proof fn lemma_import_header_tells(packaging: Packaging, count: usize)
    ensures
        mentions(
            import_header_text(packaging, count),
            "\nImporting   "@ + decimal_of(count as nat) + " games\n"@,
        ),
        packaging is Native ==> mentions(import_header_text(packaging, count), "native"@),
        packaging is Flatpak ==> mentions(import_header_text(packaging, count), "flatpak"@),
{
    reveal_strlit(" install\nImporting   ");
    reveal_strlit(" install");
    reveal_strlit("\nImporting   ");
    reveal_strlit(
        " games\n\nLutris shows its own dialog for each game. Confirm each one there.\n\n",
    );
    reveal_strlit(" games\n");
    reveal_strlit("\nLutris shows its own dialog for each game. Confirm each one there.\n\n");
    let tail = "\nLutris shows its own dialog for each game. Confirm each one there.\n\n"@;
    let head = "Lutris      "@ + packaging.label_text() + " install"@;
    let part = "\nImporting   "@ + decimal_of(count as nat) + " games\n"@;
    assert(import_header_text(packaging, count) =~= head + part + tail);
    lemma_mentions_piece(head, part, tail);
    lemma_mentions_piece("Lutris      "@, packaging.label_text(), " install"@);
    lemma_mentions_in(seq![], head, part, packaging.label_text());
    lemma_mentions_in(seq![], head + part, tail, packaging.label_text());
}

} // verus!
