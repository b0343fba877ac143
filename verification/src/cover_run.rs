//! Fetching missing cover art.
//!
//! Lutris resolves a game's cover as a file in its own `coverart` directory,
//! named after the game's slug, so putting one there is all it takes. Nothing
//! here reads or writes Lutris's database, and nothing is ever deleted: a cover
//! left over for a game that is no longer installed is simply ignored.

use vstd::prelude::*;
use vstd::utf8::*;

use crate::covers::{
    best_index, find_best, is_start, lemma_begins_is_start, Art, Game, MAX_MATCHES, Match,
};
use crate::document::{
    event_field, event_line, event_start, json_string, json_text, lemma_event_ends,
    lemma_event_field,
};
use crate::json::{parsed, MAX_BYTES, Value};
use crate::library::Options;
use crate::protocol::{Known, Next};
use crate::text::{
    begins, cat3, cat5, decimal, decimal_of, ends, join, joined, lemma_joined_mentions,
    lemma_mentions_in, lemma_mentions_piece, lemma_mentions_through, lemma_padded, lemma_views_push,
    mentions, pad, padded, same_text, starts_with, unsigned, unsigned_of, views,
};
use crate::written::{
    lemma_decimal_is_digits, lemma_event_reads_back, lemma_reads_number, lemma_reads_text,
    lemma_with_members, reads_as,
};

verus! {

// --------------------------------------------------------------- listing them

/// The games without a cover.
pub open spec fn bare_of(all: Seq<Game>) -> Seq<Game>
    decreases all.len(),
{
    if all.len() == 0 {
        seq![]
    } else if all.last().cover is None {
        bare_of(all.drop_last()).push(all.last())
    } else {
        bare_of(all.drop_last())
    }
}

pub open spec fn missing_line_text(g: Game) -> Seq<char> {
    "  "@ + g.name@ + "  ("@ + g.slug@ + ")\n"@
}

fn missing_line(g: &Game) -> (out: String)
    ensures
        out@ == missing_line_text(*g),
{
    let mut out = "  ".to_owned();
    out.append(g.name.as_str());
    out.append("  (");
    out.append(g.slug.as_str());
    out.append(")\n");
    out
}

pub open spec fn missing_row_text(g: Game) -> Seq<char> {
    "    {\"slug\": "@ + json_text(g.slug@) + ", \"name\": "@ + json_text(g.name@) + "}"@
}

fn missing_row(g: &Game) -> (out: String)
    ensures
        out@ == missing_row_text(*g),
{
    let mut out = "    {\"slug\": ".to_owned();
    out.append(json_string(g.slug.as_str()).as_str());
    out.append(", \"name\": ");
    out.append(json_string(g.name.as_str()).as_str());
    out.append("}");
    out
}

pub open spec fn missing_lines(games: Seq<Game>) -> Seq<char>
    decreases games.len(),
{
    if games.len() == 0 {
        seq![]
    } else {
        missing_lines(games.drop_last()) + missing_line_text(games.last())
    }
}

pub open spec fn missing_rows(games: Seq<Game>) -> Seq<Seq<char>> {
    games.map_values(|g: Game| missing_row_text(g))
}

/// What has no cover, for machines.
pub open spec fn covers_list_json_text(bare: Seq<Game>) -> Seq<char> {
    "{\n  \"schema\": 1,\n  \"missing\": [\n"@ + joined(missing_rows(bare), ",\n"@) + "\n  ]\n}\n"@
}

fn covers_list_json(rows: &Vec<String>, Ghost(bare): Ghost<Seq<Game>>) -> (out: String)
    requires
        views(rows@) == missing_rows(bare),
    ensures
        out@ == covers_list_json_text(bare),
{
    cat3(
        "{\n  \"schema\": 1,\n  \"missing\": [\n",
        join(rows, ",\n").as_str(),
        "\n  ]\n}\n",
    )
}

/// What is listed. Listing is offline and needs no key: it only reports what is
/// on disk.
pub open spec fn covers_list_text(json: bool, all: Seq<Game>) -> Seq<char> {
    let bare = bare_of(all);
    if json {
        covers_list_json_text(bare)
    } else if bare.len() == 0 {
        "Every game in Lutris already has cover art.\n"@
    } else {
        decimal_of(bare.len()) + " of "@ + decimal_of(all.len()) + " games have no cover art:\n"@
            + missing_lines(bare) + "\nFetch them with:\n    librarybridge lutris covers\n"@
    }
}

/// List the games without a cover.
pub fn covers_list(o: &Options, all: &Vec<Game>) -> (out: String)
    ensures
        out@ == covers_list_text(o.json, all@),
{
    let mut rows: Vec<String> = Vec::new();
    let mut lines = String::new();
    assert(views(rows@) =~= missing_rows(bare_of(all@.take(0))));
    for i in 0..all.len()
        invariant
            views(rows@) == missing_rows(bare_of(all@.take(i as int))),
            lines@ == missing_lines(bare_of(all@.take(i as int))),
            rows@.len() == bare_of(all@.take(i as int)).len(),
    {
        let ghost had = bare_of(all@.take(i as int));
        assert(all@.take(i + 1).drop_last() =~= all@.take(i as int));
        if all[i].cover.is_none() {
            let row = missing_row(&all[i]);
            proof {
                lemma_views_push(rows@, row);
                assert(missing_rows(had.push(all@[i as int])) =~= missing_rows(had).push(row@));
                assert(had.push(all@[i as int]).drop_last() =~= had);
            }
            rows.push(row);
            lines.append(missing_line(&all[i]).as_str());
        }
    }
    assert(all@.take(all@.len() as int) =~= all@);
    if o.json {
        covers_list_json(&rows, Ghost(bare_of(all@)))
    } else if rows.len() == 0 {
        "Every game in Lutris already has cover art.\n".to_owned()
    } else {
        let mut out = decimal(rows.len() as u64);
        out.append(" of ");
        out.append(decimal(all.len() as u64).as_str());
        out.append(" games have no cover art:\n");
        out.append(lines.as_str());
        out.append("\nFetch them with:\n    librarybridge lutris covers\n");
        out
    }
}

// ------------------------------------------------------------ what to work on

/// Why fetching is refused.
#[derive(Debug, Clone, Copy, PartialEq, Eq, Structural)]
pub enum CoverRefusal {
    BadId,
    NoGame,
    /// So many games match.
    Several(usize),
}

/// What is worked on: which games by their places, which id if one is pinned,
/// and whether covers that are there are replaced.
#[derive(Debug)]
pub struct Work {
    pub targets: Vec<usize>,
    pub pinned: Option<u64>,
    pub replace: bool,
}

/// The id that is pinned. It is checked once, not per game, so a typo fails
/// immediately.
pub open spec fn pinned_of(o: Options) -> Result<Option<u64>, CoverRefusal> {
    match o.cover_match {
        None => Ok(None),
        Some(value) => match unsigned_of(value@) {
            Some(id) => Ok(Some(id)),
            None => Err(CoverRefusal::BadId),
        },
    }
}

/// Picking a cover by id is an explicit choice, so it replaces whatever is there
/// without also needing to be told to.
pub open spec fn replaces(o: Options) -> bool {
    o.overwrite || o.cover_match is Some
}

/// The place of the first game with a slug, or the number of games.
pub open spec fn with_slug(all: Seq<Game>, slug: Seq<char>) -> int
    decreases all.len(),
{
    if all.len() == 0 || all[0].slug@ == slug {
        0
    } else {
        1 + with_slug(all.skip(1), slug)
    }
}

/// The game whose slug was given in full, by its place.
pub open spec fn named(o: Options, all: Seq<Game>) -> Option<usize> {
    match o.game {
        Some(wanted) => if with_slug(all, wanted@) < all.len() {
            Some(with_slug(all, wanted@) as usize)
        } else {
            None
        },
        None => None,
    }
}

/// Whether a game is one that is asked for, where none is named in full.
pub open spec fn is_wanted(o: Options, g: Game) -> bool {
    match o.game {
        Some(wanted) => begins(g.slug@, wanted@),
        None => replaces(o) || g.cover is None,
    }
}

/// The games that are asked for, by their places.
pub open spec fn wanted_in(o: Options, all: Seq<Game>) -> Seq<usize>
    decreases all.len(),
{
    if all.len() == 0 {
        seq![]
    } else if is_wanted(o, all.last()) {
        wanted_in(o, all.drop_last()).push((all.len() - 1) as usize)
    } else {
        wanted_in(o, all.drop_last())
    }
}

/// What is worked on, or why nothing is. A full slug names its game, whatever
/// other slugs start with it. A part of one has to be the start of only one.
pub open spec fn targets_of(o: Options, all: Seq<Game>) -> Result<Seq<usize>, CoverRefusal> {
    match pinned_of(o) {
        Err(r) => Err(r),
        Ok(_) => {
            let places = match named(o, all) {
                Some(at) => seq![at],
                None => wanted_in(o, all),
            };
            if o.game is None || places.len() == 1 {
                Ok(places)
            } else if places.len() == 0 {
                Err(CoverRefusal::NoGame)
            } else {
                Err(CoverRefusal::Several(places.len() as usize))
            }
        },
    }
}

fn wants(o: &Options, g: &Game) -> (yes: bool)
    ensures
        yes == is_wanted(*o, *g),
{
    match &o.game {
        Some(wanted) => starts_with(g.slug.as_str(), wanted.as_str()),
        None => o.overwrite || o.cover_match.is_some() || g.cover.is_none(),
    }
}

fn find_named(o: &Options, all: &Vec<Game>) -> (at: Option<usize>)
    ensures
        at == named(*o, all@),
        at matches Some(i) ==> i < all@.len(),
{
    let wanted = match &o.game {
        Some(wanted) => wanted,
        None => return None,
    };
    assert(all@.skip(0) =~= all@);
    for i in 0..all.len()
        invariant
            with_slug(all@, wanted@) == i + with_slug(all@.skip(i as int), wanted@),
            o.game == Some(*wanted),
    {
        if same_text(all[i].slug.as_str(), wanted.as_str()) {
            return Some(i);
        }
        assert(all@.skip(i as int).skip(1) =~= all@.skip(i + 1));
    }
    None
}

/// Choose what is worked on.
fn choose_targets(o: &Options, all: &Vec<Game>) -> (r: Result<Work, CoverRefusal>)
    ensures
        match targets_of(*o, all@) {
            Ok(places) => r matches Ok(w) && w.targets@ == places && Ok::<
                Option<u64>,
                CoverRefusal,
            >(w.pinned) == pinned_of(*o) && w.replace == replaces(*o),
            Err(e) => r matches Err(f) && f == e,
        },
        r matches Ok(w) ==> forall|k: int|
            0 <= k < w.targets@.len() ==> (#[trigger] w.targets@[k]) < all@.len(),
{
    let pinned = match &o.cover_match {
        None => None,
        Some(value) => match unsigned(value.as_str()) {
            Some(id) => Some(id),
            None => return Err(CoverRefusal::BadId),
        },
    };
    let replace = o.overwrite || o.cover_match.is_some();
    match find_named(o, all) {
        Some(at) => {
            let targets = vec![at];
            assert(targets@ =~= seq![at]);
            return Ok(Work { targets, pinned, replace });
        },
        None => {},
    }
    let mut targets: Vec<usize> = Vec::new();
    for i in 0..all.len()
        invariant
            targets@ == wanted_in(*o, all@.take(i as int)),
            forall|k: int| 0 <= k < targets@.len() ==> (#[trigger] targets@[k]) < all@.len(),
    {
        assert(all@.take(i + 1).drop_last() =~= all@.take(i as int));
        if wants(o, &all[i]) {
            targets.push(i);
        }
    }
    assert(all@.take(all@.len() as int) =~= all@);
    if o.game.is_some() && targets.len() != 1 {
        return Err(
            if targets.len() == 0 {
                CoverRefusal::NoGame
            } else {
                CoverRefusal::Several(targets.len())
            },
        );
    }
    Ok(Work { targets, pinned, replace })
}

/// What the command does.
#[derive(Debug)]
pub enum Covers {
    /// It lists what has no cover, from what is on disk.
    List,
    NoKey,
    Refused(CoverRefusal),
    /// Nothing is left to do.
    Nothing,
    /// It looks candidates up for one game, by its place, and downloads
    /// nothing.
    LookUp(usize),
    Fetch(Work),
}

/// Whether this is what the command does.
pub open spec fn does(o: Options, all: Seq<Game>, key: Option<String>, c: Covers) -> bool {
    if o.list_covers {
        c is List
    } else if key is None {
        c is NoKey
    } else {
        match targets_of(o, all) {
            Err(e) => c matches Covers::Refused(r) && r == e,
            Ok(places) => if places.len() == 0 {
                c is Nothing
            } else if o.matches {
                c matches Covers::LookUp(at) && at == places[0] && at < all.len()
            } else {
                c matches Covers::Fetch(w) && w.targets@ == places && Ok::<
                    Option<u64>,
                    CoverRefusal,
                >(w.pinned) == pinned_of(o) && w.replace == replaces(o) && (forall|k: int|
                    0 <= k < w.targets@.len() ==> (#[trigger] w.targets@[k]) < all.len())
            },
        }
    }
}

/// Decide what the command does. Listing needs no key; everything else asks
/// SteamGridDB and does.
pub fn covers(o: &Options, all: &Vec<Game>, key: &Option<String>) -> (c: Covers)
    ensures
        does(*o, all@, *key, c),
{
    if o.list_covers {
        return Covers::List;
    }
    if key.is_none() {
        return Covers::NoKey;
    }
    match choose_targets(o, all) {
        Err(r) => Covers::Refused(r),
        Ok(w) => if w.targets.len() == 0 {
            Covers::Nothing
        } else if o.matches {
            Covers::LookUp(w.targets[0])
        } else {
            Covers::Fetch(w)
        },
    }
}

pub open spec fn bad_id_text(value: Seq<char>) -> Seq<char> {
    "--match takes a SteamGridDB id (a number), not '"@ + value + "'"@
}

fn bad_id(value: &str) -> (out: String)
    ensures
        out@ == bad_id_text(value@),
{
    let mut out = "--match takes a SteamGridDB id (a number), not '".to_owned();
    out.append(value);
    out.append("'");
    out
}

pub open spec fn no_game_text(wanted: Seq<char>) -> Seq<char> {
    "no Lutris game matches '"@ + wanted
        + "'. Run `librarybridge lutris covers --list` to see the slugs."@
}

fn no_game(wanted: &str) -> (out: String)
    ensures
        out@ == no_game_text(wanted@),
{
    let mut out = "no Lutris game matches '".to_owned();
    out.append(wanted);
    out.append("'. Run `librarybridge lutris covers --list` to see the slugs.");
    out
}

pub open spec fn several_games_text(wanted: Seq<char>, count: usize) -> Seq<char> {
    "'"@ + wanted + "' matches "@ + decimal_of(count as nat) + " games. Use the full slug."@
}

fn several_games(wanted: &str, count: usize) -> (out: String)
    ensures
        out@ == several_games_text(wanted@, count),
{
    let mut out = "'".to_owned();
    out.append(wanted);
    out.append("' matches ");
    out.append(decimal(count as u64).as_str());
    out.append(" games. Use the full slug.");
    out
}

pub open spec fn cover_refusal_text(o: Options, r: CoverRefusal) -> Seq<char> {
    match r {
        CoverRefusal::BadId => bad_id_text(o.cover_match->Some_0@),
        CoverRefusal::NoGame => no_game_text(o.game->Some_0@),
        CoverRefusal::Several(n) => several_games_text(o.game->Some_0@, n),
    }
}

/// Say why fetching is refused.
pub fn cover_refusal(o: &Options, all: &Vec<Game>, r: CoverRefusal) -> (out: String)
    requires
        targets_of(*o, all@) == Err::<Seq<usize>, CoverRefusal>(r),
    ensures
        out@ == cover_refusal_text(*o, r),
{
    match r {
        CoverRefusal::BadId => match &o.cover_match {
            Some(value) => bad_id(value.as_str()),
            None => String::new(),
        },
        CoverRefusal::NoGame => match &o.game {
            Some(wanted) => no_game(wanted.as_str()),
            None => String::new(),
        },
        CoverRefusal::Several(n) => match &o.game {
            Some(wanted) => several_games(wanted.as_str(), n),
            None => String::new(),
        },
    }
}

/// Said where there is no key.
pub open spec fn no_key_text(key_path: Seq<char>) -> Seq<char> {
    "no SteamGridDB API key. Get one free at https://www.steamgriddb.com/profile/preferences/api, \
        then set SGDB_API_KEY, pass --apikey PATH, or save it to "@
        + key_path + "."@
}

pub fn no_key(key_path: &str) -> (out: String)
    ensures
        out@ == no_key_text(key_path@),
{
    let mut out = "no SteamGridDB API key. Get one free at \
        https://www.steamgriddb.com/profile/preferences/api, then set SGDB_API_KEY, pass --apikey \
        PATH, or save it to ".to_owned();
    out.append(key_path);
    out.append(".");
    out
}

/// Said where nothing is left to do.
pub open spec fn all_covered_text() -> Seq<char> {
    "Every game in Lutris already has cover art.\n"@
}

pub fn all_covered() -> (out: String)
    ensures
        out@ == all_covered_text(),
{
    "Every game in Lutris already has cover art.\n".to_owned()
}

/// The text that is searched for: what was given, or the game's name.
pub open spec fn query_of(o: Options, g: Game) -> Seq<char> {
    match o.query {
        Some(q) => q@,
        None => g.name@,
    }
}

pub fn query(o: &Options, g: &Game) -> (out: String)
    ensures
        out@ == query_of(*o, *g),
{
    match &o.query {
        Some(q) => q.clone(),
        None => g.name.clone(),
    }
}

// ------------------------------------------------------------ showing matches

/// The matches that are shown, which are the first few.
pub open spec fn few_of(found: Seq<Match>) -> Seq<Match> {
    found.take(if found.len() < MAX_MATCHES {
        found.len() as int
    } else {
        MAX_MATCHES as int
    })
}

pub fn shortlist(found: Vec<Match>) -> (few: Vec<Match>)
    ensures
        few@ == few_of(found@),
{
    let mut few = found;
    few.truncate(MAX_MATCHES);
    assert(found@.take(found@.len() as int) =~= found@);
    few
}

pub open spec fn thumb_text(m: Match) -> Seq<char> {
    match m.thumb {
        Some(t) => json_text(t@),
        None => "null"@,
    }
}

fn thumb(m: &Match) -> (out: String)
    ensures
        out@ == thumb_text(*m),
{
    match &m.thumb {
        Some(t) => json_string(t.as_str()),
        None => "null".to_owned(),
    }
}

pub open spec fn match_row_text(m: Match) -> Seq<char> {
    "    {\"id\": "@ + decimal_of(m.id as nat) + ", \"name\": "@ + json_text(m.name@)
        + ", \"thumb\": "@ + thumb_text(m) + "}"@
}

fn match_row(m: &Match) -> (out: String)
    ensures
        out@ == match_row_text(*m),
{
    let mut out = "    {\"id\": ".to_owned();
    out.append(decimal(m.id as u64).as_str());
    out.append(", \"name\": ");
    out.append(json_string(m.name.as_str()).as_str());
    out.append(", \"thumb\": ");
    out.append(thumb(m).as_str());
    out.append("}");
    out
}

pub open spec fn match_line_text(m: Match) -> Seq<char> {
    "  ["@ + decimal_of(m.id as nat) + "] "@ + m.name@ + "\n"@
}

fn match_line(m: &Match) -> (out: String)
    ensures
        out@ == match_line_text(*m),
{
    let mut out = "  [".to_owned();
    out.append(decimal(m.id as u64).as_str());
    out.append("] ");
    out.append(m.name.as_str());
    out.append("\n");
    out
}

pub open spec fn match_rows(found: Seq<Match>) -> Seq<Seq<char>> {
    found.map_values(|m: Match| match_row_text(m))
}

pub open spec fn match_lines(found: Seq<Match>) -> Seq<char>
    decreases found.len(),
{
    if found.len() == 0 {
        seq![]
    } else {
        match_lines(found.drop_last()) + match_line_text(found.last())
    }
}

/// The matches that were found, for machines.
pub open spec fn covers_matches_json_text(g: Game, query: Seq<char>, found: Seq<Match>) -> Seq<char> {
    "{\n  \"schema\": 1,\n  \"slug\": "@ + json_text(g.slug@) + ",\n  \"name\": "@ + json_text(
        g.name@,
    ) + ",\n  \"query\": "@ + json_text(query) + ",\n  \"matches\": [\n"@ + joined(
        match_rows(found),
        ",\n"@,
    ) + "\n  ]\n}\n"@
}

fn covers_matches_json(g: &Game, query: &str, found: &Vec<Match>) -> (out: String)
    ensures
        out@ == covers_matches_json_text(*g, query@, found@),
{
    let mut rows: Vec<String> = Vec::new();
    assert(views(rows@) =~= match_rows(found@.take(0)));
    for i in 0..found.len()
        invariant
            views(rows@) == match_rows(found@.take(i as int)),
    {
        let row = match_row(&found[i]);
        proof {
            lemma_views_push(rows@, row);
            assert(match_rows(found@.take(i + 1)) =~= match_rows(found@.take(i as int)).push(row@));
        }
        rows.push(row);
    }
    assert(found@.take(found@.len() as int) =~= found@);
    let mut out = "{\n  \"schema\": 1,\n  \"slug\": ".to_owned();
    out.append(json_string(g.slug.as_str()).as_str());
    out.append(",\n  \"name\": ");
    out.append(json_string(g.name.as_str()).as_str());
    out.append(",\n  \"query\": ");
    out.append(json_string(query).as_str());
    out.append(",\n  \"matches\": [\n");
    out.append(join(&rows, ",\n").as_str());
    out.append("\n  ]\n}\n");
    out
}

/// The matches that were found, as they are shown. Nothing is downloaded.
pub open spec fn covers_matches_text(
    json: bool,
    g: Game,
    query: Seq<char>,
    found: Seq<Match>,
) -> Seq<char> {
    if json {
        covers_matches_json_text(g, query, found)
    } else if found.len() == 0 {
        "SteamGridDB has no match for '"@ + query + "'.\n"@
    } else {
        "Matches for "@ + g.name@ + " (searching \""@ + query + "\"):\n"@ + match_lines(found)
            + "\nUse one with:\n    librarybridge lutris covers --game "@ + g.slug@ + " --match "@
            + decimal_of(found[0].id as nat) + "\n"@
    }
}

/// Show the matches that were found.
pub fn covers_matches(o: &Options, g: &Game, query: &str, found: &Vec<Match>) -> (out: String)
    ensures
        out@ == covers_matches_text(o.json, *g, query@, found@),
{
    if o.json {
        return covers_matches_json(g, query, found);
    }
    if found.len() == 0 {
        return cat3("SteamGridDB has no match for '", query, "'.\n");
    }
    let mut lines = String::new();
    for i in 0..found.len()
        invariant
            lines@ == match_lines(found@.take(i as int)),
    {
        lines.append(match_line(&found[i]).as_str());
        assert(found@.take(i + 1).drop_last() =~= found@.take(i as int));
    }
    assert(found@.take(found@.len() as int) =~= found@);
    let mut out = "Matches for ".to_owned();
    out.append(g.name.as_str());
    out.append(" (searching \"");
    out.append(query);
    out.append("\"):\n");
    out.append(lines.as_str());
    out.append("\nUse one with:\n    librarybridge lutris covers --game ");
    out.append(g.slug.as_str());
    out.append(" --match ");
    out.append(decimal(found[0].id).as_str());
    out.append("\n");
    out
}

// ------------------------------------------------------------------ one game

#[derive(Debug, Clone, Copy, PartialEq, Eq, Structural)]
pub enum CoverStep {
    LookForCover,
    Search,
    /// Ask for the art of a match, by its place.
    FetchArt(usize),
    Place,
}

/// How fetching one cover ends.
#[derive(Debug, Clone, Copy, PartialEq, Eq, Structural)]
pub enum CoverOutcome {
    Exists,
    SearchFailed,
    NoMatch,
    /// The match has no vertical cover, by its place.
    NoCover(usize),
    ArtFailed,
    /// A match would be used, by its place.
    DryRun(usize),
    /// A match was used, by its place.
    Saved(usize),
    PlaceFailed,
}

pub type CoverNext = Next<CoverStep, CoverOutcome>;

/// What is known of fetching one cover.
#[derive(Debug)]
pub struct CoverFacts {
    /// Whether there is a cover already, once that was looked up.
    pub exists: Option<bool>,
    pub found: Known<Vec<Match>>,
    pub art: Known<Option<Art>>,
    pub place: Known<()>,
}

/// The first match with an id, or the length.
pub open spec fn with_id(found: Seq<Match>, id: u64) -> int
    decreases found.len(),
{
    if found.len() == 0 || found[0].id == id {
        0
    } else {
        1 + with_id(found.skip(1), id)
    }
}

/// The match that is used: the one that is pinned, or the best.
pub open spec fn chosen_of(found: Seq<Match>, pinned: Option<u64>, name: Seq<char>) -> Option<int> {
    match pinned {
        Some(id) => if with_id(found, id) < found.len() {
            Some(with_id(found, id))
        } else {
            None
        },
        None => best_index(found, name),
    }
}

/// What comes next in fetching one cover.
pub open spec fn cover_next(
    dry_run: bool,
    replace: bool,
    pinned: Option<u64>,
    name: Seq<char>,
    f: CoverFacts,
) -> CoverNext {
    if !replace && f.exists is None {
        Next::Take(CoverStep::LookForCover)
    } else if !replace && f.exists->Some_0 {
        Next::Stop(CoverOutcome::Exists)
    } else if f.found is NotYet {
        Next::Take(CoverStep::Search)
    } else if f.found is Failed {
        Next::Stop(CoverOutcome::SearchFailed)
    } else {
        match chosen_of(f.found->Got_0@, pinned, name) {
            None => Next::Stop(CoverOutcome::NoMatch),
            Some(i) => if f.art is NotYet {
                Next::Take(CoverStep::FetchArt(i as usize))
            } else if f.art is Failed {
                Next::Stop(CoverOutcome::ArtFailed)
            } else if f.art->Got_0 is None {
                Next::Stop(CoverOutcome::NoCover(i as usize))
            } else if dry_run {
                Next::Stop(CoverOutcome::DryRun(i as usize))
            } else {
                match f.place {
                    Known::NotYet => Next::Take(CoverStep::Place),
                    Known::Failed => Next::Stop(CoverOutcome::PlaceFailed),
                    Known::Got(_) => Next::Stop(CoverOutcome::Saved(i as usize)),
                }
            },
        }
    }
}

proof fn lemma_with_id(found: Seq<Match>, id: u64, at: int)
    requires
        0 <= at <= found.len(),
        forall|k: int| 0 <= k < at ==> (#[trigger] found[k]).id != id,
        at < found.len() ==> found[at].id == id,
    ensures
        with_id(found, id) == at,
    decreases at,
{
    if at > 0 {
        let rest = found.skip(1);
        assert forall|k: int| 0 <= k < at - 1 implies (#[trigger] rest[k]).id != id by {
            assert(rest[k] == found[k + 1]);
        }
        assert(found[0].id != id);
        lemma_with_id(rest, id, at - 1);
    }
}

fn pick_match(found: &Vec<Match>, pinned: Option<u64>, name: &str) -> (at: Option<usize>)
    ensures
        match chosen_of(found@, pinned, name@) {
            Some(i) => at matches Some(k) && k == i && k < found@.len(),
            None => at is None,
        },
{
    match pinned {
        None => find_best(found.as_slice(), name),
        Some(id) => {
            let mut at: usize = 0;
            while at < found.len() && found[at].id != id
                invariant
                    at <= found@.len(),
                    forall|k: int| 0 <= k < at ==> (#[trigger] found@[k]).id != id,
                decreases found@.len() - at,
            {
                at = at + 1;
            }
            proof {
                lemma_with_id(found@, id, at as int);
            }
            if at < found.len() {
                Some(at)
            } else {
                None
            }
        },
    }
}

/// Say what comes next in fetching one cover.
pub fn cover(o: &Options, w: &Work, g: &Game, f: &CoverFacts) -> (n: CoverNext)
    ensures
        n == cover_next(o.dry_run, w.replace, w.pinned, g.name@, *f),
{
    if !w.replace {
        match &f.exists {
            Some(there) => if *there {
                return Next::Stop(CoverOutcome::Exists);
            },
            None => return Next::Take(CoverStep::LookForCover),
        }
    }
    let found = match &f.found {
        Known::NotYet => return Next::Take(CoverStep::Search),
        Known::Failed => return Next::Stop(CoverOutcome::SearchFailed),
        Known::Got(x) => x,
    };
    let at = match pick_match(found, w.pinned, g.name.as_str()) {
        None => return Next::Stop(CoverOutcome::NoMatch),
        Some(at) => at,
    };
    let art = match &f.art {
        Known::NotYet => return Next::Take(CoverStep::FetchArt(at)),
        Known::Failed => return Next::Stop(CoverOutcome::ArtFailed),
        Known::Got(x) => x,
    };
    if art.is_none() {
        return Next::Stop(CoverOutcome::NoCover(at));
    }
    if o.dry_run {
        return Next::Stop(CoverOutcome::DryRun(at));
    }
    match &f.place {
        Known::NotYet => Next::Take(CoverStep::Place),
        Known::Failed => Next::Stop(CoverOutcome::PlaceFailed),
        Known::Got(_) => Next::Stop(CoverOutcome::Saved(at)),
    }
}

// ------------------------------------------------- what holds of every cover

/// A cover is never put in place on a dry run, and one that is already there is
/// never replaced unless that was asked for.
pub proof fn lemma_covers_are_left_alone(
    dry_run: bool,
    replace: bool,
    pinned: Option<u64>,
    name: Seq<char>,
    f: CoverFacts,
)
    requires
        cover_next(dry_run, replace, pinned, name, f) == CoverNext::Take(CoverStep::Place),
    ensures
        !dry_run,
        replace || f.exists == Some(false),
        f.art->Got_0 is Some,
{
}

/// A pinned id is the one that is used, and nothing else is.
pub proof fn lemma_pinned_match_is_used(
    dry_run: bool,
    replace: bool,
    id: u64,
    name: Seq<char>,
    f: CoverFacts,
    at: usize,
)
    requires
        f.found->Got_0@.len() <= usize::MAX,
        cover_next(dry_run, replace, Some(id), name, f) == CoverNext::Take(CoverStep::FetchArt(at)),
    ensures
        at < f.found->Got_0@.len(),
        f.found->Got_0@[at as int].id == id,
{
    lemma_with_id_found(f.found->Got_0@, id);
}

proof fn lemma_with_id_found(found: Seq<Match>, id: u64)
    ensures
        0 <= with_id(found, id) <= found.len(),
        with_id(found, id) < found.len() ==> found[with_id(found, id)].id == id,
    decreases found.len(),
{
    if found.len() > 0 && found[0].id != id {
        lemma_with_id_found(found.skip(1), id);
    }
}

/// A full slug names its game, whatever other slugs start with it.
pub proof fn lemma_full_slug_names_its_game(o: Options, all: Seq<Game>, at: int)
    requires
        all.len() <= usize::MAX,
        0 <= at < all.len(),
        o.game is Some && o.game->Some_0@ == all[at].slug@,
        forall|j: int| 0 <= j < all.len() && j != at ==> (#[trigger] all[j]).slug@ != all[at].slug@,
        pinned_of(o) is Ok,
    ensures
        targets_of(o, all) == Ok::<Seq<usize>, CoverRefusal>(seq![at as usize]),
{
    lemma_with_slug(all, all[at].slug@, at);
}

proof fn lemma_with_slug(all: Seq<Game>, slug: Seq<char>, at: int)
    requires
        0 <= at < all.len(),
        all[at].slug@ == slug,
        forall|j: int| 0 <= j < at ==> (#[trigger] all[j]).slug@ != slug,
    ensures
        with_slug(all, slug) == at,
    decreases at,
{
    if at > 0 {
        let rest = all.skip(1);
        assert(all[0].slug@ != slug);
        assert forall|j: int| 0 <= j < at - 1 implies (#[trigger] rest[j]).slug@ != slug by {
            assert(all[j + 1].slug@ != slug);
        }
        lemma_with_slug(rest, slug, at - 1);
    }
}

/// Where covers are not replaced, only games without one are worked on.
pub proof fn lemma_only_bare_games_are_worked_on(o: Options, all: Seq<Game>)
    requires
        o.game is None,
        !replaces(o),
        all.len() <= usize::MAX,
    ensures
        forall|k: int|
            0 <= k < wanted_in(o, all).len() ==> (#[trigger] wanted_in(o, all)[k]) < all.len()
                && all[wanted_in(o, all)[k] as int].cover is None,
    decreases all.len(),
{
    if all.len() > 0 {
        let head = all.drop_last();
        lemma_only_bare_games_are_worked_on(o, head);
        let rest = wanted_in(o, head);
        assert forall|k: int| 0 <= k < wanted_in(o, all).len() implies (#[trigger] wanted_in(
            o,
            all,
        )[k]) < all.len() && all[wanted_in(o, all)[k] as int].cover is None by {
            if k < rest.len() {
                assert(wanted_in(o, all)[k] == rest[k]);
                assert(head[rest[k] as int] == all[rest[k] as int]);
            }
        }
    }
}

// --------------------------------------------------------------- what is said

pub open spec fn status_of(e: CoverOutcome) -> Seq<char> {
    match e {
        CoverOutcome::Exists => "exists"@,
        CoverOutcome::SearchFailed => "failed"@,
        CoverOutcome::NoMatch => "no_match"@,
        CoverOutcome::NoCover(_) => "no_cover"@,
        CoverOutcome::ArtFailed => "failed"@,
        CoverOutcome::DryRun(_) => "dry_run"@,
        CoverOutcome::Saved(_) => "saved"@,
        CoverOutcome::PlaceFailed => "failed"@,
    }
}

fn status(e: CoverOutcome) -> (out: &'static str)
    ensures
        out@ == status_of(e),
{
    match e {
        CoverOutcome::Exists => "exists",
        CoverOutcome::SearchFailed => "failed",
        CoverOutcome::NoMatch => "no_match",
        CoverOutcome::NoCover(_) => "no_cover",
        CoverOutcome::ArtFailed => "failed",
        CoverOutcome::DryRun(_) => "dry_run",
        CoverOutcome::Saved(_) => "saved",
        CoverOutcome::PlaceFailed => "failed",
    }
}

/// How one game ended, for machines.
pub open spec fn emit_cover_text(
    g: Game,
    status: Seq<char>,
    done: usize,
    total: usize,
) -> Seq<char> {
    event_line(
        "cover"@,
        seq!["slug"@, "name"@, "status"@, "done"@, "total"@],
        seq![
            json_text(g.slug@),
            json_text(g.name@),
            json_text(status),
            decimal_of(done as nat),
            decimal_of(total as nat),
        ],
    )
}

pub fn emit_cover(g: &Game, status: &str, done: usize, total: usize) -> (out: String)
    ensures
        out@ == emit_cover_text(*g, status@, done, total),
{
    let mut out = event_start("cover");
    proof {
        let keys = seq!["slug"@, "name"@, "status"@, "done"@, "total"@];
        let values = seq![
            json_text(g.slug@),
            json_text(g.name@),
            json_text(status@),
            decimal_of(done as nat),
            decimal_of(total as nat),
        ];
        lemma_event_ends(out@, keys, values);
        lemma_event_field(out@, keys, values, 0);
        lemma_event_field(out@, keys, values, 1);
        lemma_event_field(out@, keys, values, 2);
        lemma_event_field(out@, keys, values, 3);
        lemma_event_field(out@, keys, values, 4);
    }
    out.append(event_field("slug", json_string(g.slug.as_str()).as_str()).as_str());
    out.append(event_field("name", json_string(g.name.as_str()).as_str()).as_str());
    out.append(event_field("status", json_string(status).as_str()).as_str());
    out.append(event_field("done", decimal(done as u64).as_str()).as_str());
    out.append(event_field("total", decimal(total as u64).as_str()).as_str());
    out.append("}\n");
    out
}

/// The name of the match at a place.
pub open spec fn name_at(f: CoverFacts, at: usize) -> Seq<char> {
    if f.found is Got && at < f.found->Got_0@.len() {
        f.found->Got_0@[at as int].name@
    } else {
        seq![]
    }
}

fn match_name(f: &CoverFacts, at: usize) -> (out: String)
    ensures
        out@ == name_at(*f, at),
{
    match &f.found {
        Known::Got(found) => if at < found.len() {
            found[at].name.clone()
        } else {
            String::new()
        },
        _ => String::new(),
    }
}

/// How one game ended, in words. `reason` is why a step failed.
pub open spec fn remark_text(
    o: Options,
    g: Game,
    f: CoverFacts,
    e: CoverOutcome,
    reason: Seq<char>,
) -> Seq<char> {
    match e {
        CoverOutcome::Exists => "already has one"@,
        CoverOutcome::NoMatch => "no SteamGridDB match for '"@ + query_of(o, g) + "'"@,
        CoverOutcome::NoCover(i) => "\""@ + name_at(f, i) + "\" has no vertical cover"@,
        CoverOutcome::DryRun(i) => "would use \""@ + name_at(f, i) + "\""@,
        CoverOutcome::Saved(i) => "saved from \""@ + name_at(f, i) + "\""@,
        _ => reason,
    }
}

fn remark(o: &Options, g: &Game, f: &CoverFacts, e: CoverOutcome, reason: &str) -> (out: String)
    ensures
        out@ == remark_text(*o, *g, *f, e, reason@),
{
    match e {
        CoverOutcome::Exists => "already has one".to_owned(),
        CoverOutcome::NoMatch => cat3("no SteamGridDB match for '", query(o, g).as_str(), "'"),
        CoverOutcome::NoCover(i) => cat3("\"", match_name(f, i).as_str(), "\" has no vertical cover"),
        CoverOutcome::DryRun(i) => cat3("would use \"", match_name(f, i).as_str(), "\""),
        CoverOutcome::Saved(i) => cat3("saved from \"", match_name(f, i).as_str(), "\""),
        _ => reason.to_owned(),
    }
}

pub open spec fn cover_report_text(
    o: Options,
    g: Game,
    f: CoverFacts,
    e: CoverOutcome,
    reason: Seq<char>,
    done: usize,
    total: usize,
) -> Seq<char> {
    if o.json {
        emit_cover_text(g, status_of(e), done, total)
    } else {
        "  "@ + padded(g.name@, 44) + " "@ + remark_text(o, g, f, e, reason) + "\n"@
    }
}

/// Report how one game ended.
pub fn cover_report(
    o: &Options,
    g: &Game,
    f: &CoverFacts,
    e: CoverOutcome,
    reason: &str,
    done: usize,
    total: usize,
) -> (out: String)
    ensures
        out@ == cover_report_text(*o, *g, *f, e, reason@, done, total),
{
    if o.json {
        emit_cover(g, status(e), done, total)
    } else {
        cat5(
            "  ",
            pad(g.name.as_str(), 44).as_str(),
            " ",
            remark(o, g, f, e, reason).as_str(),
            "\n",
        )
    }
}

/// Said before the first game.
pub open spec fn covers_start_text(o: Options, total: usize) -> Seq<char> {
    if !o.json {
        "Cover art for "@ + decimal_of(total as nat) + " game(s)\n"@
    } else {
        seq![]
    }
}

pub fn covers_start(o: &Options, total: usize) -> (out: String)
    ensures
        out@ == covers_start_text(*o, total),
{
    if !o.json {
        let mut out = "Cover art for ".to_owned();
        out.append(decimal(total as u64).as_str());
        out.append(" game(s)\n");
        out
    } else {
        String::new()
    }
}

// ------------------------------------------------------------------ the tally

#[derive(Debug, Clone, Copy, PartialEq, Eq, Structural)]
pub struct CoverTally {
    pub saved: usize,
    pub skipped: usize,
    pub failed: usize,
}

pub open spec fn counts_as_skipped(e: CoverOutcome) -> bool {
    e is Exists || e is DryRun
}

pub open spec fn saved_in(all: Seq<CoverOutcome>) -> nat
    decreases all.len(),
{
    if all.len() == 0 {
        0
    } else if all.last() is Saved {
        saved_in(all.drop_last()) + 1
    } else {
        saved_in(all.drop_last())
    }
}

pub open spec fn skipped_in(all: Seq<CoverOutcome>) -> nat
    decreases all.len(),
{
    if all.len() == 0 {
        0
    } else if counts_as_skipped(all.last()) {
        skipped_in(all.drop_last()) + 1
    } else {
        skipped_in(all.drop_last())
    }
}

/// Count how games ended.
pub fn cover_tally(all: &Vec<CoverOutcome>) -> (t: CoverTally)
    ensures
        t.saved == saved_in(all@),
        t.skipped == skipped_in(all@),
        t.saved + t.skipped + t.failed == all@.len(),
{
    let mut t = CoverTally { saved: 0, skipped: 0, failed: 0 };
    for i in 0..all.len()
        invariant
            t.saved == saved_in(all@.take(i as int)),
            t.skipped == skipped_in(all@.take(i as int)),
            t.saved + t.skipped + t.failed == i,
    {
        assert(all@.take(i + 1).drop_last() =~= all@.take(i as int));
        match all[i] {
            CoverOutcome::Saved(_) => {
                t.saved = t.saved + 1;
            },
            CoverOutcome::Exists => {
                t.skipped = t.skipped + 1;
            },
            CoverOutcome::DryRun(_) => {
                t.skipped = t.skipped + 1;
            },
            _ => {
                t.failed = t.failed + 1;
            },
        }
    }
    assert(all@.take(all@.len() as int) =~= all@);
    t
}

pub open spec fn covers_end_text(o: Options, t: CoverTally) -> Seq<char> {
    if o.json {
        event_line(
            "covers_done"@,
            seq!["saved"@, "skipped"@, "failed"@],
            seq![
                decimal_of(t.saved as nat),
                decimal_of(t.skipped as nat),
                decimal_of(t.failed as nat),
            ],
        )
    } else {
        "\n"@ + decimal_of(t.saved as nat) + " saved, "@ + decimal_of(t.skipped as nat)
            + " skipped, "@ + decimal_of(t.failed as nat)
            + " with no cover found.\nRestart Lutris to see them.\n"@
    }
}

/// What is said at the end.
pub fn covers_end(o: &Options, t: &CoverTally) -> (out: String)
    ensures
        out@ == covers_end_text(*o, *t),
{
    if o.json {
        let mut out = event_start("covers_done");
        proof {
            let keys = seq!["saved"@, "skipped"@, "failed"@];
            let values = seq![
                decimal_of(t.saved as nat),
                decimal_of(t.skipped as nat),
                decimal_of(t.failed as nat),
            ];
            lemma_event_ends(out@, keys, values);
            lemma_event_field(out@, keys, values, 0);
            lemma_event_field(out@, keys, values, 1);
            lemma_event_field(out@, keys, values, 2);
        }
        out.append(event_field("saved", decimal(t.saved as u64).as_str()).as_str());
        out.append(event_field("skipped", decimal(t.skipped as u64).as_str()).as_str());
        out.append(event_field("failed", decimal(t.failed as u64).as_str()).as_str());
        out.append("}\n");
        out
    } else {
        let mut out = "\n".to_owned();
        out.append(decimal(t.saved as u64).as_str());
        out.append(" saved, ");
        out.append(decimal(t.skipped as u64).as_str());
        out.append(" skipped, ");
        out.append(decimal(t.failed as u64).as_str());
        out.append(" with no cover found.\nRestart Lutris to see them.\n");
        out
    }
}

/// The exit code: a failure only where nothing was saved and something failed.
pub open spec fn covers_code(t: CoverTally) -> i32 {
    if t.saved == 0 && t.failed > 0 {
        2
    } else {
        0
    }
}

pub fn covers_exit(t: &CoverTally) -> (code: i32)
    ensures
        code == covers_code(*t),
{
    if t.saved == 0 && t.failed > 0 {
        2
    } else {
        0
    }
}

// ------------------------------------------------- what holds of the command

/// Whether a game is asked for: by the start of its slug where a game is named,
/// else because it has no cover or because covers are replaced.
pub open spec fn asked_for(o: Options, g: Game) -> bool {
    ||| o.game is Some && is_start(o.game->Some_0@, g.slug@)
    ||| o.game is None && (g.cover is None || o.overwrite || o.cover_match is Some)
}

proof fn lemma_wanted_in(o: Options, all: Seq<Game>)
    requires
        all.len() <= usize::MAX,
    ensures
        forall|i: int| #![trigger all[i]]
            0 <= i < all.len() ==> (asked_for(o, all[i]) <==> wanted_in(o, all).contains(
                i as usize,
            )),
        forall|k: int|
            0 <= k < wanted_in(o, all).len() ==> (#[trigger] wanted_in(o, all)[k]) < all.len(),
        forall|j: int, k: int|
            0 <= j < k < wanted_in(o, all).len() ==> (#[trigger] wanted_in(o, all)[j])
                < #[trigger] wanted_in(o, all)[k],
    decreases all.len(),
{
    if all.len() > 0 {
        let head = all.drop_last();
        let n = all.len() - 1;
        let had = wanted_in(o, head);
        lemma_wanted_in(o, head);
        if o.game is Some {
            lemma_begins_is_start(all.last().slug@, o.game->Some_0@);
        }
        assert(asked_for(o, all.last()) <==> is_wanted(o, all.last()));
        assert forall|i: int| #![trigger all[i]] 0 <= i < all.len() implies (asked_for(o, all[i])
            <==> wanted_in(o, all).contains(i as usize)) by {
            if i < n {
                assert(head[i] == all[i]);
                if had.contains(i as usize) {
                    let k = choose|k: int| 0 <= k < had.len() && had[k] == i as usize;
                    assert(wanted_in(o, all)[k] == i as usize);
                }
                if wanted_in(o, all).contains(i as usize) {
                    let k = choose|k: int|
                        0 <= k < wanted_in(o, all).len() && wanted_in(o, all)[k] == i as usize;
                    assert(had[k] == i as usize);
                }
            } else {
                if is_wanted(o, all.last()) {
                    assert(wanted_in(o, all).last() == n as usize);
                } else if had.contains(n as usize) {
                    let k = choose|k: int| 0 <= k < had.len() && had[k] == n as usize;
                    assert(had[k] < head.len());
                }
            }
        }
    }
}

/// What is worked on, where no game is named in full, is every game that is
/// asked for and no other, in the order they have.
pub proof fn lemma_all_that_is_asked_for(o: Options, all: Seq<Game>, i: int)
    requires
        all.len() <= usize::MAX,
        0 <= i < all.len(),
    ensures
        wanted_in(o, all).contains(i as usize) <==> asked_for(o, all[i]),
        forall|j: int, k: int|
            0 <= j < k < wanted_in(o, all).len() ==> (#[trigger] wanted_in(o, all)[j])
                < #[trigger] wanted_in(o, all)[k],
{
    lemma_wanted_in(o, all);
}

proof fn lemma_with_slug_found(all: Seq<Game>, slug: Seq<char>)
    ensures
        0 <= with_slug(all, slug) <= all.len(),
        with_slug(all, slug) < all.len() ==> all[with_slug(all, slug)].slug@ == slug,
        forall|j: int| 0 <= j < with_slug(all, slug) ==> (#[trigger] all[j]).slug@ != slug,
    decreases all.len(),
{
    if all.len() > 0 && all[0].slug@ != slug {
        let rest = all.skip(1);
        lemma_with_slug_found(rest, slug);
        assert forall|j: int| 0 <= j < with_slug(all, slug) implies (#[trigger] all[j]).slug@
            != slug by {
            if j > 0 {
                assert(rest[j - 1] == all[j]);
            }
        }
    }
}

/// Nothing is refused without a reason: the id is no number, no slug starts with
/// what was given, or more than one does and none is just that. The number told
/// is how many do.
pub proof fn lemma_cover_refusals_have_a_reason(o: Options, all: Seq<Game>)
    requires
        all.len() <= usize::MAX,
    ensures
        targets_of(o, all) == Err::<Seq<usize>, CoverRefusal>(CoverRefusal::BadId)
            <==> o.cover_match is Some && unsigned_of(o.cover_match->Some_0@) is None,
        targets_of(o, all) == Err::<Seq<usize>, CoverRefusal>(CoverRefusal::NoGame) ==> o.game
            is Some && forall|i: int|
            0 <= i < all.len() ==> !is_start(o.game->Some_0@, (#[trigger] all[i]).slug@),
        targets_of(o, all) matches Err(CoverRefusal::Several(n)) ==> {
            &&& o.game is Some
            &&& n >= 2
            &&& n == wanted_in(o, all).len()
            &&& forall|i: int| 0 <= i < all.len() ==> (#[trigger] all[i]).slug@ != o.game->Some_0@
        },
        o.cover_match is None && o.game is None ==> targets_of(o, all) == Ok::<
            Seq<usize>,
            CoverRefusal,
        >(wanted_in(o, all)),
{
    lemma_wanted_in(o, all);
    if o.game is Some {
        lemma_with_slug_found(all, o.game->Some_0@);
        if targets_of(o, all) == Err::<Seq<usize>, CoverRefusal>(CoverRefusal::NoGame) {
            assert forall|i: int| 0 <= i < all.len() implies !is_start(
                o.game->Some_0@,
                (#[trigger] all[i]).slug@,
            ) by {
                if asked_for(o, all[i]) {
                    assert(wanted_in(o, all).contains(i as usize));
                }
            }
        }
    }
    lemma_wanted_count(o, all);
}

proof fn lemma_wanted_count(o: Options, all: Seq<Game>)
    ensures
        wanted_in(o, all).len() <= all.len(),
    decreases all.len(),
{
    if all.len() > 0 {
        lemma_wanted_count(o, all.drop_last());
    }
}

/// Where just one slug starts with what was given, that game is worked on, and
/// the id that was given is the one that is used.
pub proof fn lemma_start_of_one_slug_is_enough(o: Options, all: Seq<Game>, at: int)
    requires
        all.len() <= usize::MAX,
        0 <= at < all.len(),
        o.game is Some,
        is_start(o.game->Some_0@, all[at].slug@),
        forall|i: int|
            0 <= i < all.len() && i != at ==> !is_start(
                o.game->Some_0@,
                (#[trigger] all[i]).slug@,
            ),
        o.cover_match is Some ==> unsigned_of(o.cover_match->Some_0@) is Some,
    ensures
        targets_of(o, all) == Ok::<Seq<usize>, CoverRefusal>(seq![at as usize]),
        o.cover_match is Some ==> pinned_of(o) == Ok::<Option<u64>, CoverRefusal>(
            unsigned_of(o.cover_match->Some_0@),
        ),
        o.cover_match is None ==> pinned_of(o) == Ok::<Option<u64>, CoverRefusal>(None),
        replaces(o) <==> o.overwrite || o.cover_match is Some,
{
    lemma_wanted_in(o, all);
    let got = wanted_in(o, all);
    assert(asked_for(o, all[at]));
    assert(got.contains(at as usize));
    assert forall|k: int| 0 <= k < got.len() implies #[trigger] got[k] == at as usize by {
        assert(got.contains(got[k]));
        assert(all[got[k] as int] == all[got[k] as int]);
        assert(got.contains((got[k] as int) as usize));
        assert(asked_for(o, all[got[k] as int]));
    }
    if got.len() > 1 {
        assert(got[0] < got[1]);
    }
    assert(got =~= seq![at as usize]);
    lemma_with_slug_found(all, o.game->Some_0@);
    let w = with_slug(all, o.game->Some_0@);
    if w < all.len() {
        assert(is_start(o.game->Some_0@, all[w].slug@));
        assert(w == at);
    }
}

/// Listing comes before everything and needs no key. Nothing else is done
/// without a key. Looking up downloads nothing and is only done where it was
/// asked for.
pub proof fn lemma_what_the_command_does(o: Options, all: Seq<Game>, key: Option<String>, c: Covers)
    requires
        does(o, all, key, c),
    ensures
        c is List <==> o.list_covers,
        c is NoKey <==> !o.list_covers && key is None,
        c is Refused ==> targets_of(o, all) == Err::<Seq<usize>, CoverRefusal>(c->Refused_0),
        c is Nothing ==> targets_of(o, all) == Ok::<Seq<usize>, CoverRefusal>(seq![]),
        c is LookUp ==> o.matches,
        c is Fetch ==> !o.matches && targets_of(o, all) == Ok::<Seq<usize>, CoverRefusal>(
            c->Fetch_0.targets@,
        ),
        !o.list_covers && key is Some && targets_of(o, all) is Ok && targets_of(o, all)->Ok_0.len()
            > 0 ==> c is LookUp || c is Fetch,
{
    if c is Nothing {
        assert(targets_of(o, all)->Ok_0 =~= seq![]);
    }
}

/// One game after another is fetched in this order: a look at what is there, the
/// search, the art, putting it in place. Nothing but what its own step gave ends
/// it early.
pub proof fn lemma_fetching_goes_through(
    dry_run: bool,
    replace: bool,
    pinned: Option<u64>,
    name: Seq<char>,
    f: CoverFacts,
    at: int,
)
    requires
        f.found is Got ==> f.found->Got_0@.len() <= usize::MAX,
    ensures
        cover_next(dry_run, replace, pinned, name, f) == CoverNext::Take(CoverStep::LookForCover)
            <==> !replace && f.exists is None,
        cover_next(dry_run, replace, pinned, name, f) == CoverNext::Stop(CoverOutcome::Exists)
            <==> !replace && f.exists == Some(true),
        cover_next(dry_run, replace, pinned, name, f) == CoverNext::Stop(
            CoverOutcome::SearchFailed,
        ) ==> f.found is Failed,
        cover_next(dry_run, replace, pinned, name, f) == CoverNext::Stop(CoverOutcome::NoMatch)
            ==> f.found is Got && chosen_of(f.found->Got_0@, pinned, name) is None,
        cover_next(dry_run, replace, pinned, name, f) == CoverNext::Stop(CoverOutcome::ArtFailed)
            ==> f.art is Failed,
        cover_next(dry_run, replace, pinned, name, f) is Stop && cover_next(
            dry_run,
            replace,
            pinned,
            name,
            f,
        )->Stop_0 is NoCover ==> f.art is Got && f.art->Got_0 is None,
        cover_next(dry_run, replace, pinned, name, f) is Stop && cover_next(
            dry_run,
            replace,
            pinned,
            name,
            f,
        )->Stop_0 is DryRun ==> dry_run,
        cover_next(dry_run, replace, pinned, name, f) == CoverNext::Stop(CoverOutcome::PlaceFailed)
            ==> f.place is Failed && !dry_run,
        cover_next(dry_run, replace, pinned, name, f) is Stop && cover_next(
            dry_run,
            replace,
            pinned,
            name,
            f,
        )->Stop_0 is Saved ==> f.place is Got && !dry_run,
        cover_next(dry_run, replace, pinned, name, f) !is Failed,
        (replace || f.exists == Some(false)) && f.found is NotYet ==> cover_next(
            dry_run,
            replace,
            pinned,
            name,
            f,
        ) == CoverNext::Take(CoverStep::Search),
        (replace || f.exists == Some(false)) && f.found is Got && chosen_of(
            f.found->Got_0@,
            pinned,
            name,
        ) == Some(at) ==> {
            &&& f.art is NotYet ==> cover_next(dry_run, replace, pinned, name, f)
                == CoverNext::Take(CoverStep::FetchArt(at as usize))
            &&& f.art is Got && f.art->Got_0 is Some && dry_run ==> cover_next(
                dry_run,
                replace,
                pinned,
                name,
                f,
            ) == CoverNext::Stop(CoverOutcome::DryRun(at as usize))
            &&& f.art is Got && f.art->Got_0 is Some && !dry_run && f.place is NotYet
                ==> cover_next(dry_run, replace, pinned, name, f) == CoverNext::Take(
                CoverStep::Place,
            )
            &&& f.art is Got && f.art->Got_0 is Some && !dry_run && f.place is Got ==> cover_next(
                dry_run,
                replace,
                pinned,
                name,
                f,
            ) == CoverNext::Stop(CoverOutcome::Saved(at as usize))
        },
{
}

/// A pinned id is looked for among what was found, and the first match that has
/// it is used. Where none has it no match is used. Where no id is pinned the best
/// match by name is.
pub proof fn lemma_which_match_is_used(
    found: Seq<Match>,
    pinned: Option<u64>,
    name: Seq<char>,
    at: int,
)
    requires
        0 <= at <= found.len(),
        pinned is Some,
        forall|k: int| 0 <= k < at ==> (#[trigger] found[k]).id != pinned->Some_0,
        at < found.len() ==> found[at].id == pinned->Some_0,
    ensures
        at < found.len() ==> chosen_of(found, pinned, name) == Some(at),
        at == found.len() ==> chosen_of(found, pinned, name) is None,
        chosen_of(found, None, name) == best_index(found, name),
{
    lemma_with_id(found, pinned->Some_0, at);
}

// ---------------------------------------------------- what holds of the words

/// The games without a cover are told in the order they have, and no others.
pub proof fn lemma_games_without_a_cover(a: Seq<Game>, b: Seq<Game>, g: Game)
    ensures
        bare_of(a + b) == bare_of(a) + bare_of(b),
        g.cover is None ==> bare_of(seq![g]) == seq![g],
        g.cover is Some ==> bare_of(seq![g]).len() == 0,
    decreases b.len(),
{
    assert(seq![g].drop_last() =~= Seq::<Game>::empty());
    assert(bare_of(seq![g].drop_last()).len() == 0);
    if g.cover is None {
        assert(bare_of(seq![g]) =~= seq![g]);
    }
    if b.len() == 0 {
        assert(a + b =~= a);
        assert(bare_of(a) + bare_of(b) =~= bare_of(a));
    } else {
        lemma_games_without_a_cover(a, b.drop_last(), g);
        assert((a + b).drop_last() =~= a + b.drop_last());
        assert(bare_of(a + b) =~= bare_of(a) + bare_of(b));
    }
}

proof fn lemma_missing_line(g: Game)
    ensures
        mentions(missing_line_text(g), g.name@),
        mentions(missing_line_text(g), g.slug@),
{
    let a = "  "@ + g.name@;
    let b = a + "  ("@;
    let c = b + g.slug@;
    lemma_mentions_piece("  "@, g.name@, seq![]);
    lemma_mentions_in(seq![], a, "  ("@, g.name@);
    lemma_mentions_in(seq![], b, g.slug@, g.name@);
    lemma_mentions_in(seq![], c, ")\n"@, g.name@);
    lemma_mentions_piece(b, g.slug@, seq![]);
    lemma_mentions_in(seq![], c, ")\n"@, g.slug@);
}

proof fn lemma_missing_lines(games: Seq<Game>, i: int)
    requires
        0 <= i < games.len(),
    ensures
        mentions(missing_lines(games), missing_line_text(games[i])),
    decreases games.len(),
{
    let head = missing_lines(games.drop_last());
    let line = missing_line_text(games.last());
    if i == games.len() - 1 {
        lemma_mentions_piece(head, line, seq![]);
    } else {
        lemma_missing_lines(games.drop_last(), i);
        lemma_mentions_in(seq![], head, line, missing_line_text(games[i]));
    }
}

/// A listing names every game without a cover, by name and by slug, to people
/// and to machines.
pub proof fn lemma_listing_names_every_bare_game(json: bool, all: Seq<Game>, i: int)
    requires
        0 <= i < bare_of(all).len(),
    ensures
        !json ==> mentions(covers_list_text(json, all), bare_of(all)[i].name@) && mentions(
            covers_list_text(json, all),
            bare_of(all)[i].slug@,
        ),
        json ==> mentions(
            covers_list_text(json, all),
            "{\"slug\": "@ + json_text(bare_of(all)[i].slug@) + ", \"name\": "@ + json_text(
                bare_of(all)[i].name@,
            ) + "}"@,
        ),
{
    let bare = bare_of(all);
    let g = bare[i];
    if json {
        let rows = missing_rows(bare);
        let row = rows[i];
        let inner = "{\"slug\": "@ + json_text(g.slug@) + ", \"name\": "@ + json_text(g.name@)
            + "}"@;
        assert(row == missing_row_text(g));
        reveal_strlit("    {\"slug\": ");
        reveal_strlit("{\"slug\": ");
        assert(row =~= seq![' ', ' ', ' ', ' '] + inner);
        lemma_mentions_piece(seq![' ', ' ', ' ', ' '], inner, seq![]);
        lemma_joined_mentions(rows, ",\n"@, i);
        lemma_mentions_through(joined(rows, ",\n"@), row, inner);
        lemma_mentions_in(
            "{\n  \"schema\": 1,\n  \"missing\": [\n"@,
            joined(rows, ",\n"@),
            "\n  ]\n}\n"@,
            inner,
        );
    } else {
        lemma_missing_line(g);
        lemma_missing_lines(bare, i);
        let lines = missing_lines(bare);
        lemma_mentions_through(lines, missing_line_text(g), g.name@);
        lemma_mentions_through(lines, missing_line_text(g), g.slug@);
        let head = decimal_of(bare.len()) + " of "@ + decimal_of(all.len())
            + " games have no cover art:\n"@;
        let tail = "\nFetch them with:\n    librarybridge lutris covers\n"@;
        lemma_mentions_in(head, lines, tail, g.name@);
        lemma_mentions_in(head, lines, tail, g.slug@);
    }
}

/// Each outcome counts once: a cover that was saved as saved, one that was there
/// or would have been saved as skipped, and anything else as failed. A run that
/// saved nothing and had a failure ends in the exit code of a failure, and no
/// other does.
pub proof fn lemma_each_outcome_counts_once(
    a: Seq<CoverOutcome>,
    b: Seq<CoverOutcome>,
    e: CoverOutcome,
    t: CoverTally,
)
    ensures
        saved_in(a + b) == saved_in(a) + saved_in(b),
        skipped_in(a + b) == skipped_in(a) + skipped_in(b),
        saved_in(seq![e]) == if e is Saved { 1nat } else { 0nat },
        skipped_in(seq![e]) == if e is Exists || e is DryRun { 1nat } else { 0nat },
        covers_code(t) == 2 <==> t.saved == 0 && t.failed > 0,
        covers_code(t) != 2 ==> covers_code(t) == 0,
    decreases b.len(),
{
    assert(seq![e].drop_last() =~= Seq::<CoverOutcome>::empty());
    assert(saved_in(seq![e].drop_last()) == 0);
    assert(skipped_in(seq![e].drop_last()) == 0);
    if b.len() == 0 {
        assert(a + b =~= a);
    } else {
        lemma_each_outcome_counts_once(a, b.drop_last(), e, t);
        assert((a + b).drop_last() =~= a + b.drop_last());
        assert((a + b).last() == b.last());
    }
}

/// A refusal names what was given.
pub proof fn lemma_refusal_names_what_was_given(o: Options, r: CoverRefusal)
    ensures
        r is BadId ==> mentions(cover_refusal_text(o, r), o.cover_match->Some_0@),
        r is NoGame ==> mentions(cover_refusal_text(o, r), o.game->Some_0@),
        r is Several ==> mentions(cover_refusal_text(o, r), o.game->Some_0@) && mentions(
            cover_refusal_text(o, r),
            decimal_of(r->Several_0 as nat),
        ),
{
    let id = o.cover_match->Some_0@;
    let wanted = o.game->Some_0@;
    lemma_mentions_piece("--match takes a SteamGridDB id (a number), not '"@, id, "'"@);
    lemma_mentions_piece(
        "no Lutris game matches '"@,
        wanted,
        "'. Run `librarybridge lutris covers --list` to see the slugs."@,
    );
    if r is Several {
        let n = decimal_of(r->Several_0 as nat);
        let a = "'"@ + wanted;
        let b = a + "' matches "@;
        let c = b + n;
        lemma_mentions_piece("'"@, wanted, seq![]);
        lemma_mentions_in(seq![], a, "' matches "@, wanted);
        lemma_mentions_in(seq![], b, n, wanted);
        lemma_mentions_in(seq![], c, " games. Use the full slug."@, wanted);
        lemma_mentions_piece(b, n, seq![]);
        lemma_mentions_in(seq![], c, " games. Use the full slug."@, n);
    }
}

/// The outcome that is told of a game is told apart from the others: only a
/// cover that was put in place is told as saved, and what failed as failed.
pub proof fn lemma_status_tells_outcomes_apart(e: CoverOutcome)
    ensures
        status_of(e) == "saved"@ <==> e is Saved,
        status_of(e) == "exists"@ <==> e is Exists,
        status_of(e) == "no_match"@ <==> e is NoMatch,
        status_of(e) == "no_cover"@ <==> e is NoCover,
        status_of(e) == "dry_run"@ <==> e is DryRun,
        status_of(e) == "failed"@ <==> e is SearchFailed || e is ArtFailed || e is PlaceFailed,
{
    reveal_strlit("saved");
    reveal_strlit("exists");
    reveal_strlit("no_match");
    reveal_strlit("no_cover");
    reveal_strlit("dry_run");
    reveal_strlit("failed");
    assert("no_match"@[3] == 'm');
    assert("no_cover"@[3] == 'c');
    assert("exists"@[0] == 'e');
    assert("failed"@[0] == 'f');
    assert("saved"@[0] == 's');
    assert("dry_run"@[0] == 'd');
}

/// A remark names what was used, what was searched for or why it failed.
pub proof fn lemma_remark_says_what_was_used(
    o: Options,
    g: Game,
    f: CoverFacts,
    e: CoverOutcome,
    reason: Seq<char>,
    i: usize,
)
    requires
        f.found is Got && i < f.found->Got_0@.len(),
    ensures
        e == CoverOutcome::Saved(i) || e == CoverOutcome::DryRun(i) || e == CoverOutcome::NoCover(i)
            ==> mentions(remark_text(o, g, f, e, reason), f.found->Got_0@[i as int].name@),
        e is NoMatch && o.query is Some ==> mentions(
            remark_text(o, g, f, e, reason),
            o.query->Some_0@,
        ),
        e is NoMatch && o.query is None ==> mentions(remark_text(o, g, f, e, reason), g.name@),
        e is SearchFailed || e is ArtFailed || e is PlaceFailed ==> remark_text(
            o,
            g,
            f,
            e,
            reason,
        ) == reason,
{
    let name = f.found->Got_0@[i as int].name@;
    lemma_mentions_piece("saved from \""@, name, "\""@);
    lemma_mentions_piece("would use \""@, name, "\""@);
    lemma_mentions_piece("\""@, name, "\" has no vertical cover"@);
    lemma_mentions_piece("no SteamGridDB match for '"@, query_of(o, g), "'"@);
}

proof fn lemma_match_lines(found: Seq<Match>, i: int)
    requires
        0 <= i < found.len(),
    ensures
        mentions(match_lines(found), match_line_text(found[i])),
    decreases found.len(),
{
    let head = match_lines(found.drop_last());
    let line = match_line_text(found.last());
    if i == found.len() - 1 {
        lemma_mentions_piece(head, line, seq![]);
    } else {
        lemma_match_lines(found.drop_last(), i);
        lemma_mentions_in(seq![], head, line, match_line_text(found[i]));
    }
}

/// Every match that was found is shown with its id and its name.
pub proof fn lemma_every_match_is_shown(
    json: bool,
    g: Game,
    query: Seq<char>,
    found: Seq<Match>,
    i: int,
)
    requires
        0 <= i < found.len(),
    ensures
        !json ==> mentions(
            covers_matches_text(json, g, query, found),
            "["@ + decimal_of(found[i].id as nat) + "] "@ + found[i].name@,
        ),
        json ==> mentions(
            covers_matches_text(json, g, query, found),
            "{\"id\": "@ + decimal_of(found[i].id as nat) + ", \"name\": "@ + json_text(
                found[i].name@,
            ),
        ),
{
    let m = found[i];
    if json {
        let part = "{\"id\": "@ + decimal_of(m.id as nat) + ", \"name\": "@ + json_text(m.name@);
        let rows = match_rows(found);
        reveal_strlit("    {\"id\": ");
        reveal_strlit("{\"id\": ");
        let pad = seq![' ', ' ', ' ', ' '];
        let tail = ", \"thumb\": "@ + thumb_text(m) + "}"@;
        assert(rows[i] == match_row_text(m));
        assert(match_row_text(m) =~= pad + part + tail);
        lemma_mentions_piece(pad, part, tail);
        lemma_joined_mentions(rows, ",\n"@, i);
        lemma_mentions_through(joined(rows, ",\n"@), rows[i], part);
        let head = "{\n  \"schema\": 1,\n  \"slug\": "@ + json_text(g.slug@) + ",\n  \"name\": "@
            + json_text(g.name@) + ",\n  \"query\": "@ + json_text(query)
            + ",\n  \"matches\": [\n"@;
        lemma_mentions_in(head, joined(rows, ",\n"@), "\n  ]\n}\n"@, part);
    } else {
        let part = "["@ + decimal_of(m.id as nat) + "] "@ + m.name@;
        reveal_strlit("  [");
        reveal_strlit("[");
        let pad = seq![' ', ' '];
        assert(match_line_text(m) =~= pad + part + "\n"@);
        lemma_mentions_piece(pad, part, "\n"@);
        lemma_match_lines(found, i);
        let lines = match_lines(found);
        lemma_mentions_through(lines, match_line_text(m), part);
        let head = "Matches for "@ + g.name@ + " (searching \""@ + query + "\"):\n"@;
        let a = head + lines;
        let b = a + "\nUse one with:\n    librarybridge lutris covers --game "@;
        let c = b + g.slug@;
        let d = c + " --match "@;
        let e = d + decimal_of(found[0].id as nat);
        lemma_mentions_in(head, lines, seq![], part);
        lemma_mentions_in(seq![], a, "\nUse one with:\n    librarybridge lutris covers --game "@, part);
        lemma_mentions_in(seq![], b, g.slug@, part);
        lemma_mentions_in(seq![], c, " --match "@, part);
        lemma_mentions_in(seq![], d, decimal_of(found[0].id as nat), part);
        lemma_mentions_in(seq![], e, "\n"@, part);
    }
}

/// No more than eight matches are shown, and those are the first.
pub proof fn lemma_eight_matches_are_shown(found: Seq<Match>, i: int)
    ensures
        few_of(found).len() == if found.len() < 8 { found.len() } else { 8 },
        0 <= i < few_of(found).len() ==> few_of(found)[i] == found[i],
{
}

proof fn lemma_cover_keys()
    ensures
        "slug"@ != "name"@ && "slug"@ != "status"@ && "slug"@ != "done"@ && "slug"@ != "total"@,
        "name"@ != "status"@ && "name"@ != "done"@ && "name"@ != "total"@,
        "status"@ != "done"@ && "status"@ != "total"@ && "done"@ != "total"@,
        "event"@ != "slug"@ && "event"@ != "name"@ && "event"@ != "status"@ && "event"@ != "done"@
            && "event"@ != "total"@,
{
    reveal_strlit("event");
    reveal_strlit("slug");
    reveal_strlit("name");
    reveal_strlit("status");
    reveal_strlit("done");
    reveal_strlit("total");
    assert("slug"@[0] == 's' && "name"@[0] == 'n' && "done"@[0] == 'd' && "total"@[0] == 't'
        && "event"@[0] == 'e');
    assert("slug"@.len() == 4 && "status"@.len() == 6);
}

/// How a game ended is told to machines in one object: its slug, its name and
/// how it ended, and how many of how many games are done.
pub proof fn lemma_cover_event_reads_back(g: Game, status: Seq<char>, done: usize, total: usize)
    requires
        encode_utf8(emit_cover_text(g, status, done, total)).len() <= MAX_BYTES,
    ensures
        parsed(encode_utf8(emit_cover_text(g, status, done, total))) matches Ok(v) && {
            &&& v.string("event"@) == Some("cover"@)
            &&& v.string("slug"@) == Some(g.slug@)
            &&& v.string("name"@) == Some(g.name@)
            &&& v.string("status"@) == Some(status)
            &&& v.get("done"@) == Some(Value::Number(decimal_of(done as nat)))
            &&& v.get("total"@) == Some(Value::Number(decimal_of(total as nat)))
        },
{
    let keys = seq!["slug"@, "name"@, "status"@, "done"@, "total"@];
    let values = seq![
        json_text(g.slug@),
        json_text(g.name@),
        json_text(status),
        decimal_of(done as nat),
        decimal_of(total as nat),
    ];
    let vs = seq![
        Value::Text(g.slug@),
        Value::Text(g.name@),
        Value::Text(status),
        Value::Number(decimal_of(done as nat)),
        Value::Number(decimal_of(total as nat)),
    ];
    lemma_reads_text(g.slug@, 1);
    lemma_reads_text(g.name@, 1);
    lemma_reads_text(status, 1);
    lemma_decimal_is_digits(done as nat);
    lemma_decimal_is_digits(total as nat);
    lemma_reads_number(decimal_of(done as nat), 1);
    lemma_reads_number(decimal_of(total as nat), 1);
    assert forall|i: int| 0 <= i < values.len() implies reads_as(#[trigger] values[i], vs[i], 1) by {
        assert(i == 0 || i == 1 || i == 2 || i == 3 || i == 4);
    }
    lemma_event_reads_back("cover"@, keys, values, vs);
    lemma_cover_keys();
    let all = seq!["event"@] + keys;
    let told = seq![Value::Text("cover"@)] + vs;
    assert(all =~= seq!["event"@, "slug"@, "name"@, "status"@, "done"@, "total"@]);
    lemma_with_members(Map::empty(), all, told, "event"@, 0);
    lemma_with_members(Map::empty(), all, told, "slug"@, 1);
    lemma_with_members(Map::empty(), all, told, "name"@, 2);
    lemma_with_members(Map::empty(), all, told, "status"@, 3);
    lemma_with_members(Map::empty(), all, told, "done"@, 4);
    lemma_with_members(Map::empty(), all, told, "total"@, 5);
}

/// What was saved, skipped and failed is told at the end, to people and to
/// machines.
pub proof fn lemma_end_tells_the_tally(o: Options, t: CoverTally)
    requires
        encode_utf8(covers_end_text(o, t)).len() <= MAX_BYTES,
    ensures
        !o.json ==> mentions(
            covers_end_text(o, t),
            decimal_of(t.saved as nat) + " saved, "@ + decimal_of(t.skipped as nat)
                + " skipped, "@ + decimal_of(t.failed as nat) + " with no cover found."@,
        ),
        o.json ==> (parsed(encode_utf8(covers_end_text(o, t))) matches Ok(v) && v.get("saved"@)
            == Some(Value::Number(decimal_of(t.saved as nat))) && v.get("skipped"@) == Some(
            Value::Number(decimal_of(t.skipped as nat)),
        ) && v.get("failed"@) == Some(Value::Number(decimal_of(t.failed as nat)))),
{
    let a = decimal_of(t.saved as nat);
    let b = decimal_of(t.skipped as nat);
    let c = decimal_of(t.failed as nat);
    if o.json {
        let keys = seq!["saved"@, "skipped"@, "failed"@];
        let values = seq![a, b, c];
        let vs = seq![Value::Number(a), Value::Number(b), Value::Number(c)];
        lemma_decimal_is_digits(t.saved as nat);
        lemma_decimal_is_digits(t.skipped as nat);
        lemma_decimal_is_digits(t.failed as nat);
        lemma_reads_number(a, 1);
        lemma_reads_number(b, 1);
        lemma_reads_number(c, 1);
        assert forall|i: int| 0 <= i < values.len() implies reads_as(#[trigger] values[i], vs[i], 1) by {
            assert(i == 0 || i == 1 || i == 2);
        }
        lemma_event_reads_back("covers_done"@, keys, values, vs);
        reveal_strlit("event");
        reveal_strlit("saved");
        reveal_strlit("skipped");
        reveal_strlit("failed");
        assert("event"@[0] == 'e' && "saved"@[0] == 's' && "failed"@[0] == 'f');
        assert("saved"@.len() == 5 && "skipped"@.len() == 7 && "failed"@.len() == 6);
        let all = seq!["event"@] + keys;
        let told = seq![Value::Text("covers_done"@)] + vs;
        assert(all =~= seq!["event"@, "saved"@, "skipped"@, "failed"@]);
        lemma_with_members(Map::empty(), all, told, "saved"@, 1);
        lemma_with_members(Map::empty(), all, told, "skipped"@, 2);
        lemma_with_members(Map::empty(), all, told, "failed"@, 3);
    } else {
        let part = a + " saved, "@ + b + " skipped, "@ + c + " with no cover found."@;
        reveal_strlit(" with no cover found.\nRestart Lutris to see them.\n");
        reveal_strlit(" with no cover found.");
        reveal_strlit("\nRestart Lutris to see them.\n");
        assert(covers_end_text(o, t) =~= "\n"@ + part + "\nRestart Lutris to see them.\n"@);
        lemma_mentions_piece("\n"@, part, "\nRestart Lutris to see them.\n"@);
    }
}

/// A line for a person has the game's name and the remark.
pub proof fn lemma_report_names_the_game(
    o: Options,
    g: Game,
    f: CoverFacts,
    e: CoverOutcome,
    reason: Seq<char>,
    done: usize,
    total: usize,
)
    requires
        !o.json,
    ensures
        begins(cover_report_text(o, g, f, e, reason, done, total), "  "@ + g.name@),
        ends(
            cover_report_text(o, g, f, e, reason, done, total),
            remark_text(o, g, f, e, reason) + "\n"@,
        ),
{
    let whole = cover_report_text(o, g, f, e, reason, done, total);
    let head = "  "@ + g.name@;
    let tail = remark_text(o, g, f, e, reason) + "\n"@;
    lemma_padded(g.name@, 44);
    let p = padded(g.name@, 44);
    assert forall|i: int| 0 <= i < g.name@.len() implies p[i] == #[trigger] g.name@[i] by {
        assert(p.take(g.name@.len() as int)[i] == p[i]);
    }
    assert(whole.take(head.len() as int) =~= head);
    assert(whole.skip(whole.len() - tail.len()) =~= tail);
}


/// What could not be done ends a game, and each kind of failure is told apart.
pub proof fn lemma_what_ends_a_fetch(
    dry_run: bool,
    replace: bool,
    pinned: Option<u64>,
    name: Seq<char>,
    f: CoverFacts,
    at: int,
)
    requires
        replace || f.exists == Some(false),
    ensures
        f.found is Failed ==> cover_next(dry_run, replace, pinned, name, f) == CoverNext::Stop(
            CoverOutcome::SearchFailed,
        ),
        f.found is Got && chosen_of(f.found->Got_0@, pinned, name) is None ==> cover_next(
            dry_run,
            replace,
            pinned,
            name,
            f,
        ) == CoverNext::Stop(CoverOutcome::NoMatch),
        f.found is Got && chosen_of(f.found->Got_0@, pinned, name) == Some(at) ==> {
            &&& f.art is Failed ==> cover_next(dry_run, replace, pinned, name, f)
                == CoverNext::Stop(CoverOutcome::ArtFailed)
            &&& f.art is Got && f.art->Got_0 is None ==> cover_next(
                dry_run,
                replace,
                pinned,
                name,
                f,
            ) == CoverNext::Stop(CoverOutcome::NoCover(at as usize))
            &&& f.art is Got && f.art->Got_0 is Some && !dry_run && f.place is Failed
                ==> cover_next(dry_run, replace, pinned, name, f) == CoverNext::Stop(
                CoverOutcome::PlaceFailed,
            )
        },
{
}


/// What a run of covers says before it starts, and how a match tells whether it
/// has a preview.
pub proof fn lemma_what_a_cover_run_says(o: Options, total: usize, m: Match)
    ensures
        o.json ==> covers_start_text(o, total).len() == 0,
        !o.json ==> covers_start_text(o, total) == "Cover art for "@ + decimal_of(total as nat)
            + " game(s)\n"@,
        m.thumb matches Some(t) ==> ends(
            match_row_text(m),
            ", \"thumb\": "@ + json_text(t@) + "}"@,
        ),
        m.thumb is None ==> ends(match_row_text(m), ", \"thumb\": "@ + "null"@ + "}"@),
        begins(
            match_row_text(m),
            "    {\"id\": "@ + decimal_of(m.id as nat) + ", \"name\": "@ + json_text(m.name@),
        ),
{
    let whole = match_row_text(m);
    let part = ", \"thumb\": "@ + thumb_text(m) + "}"@;
    let head = "    {\"id\": "@ + decimal_of(m.id as nat) + ", \"name\": "@ + json_text(m.name@);
    assert(whole =~= head + part);
    assert(whole.skip(whole.len() - part.len()) =~= part);
    assert(whole.take(head.len() as int) =~= head);
}

} // verus!
