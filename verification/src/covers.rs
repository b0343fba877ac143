//! Cover art from SteamGridDB, placed where Lutris looks for it.
//!
//! Lutris resolves a game's cover as `<data dir>/coverart/<slug>.jpg` or
//! `<slug>.png`, and prefers `.jpg`. So a cover only has to be copied in under
//! the right name; nothing in Lutris's database is touched.
//!
//! The network call is `curl`, run as a subprocess, so there is no HTTP client
//! and no TLS stack here.

use vstd::prelude::*;
use vstd::utf8::*;

use crate::json::{hex_value, items_of, parse, parsed, Json, Value};
use crate::lutris::{pair_views, Entry, Installation};
use crate::number::whole;
use crate::path::{join as join_path, lemma_steps_under, steps, under};
use crate::protocol::{Known, Next};
use crate::sorting::{
    dedup, in_order, in_order_by, lemma_first_of_a_key_is_kept, lemma_in_order_map,
    lemma_without_repeats_map, own_key, sort, without_repeats_by, Keyed,
};
use crate::text::{
    begins, cat2, cat3, cat5, decimal, decimal_of, ends, hex_char, hex_digit, is_ascii_alnum,
    is_blank, is_digit, join, joined, lemma_decimal_reads_back, lemma_joined_mentions,
    lemma_mentions_in, lemma_mentions_piece, lemma_mentions_self, lemma_trimmed_is_the_middle,
    lemma_views_push, maybe, mentions, on_edge, same_text, signed, signed_of, starts_with, trim,
    trimmed, unsigned_of, views, Edge,
};
use crate::unicode::{lossy, lossy_text, lower, lowercase};
use crate::written::lemma_decimal_is_digits;

verus! {

/// Vertical cover art: the shape a Lutris grid shows.
pub const COVER_DIMENSIONS: &'static str = "600x900";

/// How many search hits are kept. Enough to choose from; few enough that asking
/// for a preview of each does not spend the whole rate limit.
pub const MAX_MATCHES: usize = 8;

/// A game Lutris knows about, and whether it already has a cover.
#[derive(Debug, Clone)]
pub struct Game {
    pub slug: String,
    pub name: String,
    pub cover: Option<String>,
}

pub struct GameView {
    pub slug: Seq<char>,
    pub name: Seq<char>,
    pub cover: Option<Seq<char>>,
}

impl View for Game {
    type V = GameView;

    open spec fn view(&self) -> GameView {
        GameView { slug: self.slug@, name: self.name@, cover: maybe(self.cover) }
    }
}

pub open spec fn game_views(all: Seq<Game>) -> Seq<GameView> {
    all.map_values(|g: Game| g@)
}

impl Keyed for Game {
    open spec fn key(&self) -> Seq<char> {
        self.slug@
    }

    fn key_text(&self) -> (text: &str) {
        self.slug.as_str()
    }
}

/// One SteamGridDB search result.
#[derive(Debug, Clone)]
pub struct Match {
    pub id: u64,
    pub name: String,
    /// Preview URL, filled in only when the caller asks for it.
    pub thumb: Option<String>,
}

pub struct MatchView {
    pub id: u64,
    pub name: Seq<char>,
    pub thumb: Option<Seq<char>>,
}

impl View for Match {
    type V = MatchView;

    open spec fn view(&self) -> MatchView {
        MatchView { id: self.id, name: self.name@, thumb: maybe(self.thumb) }
    }
}

pub open spec fn match_views(all: Seq<Match>) -> Seq<MatchView> {
    all.map_values(|m: Match| m@)
}

/// One piece of art to download.
#[derive(Debug, Clone)]
pub struct Art {
    pub url: String,
    pub thumb: Option<String>,
}

pub struct ArtView {
    pub url: Seq<char>,
    pub thumb: Option<Seq<char>>,
}

impl View for Art {
    type V = ArtView;

    open spec fn view(&self) -> ArtView {
        ArtView { url: self.url@, thumb: maybe(self.thumb) }
    }
}

// ------------------------------------------------------------------- the key

/// Where a key saved by the window lives, in the directory for the tool's own
/// data.
pub fn key_path(app_data_dir: &str) -> (path: String)
    ensures
        path@ == under(app_data_dir@, "sgdb-api-key"@),
{
    join_path(app_data_dir, "sgdb-api-key")
}

/// Where a key can come from. A file that is not there or cannot be read holds
/// nothing.
#[derive(Debug)]
pub struct KeySources {
    /// What the file holds that was named, where one was.
    pub explicit: Option<String>,
    pub environment: Option<String>,
    pub saved: Option<String>,
}

/// The key in a text: what is left without the blanks around it, if anything.
pub open spec fn key_in(text: Option<String>) -> Option<Seq<char>> {
    match text {
        Some(t) => if trimmed(t@).len() == 0 {
            None
        } else {
            Some(trimmed(t@))
        },
        None => None,
    }
}

fn read_key_file(text: &Option<String>) -> (key: Option<String>)
    ensures
        maybe(key) == key_in(*text),
{
    match text {
        Some(t) => {
            let key = trim(t.as_str());
            proof {
                reveal_strlit("");
                if key@.len() == 0 {
                    assert(key@ =~= ""@);
                }
            }
            if same_text(key.as_str(), "") {
                None
            } else {
                Some(key)
            }
        },
        None => None,
    }
}

/// The key that counts: the named file's, or else the environment's, or else the
/// saved one.
pub open spec fn key_of(sources: KeySources) -> Option<Seq<char>> {
    match key_in(sources.explicit) {
        Some(k) => Some(k),
        None => match key_in(sources.environment) {
            Some(k) => Some(k),
            None => key_in(sources.saved),
        },
    }
}

/// The API key, in order of specificity: an explicit file, then the
/// environment, then the saved file. `None` when there is none anywhere.
pub fn read_key(sources: &KeySources) -> (key: Option<String>)
    ensures
        maybe(key) == key_of(*sources),
{
    match read_key_file(&sources.explicit) {
        Some(k) => Some(k),
        None => match read_key_file(&sources.environment) {
            Some(k) => Some(k),
            None => read_key_file(&sources.saved),
        },
    }
}

// ---------------------------------------------------------------- the covers

/// Where Lutris keeps the covers for this installation. Lutris 0.5+ puts its
/// data directory under the data home; for a Flatpak install that is inside the
/// app's own data directory, which is what `config_dir` already tracks.
pub fn cover_dir(installation: &Installation) -> (path: String)
    ensures
        path@ == covers_in(installation.config_dir@),
{
    join_path(installation.config_dir.as_str(), "coverart")
}

pub open spec fn covers_in(config_dir: Seq<char>) -> Seq<char> {
    under(config_dir, "coverart"@)
}

/// A file for a slug's cover.
pub open spec fn cover_file(config_dir: Seq<char>, slug: Seq<char>, extension: Seq<char>) -> Seq<char> {
    under(covers_in(config_dir), slug + "."@ + extension)
}

/// The file a cover goes to, or could be in.
pub fn cover_path(installation: &Installation, slug: &str, extension: &str) -> (path: String)
    ensures
        path@ == cover_file(installation.config_dir@, slug@, extension@),
{
    join_path(cover_dir(installation).as_str(), cat3(slug, ".", extension).as_str())
}

/// The cover Lutris would already use for a slug, if there is one. `.jpg` is
/// preferred because that is the order Lutris itself resolves them in.
pub open spec fn cover_of(config_dir: Seq<char>, slug: Seq<char>, files: Seq<Seq<char>>) -> Option<
    Seq<char>,
> {
    if files.contains(cover_file(config_dir, slug, "jpg"@)) {
        Some(cover_file(config_dir, slug, "jpg"@))
    } else if files.contains(cover_file(config_dir, slug, "png"@)) {
        Some(cover_file(config_dir, slug, "png"@))
    } else {
        None
    }
}

fn has_text(texts: &Vec<String>, wanted: &str) -> (yes: bool)
    ensures
        yes == views(texts@).contains(wanted@),
{
    for i in 0..texts.len()
        invariant
            forall|k: int| 0 <= k < i ==> texts@[k]@ != wanted@,
    {
        if same_text(texts[i].as_str(), wanted) {
            assert(views(texts@)[i as int] == wanted@);
            return true;
        }
    }
    assert forall|k: int| 0 <= k < views(texts@).len() implies views(texts@)[k] != wanted@ by {
        assert(views(texts@)[k] == texts@[k]@);
    }
    false
}

/// The cover a slug already has. `files` are the cover files that are there.
pub fn existing(installation: &Installation, slug: &str, files: &Vec<String>) -> (path: Option<String>)
    ensures
        maybe(path) == cover_of(installation.config_dir@, slug@, views(files@)),
{
    let jpg = cover_path(installation, slug, "jpg");
    if has_text(files, jpg.as_str()) {
        return Some(jpg);
    }
    let png = cover_path(installation, slug, "png");
    if has_text(files, png.as_str()) {
        return Some(png);
    }
    None
}

/// The slug and name of every entry.
pub open spec fn titles_of(entries: Seq<Entry>) -> Seq<(Seq<char>, Seq<char>)> {
    entries.map_values(|e: Entry| (e.slug@, e.name@))
}

/// Slugs and names with the cover each already has.
pub open spec fn with_covers(
    titles: Seq<(Seq<char>, Seq<char>)>,
    config_dir: Seq<char>,
    files: Seq<Seq<char>>,
) -> Seq<GameView> {
    titles.map_values(
        |t: (Seq<char>, Seq<char>)|
            GameView { slug: t.0, name: t.1, cover: cover_of(config_dir, t.0, files) },
    )
}

/// The games: what Lutris lists, or else what its config files hold.
pub open spec fn titles_in(
    listed: Option<Vec<(String, String)>>,
    entries: Seq<Entry>,
) -> Seq<(Seq<char>, Seq<char>)> {
    match listed {
        Some(l) => pair_views(l@),
        None => titles_of(entries),
    }
}

/// In the order of the slugs, each slug once.
pub open spec fn shelved(games: Seq<GameView>) -> Seq<GameView> {
    without_repeats_by(in_order_by(games, |g: GameView| g.slug), |g: GameView| g.slug)
}

fn add_game(
    games: &mut Vec<Game>,
    installation: &Installation,
    slug: &str,
    name: &str,
    files: &Vec<String>,
)
    ensures
        game_views(final(games)@) == game_views(old(games)@).push(
            GameView {
                slug: slug@,
                name: name@,
                cover: cover_of(installation.config_dir@, slug@, views(files@)),
            },
        ),
{
    let cover = existing(installation, slug, files);
    let game = Game { slug: slug.to_owned(), name: name.to_owned(), cover };
    let ghost was = games@;
    games.push(game);
    assert(game_views(games@) =~= game_views(was).push(game@));
}

/// Every game Lutris knows about, with its current cover.
///
/// The list comes from Lutris itself, so it is exactly what Lutris shows: no
/// duplicate entries and no config leftovers. The per-game files are the
/// fallback for when the command cannot be run.
pub fn games(
    installation: &Installation,
    listed: &Option<Vec<(String, String)>>,
    entries: &Vec<Entry>,
    files: &Vec<String>,
) -> (out: Vec<Game>)
    ensures
        game_views(out@) == shelved(
            with_covers(titles_in(*listed, entries@), installation.config_dir@, views(files@)),
        ),
{
    let ghost dir = installation.config_dir@;
    let ghost there = views(files@);
    let ghost titles = titles_in(*listed, entries@);
    let mut games: Vec<Game> = Vec::new();
    assert(game_views(games@) =~= with_covers(titles.take(0), dir, there));
    match listed {
        Some(l) => {
            for i in 0..l.len()
                invariant
                    dir == installation.config_dir@,
                    there == views(files@),
                    titles == pair_views(l@),
                    game_views(games@) == with_covers(titles.take(i as int), dir, there),
            {
                add_game(&mut games, installation, l[i].0.as_str(), l[i].1.as_str(), files);
                assert(game_views(games@) =~= with_covers(titles.take(i + 1), dir, there));
            }
        },
        None => {
            for i in 0..entries.len()
                invariant
                    dir == installation.config_dir@,
                    there == views(files@),
                    titles == titles_of(entries@),
                    game_views(games@) == with_covers(titles.take(i as int), dir, there),
            {
                add_game(
                    &mut games,
                    installation,
                    entries[i].slug.as_str(),
                    entries[i].name.as_str(),
                    files,
                );
                assert(game_views(games@) =~= with_covers(titles.take(i + 1), dir, there));
            }
        },
    }
    assert(titles.take(titles.len() as int) =~= titles);
    let ghost f = |g: Game| g@;
    let ghost slug_key = |g: GameView| g.slug;
    proof {
        lemma_in_order_map(games@, own_key::<Game>(), f, slug_key);
        lemma_without_repeats_map(in_order(games@), own_key::<Game>(), f, slug_key);
    }
    dedup(sort(games))
}

/// Every slug is shown once, in order, whatever Lutris lists.
pub proof fn lemma_games_are_shown_once(games: Seq<GameView>)
    ensures
        forall|i: int, j: int|
            0 <= i < j < shelved(games).len() ==> crate::ordered::precedes(
                (#[trigger] shelved(games)[i]).slug,
                (#[trigger] shelved(games)[j]).slug,
            ),
        forall|k: int|
            0 <= k < games.len() ==> exists|i: int|
                0 <= i < shelved(games).len() && (#[trigger] shelved(games)[i]).slug
                    == (#[trigger] games[k]).slug,
{
    let slug_key = |g: GameView| g.slug;
    let sorted = in_order_by(games, slug_key);
    crate::sorting::lemma_in_order(games, slug_key);
    crate::sorting::lemma_without_repeats(sorted, slug_key);
    assert forall|k: int| 0 <= k < games.len() implies exists|i: int|
        0 <= i < shelved(games).len() && (#[trigger] shelved(games)[i]).slug
            == (#[trigger] games[k]).slug by {
        broadcast use vstd::seq_lib::group_to_multiset_ensures;

        assert(games.contains(games[k]));
        assert(games.to_multiset().count(games[k]) > 0);
        assert(sorted.to_multiset().count(games[k]) > 0);
        assert(sorted.contains(games[k]));
        let j = choose|j: int| 0 <= j < sorted.len() && sorted[j] == games[k];
        let i = choose|i: int|
            0 <= i < without_repeats_by(sorted, slug_key).len() && slug_key(
                #[trigger] without_repeats_by(sorted, slug_key)[i],
            ) == slug_key(sorted[j]);
        assert(shelved(games)[i].slug == games[k].slug);
    }
}

// ------------------------------------------------------- putting one in place

#[derive(Debug, Clone, Copy, PartialEq, Eq, Structural)]
pub enum PlaceStep {
    CreateDir,
    /// Download to the temporary file.
    Download,
    /// Give the temporary file the name Lutris looks for.
    Rename,
    /// Remove the temporary file.
    Clean,
}

/// What is known of putting a cover in place.
#[derive(Debug)]
pub struct PlaceFacts {
    pub dir: Known<()>,
    pub download: Known<()>,
    pub rename: Known<()>,
    pub clean: Known<()>,
}

pub type PlaceNext = Next<PlaceStep, ()>;

/// The bytes land under a temporary name first, so a download that fails part
/// way leaves nothing where Lutris would show a broken image.
pub open spec fn place_next(f: PlaceFacts) -> PlaceNext {
    match f.dir {
        Known::NotYet => Next::Take(PlaceStep::CreateDir),
        Known::Failed => Next::Failed(PlaceStep::CreateDir),
        Known::Got(_) => match f.download {
            Known::NotYet => Next::Take(PlaceStep::Download),
            Known::Failed => if f.clean is NotYet {
                Next::Take(PlaceStep::Clean)
            } else {
                Next::Failed(PlaceStep::Download)
            },
            Known::Got(_) => match f.rename {
                Known::NotYet => Next::Take(PlaceStep::Rename),
                Known::Failed => if f.clean is NotYet {
                    Next::Take(PlaceStep::Clean)
                } else {
                    Next::Failed(PlaceStep::Rename)
                },
                Known::Got(_) => Next::Stop(()),
            },
        },
    }
}

/// Say what comes next in putting a cover in place.
pub fn place(f: &PlaceFacts) -> (n: PlaceNext)
    ensures
        n == place_next(*f),
{
    let cleaned = !matches!(f.clean, Known::NotYet);
    match &f.dir {
        Known::NotYet => Next::Take(PlaceStep::CreateDir),
        Known::Failed => Next::Failed(PlaceStep::CreateDir),
        Known::Got(_) => match &f.download {
            Known::NotYet => Next::Take(PlaceStep::Download),
            Known::Failed => if cleaned {
                Next::Failed(PlaceStep::Download)
            } else {
                Next::Take(PlaceStep::Clean)
            },
            Known::Got(_) => match &f.rename {
                Known::NotYet => Next::Take(PlaceStep::Rename),
                Known::Failed => if cleaned {
                    Next::Failed(PlaceStep::Rename)
                } else {
                    Next::Take(PlaceStep::Clean)
                },
                Known::Got(_) => Next::Stop(()),
            },
        },
    }
}

/// The name Lutris looks for is only taken by a download that went well, and a
/// failure is only reported once the temporary file has been removed.
pub proof fn lemma_failed_download_leaves_nothing(f: PlaceFacts)
    ensures
        place_next(f) == PlaceNext::Take(PlaceStep::Rename) ==> f.download is Got,
        place_next(f) == PlaceNext::Stop(()) ==> f.download is Got && f.rename is Got,
        place_next(f) == PlaceNext::Failed(PlaceStep::Download) ==> f.clean !is NotYet,
        place_next(f) == PlaceNext::Failed(PlaceStep::Rename) ==> f.clean !is NotYet,
{
}

/// Always written as `.jpg`: Lutris reads the file by content, so a PNG served
/// for a `.jpg` name still displays, and one fixed name means a download can
/// never leave an older copy under the other extension shadowing the new one.
pub open spec fn destination_of(config_dir: Seq<char>, slug: Seq<char>) -> Seq<char> {
    cover_file(config_dir, slug, "jpg"@)
}

pub open spec fn temporary_of(config_dir: Seq<char>, slug: Seq<char>, pid: u32) -> Seq<char> {
    under(covers_in(config_dir), "."@ + slug + ".jpg."@ + decimal_of(pid as nat) + ".part"@)
}

/// Once a cover is in place it is the one that is shown, whatever else is there.
pub proof fn lemma_placed_cover_is_shown(
    config_dir: Seq<char>,
    slug: Seq<char>,
    files: Seq<Seq<char>>,
)
    requires
        files.contains(destination_of(config_dir, slug)),
    ensures
        cover_of(config_dir, slug, files) == Some(destination_of(config_dir, slug)),
{
}

proof fn lemma_ends_as_named(dir: Seq<char>, name: Seq<char>)
    requires
        name.len() > 0,
    ensures
        under(dir, name).len() > 0 && under(dir, name).last() == name.last(),
{
    reveal_strlit("/");
}

/// The file that is removed after a failure is never a cover, of this game or
/// of any other.
pub proof fn lemma_no_cover_is_removed(
    config_dir: Seq<char>,
    slug: Seq<char>,
    pid: u32,
    other: Seq<char>,
)
    ensures
        temporary_of(config_dir, slug, pid) != cover_file(config_dir, other, "jpg"@),
        temporary_of(config_dir, slug, pid) != cover_file(config_dir, other, "png"@),
{
    reveal_strlit(".part");
    reveal_strlit("jpg");
    reveal_strlit("png");
    reveal_strlit(".");
    let dir = covers_in(config_dir);
    lemma_ends_as_named(dir, "."@ + slug + ".jpg."@ + decimal_of(pid as nat) + ".part"@);
    lemma_ends_as_named(dir, other + "."@ + "jpg"@);
    lemma_ends_as_named(dir, other + "."@ + "png"@);
}

/// What is written is directly in the directory Lutris looks in.
pub proof fn lemma_covers_stay_inside(config_dir: Seq<char>, slug: Seq<char>, pid: u32)
    requires
        forall|i: int| 0 <= i < slug.len() ==> slug[i] != '/',
    ensures
        steps(destination_of(config_dir, slug)) == steps(covers_in(config_dir)).push(
            slug + "."@ + "jpg"@,
        ),
        steps(temporary_of(config_dir, slug, pid)) == steps(covers_in(config_dir)).push(
            "."@ + slug + ".jpg."@ + decimal_of(pid as nat) + ".part"@,
        ),
{
    reveal_strlit(".");
    reveal_strlit("jpg");
    reveal_strlit(".jpg.");
    reveal_strlit(".part");
    let digits = decimal_of(pid as nat);
    let dir = covers_in(config_dir);
    let name = slug + "."@ + "jpg"@;
    let part = "."@ + slug + ".jpg."@ + digits + ".part"@;
    lemma_decimal_is_digits(pid as nat);
    assert forall|i: int| 0 <= i < digits.len() implies digits[i] != '/' by {
        assert(is_digit(digits[i]));
    }
    lemma_steps_under(dir, name);
    lemma_steps_under(dir, part);
}

/// The file a download goes to first.
pub fn temporary_path(installation: &Installation, slug: &str, pid: u32) -> (path: String)
    ensures
        path@ == temporary_of(installation.config_dir@, slug@, pid),
{
    join_path(
        cover_dir(installation).as_str(),
        cat5(".", slug, ".jpg.", decimal(pid as u64).as_str(), ".part").as_str(),
    )
}

/// What is said where putting a cover in place fails, given the reason.
pub open spec fn place_failure_text(
    config_dir: Seq<char>,
    slug: Seq<char>,
    s: PlaceStep,
    reason: Seq<char>,
) -> Seq<char> {
    match s {
        PlaceStep::CreateDir => covers_in(config_dir) + ": "@ + reason,
        PlaceStep::Rename => destination_of(config_dir, slug) + ": "@ + reason,
        _ => reason,
    }
}

pub fn place_failure(installation: &Installation, slug: &str, s: PlaceStep, reason: &str) -> (out:
    String)
    ensures
        out@ == place_failure_text(installation.config_dir@, slug@, s, reason@),
{
    match s {
        PlaceStep::CreateDir => cat3(cover_dir(installation).as_str(), ": ", reason),
        PlaceStep::Rename => cat3(cover_path(installation, slug, "jpg").as_str(), ": ", reason),
        _ => reason.to_owned(),
    }
}

// -------------------------------------------------------------- the matching

/// The first place of a text that is wanted, or the length.
pub open spec fn first_same(texts: Seq<Seq<char>>, wanted: Seq<char>) -> int
    decreases texts.len(),
{
    if texts.len() == 0 || texts[0] == wanted {
        0
    } else {
        1 + first_same(texts.skip(1), wanted)
    }
}

/// The first place of a text that starts with what is wanted, or the length.
pub open spec fn first_begin(texts: Seq<Seq<char>>, wanted: Seq<char>) -> int
    decreases texts.len(),
{
    if texts.len() == 0 || begins(texts[0], wanted) {
        0
    } else {
        1 + first_begin(texts.skip(1), wanted)
    }
}

/// The best of some texts: the same as what is wanted, then one that starts
/// with it, then the first.
pub open spec fn best_of(texts: Seq<Seq<char>>, wanted: Seq<char>) -> Option<int> {
    if texts.len() == 0 {
        None
    } else if first_same(texts, wanted) < texts.len() {
        Some(first_same(texts, wanted))
    } else if first_begin(texts, wanted) < texts.len() {
        Some(first_begin(texts, wanted))
    } else {
        Some(0)
    }
}

proof fn lemma_first_same(texts: Seq<Seq<char>>, wanted: Seq<char>, at: int)
    requires
        0 <= at <= texts.len(),
        forall|i: int| 0 <= i < at ==> #[trigger] texts[i] != wanted,
        at < texts.len() ==> texts[at] == wanted,
    ensures
        first_same(texts, wanted) == at,
    decreases at,
{
    if at > 0 {
        let rest = texts.skip(1);
        assert forall|i: int| 0 <= i < at - 1 implies #[trigger] rest[i] != wanted by {
            assert(rest[i] == texts[i + 1]);
        }
        lemma_first_same(rest, wanted, at - 1);
        assert(texts[0] != wanted);
    }
}

proof fn lemma_first_begin(texts: Seq<Seq<char>>, wanted: Seq<char>, at: int)
    requires
        0 <= at <= texts.len(),
        forall|i: int| 0 <= i < at ==> !begins(#[trigger] texts[i], wanted),
        at < texts.len() ==> begins(texts[at], wanted),
    ensures
        first_begin(texts, wanted) == at,
    decreases at,
{
    if at > 0 {
        let rest = texts.skip(1);
        assert forall|i: int| 0 <= i < at - 1 implies !begins(#[trigger] rest[i], wanted) by {
            assert(rest[i] == texts[i + 1]);
        }
        lemma_first_begin(rest, wanted, at - 1);
        assert(!begins(texts[0], wanted));
    }
}

/// Find the best of some texts.
pub fn best_text(texts: &Vec<String>, wanted: &str) -> (at: Option<usize>)
    ensures
        match best_of(views(texts@), wanted@) {
            Some(i) => at matches Some(k) && k == i && k < texts@.len(),
            None => at is None,
        },
{
    let ghost all = views(texts@);
    if texts.len() == 0 {
        assert(all.len() == 0);
        return None;
    }
    let mut same: usize = 0;
    while same < texts.len() && !same_text(texts[same].as_str(), wanted)
        invariant
            all == views(texts@),
            same <= texts@.len(),
            forall|i: int| 0 <= i < same ==> #[trigger] all[i] != wanted@,
        decreases texts@.len() - same,
    {
        same = same + 1;
    }
    proof {
        lemma_first_same(all, wanted@, same as int);
    }
    if same < texts.len() {
        return Some(same);
    }
    let mut begin: usize = 0;
    while begin < texts.len() && !starts_with(texts[begin].as_str(), wanted)
        invariant
            all == views(texts@),
            begin <= texts@.len(),
            forall|i: int| 0 <= i < begin ==> !begins(#[trigger] all[i], wanted@),
        decreases texts@.len() - begin,
    {
        begin = begin + 1;
    }
    proof {
        lemma_first_begin(all, wanted@, begin as int);
    }
    if begin < texts.len() {
        return Some(begin);
    }
    Some(0)
}

/// The names of some matches in lowercase.
pub open spec fn small_names(found: Seq<Match>) -> Seq<Seq<char>> {
    found.map_values(|m: Match| lowercase(m.name@))
}

/// Which of some matches best matches a game's name.
pub open spec fn best_index(found: Seq<Match>, name: Seq<char>) -> Option<int> {
    best_of(small_names(found), lowercase(trimmed(name)))
}

/// Find which of some matches best matches a game's name.
pub fn find_best(found: &[Match], name: &str) -> (at: Option<usize>)
    ensures
        match best_index(found@, name@) {
            Some(i) => at matches Some(k) && k == i && k < found@.len(),
            None => at is None,
        },
{
    let wanted = lower(trim(name).as_str());
    let mut names: Vec<String> = Vec::new();
    assert(views(names@) =~= small_names(found@.take(0)));
    for i in 0..found.len()
        invariant
            views(names@) == small_names(found@.take(i as int)),
            names@.len() == i,
    {
        let one = lower(found[i].name.as_str());
        proof {
            lemma_views_push(names@, one);
            assert(small_names(found@.take(i + 1)) =~= small_names(found@.take(i as int)).push(one@));
        }
        names.push(one);
    }
    assert(found@.take(found@.len() as int) =~= found@);
    best_text(&names, wanted.as_str())
}

/// The candidate that best matches a game's name: an exact match, then one that
/// starts with it, then the first hit. A wrong guess can be corrected; this
/// only decides what is tried first.
pub fn best_match<'a>(found: &'a [Match], name: &str) -> (best: Option<&'a Match>)
    ensures
        match best_index(found@, name@) {
            Some(i) => best matches Some(m) && *m == found@[i],
            None => best is None,
        },
{
    match find_best(found, name) {
        Some(i) => Some(&found[i]),
        None => None,
    }
}

/// There is a best match wherever there is any, and an exact one goes before
/// one that only starts the same.
pub proof fn lemma_best_match_prefers_exact(texts: Seq<Seq<char>>, wanted: Seq<char>)
    ensures
        best_of(texts, wanted) is None <==> texts.len() == 0,
        texts.contains(wanted) ==> texts[best_of(texts, wanted)->Some_0] == wanted,
        (exists|i: int| 0 <= i < texts.len() && begins(#[trigger] texts[i], wanted)) ==> begins(
            texts[best_of(texts, wanted)->Some_0],
            wanted,
        ),
{
    lemma_first_same_found(texts, wanted);
    lemma_first_begin_found(texts, wanted);
    if first_same(texts, wanted) < texts.len() {
        assert(wanted.take(wanted.len() as int) =~= wanted);
    }
}

proof fn lemma_first_same_found(texts: Seq<Seq<char>>, wanted: Seq<char>)
    ensures
        0 <= first_same(texts, wanted) <= texts.len(),
        first_same(texts, wanted) < texts.len() ==> texts[first_same(texts, wanted)] == wanted,
        texts.contains(wanted) ==> first_same(texts, wanted) < texts.len(),
    decreases texts.len(),
{
    if texts.len() > 0 && texts[0] != wanted {
        let rest = texts.skip(1);
        lemma_first_same_found(rest, wanted);
        if texts.contains(wanted) {
            let i = choose|i: int| 0 <= i < texts.len() && texts[i] == wanted;
            assert(rest[i - 1] == wanted);
        }
    }
}

proof fn lemma_first_begin_found(texts: Seq<Seq<char>>, wanted: Seq<char>)
    ensures
        0 <= first_begin(texts, wanted) <= texts.len(),
        first_begin(texts, wanted) < texts.len() ==> begins(
            texts[first_begin(texts, wanted)],
            wanted,
        ),
        (exists|i: int| 0 <= i < texts.len() && begins(#[trigger] texts[i], wanted)) ==> first_begin(
            texts,
            wanted,
        ) < texts.len(),
    decreases texts.len(),
{
    if texts.len() > 0 && !begins(texts[0], wanted) {
        let rest = texts.skip(1);
        lemma_first_begin_found(rest, wanted);
        if exists|i: int| 0 <= i < texts.len() && begins(#[trigger] texts[i], wanted) {
            let i = choose|i: int| 0 <= i < texts.len() && begins(#[trigger] texts[i], wanted);
            assert(begins(rest[i - 1], wanted));
        }
    }
}

// ------------------------------------------------------------- the API calls

/// Whether a byte stands as itself in a URL path segment: letters, digits and
/// the RFC 3986 unreserved marks.
pub open spec fn passes(b: u8) -> bool {
    ||| 0x41 <= b <= 0x5a
    ||| 0x61 <= b <= 0x7a
    ||| 0x30 <= b <= 0x39
    ||| b == 0x2d
    ||| b == 0x5f
    ||| b == 0x2e
    ||| b == 0x7e
}

/// A byte as it stands in a URL.
pub open spec fn percent(b: u8) -> Seq<char> {
    if passes(b) {
        seq![b as char]
    } else {
        seq!['%', hex_digit(b as int / 16, true), hex_digit(b as int % 16, true)]
    }
}

/// Bytes as they stand in a URL.
pub open spec fn percents(bytes: Seq<u8>) -> Seq<char>
    decreases bytes.len(),
{
    if bytes.len() == 0 {
        seq![]
    } else {
        percents(bytes.drop_last()) + percent(bytes.last())
    }
}

fn push_percent(out: &mut String, b: u8)
    ensures
        final(out)@ == old(out)@ + percent(b),
{
    if (0x41 <= b && b <= 0x5a) || (0x61 <= b && b <= 0x7a) || (0x30 <= b && b <= 0x39) || b == 0x2d
        || b == 0x5f || b == 0x2e || b == 0x7e {
        out.push(b as char);
    } else {
        out.push('%');
        out.push(hex_char(b / 16, true));
        out.push(hex_char(b % 16, true));
    }
    assert(out@ =~= old(out)@ + percent(b));
}

/// Percent-encode a value for a URL path segment.
pub fn urlencode(text: &str) -> (out: String)
    ensures
        out@ == percents(encode_utf8(text@)),
{
    let bytes = text.as_bytes();
    let mut out = String::new();
    for i in 0..bytes.len()
        invariant
            bytes@ == encode_utf8(text@),
            out@ == percents(bytes@.take(i as int)),
    {
        push_percent(&mut out, bytes[i]);
        assert(bytes@.take(i + 1).drop_last() =~= bytes@.take(i as int));
    }
    assert(bytes@.take(bytes@.len() as int) =~= bytes@);
    out
}

/// A character that a URL path segment can hold.
pub open spec fn is_segment_char(c: char) -> bool {
    is_ascii_alnum(c) || c == '-' || c == '_' || c == '.' || c == '~' || c == '%'
}

/// Whatever is encoded, the outcome is made of characters that a URL path
/// segment can hold.
pub proof fn lemma_encoded_is_a_segment(bytes: Seq<u8>)
    ensures
        forall|i: int| 0 <= i < percents(bytes).len() ==> is_segment_char(#[trigger] percents(bytes)[i]),
    decreases bytes.len(),
{
    if bytes.len() > 0 {
        let head = percents(bytes.drop_last());
        let b = bytes.last();
        lemma_encoded_is_a_segment(bytes.drop_last());
        lemma_percent(b);
        assert forall|i: int| 0 <= i < percents(bytes).len() implies is_segment_char(
            #[trigger] percents(bytes)[i],
        ) by {
            if i < head.len() {
                assert(percents(bytes)[i] == head[i]);
            } else {
                assert(percents(bytes)[i] == percent(b)[i - head.len()]);
            }
        }
    }
}

proof fn lemma_percent(b: u8)
    ensures
        forall|i: int| 0 <= i < percent(b).len() ==> is_segment_char(#[trigger] percent(b)[i]),
{
}

/// The bytes that a part of a URL stands for.
pub open spec fn unpercent(s: Seq<char>) -> Seq<u8>
    decreases s.len(),
{
    if s.len() == 0 {
        seq![]
    } else if s[0] == '%' && s.len() >= 3 {
        seq![(hex_value(s[1] as u8) * 16 + hex_value(s[2] as u8)) as u8] + unpercent(s.skip(3))
    } else {
        seq![s[0] as u8] + unpercent(s.skip(1))
    }
}

proof fn lemma_percents_front(bytes: Seq<u8>)
    requires
        bytes.len() > 0,
    ensures
        percents(bytes) == percent(bytes[0]) + percents(bytes.skip(1)),
    decreases bytes.len(),
{
    let rest = bytes.skip(1);
    if bytes.len() == 1 {
        assert(percents(bytes.drop_last()).len() == 0);
        assert(percents(rest).len() == 0);
        assert(percents(bytes) =~= percent(bytes[0]) + percents(rest));
    } else {
        lemma_percents_front(bytes.drop_last());
        assert(bytes.drop_last().skip(1) =~= rest.drop_last());
        assert(percents(bytes) =~= percent(bytes[0]) + percents(rest));
    }
}

proof fn lemma_unpercent_one(b: u8, rest: Seq<char>)
    ensures
        unpercent(percent(b) + rest) == seq![b] + unpercent(rest),
{
    let s = percent(b) + rest;
    if passes(b) {
        assert(s.skip(1) =~= rest);
        assert(s[0] == b as char);
    } else {
        assert(s.skip(3) =~= rest);
        assert(s[0] == '%');
        assert(s[1] == hex_digit(b as int / 16, true));
        assert(s[2] == hex_digit(b as int % 16, true));
        assert(hex_value(s[1] as u8) == b as int / 16);
        assert(hex_value(s[2] as u8) == b as int % 16);
    }
}

/// What was encoded can be told from the outcome.
pub proof fn lemma_encoded_decodes(bytes: Seq<u8>)
    ensures
        unpercent(percents(bytes)) == bytes,
    decreases bytes.len(),
{
    if bytes.len() > 0 {
        let rest = bytes.skip(1);
        lemma_percents_front(bytes);
        lemma_unpercent_one(bytes[0], percents(rest));
        lemma_encoded_decodes(rest);
        assert(seq![bytes[0]] + rest =~= bytes);
    } else {
        assert(unpercent(percents(bytes)) =~= bytes);
    }
}

/// The search for a name.
pub open spec fn search_url_text(query: Seq<char>) -> Seq<char> {
    "https://www.steamgriddb.com/api/v2/search/autocomplete/"@ + percents(encode_utf8(query))
}

pub fn search_url(query: &str) -> (out: String)
    ensures
        out@ == search_url_text(query@),
{
    let mut out = "https://www.steamgriddb.com/api/v2/search/autocomplete/".to_owned();
    out.append(urlencode(query).as_str());
    out
}

/// The vertical covers of a game.
pub open spec fn art_url_text(game_id: u64) -> Seq<char> {
    "https://www.steamgriddb.com/api/v2/grids/game/"@ + decimal_of(game_id as nat)
        + "?dimensions="@ + COVER_DIMENSIONS@
}

pub fn art_url(game_id: u64) -> (out: String)
    ensures
        out@ == art_url_text(game_id),
{
    let mut out = "https://www.steamgriddb.com/api/v2/grids/game/".to_owned();
    out.append(decimal(game_id as u64).as_str());
    out.append("?dimensions=");
    out.append(COVER_DIMENSIONS);
    out
}

/// What `curl` is started with to ask for a document.
pub open spec fn ask_words(key: Seq<char>, url: Seq<char>) -> Seq<Seq<char>> {
    seq!["-sS"@, "--fail-with-body"@, "-H"@, "Authorization: Bearer "@ + key, url]
}

pub fn ask(key: &str, url: &str) -> (args: Vec<String>)
    ensures
        views(args@) == ask_words(key@, url@),
{
    let mut args: Vec<String> = Vec::new();
    args.push("-sS".to_owned());
    args.push("--fail-with-body".to_owned());
    args.push("-H".to_owned());
    args.push(cat2("Authorization: Bearer ", key));
    args.push(url.to_owned());
    assert(views(args@) =~= ask_words(key@, url@));
    args
}

/// What `curl` is started with to download straight to a file, following
/// redirects. Written to disk by curl rather than held in memory, because cover
/// files are megabytes.
pub open spec fn download_words(url: Seq<char>, destination: Seq<char>) -> Seq<Seq<char>> {
    seq!["-sS"@, "--fail-with-body"@, "-L"@, "-o"@, destination, url]
}

pub fn download(url: &str, destination: &str) -> (args: Vec<String>)
    ensures
        views(args@) == download_words(url@, destination@),
{
    let mut args: Vec<String> = Vec::new();
    args.push("-sS".to_owned());
    args.push("--fail-with-body".to_owned());
    args.push("-L".to_owned());
    args.push("-o".to_owned());
    args.push(destination.to_owned());
    args.push(url.to_owned());
    assert(views(args@) =~= seq![
        "-sS"@,
        "--fail-with-body"@,
        "-L"@,
        "-o"@,
        destination@,
        url@,
    ]);
    args
}

/// How running `curl` went.
#[derive(Debug)]
pub enum Curl {
    /// It could not be run at all.
    NotRun { error: String },
    Ran { success: bool, code: Option<i32>, stdout: Vec<u8>, stderr: Vec<u8> },
}

pub open spec fn code_or_minus(code: Option<i32>) -> int {
    match code {
        Some(c) => c as int,
        None => -1,
    }
}

/// What is wrong with a run that did not go well.
pub open spec fn curl_fault(code: Option<i32>, complaint: Seq<char>) -> Seq<char> {
    if trimmed(complaint).len() == 0 {
        "curl exited with status "@ + signed_of(code_or_minus(code))
    } else {
        trimmed(complaint)
    }
}

pub open spec fn curl_outcome(run: Curl) -> Result<Seq<u8>, Seq<char>> {
    match run {
        Curl::NotRun { error } => Err(
            "could not run curl ("@ + error@
                + "). Covers are fetched with curl; install it and try again."@,
        ),
        Curl::Ran { success, code, stdout, stderr } => if success {
            Ok(stdout@)
        } else {
            Err(curl_fault(code, lossy_text(stderr@)))
        },
    }
}

/// Say what is wrong with a run that did not go well.
pub fn explain_curl(code: Option<i32>, complaint: &str) -> (out: String)
    ensures
        out@ == curl_fault(code, complaint@),
{
    let text = trim(complaint);
    proof {
        reveal_strlit("");
        if text@.len() == 0 {
            assert(text@ =~= ""@);
        }
    }
    if same_text(text.as_str(), "") {
        let c: i32 = match code {
            Some(c) => c,
            None => -1,
        };
        cat2("curl exited with status ", signed(c).as_str())
    } else {
        text
    }
}

/// What a run of `curl` gave, or why it gave nothing.
pub fn run_curl<'a>(run: &'a Curl) -> (r: Result<&'a Vec<u8>, String>)
    ensures
        match curl_outcome(*run) {
            Ok(b) => r matches Ok(v) && v@ == b,
            Err(t) => r matches Err(e) && e@ == t,
        },
{
    match run {
        Curl::NotRun { error } => Err(
            cat3(
                "could not run curl (",
                error.as_str(),
                "). Covers are fetched with curl; install it and try again.",
            ),
        ),
        Curl::Ran { success, code, stdout, stderr } => if *success {
            Ok(stdout)
        } else {
            Err(explain_curl(*code, lossy(stderr.as_slice()).as_str()))
        },
    }
}

/// The texts among some values.
pub open spec fn texts_among(items: Seq<Value>) -> Seq<Seq<char>>
    decreases items.len(),
{
    if items.len() == 0 {
        seq![]
    } else {
        match items.last().as_str() {
            Some(t) => texts_among(items.drop_last()).push(t),
            None => texts_among(items.drop_last()),
        }
    }
}

fn gather_texts(items: &[Json]) -> (out: Vec<String>)
    ensures
        views(out@) == texts_among(items_of(items@)),
{
    let ghost all = items_of(items@);
    let mut out: Vec<String> = Vec::new();
    assert(views(out@) =~= texts_among(all.take(0)));
    for i in 0..items.len()
        invariant
            all == items_of(items@),
            views(out@) == texts_among(all.take(i as int)),
    {
        proof {
            assert(all.take(i + 1).drop_last() =~= all.take(i as int));
            assert(all[i as int] == items@[i as int]@);
        }
        match items[i].as_str() {
            Some(t) => {
                let one = t.to_owned();
                proof {
                    lemma_views_push(out@, one);
                }
                out.push(one);
            },
            None => {},
        }
    }
    assert(all.take(items@.len() as int) =~= all);
    out
}

/// Why a document is a refusal, if it is one.
pub open spec fn refusal_in(v: Value) -> Option<Seq<char>> {
    if v.get("success"@) matches Some(s) && s.as_bool() == Some(false) {
        let detail = texts_among(v.list("errors"@));
        if detail.len() == 0 {
            Some("SteamGridDB refused the request (a wrong or expired key does this)"@)
        } else {
            Some("SteamGridDB refused the request: "@ + joined(detail, "; "@))
        }
    } else {
        None
    }
}

/// The document in a reply, or why there is none.
pub open spec fn document_in(text: Seq<char>) -> Result<Value, Seq<char>> {
    match parsed(encode_utf8(trimmed(text))) {
        Err(f) => Err(
            "SteamGridDB returned a response this tool could not read: "@ + f.text(),
        ),
        Ok(v) => match refusal_in(v) {
            Some(why) => Err(why),
            None => Ok(v),
        },
    }
}

/// Read the document in a reply.
pub fn read_document(text: &str) -> (r: Result<Json, String>)
    ensures
        match document_in(text@) {
            Ok(v) => r matches Ok(j) && j@ == v,
            Err(t) => r matches Err(e) && e@ == t,
        },
{
    let value = match parse(trim(text).as_str()) {
        Err(e) => {
            return Err(
                cat2(
                    "SteamGridDB returned a response this tool could not read: ",
                    e.as_str(),
                ),
            );
        },
        Ok(value) => value,
    };
    let refused = match value.get("success") {
        Some(s) => match s.as_bool() {
            Some(b) => !b,
            None => false,
        },
        None => false,
    };
    if refused {
        let detail = gather_texts(value.list("errors"));
        if detail.len() == 0 {
            assert(views(detail@).len() == 0);
            return Err(
                "SteamGridDB refused the request (a wrong or expired key does this)".to_owned(),
            );
        }
        assert(views(detail@).len() > 0);
        return Err(cat2("SteamGridDB refused the request: ", join(&detail, "; ").as_str()));
    }
    Ok(value)
}

/// The document a run of `curl` gave, or why there is none.
pub open spec fn document_of(run: Curl) -> Result<Value, Seq<char>> {
    match curl_outcome(run) {
        Err(t) => Err(t),
        Ok(b) => document_in(lossy_text(b)),
    }
}

pub fn get_json(run: &Curl) -> (r: Result<Json, String>)
    ensures
        match document_of(*run) {
            Ok(v) => r matches Ok(j) && j@ == v,
            Err(t) => r matches Err(e) && e@ == t,
        },
{
    match run_curl(run) {
        Err(e) => Err(e),
        Ok(bytes) => read_document(lossy(bytes.as_slice()).as_str()),
    }
}

/// The search results among some values: those that have an id and a name.
pub open spec fn matches_among(items: Seq<Value>) -> Seq<MatchView>
    decreases items.len(),
{
    if items.len() == 0 {
        seq![]
    } else {
        let rest = matches_among(items.drop_last());
        let id = match items.last().get("id"@) {
            Some(v) => v.as_u64(),
            None => None,
        };
        match (id, items.last().string("name"@)) {
            (Some(id), Some(name)) => rest.push(MatchView { id, name, thumb: None }),
            _ => rest,
        }
    }
}

/// Read the search results out of a document.
pub fn matches_in(document: &Json) -> (found: Vec<Match>)
    ensures
        match_views(found@) == matches_among(document@.list("data"@)),
{
    let items = document.list("data");
    let ghost all = items_of(items@);
    let mut found: Vec<Match> = Vec::new();
    assert(match_views(found@) =~= matches_among(all.take(0)));
    for i in 0..items.len()
        invariant
            all == items_of(items@),
            match_views(found@) == matches_among(all.take(i as int)),
    {
        proof {
            assert(all.take(i + 1).drop_last() =~= all.take(i as int));
            assert(all[i as int] == items@[i as int]@);
        }
        let id = match items[i].get("id") {
            Some(v) => v.as_u64(),
            None => None,
        };
        match (id, items[i].string("name")) {
            (Some(id), Some(name)) => {
                let one = Match { id, name, thumb: None };
                let ghost was = found@;
                found.push(one);
                assert(match_views(found@) =~= match_views(was).push(one@));
            },
            _ => {},
        }
    }
    assert(all.take(items@.len() as int) =~= all);
    found
}

/// Search by name: what the reply to a search holds.
pub fn search(run: &Curl) -> (r: Result<Vec<Match>, String>)
    ensures
        match document_of(*run) {
            Ok(v) => r matches Ok(found) && match_views(found@) == matches_among(v.list("data"@)),
            Err(t) => r matches Err(e) && e@ == t,
        },
{
    match get_json(run) {
        Err(e) => Err(e),
        Ok(document) => Ok(matches_in(&document)),
    }
}

/// The first vertical cover in a document, if any.
pub open spec fn art_among(items: Seq<Value>) -> Option<ArtView> {
    if items.len() == 0 {
        None
    } else {
        match items[0].string("url"@) {
            Some(url) => Some(ArtView { url, thumb: items[0].string("thumb"@) }),
            None => None,
        }
    }
}

pub open spec fn maybe_art(art: Option<Art>) -> Option<ArtView> {
    match art {
        Some(a) => Some(a@),
        None => None,
    }
}

/// Read the first vertical cover out of a document.
pub fn art_in(document: &Json) -> (art: Option<Art>)
    ensures
        maybe_art(art) == art_among(document@.list("data"@)),
{
    let items = document.list("data");
    let ghost all = items_of(items@);
    if items.len() == 0 {
        assert(all.len() == 0);
        return None;
    }
    assert(all[0] == items@[0]@);
    match items[0].string("url") {
        Some(url) => Some(Art { url, thumb: items[0].string("thumb") }),
        None => None,
    }
}

/// The first vertical cover SteamGridDB has for a game, if any: what the reply
/// holds.
pub fn art(run: &Curl) -> (r: Result<Option<Art>, String>)
    ensures
        match document_of(*run) {
            Ok(v) => r matches Ok(a) && maybe_art(a) == art_among(v.list("data"@)),
            Err(t) => r matches Err(e) && e@ == t,
        },
{
    match get_json(run) {
        Err(e) => Err(e),
        Ok(document) => Ok(art_in(&document)),
    }
}

/// The preview that the reply for a match gives. A missing thumbnail is not
/// worth failing the whole search over.
pub open spec fn previewed(m: MatchView, run: Curl) -> MatchView {
    match document_of(run) {
        Ok(v) => match art_among(v.list("data"@)) {
            Some(a) => MatchView { id: m.id, name: m.name, thumb: a.thumb },
            None => m,
        },
        Err(_) => m,
    }
}

/// The first few matches with the previews that their replies give.
pub open spec fn with_previews(found: Seq<MatchView>, runs: Seq<Curl>) -> Seq<MatchView> {
    Seq::new(
        found.len(),
        |i: int|
            if i < MAX_MATCHES && i < runs.len() {
                previewed(found[i], runs[i])
            } else {
                found[i]
            },
    )
}

/// Fill in a preview URL for the first few matches, given the reply for each.
pub fn with_thumbnails(found: Vec<Match>, runs: &Vec<Curl>) -> (out: Vec<Match>)
    ensures
        match_views(out@) == with_previews(match_views(found@), runs@),
{
    let ghost all = match_views(found@);
    let mut found = found;
    let mut i: usize = 0;
    assert(match_views(found@) =~= Seq::new(all.len(), |k: int| all[k]));
    while i < found.len() && i < MAX_MATCHES && i < runs.len()
        invariant
            all.len() == found@.len(),
            i <= MAX_MATCHES,
            i <= runs@.len(),
            i <= found@.len(),
            forall|k: int|
                0 <= k < all.len() ==> (#[trigger] found@[k])@ == (if k < i {
                    previewed(all[k], runs@[k])
                } else {
                    all[k]
                }),
        decreases found@.len() - i,
    {
        let ghost was = found@;
        match art(&runs[i]) {
            Ok(Some(a)) => {
                let id = found[i].id;
                let name = found[i].name.clone();
                found.set(i, Match { id, name, thumb: a.thumb });
            },
            _ => {},
        }
        proof {
            assert(was[i as int]@ == all[i as int]);
            assert forall|k: int| 0 <= k < all.len() implies (#[trigger] found@[k])@ == (if k < i
                + 1 {
                previewed(all[k], runs@[k])
            } else {
                all[k]
            }) by {
                if k != i {
                    assert(found@[k] == was[k]);
                }
            }
        }
        i = i + 1;
    }
    assert(match_views(found@) =~= with_previews(all, runs@)) by {
        assert forall|k: int| 0 <= k < all.len() implies match_views(found@)[k] == with_previews(
            all,
            runs@,
        )[k] by {
            assert(match_views(found@)[k] == found@[k]@);
        }
    }
    found
}

// -------------------------------------------------- what holds of the match

/// Whether one text is the start of another, character by character.
pub open spec fn is_start(start: Seq<char>, s: Seq<char>) -> bool {
    &&& start.len() <= s.len()
    &&& forall|i: int| 0 <= i < start.len() ==> s[i] == #[trigger] start[i]
}

pub proof fn lemma_begins_is_start(s: Seq<char>, start: Seq<char>)
    ensures
        begins(s, start) <==> is_start(start, s),
{
    if begins(s, start) {
        assert forall|i: int| 0 <= i < start.len() implies s[i] == #[trigger] start[i] by {
            assert(s.take(start.len() as int)[i] == s[i]);
        }
    }
    if is_start(start, s) {
        assert(s.take(start.len() as int) =~= start);
    }
}

/// The text that is picked is the first that is the same, where any is. Where
/// none is, it is the first that starts the same. Where none does, it is the
/// first of all.
pub proof fn lemma_best_is_the_first_of_its_kind(texts: Seq<Seq<char>>, wanted: Seq<char>)
    ensures
        texts.len() == 0 <==> best_of(texts, wanted) is None,
        best_of(texts, wanted) matches Some(at) ==> {
            &&& 0 <= at < texts.len()
            &&& (exists|i: int| 0 <= i < texts.len() && #[trigger] texts[i] == wanted) ==> texts[at]
                == wanted && forall|j: int| 0 <= j < at ==> #[trigger] texts[j] != wanted
            &&& !(exists|i: int| 0 <= i < texts.len() && #[trigger] texts[i] == wanted) && (exists|
                i: int,
            |
                0 <= i < texts.len() && is_start(wanted, #[trigger] texts[i])) ==> is_start(
                wanted,
                texts[at],
            ) && forall|j: int| 0 <= j < at ==> !is_start(wanted, #[trigger] texts[j])
            &&& !(exists|i: int| 0 <= i < texts.len() && is_start(wanted, #[trigger] texts[i]))
                ==> at == 0
        },
{
    lemma_first_same_found(texts, wanted);
    lemma_first_begin_found(texts, wanted);
    lemma_first_same_least(texts, wanted);
    lemma_first_begin_least(texts, wanted);
    if texts.len() > 0 {
        let at = best_of(texts, wanted)->Some_0;
        if exists|i: int| 0 <= i < texts.len() && #[trigger] texts[i] == wanted {
            let i = choose|i: int| 0 <= i < texts.len() && #[trigger] texts[i] == wanted;
            assert(texts.contains(wanted));
        } else {
            if first_same(texts, wanted) < texts.len() {
                assert(texts[first_same(texts, wanted)] == wanted);
            }
            if exists|i: int| 0 <= i < texts.len() && is_start(wanted, #[trigger] texts[i]) {
                let i = choose|i: int| 0 <= i < texts.len() && is_start(wanted, #[trigger] texts[i]);
                lemma_begins_is_start(texts[i], wanted);
                lemma_begins_is_start(texts[at], wanted);
                assert forall|j: int| 0 <= j < at implies !is_start(wanted, #[trigger] texts[j]) by {
                    lemma_begins_is_start(texts[j], wanted);
                }
            } else if first_begin(texts, wanted) < texts.len() {
                lemma_begins_is_start(texts[first_begin(texts, wanted)], wanted);
                assert(is_start(wanted, texts[first_begin(texts, wanted)]));
            }
        }
        if !(exists|i: int| 0 <= i < texts.len() && is_start(wanted, #[trigger] texts[i])) {
            if exists|i: int| 0 <= i < texts.len() && #[trigger] texts[i] == wanted {
                let i = choose|i: int| 0 <= i < texts.len() && #[trigger] texts[i] == wanted;
                assert(is_start(wanted, texts[i]));
            }
        }
    }
}

proof fn lemma_first_same_least(texts: Seq<Seq<char>>, wanted: Seq<char>)
    ensures
        forall|j: int| 0 <= j < first_same(texts, wanted) && j < texts.len() ==> #[trigger] texts[j]
            != wanted,
    decreases texts.len(),
{
    if texts.len() > 0 && texts[0] != wanted {
        let rest = texts.skip(1);
        lemma_first_same_least(rest, wanted);
        assert forall|j: int| 0 <= j < first_same(texts, wanted) && j < texts.len() implies
            #[trigger] texts[j] != wanted by {
            if j > 0 {
                assert(rest[j - 1] == texts[j]);
            }
        }
    }
}

proof fn lemma_first_begin_least(texts: Seq<Seq<char>>, wanted: Seq<char>)
    ensures
        forall|j: int|
            0 <= j < first_begin(texts, wanted) && j < texts.len() ==> !begins(
                #[trigger] texts[j],
                wanted,
            ),
    decreases texts.len(),
{
    if texts.len() > 0 && !begins(texts[0], wanted) {
        let rest = texts.skip(1);
        lemma_first_begin_least(rest, wanted);
        assert forall|j: int| 0 <= j < first_begin(texts, wanted) && j < texts.len() implies !begins(
            #[trigger] texts[j],
            wanted,
        ) by {
            if j > 0 {
                assert(rest[j - 1] == texts[j]);
            }
        }
    }
}

/// The match of a name is looked for among the names as they are in small
/// letters, with the blanks around the name left out: case never decides.
pub proof fn lemma_best_match_ignores_case(found: Seq<Match>, name: Seq<char>)
    ensures
        best_index(found, name) matches Some(at) ==> {
            let wanted = lowercase(trimmed(name));
            &&& 0 <= at < found.len()
            &&& (exists|i: int|
                0 <= i < found.len() && lowercase((#[trigger] found[i]).name@) == wanted)
                ==> lowercase(found[at].name@) == wanted && forall|j: int|
                0 <= j < at ==> lowercase((#[trigger] found[j]).name@) != wanted
            &&& !(exists|i: int|
                0 <= i < found.len() && is_start(wanted, lowercase((#[trigger] found[i]).name@)))
                ==> at == 0
        },
        best_index(found, name) is None <==> found.len() == 0,
{
    let wanted = lowercase(trimmed(name));
    let texts = small_names(found);
    lemma_best_is_the_first_of_its_kind(texts, wanted);
    assert forall|i: int| 0 <= i < found.len() implies #[trigger] texts[i] == lowercase(
        found[i].name@,
    ) by {}
    if found.len() > 0 {
        let at = best_index(found, name)->Some_0;
        if exists|i: int| 0 <= i < found.len() && lowercase((#[trigger] found[i]).name@) == wanted {
            let i = choose|i: int|
                0 <= i < found.len() && lowercase((#[trigger] found[i]).name@) == wanted;
            assert(texts[i] == wanted);
            assert forall|j: int| 0 <= j < at implies lowercase((#[trigger] found[j]).name@)
                != wanted by {
                assert(texts[j] != wanted);
            }
        }
        if !(exists|i: int|
            0 <= i < found.len() && is_start(wanted, lowercase((#[trigger] found[i]).name@))) {
            if exists|i: int| 0 <= i < texts.len() && is_start(wanted, #[trigger] texts[i]) {
                let i = choose|i: int| 0 <= i < texts.len() && is_start(wanted, #[trigger] texts[i]);
                assert(is_start(wanted, lowercase(found[i].name@)));
            }
        }
    }
}

// ------------------------------------------------------ what holds of a key

/// Whether a source gives a key: whether it holds anything but blanks.
pub open spec fn gives_key(source: Option<String>) -> bool {
    source is Some && exists|i: int|
        0 <= i < source->Some_0@.len() && !is_blank(#[trigger] source->Some_0@[i])
}

proof fn lemma_key_in(source: Option<String>)
    ensures
        key_in(source) is Some <==> gives_key(source),
        key_in(source) is Some ==> key_in(source) == Some(trimmed(source->Some_0@)),
{
    if source is Some {
        let t = source->Some_0@;
        let cut = lemma_trimmed_is_the_middle(t, Edge::Blank);
        if trimmed(t).len() == 0 {
            assert forall|i: int| 0 <= i < t.len() implies is_blank(#[trigger] t[i]) by {
                assert(on_edge(Edge::Blank, t[i]));
            }
        } else {
            assert(!on_edge(Edge::Blank, t[cut.0]));
            assert(!is_blank(source->Some_0@[cut.0]));
        }
    }
}

/// The first source that holds anything but blanks gives the key: the named
/// file, the environment, the saved file. It is what stands between the blanks.
/// There is no key where no source holds any.
pub proof fn lemma_first_source_gives_the_key(s: KeySources)
    ensures
        gives_key(s.explicit) ==> key_of(s) == Some(trimmed(s.explicit->Some_0@)),
        !gives_key(s.explicit) && gives_key(s.environment) ==> key_of(s) == Some(
            trimmed(s.environment->Some_0@),
        ),
        !gives_key(s.explicit) && !gives_key(s.environment) && gives_key(s.saved) ==> key_of(s)
            == Some(trimmed(s.saved->Some_0@)),
        !gives_key(s.explicit) && !gives_key(s.environment) && !gives_key(s.saved) ==> key_of(s)
            is None,
        key_of(s) matches Some(k) ==> k.len() > 0 && !is_blank(k[0]) && !is_blank(k.last()),
{
    lemma_key_in(s.explicit);
    lemma_key_in(s.environment);
    lemma_key_in(s.saved);
    if gives_key(s.explicit) {
        let _cut = lemma_trimmed_is_the_middle(s.explicit->Some_0@, Edge::Blank);
    }
    if gives_key(s.environment) {
        let _cut = lemma_trimmed_is_the_middle(s.environment->Some_0@, Edge::Blank);
    }
    if gives_key(s.saved) {
        let _cut = lemma_trimmed_is_the_middle(s.saved->Some_0@, Edge::Blank);
    }
}

// ------------------------------------------------- what holds of the covers

/// The cover that is shown is the file with the slug's name in the directory
/// `coverart`, with `.jpg` behind it where that is there, else with `.png`. Where
/// neither is there none is shown.
pub proof fn lemma_cover_is_by_name(
    config_dir: Seq<char>,
    slug: Seq<char>,
    files: Seq<Seq<char>>,
)
    requires
        config_dir.len() > 0,
        config_dir.last() != '/',
        slug.len() > 0,
        slug[0] != '/',
    ensures
        ({
            let jpg = config_dir + "/coverart/"@ + slug + ".jpg"@;
            let png = config_dir + "/coverart/"@ + slug + ".png"@;
            &&& files.contains(jpg) ==> cover_of(config_dir, slug, files) == Some(jpg)
            &&& !files.contains(jpg) && files.contains(png) ==> cover_of(config_dir, slug, files)
                == Some(png)
            &&& !files.contains(jpg) && !files.contains(png) ==> cover_of(config_dir, slug, files)
                is None
        }),
{
    reveal_strlit("/");
    reveal_strlit(".");
    reveal_strlit("coverart");
    reveal_strlit("/coverart/");
    reveal_strlit("jpg");
    reveal_strlit("png");
    reveal_strlit(".jpg");
    reveal_strlit(".png");
    assert(cover_file(config_dir, slug, "jpg"@) =~= config_dir + "/coverart/"@ + slug + ".jpg"@);
    assert(cover_file(config_dir, slug, "png"@) =~= config_dir + "/coverart/"@ + slug + ".png"@);
}

/// What is shown comes from Lutris's own list wherever there is one, and from
/// its config files only where there is none. Each game has the name that stands
/// with the first mention of its slug, and the cover of that slug.
pub proof fn lemma_first_mention_is_shown(
    listed: Option<Vec<(String, String)>>,
    entries: Seq<Entry>,
    config_dir: Seq<char>,
    files: Seq<Seq<char>>,
    i: int,
) -> (m: int)
    requires
        0 <= i < shelved(with_covers(titles_in(listed, entries), config_dir, files)).len(),
    ensures
        ({
            let game = shelved(with_covers(titles_in(listed, entries), config_dir, files))[i];
            &&& game.cover == cover_of(config_dir, game.slug, files)
            &&& listed matches Some(l) ==> {
                &&& 0 <= m < l@.len()
                &&& game.slug == l@[m].0@
                &&& game.name == l@[m].1@
                &&& forall|j: int| 0 <= j < m ==> (#[trigger] l@[j]).0@ != game.slug
            }
            &&& listed is None ==> {
                &&& 0 <= m < entries.len()
                &&& game.slug == entries[m].slug@
                &&& game.name == entries[m].name@
                &&& forall|j: int| 0 <= j < m ==> (#[trigger] entries[j]).slug@ != game.slug
            }
        }),
{
    let all = with_covers(titles_in(listed, entries), config_dir, files);
    let slug_key = |g: GameView| g.slug;
    let m = lemma_first_of_a_key_is_kept(all, slug_key, i);
    match listed {
        Some(l) => {
            assert forall|j: int| 0 <= j < m implies (#[trigger] l@[j]).0@ != all[m].slug by {
                assert(slug_key(all[j]) != slug_key(all[m]));
                assert(all[j].slug == l@[j].0@);
            }
        },
        None => {
            assert forall|j: int| 0 <= j < m implies (#[trigger] entries[j]).slug@ != all[m].slug by {
                assert(slug_key(all[j]) != slug_key(all[m]));
                assert(all[j].slug == entries[j].slug@);
            }
        },
    }
    m
}

/// A cover is put in place in four steps at most. Where all goes well these are
/// making the directory, downloading and renaming, in that order. Nothing but a
/// step of its own that failed stops it.
pub proof fn lemma_placing_goes_through(f: PlaceFacts)
    ensures
        f.dir is NotYet ==> place_next(f) == PlaceNext::Take(PlaceStep::CreateDir),
        f.dir is Got && f.download is NotYet ==> place_next(f) == PlaceNext::Take(
            PlaceStep::Download,
        ),
        f.dir is Got && f.download is Got && f.rename is NotYet ==> place_next(f)
            == PlaceNext::Take(PlaceStep::Rename),
        f.dir is Got && f.download is Got && f.rename is Got ==> place_next(f) == PlaceNext::Stop(
            (),
        ),
        place_next(f) == PlaceNext::Failed(PlaceStep::CreateDir) <==> f.dir is Failed,
        place_next(f) == PlaceNext::Failed(PlaceStep::Download) ==> f.download is Failed,
        place_next(f) == PlaceNext::Failed(PlaceStep::Rename) ==> f.rename is Failed,
        place_next(f) == PlaceNext::Take(PlaceStep::Clean) ==> f.clean is NotYet && (f.download
            is Failed || f.rename is Failed),
        place_next(f) != PlaceNext::Failed(PlaceStep::Clean),
{
}

/// A failure says why, and names what it is about.
pub proof fn lemma_place_failure_says_why(
    config_dir: Seq<char>,
    slug: Seq<char>,
    s: PlaceStep,
    reason: Seq<char>,
)
    ensures
        mentions(place_failure_text(config_dir, slug, s, reason), reason),
        s is CreateDir ==> mentions(
            place_failure_text(config_dir, slug, s, reason),
            covers_in(config_dir),
        ),
        s is Rename ==> mentions(
            place_failure_text(config_dir, slug, s, reason),
            destination_of(config_dir, slug),
        ),
        s is Download ==> place_failure_text(config_dir, slug, s, reason) == reason,
{
    lemma_mentions_self(reason);
    lemma_mentions_piece(covers_in(config_dir) + ": "@, reason, seq![]);
    lemma_mentions_piece(destination_of(config_dir, slug) + ": "@, reason, seq![]);
    lemma_mentions_piece(seq![], covers_in(config_dir), ": "@);
    lemma_mentions_in(
        seq![],
        covers_in(config_dir) + ": "@,
        reason,
        covers_in(config_dir),
    );
    lemma_mentions_piece(seq![], destination_of(config_dir, slug), ": "@);
    lemma_mentions_in(
        seq![],
        destination_of(config_dir, slug) + ": "@,
        reason,
        destination_of(config_dir, slug),
    );
}

// ----------------------------------------------- what holds of the API calls

/// A letter, a digit or one of `-`, `_`, `.` and `~` stands in a URL as it is.
/// Any other byte stands as a percent sign and two hexadecimal digits, capital
/// ones.
pub proof fn lemma_plain_bytes_stand_as_they_are(a: Seq<u8>, b: u8, c: Seq<u8>)
    ensures
        percents(a + seq![b] + c) == percents(a) + percents(seq![b]) + percents(c),
        is_ascii_alnum(b as char) || b == 0x2d || b == 0x5f || b == 0x2e || b == 0x7e
            ==> percents(seq![b]) == seq![b as char],
        !(is_ascii_alnum(b as char) || b == 0x2d || b == 0x5f || b == 0x2e || b == 0x7e)
            ==> percents(seq![b]).len() == 3 && percents(seq![b])[0] == '%' && percents(
            seq![b],
        )[1] == "0123456789ABCDEF"@[b as int / 16] && percents(seq![b])[2]
            == "0123456789ABCDEF"@[b as int % 16],
{
    reveal_strlit("0123456789ABCDEF");
    lemma_percents_concat(a + seq![b], c);
    lemma_percents_concat(a, seq![b]);
    assert(seq![b].drop_last() =~= Seq::<u8>::empty());
    assert(percents(seq![b].drop_last()).len() == 0);
    assert(percents(seq![b]) =~= percent(b));
}

proof fn lemma_percents_concat(a: Seq<u8>, b: Seq<u8>)
    ensures
        percents(a + b) == percents(a) + percents(b),
    decreases b.len(),
{
    if b.len() == 0 {
        assert(a + b =~= a);
        assert(percents(a) + percents(b) =~= percents(a));
    } else {
        lemma_percents_concat(a, b.drop_last());
        assert((a + b).drop_last() =~= a + b.drop_last());
        assert((a + b).last() == b.last());
        assert(percents(a + b) =~= percents(a) + percents(b));
    }
}

/// A search and a request for covers go to SteamGridDB over HTTPS. The search
/// has the name at its end, encoded so that it is one segment, and the request
/// for covers has the game's number and asks for the upright shape.
pub proof fn lemma_where_requests_go(query: Seq<char>, game_id: u64)
    ensures
        is_start(
            "https://www.steamgriddb.com/api/v2/search/autocomplete/"@,
            search_url_text(query),
        ),
        unpercent(search_url_text(query).skip(55)) == encode_utf8(query),
        is_start("https://www.steamgriddb.com/api/v2/grids/game/"@, art_url_text(game_id)),
        ends(art_url_text(game_id), "?dimensions=600x900"@),
        unsigned_of(art_url_text(game_id).subrange(46, art_url_text(game_id).len() - 19)) == Some(
            game_id,
        ),
{
    reveal_strlit("https://www.steamgriddb.com/api/v2/search/autocomplete/");
    reveal_strlit("https://www.steamgriddb.com/api/v2/grids/game/");
    reveal_strlit("?dimensions=");
    reveal_strlit("600x900");
    reveal_strlit("?dimensions=600x900");
    assert(search_url_text(query).skip(55) =~= percents(encode_utf8(query)));
    lemma_encoded_decodes(encode_utf8(query));
    lemma_decimal_reads_back(game_id as nat);
    let url = art_url_text(game_id);
    assert(url.subrange(46, url.len() - 19) =~= decimal_of(game_id as nat));
    assert(url.subrange(url.len() - 19, url.len() as int) =~= "?dimensions=600x900"@);
}

/// A run of `curl` gives what it wrote out where it went well, and only there.
/// Where it could not be run the reason is told. Where it went wrong its own
/// complaint is told, or its exit status where it made none.
pub proof fn lemma_how_a_run_went(run: Curl)
    ensures
        curl_outcome(run) is Ok <==> run is Ran && run->success,
        run is Ran && run->success ==> curl_outcome(run) == Ok::<Seq<u8>, Seq<char>>(
            run->stdout@,
        ),
        run is NotRun ==> mentions(curl_outcome(run)->Err_0, run->error@),
        run is Ran && !run->success && (exists|i: int|
            0 <= i < lossy_text(run->stderr@).len() && !is_blank(
                #[trigger] lossy_text(run->stderr@)[i],
            )) ==> curl_outcome(run) == Err::<Seq<u8>, Seq<char>>(
            trimmed(lossy_text(run->stderr@)),
        ),
        run is Ran && !run->success && !(exists|i: int|
            0 <= i < lossy_text(run->stderr@).len() && !is_blank(
                #[trigger] lossy_text(run->stderr@)[i],
            )) ==> curl_outcome(run) == Err::<Seq<u8>, Seq<char>>(
            "curl exited with status "@ + signed_of(
                if run->code is Some {
                    run->code->Some_0 as int
                } else {
                    -1
                },
            ),
        ),
{
    match run {
        Curl::NotRun { error } => {
            lemma_mentions_piece(
                "could not run curl ("@,
                error@,
                "). Covers are fetched with curl; install it and try again."@,
            );
        },
        Curl::Ran { success, code, stdout, stderr } => {
            let t = lossy_text(stderr@);
            let cut = lemma_trimmed_is_the_middle(t, Edge::Blank);
            if trimmed(t).len() == 0 {
                assert forall|i: int| 0 <= i < t.len() implies is_blank(#[trigger] t[i]) by {
                    assert(on_edge(Edge::Blank, t[i]));
                }
            } else {
                assert(!on_edge(Edge::Blank, t[cut.0]));
                assert(!is_blank(lossy_text(run->stderr@)[cut.0]));
            }
        },
    }
}

/// Whether a document says that the request was refused.
pub open spec fn says_refused(v: Value) -> bool {
    v matches Value::Object(m) && m.contains_key("success"@) && m["success"@] == Value::Bool(false)
}

proof fn lemma_texts_push(items: Seq<Value>, v: Value)
    ensures
        texts_among(items.push(v)) == if v is Text {
            texts_among(items).push(v->Text_0)
        } else {
            texts_among(items)
        },
{
    assert(items.push(v).drop_last() =~= items);
}

proof fn lemma_texts_has(items: Seq<Value>, i: int)
    requires
        0 <= i < items.len(),
        items[i] is Text,
    ensures
        texts_among(items).contains(items[i]->Text_0),
    decreases items.len(),
{
    let rest = items.drop_last();
    assert(items =~= rest.push(items.last()));
    lemma_texts_push(rest, items.last());
    if i == items.len() - 1 {
        assert(texts_among(items).last() == items[i]->Text_0);
    } else {
        lemma_texts_has(rest, i);
        let k = choose|k: int| 0 <= k < texts_among(rest).len() && texts_among(rest)[k] == items[i]->Text_0;
        assert(texts_among(items)[k] == items[i]->Text_0);
    }
}

/// A document is used exactly where it can be read and does not say that the
/// request was refused. A refusal names every reason that the document gives.
pub proof fn lemma_which_documents_are_used(run: Curl)
    ensures
        document_of(run) is Ok <==> run is Ran && run->success && parsed(
            encode_utf8(trimmed(lossy_text(run->stdout@))),
        ) is Ok && !says_refused(parsed(encode_utf8(trimmed(lossy_text(run->stdout@))))->Ok_0),
        document_of(run) is Ok ==> parsed(encode_utf8(trimmed(lossy_text(run->stdout@)))) == Ok::<
            Value,
            crate::json::Fault,
        >(document_of(run)->Ok_0),
        curl_outcome(run) is Err ==> document_of(run) == Err::<Value, Seq<char>>(
            curl_outcome(run)->Err_0,
        ),
        run is Ran && run->success && parsed(encode_utf8(trimmed(lossy_text(run->stdout@)))) is Err
            ==> mentions(
            document_of(run)->Err_0,
            parsed(encode_utf8(trimmed(lossy_text(run->stdout@))))->Err_0.text(),
        ),
{
    if run is Ran && run->success {
        let r = parsed(encode_utf8(trimmed(lossy_text(run->stdout@))));
        if r is Err {
            lemma_mentions_piece(
                "SteamGridDB returned a response this tool could not read: "@,
                r->Err_0.text(),
                seq![],
            );
        }
    }
}

/// A refusal names every reason that the document gives.
pub proof fn lemma_refusal_names_its_reasons(m: Map<Seq<char>, Value>, errors: Seq<Value>, i: int)
    requires
        says_refused(Value::Object(m)),
        m.contains_key("errors"@),
        m["errors"@] == Value::Array(errors),
        0 <= i < errors.len(),
        errors[i] is Text,
    ensures
        refusal_in(Value::Object(m)) is Some,
        mentions(refusal_in(Value::Object(m))->Some_0, errors[i]->Text_0),
{
    let detail = texts_among(errors);
    lemma_texts_has(errors, i);
    let k = choose|k: int| 0 <= k < detail.len() && detail[k] == errors[i]->Text_0;
    lemma_joined_mentions(detail, "; "@, k);
    lemma_mentions_in(
        "SteamGridDB refused the request: "@,
        joined(detail, "; "@),
        seq![],
        errors[i]->Text_0,
    );
}

/// Whether a value is a search hit: an object with a whole number as its id and
/// a text as its name.
pub open spec fn is_hit(v: Value, id: u64, name: Seq<char>) -> bool {
    v matches Value::Object(m) && m.contains_key("id"@) && m["id"@] is Number && whole(
        m["id"@]->Number_0,
    ) == Some(id) && m.contains_key("name"@) && m["name"@] == Value::Text(name)
}

/// The search hits are told in the order in which they come, each with its id
/// and its name, and what is no hit is passed over.
pub proof fn lemma_hits_are_told_in_order(a: Seq<Value>, b: Seq<Value>, v: Value)
    ensures
        matches_among(a + b) == matches_among(a) + matches_among(b),
        forall|id: u64, name: Seq<char>| #[trigger]
            is_hit(v, id, name) ==> matches_among(seq![v]) == seq![
                MatchView { id, name, thumb: None },
            ],
        !(exists|id: u64, name: Seq<char>| #[trigger] is_hit(v, id, name)) ==> matches_among(
            seq![v],
        ).len() == 0,
    decreases b.len(),
{
    assert(seq![v].drop_last() =~= Seq::<Value>::empty());
    assert(seq![v].last() == v);
    assert(matches_among(seq![v].drop_last()) =~= seq![]);
    assert forall|id: u64, name: Seq<char>| #[trigger] is_hit(v, id, name) implies matches_among(
        seq![v],
    ) == seq![MatchView { id, name, thumb: None }] by {
        assert(matches_among(seq![v]) =~= seq![MatchView { id, name, thumb: None }]);
    }
    if matches_among(seq![v]).len() > 0 {
        let one = matches_among(seq![v])[0];
        assert(is_hit(v, one.id, one.name));
    }
    if b.len() == 0 {
        assert(a + b =~= a);
        assert(matches_among(a) + matches_among(b) =~= matches_among(a));
    } else {
        lemma_hits_are_told_in_order(a, b.drop_last(), v);
        assert((a + b).drop_last() =~= a + b.drop_last());
        assert((a + b).last() == b.last());
        assert(matches_among(a + b) =~= matches_among(a) + matches_among(b));
    }
}

/// The cover that is taken is the first that the document has, and only if it
/// says where it can be had.
pub proof fn lemma_first_art_is_taken(items: Seq<Value>)
    ensures
        art_among(items) is Some <==> items.len() > 0 && items[0] is Object
            && items[0]->Object_0.contains_key("url"@) && items[0]->Object_0["url"@] is Text,
        art_among(items) matches Some(a) ==> Value::Text(a.url) == items[0]->Object_0["url"@],
        art_among(items) matches Some(a) ==> (a.thumb matches Some(t)
            ==> items[0]->Object_0.contains_key("thumb"@) && items[0]->Object_0["thumb"@]
            == Value::Text(t)),
        art_among(items) matches Some(a) ==> (a.thumb is None
            ==> !(items[0]->Object_0.contains_key("thumb"@) && items[0]->Object_0["thumb"@]
            is Text)),
{
}

/// Asking for previews changes nothing but the previews, and only those of the
/// first eight. A match gets the preview of its own reply, where that gives a
/// cover, and stays as it is where not.
pub proof fn lemma_only_previews_change(found: Seq<MatchView>, runs: Seq<Curl>, i: int)
    requires
        0 <= i < found.len(),
    ensures
        with_previews(found, runs).len() == found.len(),
        with_previews(found, runs)[i].id == found[i].id,
        with_previews(found, runs)[i].name == found[i].name,
        i >= 8 || i >= runs.len() ==> with_previews(found, runs)[i] == found[i],
        i < 8 && i < runs.len() && document_of(runs[i]) is Ok && art_among(
            document_of(runs[i])->Ok_0.list("data"@),
        ) is Some ==> with_previews(found, runs)[i].thumb == art_among(
            document_of(runs[i])->Ok_0.list("data"@),
        )->Some_0.thumb,
        i < 8 && i < runs.len() && (document_of(runs[i]) is Err || art_among(
            document_of(runs[i])->Ok_0.list("data"@),
        ) is None) ==> with_previews(found, runs)[i] == found[i],
{
}

/// The key is only handed over in the header of a request for a document. A
/// download goes to the file that is named, follows redirects and has no key.
/// Either fails where the server says so, and the address comes last.
pub proof fn lemma_what_curl_is_told(
    key: Seq<char>,
    url: Seq<char>,
    destination: Seq<char>,
)
    ensures
        ask_words(key, url).last() == url,
        ask_words(key, url).contains("Authorization: Bearer "@ + key),
        ask_words(key, url).contains("--fail-with-body"@),
        ask_words(key, url).len() == 5,
        download_words(url, destination).last() == url,
        download_words(url, destination).contains("--fail-with-body"@),
        download_words(url, destination).contains("-L"@),
        download_words(url, destination).len() == 6,
        download_words(url, destination)[4] == destination,
        download_words(url, destination)[3] == "-o"@,
{
    assert(ask_words(key, url)[3] == "Authorization: Bearer "@ + key);
    assert(ask_words(key, url)[1] == "--fail-with-body"@);
    assert(download_words(url, destination)[1] == "--fail-with-body"@);
    assert(download_words(url, destination)[2] == "-L"@);
}


/// A download or a rename that failed is cleaned up after and then told.
pub proof fn lemma_failures_are_cleaned_up_after(f: PlaceFacts)
    ensures
        f.dir is Got && f.download is Failed ==> place_next(f) == if f.clean is NotYet {
            PlaceNext::Take(PlaceStep::Clean)
        } else {
            PlaceNext::Failed(PlaceStep::Download)
        },
        f.dir is Got && f.download is Got && f.rename is Failed ==> place_next(f) == if f.clean
            is NotYet {
            PlaceNext::Take(PlaceStep::Clean)
        } else {
            PlaceNext::Failed(PlaceStep::Rename)
        },
{
}

} // verus!
