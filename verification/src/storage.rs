//! What is taking up space and where, so retained originals can be found and
//! understood before anyone decides to delete one. It changes nothing.

use vstd::prelude::*;

use crate::document::{json_number, json_string, json_text, optional_number};
use crate::fix::GROWTH_RESERVE;
use crate::library::{Held, Options, Report, Size, State};
use crate::text::{
    begins, cat2, decimal, decimal_of, join, joined, lemma_joined_mentions, lemma_mentions_in,
    lemma_mentions_piece, lemma_mentions_self, lemma_mentions_through, lemma_views_push, mentions,
    views,
};

verus! {

/// What is kept for a library, measured.
#[derive(Debug)]
pub struct Stored {
    pub id: String,
    pub name: String,
    pub live: Option<Held>,
    pub backups: Vec<Held>,
    pub leftover: Option<Held>,
}

/// Where the copies live, and how much room is left there.
#[derive(Debug)]
pub struct Volume {
    pub root: String,
    /// What is free there, where that can be told.
    pub free: Option<Size>,
    /// What the copies take.
    pub used: Size,
}

/// Where the live data of a library is, if it was moved anywhere.
pub open spec fn live_of(report: Report) -> Option<String> {
    match report.state {
        State::Repaired { target, .. } => Some(target),
        _ => report.existing_destination,
    }
}

/// The path to measure for the live data. It only counts where it is a
/// directory.
pub fn live_to_measure(report: &Report) -> (path: Option<String>)
    ensures
        path == live_of(*report),
{
    match &report.state {
        State::Repaired { target, .. } => Some(target.clone()),
        _ => match &report.existing_destination {
            Some(path) => Some(path.clone()),
            None => None,
        },
    }
}

/// What a copy that stopped left behind, in either direction.
pub open spec fn leftover_of(report: Report) -> Option<String> {
    match report.abandoned_copy {
        Some(path) => Some(path),
        None => report.interrupted_restore,
    }
}

/// The path to measure for what a stopped copy left behind.
pub fn leftover_to_measure(report: &Report) -> (path: Option<String>)
    ensures
        path == leftover_of(*report),
{
    match &report.abandoned_copy {
        Some(path) => Some(path.clone()),
        None => match &report.interrupted_restore {
            Some(path) => Some(path.clone()),
            None => None,
        },
    }
}

/// Whether there is anything to report of a library.
pub open spec fn worth_showing(s: Stored) -> bool {
    s.live is Some || s.backups@.len() > 0 || s.leftover is Some
}

fn shows(s: &Stored) -> (yes: bool)
    ensures
        yes == worth_showing(*s),
{
    s.live.is_some() || s.backups.len() > 0 || s.leftover.is_some()
}

/// How many libraries there is anything to report of.
pub open spec fn shown_in(stored: Seq<Stored>) -> nat
    decreases stored.len(),
{
    if stored.len() == 0 {
        0
    } else if worth_showing(stored.last()) {
        shown_in(stored.drop_last()) + 1
    } else {
        shown_in(stored.drop_last())
    }
}

// ---------------------------------------------------------- for people

pub open spec fn live_line_text(s: Stored) -> Seq<char> {
    match s.live {
        Some(held) => "      live        "@ + held.path@ + " ("@ + held.size.shown@ + ")\n"@,
        None => seq![],
    }
}

fn live_line(s: &Stored) -> (out: String)
    ensures
        out@ == live_line_text(*s),
{
    match &s.live {
        Some(held) => {
            let mut out = "      live        ".to_owned();
            out.append(held.path.as_str());
            out.append(" (");
            out.append(held.size.shown.as_str());
            out.append(")\n");
            out
        },
        None => String::new(),
    }
}

pub open spec fn original_line_text(held: Held) -> Seq<char> {
    "      original    "@ + held.path@ + " ("@ + held.size.shown@ + ")\n"@
}

fn original_line(held: &Held) -> (out: String)
    ensures
        out@ == original_line_text(*held),
{
    let mut out = "      original    ".to_owned();
    out.append(held.path.as_str());
    out.append(" (");
    out.append(held.size.shown.as_str());
    out.append(")\n");
    out
}

pub open spec fn unfinished_line_text(s: Stored) -> Seq<char> {
    match s.leftover {
        Some(held) => "      unfinished  "@ + held.path@ + " ("@ + held.size.shown@
                + "), left by a copy that stopped\n"@,
        None => seq![],
    }
}

fn unfinished_line(s: &Stored) -> (out: String)
    ensures
        out@ == unfinished_line_text(*s),
{
    match &s.leftover {
        Some(held) => {
            let mut out = "      unfinished  ".to_owned();
            out.append(held.path.as_str());
            out.append(" (");
            out.append(held.size.shown.as_str());
            out.append("), left by a copy that stopped\n");
            out
        },
        None => String::new(),
    }
}

pub open spec fn originals_text(backups: Seq<Held>) -> Seq<char>
    decreases backups.len(),
{
    if backups.len() == 0 {
        seq![]
    } else {
        originals_text(backups.drop_last()) + original_line_text(backups.last())
    }
}

fn originals(backups: &Vec<Held>) -> (out: String)
    ensures
        out@ == originals_text(backups@),
{
    let mut out = String::new();
    for i in 0..backups.len()
        invariant
            out@ == originals_text(backups@.take(i as int)),
    {
        out.append(original_line(&backups[i]).as_str());
        assert(backups@.take(i + 1).drop_last() =~= backups@.take(i as int));
    }
    assert(backups@.take(backups@.len() as int) =~= backups@);
    out
}

pub open spec fn stored_block_text(s: Stored) -> Seq<char> {
    "\n  ["@ + s.id@ + "] "@ + s.name@ + "\n"@ + live_line_text(s) + originals_text(s.backups@)
        + unfinished_line_text(s)
}

fn stored_block(s: &Stored) -> (out: String)
    ensures
        out@ == stored_block_text(*s),
{
    let mut out = "\n  [".to_owned();
    out.append(s.id.as_str());
    out.append("] ");
    out.append(s.name.as_str());
    out.append("\n");
    out.append(live_line(s).as_str());
    out.append(originals(&s.backups).as_str());
    out.append(unfinished_line(s).as_str());
    out
}

pub open spec fn blocks_text(stored: Seq<Stored>) -> Seq<char>
    decreases stored.len(),
{
    if stored.len() == 0 {
        seq![]
    } else if worth_showing(stored.last()) {
        blocks_text(stored.drop_last()) + stored_block_text(stored.last())
    } else {
        blocks_text(stored.drop_last())
    }
}

fn blocks(stored: &Vec<Stored>) -> (out: String)
    ensures
        out@ == blocks_text(stored@),
{
    let mut out = String::new();
    for i in 0..stored.len()
        invariant
            out@ == blocks_text(stored@.take(i as int)),
    {
        assert(stored@.take(i + 1).drop_last() =~= stored@.take(i as int));
        if shows(&stored[i]) {
            out.append(stored_block(&stored[i]).as_str());
        }
    }
    assert(stored@.take(stored@.len() as int) =~= stored@);
    out
}

pub open spec fn nothing_stored_text(v: Volume) -> Seq<char> {
    match v.free {
        Some(free) => "The copies live at "@ + v.root@ + ", with "@ + free.shown@ + " free right \
            now.\n"@,
        None => seq![],
    }
}

fn nothing_stored(v: &Volume) -> (out: String)
    ensures
        out@ == nothing_stored_text(*v),
{
    match &v.free {
        Some(free) => {
            let mut out = "The copies live at ".to_owned();
            out.append(v.root.as_str());
            out.append(", with ");
            out.append(free.shown.as_str());
            out.append(" free right now.\n");
            out
        },
        None => String::new(),
    }
}

/// Said where less is free than the reserve a repair keeps.
pub open spec fn headroom_text(free: u64) -> Seq<char> {
    if free < GROWTH_RESERVE {
        "That is low headroom. A large prefix could push it past comfortable. Consider deleting \
            originals with `librarybridge backup <library>` once they are confirmed working.\n"@
    } else {
        seq![]
    }
}

fn headroom(free: u64) -> (out: String)
    ensures
        out@ == headroom_text(free),
{
    if free < GROWTH_RESERVE {
        "That is low headroom. A large prefix could push it past comfortable. Consider deleting \
            originals with `librarybridge backup <library>` once they are confirmed working.\n".to_owned()
    } else {
        String::new()
    }
}

pub open spec fn volume_line_text(v: Volume) -> Seq<char> {
    match v.free {
        Some(free) => "\nThe copies live at "@ + v.root@ + " and take "@ + v.used.shown@ + "; "@
                + free.shown@ + " is free there right now.\n"@ + headroom_text(free.bytes),
        None => seq![],
    }
}

fn volume_line(v: &Volume) -> (out: String)
    ensures
        out@ == volume_line_text(*v),
{
    match &v.free {
        Some(free) => {
            let mut out = "\nThe copies live at ".to_owned();
            out.append(v.root.as_str());
            out.append(" and take ");
            out.append(v.used.shown.as_str());
            out.append("; ");
            out.append(free.shown.as_str());
            out.append(" is free there right now.\n");
            out.append(headroom(free.bytes).as_str());
            out
        },
        None => String::new(),
    }
}

// -------------------------------------------------------- for machines

pub open spec fn held_json_text(held: Held) -> Seq<char> {
    "{\"path\": "@ + json_text(held.path@) + ", \"bytes\": "@ + decimal_of(held.size.bytes as nat)
        + "}"@
}

fn held_json(held: &Held) -> (out: String)
    ensures
        out@ == held_json_text(*held),
{
    let mut out = "{\"path\": ".to_owned();
    out.append(json_string(held.path.as_str()).as_str());
    out.append(", \"bytes\": ");
    out.append(decimal(held.size.bytes as u64).as_str());
    out.append("}");
    out
}

pub open spec fn optional_held_text(held: Option<Held>) -> Seq<char> {
    match held {
        Some(h) => held_json_text(h),
        None => "null"@,
    }
}

fn optional_held(held: &Option<Held>) -> (out: String)
    ensures
        out@ == optional_held_text(*held),
{
    match held {
        Some(h) => held_json(h),
        None => "null".to_owned(),
    }
}

pub open spec fn all_held_json(held: Seq<Held>) -> Seq<Seq<char>> {
    held.map_values(|h: Held| held_json_text(h))
}

fn all_held(held: &Vec<Held>) -> (out: Vec<String>)
    ensures
        views(out@) == all_held_json(held@),
{
    let mut out: Vec<String> = Vec::new();
    assert(views(out@) =~= all_held_json(held@.take(0)));
    for i in 0..held.len()
        invariant
            views(out@) == all_held_json(held@.take(i as int)),
    {
        let one = held_json(&held[i]);
        proof {
            lemma_views_push(out@, one);
            assert(all_held_json(held@.take(i + 1)) =~= all_held_json(held@.take(i as int)).push(
                one@,
            ));
        }
        out.push(one);
    }
    assert(held@.take(held@.len() as int) =~= held@);
    out
}

pub open spec fn stored_json_text(s: Stored) -> Seq<char> {
    "    {\n      \"id\": "@ + json_text(s.id@) + ",\n      \"name\": "@ + json_text(s.name@)
        + ",\n      \"live\": "@ + optional_held_text(s.live) + ",\n      \"backups\": ["@
        + joined(all_held_json(s.backups@), ", "@) + "],\n      \"leftover\": "@
        + optional_held_text(s.leftover) + "\n    }"@
}

fn stored_json(s: &Stored) -> (out: String)
    ensures
        out@ == stored_json_text(*s),
{
    let mut out = "    {\n      \"id\": ".to_owned();
    out.append(json_string(s.id.as_str()).as_str());
    out.append(",\n      \"name\": ");
    out.append(json_string(s.name.as_str()).as_str());
    out.append(",\n      \"live\": ");
    out.append(optional_held(&s.live).as_str());
    out.append(",\n      \"backups\": [");
    out.append(join(&all_held(&s.backups), ", ").as_str());
    out.append("],\n      \"leftover\": ");
    out.append(optional_held(&s.leftover).as_str());
    out.append("\n    }");
    out
}

pub open spec fn rows_of(stored: Seq<Stored>) -> Seq<Seq<char>>
    decreases stored.len(),
{
    if stored.len() == 0 {
        seq![]
    } else if worth_showing(stored.last()) {
        rows_of(stored.drop_last()).push(stored_json_text(stored.last()))
    } else {
        rows_of(stored.drop_last())
    }
}

fn rows(stored: &Vec<Stored>) -> (out: Vec<String>)
    ensures
        views(out@) == rows_of(stored@),
{
    let mut out: Vec<String> = Vec::new();
    assert(views(out@) =~= rows_of(stored@.take(0)));
    for i in 0..stored.len()
        invariant
            views(out@) == rows_of(stored@.take(i as int)),
    {
        assert(stored@.take(i + 1).drop_last() =~= stored@.take(i as int));
        if shows(&stored[i]) {
            let one = stored_json(&stored[i]);
            proof {
                lemma_views_push(out@, one);
            }
            out.push(one);
        }
    }
    assert(stored@.take(stored@.len() as int) =~= stored@);
    out
}

fn free_bytes(v: &Volume) -> (free: Option<u64>)
    ensures
        free == free_of(*v),
{
    match &v.free {
        Some(size) => Some(size.bytes),
        None => None,
    }
}

pub open spec fn free_of(v: Volume) -> Option<u64> {
    match v.free {
        Some(size) => Some(size.bytes),
        None => None,
    }
}

pub open spec fn storage_text(json: bool, stored: Seq<Stored>, v: Volume) -> Seq<char> {
    if json {
        "{\n  \"schema\": 1,\n  \"data_free_bytes\": "@ + optional_number(free_of(v))
            + ",\n  \"data_root\": "@ + json_text(v.root@) + ",\n  \"libraries\": [\n"@ + joined(
            rows_of(stored),
            ",\n"@,
        ) + "\n  ]\n}\n"@
    } else if shown_in(stored) == 0 {
        "Nothing stored by LibraryBridge yet.\n"@ + nothing_stored_text(v)
    } else {
        blocks_text(stored)
            + "\nOriginals are kept on purpose. Do not delete one by hand. Once a game has\n\
                launched and loaded a save from the live copy, `librarybridge backup <library>`\n\
                can remove it.\n"@
            + volume_line_text(v)
    }
}

fn any_shown(stored: &Vec<Stored>) -> (yes: bool)
    ensures
        yes == (shown_in(stored@) > 0),
{
    let mut yes = false;
    for i in 0..stored.len()
        invariant
            yes == (shown_in(stored@.take(i as int)) > 0),
    {
        assert(stored@.take(i + 1).drop_last() =~= stored@.take(i as int));
        if shows(&stored[i]) {
            yes = true;
        }
    }
    assert(stored@.take(stored@.len() as int) =~= stored@);
    yes
}

/// Report what is taking up space.
pub fn storage(o: &Options, stored: &Vec<Stored>, v: &Volume) -> (out: String)
    ensures
        out@ == storage_text(o.json, stored@, *v),
{
    if o.json {
        let mut out = "{\n  \"schema\": 1,\n  \"data_free_bytes\": ".to_owned();
        out.append(json_number(free_bytes(v)).as_str());
        out.append(",\n  \"data_root\": ");
        out.append(json_string(v.root.as_str()).as_str());
        out.append(",\n  \"libraries\": [\n");
        out.append(join(&rows(stored), ",\n").as_str());
        out.append("\n  ]\n}\n");
        out
    } else if !any_shown(stored) {
        cat2("Nothing stored by LibraryBridge yet.\n", nothing_stored(v).as_str())
    } else {
        let mut out = blocks(stored);
        out.append(
            "\nOriginals are kept on purpose. Do not delete one by hand. Once a game has\n\
                launched and loaded a save from the live copy, `librarybridge backup <library>`\n\
                can remove it.\n",
        );
        out.append(volume_line(v).as_str());
        out
    }
}

// ------------------------------------------------ what holds of every report

/// Whether anything of a library takes up space.
pub open spec fn takes_space(s: Stored) -> bool {
    ||| s.live is Some
    ||| s.backups@.len() != 0
    ||| s.leftover is Some
}

proof fn lemma_block_mentions(s: Stored, part: Seq<char>)
    requires
        mentions(live_line_text(s), part) || mentions(originals_text(s.backups@), part) || mentions(
            unfinished_line_text(s),
            part,
        ),
    ensures
        mentions(stored_block_text(s), part),
{
    let head = "\n  ["@ + s.id@ + "] "@ + s.name@ + "\n"@;
    let a = live_line_text(s);
    let b = originals_text(s.backups@);
    let c = unfinished_line_text(s);
    if mentions(a, part) {
        lemma_mentions_in(head, a, b + c, part);
        assert(head + a + (b + c) =~= stored_block_text(s));
    } else if mentions(b, part) {
        lemma_mentions_in(head + a, b, c, part);
    } else {
        lemma_mentions_in(head + a + b, c, seq![], part);
        assert(head + a + b + c + Seq::<char>::empty() =~= stored_block_text(s));
    }
}

/// A path and the size of what is there.
pub open spec fn path_and_size(h: Held) -> Seq<char> {
    h.path@ + " ("@ + h.size.shown@ + ")"@
}

proof fn lemma_held_in_line(head: Seq<char>, h: Held, tail: Seq<char>)
    ensures
        mentions(head + h.path@ + " ("@ + h.size.shown@ + ")"@ + tail, path_and_size(h)),
{
    lemma_mentions_piece(head, path_and_size(h), tail);
    assert(head + path_and_size(h) + tail =~= head + h.path@ + " ("@ + h.size.shown@ + ")"@ + tail);
}

proof fn lemma_original_mentioned(backups: Seq<Held>, k: int)
    requires
        0 <= k < backups.len(),
    ensures
        mentions(originals_text(backups), path_and_size(backups[k])),
    decreases backups.len(),
{
    reveal_strlit(")\n");
    reveal_strlit(")");
    reveal_strlit("\n");
    let rest = originals_text(backups.drop_last());
    let line = original_line_text(backups.last());
    if k == backups.len() - 1 {
        lemma_held_in_line("      original    "@, backups[k], "\n"@);
        assert(line =~= "      original    "@ + backups[k].path@ + " ("@ + backups[k].size.shown@
            + ")"@ + "\n"@);
        lemma_mentions_in(rest, line, seq![], path_and_size(backups[k]));
    } else {
        lemma_original_mentioned(backups.drop_last(), k);
        assert(backups.drop_last()[k] == backups[k]);
        lemma_mentions_in(seq![], rest, line, path_and_size(backups[k]));
    }
}

/// A library's block says where each thing is and how large it is.
proof fn lemma_block_says_it_all(s: Stored)
    ensures
        mentions(stored_block_text(s), "["@ + s.id@ + "] "@ + s.name@),
        s.live matches Some(h) ==> mentions(stored_block_text(s), path_and_size(h)),
        forall|k: int|
            0 <= k < s.backups@.len() ==> mentions(
                stored_block_text(s),
                path_and_size(#[trigger] s.backups@[k]),
            ),
        s.leftover matches Some(h) ==> mentions(stored_block_text(s), path_and_size(h)),
{
    reveal_strlit(")\n");
    reveal_strlit(")");
    reveal_strlit("\n");
    reveal_strlit("\n  [");
    reveal_strlit("\n  ");
    reveal_strlit("[");
    reveal_strlit("), left by a copy that stopped\n");
    reveal_strlit(", left by a copy that stopped\n");
    let name = "["@ + s.id@ + "] "@ + s.name@;
    let tail = "\n"@ + live_line_text(s) + originals_text(s.backups@) + unfinished_line_text(s);
    lemma_mentions_piece("\n  "@, name, tail);
    assert("\n  "@ + name + tail =~= stored_block_text(s));
    if let Some(h) = s.live {
        lemma_held_in_line("      live        "@, h, "\n"@);
        assert(live_line_text(s) =~= "      live        "@ + h.path@ + " ("@ + h.size.shown@ + ")"@
            + "\n"@);
        lemma_block_mentions(s, path_and_size(h));
    }
    assert forall|k: int| 0 <= k < s.backups@.len() implies mentions(
        stored_block_text(s),
        path_and_size(#[trigger] s.backups@[k]),
    ) by {
        lemma_original_mentioned(s.backups@, k);
        lemma_block_mentions(s, path_and_size(s.backups@[k]));
    }
    if let Some(h) = s.leftover {
        lemma_held_in_line("      unfinished  "@, h, ", left by a copy that stopped\n"@);
        assert(unfinished_line_text(s) =~= "      unfinished  "@ + h.path@ + " ("@ + h.size.shown@
            + ")"@ + ", left by a copy that stopped\n"@);
        lemma_block_mentions(s, path_and_size(h));
    }
}

proof fn lemma_block_is_there(stored: Seq<Stored>, i: int)
    requires
        0 <= i < stored.len(),
        takes_space(stored[i]),
    ensures
        mentions(blocks_text(stored), stored_block_text(stored[i])),
        shown_in(stored) > 0,
    decreases stored.len(),
{
    let rest = stored.drop_last();
    let block = stored_block_text(stored[i]);
    if i == stored.len() - 1 {
        lemma_mentions_piece(blocks_text(rest), block, seq![]);
        assert(blocks_text(rest) + block + Seq::<char>::empty() =~= blocks_text(stored));
    } else {
        lemma_block_is_there(rest, i);
        assert(rest[i] == stored[i]);
        lemma_mentions_in(seq![], blocks_text(rest), stored_block_text(stored.last()), block);
    }
}

/// Whatever takes up space is reported: every library that has live data, a
/// kept original or what a stopped copy left is named, with the path and the
/// size of each of them.
pub proof fn lemma_everything_stored_is_reported(stored: Seq<Stored>, v: Volume, i: int)
    requires
        0 <= i < stored.len(),
        takes_space(stored[i]),
    ensures
        ({
            let text = storage_text(false, stored, v);
            let s = stored[i];
            &&& mentions(text, "["@ + s.id@ + "] "@ + s.name@)
            &&& s.live matches Some(h) ==> mentions(text, path_and_size(h))
            &&& forall|k: int|
                0 <= k < s.backups@.len() ==> mentions(
                    text,
                    path_and_size(#[trigger] s.backups@[k]),
                )
            &&& s.leftover matches Some(h) ==> mentions(text, path_and_size(h))
        }),
{
    let text = storage_text(false, stored, v);
    let s = stored[i];
    let block = stored_block_text(s);
    lemma_block_is_there(stored, i);
    let note =
        "\nOriginals are kept on purpose. Do not delete one by hand. Once a game has\n\
                launched and loaded a save from the live copy, `librarybridge backup <library>`\n\
                can remove it.\n"@;
    lemma_mentions_in(seq![], blocks_text(stored), note + volume_line_text(v), block);
    assert(blocks_text(stored) + (note + volume_line_text(v)) =~= text);
    lemma_block_says_it_all(s);
    lemma_mentions_through(text, block, "["@ + s.id@ + "] "@ + s.name@);
    if let Some(h) = s.live {
        lemma_mentions_through(text, block, path_and_size(h));
    }
    assert forall|k: int| 0 <= k < s.backups@.len() implies mentions(
        text,
        path_and_size(#[trigger] s.backups@[k]),
    ) by {
        lemma_mentions_through(text, block, path_and_size(s.backups@[k]));
    }
    if let Some(h) = s.leftover {
        lemma_mentions_through(text, block, path_and_size(h));
    }
}

/// A path and the bytes of what is there, for machines.
pub open spec fn path_and_bytes(h: Held) -> Seq<char> {
    "{\"path\": "@ + json_text(h.path@) + ", \"bytes\": "@ + decimal_of(h.size.bytes as nat) + "}"@
}

proof fn lemma_row_is_there(stored: Seq<Stored>, i: int) -> (k: int)
    requires
        0 <= i < stored.len(),
        takes_space(stored[i]),
    ensures
        0 <= k < rows_of(stored).len(),
        rows_of(stored)[k] == stored_json_text(stored[i]),
    decreases stored.len(),
{
    let rest = stored.drop_last();
    if i == stored.len() - 1 {
        rows_of(rest).len() as int
    } else {
        let k = lemma_row_is_there(rest, i);
        assert(rest[i] == stored[i]);
        k
    }
}

/// A row from its first member on to where one of its values ends.
spec fn row_to_name(s: Stored) -> Seq<char> {
    "    {\n      \"id\": "@ + json_text(s.id@) + ",\n      \"name\": "@ + json_text(s.name@)
}

spec fn row_to_live(s: Stored) -> Seq<char> {
    row_to_name(s) + ",\n      \"live\": "@ + optional_held_text(s.live)
}

spec fn row_to_backups(s: Stored) -> Seq<char> {
    row_to_live(s) + ",\n      \"backups\": ["@ + joined(all_held_json(s.backups@), ", "@)
}

proof fn lemma_row_name(s: Stored)
    ensures
        mentions(row_to_name(s), "\"id\": "@ + json_text(s.id@)),
        mentions(row_to_name(s), "\"name\": "@ + json_text(s.name@)),
{
    reveal_strlit("    {\n      \"id\": ");
    reveal_strlit("    {\n      ");
    reveal_strlit("\"id\": ");
    reveal_strlit(",\n      \"name\": ");
    reveal_strlit(",\n      ");
    reveal_strlit("\"name\": ");
    let id = json_text(s.id@);
    let name = json_text(s.name@);
    let tail = ",\n      \"name\": "@ + name;
    lemma_mentions_piece("    {\n      "@, "\"id\": "@ + id, tail);
    assert("    {\n      "@ + ("\"id\": "@ + id) + tail =~= row_to_name(s));
    let h = "    {\n      \"id\": "@ + id + ",\n      "@;
    lemma_mentions_piece(h, "\"name\": "@ + name, seq![]);
    assert(h + ("\"name\": "@ + name) =~= row_to_name(s));
}

proof fn lemma_row_live(s: Stored)
    ensures
        mentions(row_to_live(s), "\"live\": "@ + optional_held_text(s.live)),
{
    reveal_strlit(",\n      \"live\": ");
    reveal_strlit(",\n      ");
    reveal_strlit("\"live\": ");
    let live = optional_held_text(s.live);
    let h = row_to_name(s) + ",\n      "@;
    lemma_mentions_piece(h, "\"live\": "@ + live, seq![]);
    assert(h + ("\"live\": "@ + live) =~= row_to_live(s));
}

proof fn lemma_row_leftover(s: Stored)
    ensures
        mentions(stored_json_text(s), "\"leftover\": "@ + optional_held_text(s.leftover)),
        stored_json_text(s) == row_to_backups(s) + ("],\n      \"leftover\": "@
            + optional_held_text(s.leftover) + "\n    }"@),
{
    reveal_strlit("],\n      \"leftover\": ");
    reveal_strlit("],\n      ");
    reveal_strlit("\"leftover\": ");
    let left = optional_held_text(s.leftover);
    let b = row_to_backups(s);
    assert(stored_json_text(s) =~= b + "],\n      \"leftover\": "@ + left + "\n    }"@);
    let h = b + "],\n      "@;
    lemma_mentions_piece(h, "\"leftover\": "@ + left, "\n    }"@);
    assert(h + ("\"leftover\": "@ + left) + "\n    }"@ =~= stored_json_text(s));
    assert(stored_json_text(s) =~= b + ("],\n      \"leftover\": "@ + left + "\n    }"@));
}

proof fn lemma_row_says_it_all(s: Stored)
    ensures
        ({
            let row = stored_json_text(s);
            &&& mentions(row, "\"id\": "@ + json_text(s.id@))
            &&& mentions(row, "\"name\": "@ + json_text(s.name@))
            &&& mentions(
                row,
                "\"live\": "@ + match s.live {
                    Some(h) => path_and_bytes(h),
                    None => "null"@,
                },
            )
            &&& mentions(
                row,
                "\"leftover\": "@ + match s.leftover {
                    Some(h) => path_and_bytes(h),
                    None => "null"@,
                },
            )
            &&& forall|k: int|
                0 <= k < s.backups@.len() ==> mentions(
                    row,
                    path_and_bytes(#[trigger] s.backups@[k]),
                )
        }),
{
    let row = stored_json_text(s);
    let tail = "],\n      \"leftover\": "@ + optional_held_text(s.leftover) + "\n    }"@;
    let all = joined(all_held_json(s.backups@), ", "@);
    let mid = ",\n      \"backups\": ["@;
    lemma_row_name(s);
    lemma_row_live(s);
    lemma_row_leftover(s);
    let id = "\"id\": "@ + json_text(s.id@);
    let name = "\"name\": "@ + json_text(s.name@);
    let live = "\"live\": "@ + optional_held_text(s.live);
    let more = ",\n      \"live\": "@ + optional_held_text(s.live);
    assert(row_to_live(s) =~= row_to_name(s) + more);
    assert(row_to_backups(s) =~= row_to_live(s) + (mid + all));
    lemma_mentions_in(seq![], row_to_name(s), more, id);
    lemma_mentions_in(seq![], row_to_name(s), more, name);
    lemma_mentions_in(seq![], row_to_live(s), mid + all, id);
    lemma_mentions_in(seq![], row_to_live(s), mid + all, name);
    lemma_mentions_in(seq![], row_to_live(s), mid + all, live);
    lemma_mentions_in(seq![], row_to_backups(s), tail, id);
    lemma_mentions_in(seq![], row_to_backups(s), tail, name);
    lemma_mentions_in(seq![], row_to_backups(s), tail, live);
    assert forall|k: int| 0 <= k < s.backups@.len() implies mentions(
        row,
        path_and_bytes(#[trigger] s.backups@[k]),
    ) by {
        let one = path_and_bytes(s.backups@[k]);
        lemma_joined_mentions(all_held_json(s.backups@), ", "@, k);
        lemma_mentions_in(row_to_live(s) + mid, all, seq![], one);
        lemma_mentions_in(seq![], row_to_backups(s), tail, one);
    }
}

/// The report for machines names the same libraries, with the path and the
/// bytes of each thing that takes up space.
pub proof fn lemma_everything_stored_is_in_the_document(stored: Seq<Stored>, v: Volume, i: int)
    requires
        0 <= i < stored.len(),
        takes_space(stored[i]),
    ensures
        ({
            let text = storage_text(true, stored, v);
            let s = stored[i];
            &&& mentions(text, "\"id\": "@ + json_text(s.id@))
            &&& mentions(text, "\"name\": "@ + json_text(s.name@))
            &&& s.live matches Some(h) ==> mentions(text, "\"live\": "@ + path_and_bytes(h))
            &&& forall|k: int|
                0 <= k < s.backups@.len() ==> mentions(
                    text,
                    path_and_bytes(#[trigger] s.backups@[k]),
                )
            &&& s.leftover matches Some(h) ==> mentions(text, "\"leftover\": "@ + path_and_bytes(h))
        }),
{
    let text = storage_text(true, stored, v);
    let s = stored[i];
    let row = stored_json_text(s);
    let k = lemma_row_is_there(stored, i);
    lemma_joined_mentions(rows_of(stored), ",\n"@, k);
    let head = "{\n  \"schema\": 1,\n  \"data_free_bytes\": "@ + optional_number(free_of(v))
        + ",\n  \"data_root\": "@ + json_text(v.root@) + ",\n  \"libraries\": [\n"@;
    let all = joined(rows_of(stored), ",\n"@);
    lemma_mentions_in(head, all, "\n  ]\n}\n"@, row);
    assert(head + all + "\n  ]\n}\n"@ =~= text);
    lemma_row_says_it_all(s);
    lemma_mentions_through(text, row, "\"id\": "@ + json_text(s.id@));
    lemma_mentions_through(text, row, "\"name\": "@ + json_text(s.name@));
    if let Some(h) = s.live {
        lemma_mentions_through(text, row, "\"live\": "@ + path_and_bytes(h));
    }
    assert forall|k: int| 0 <= k < s.backups@.len() implies mentions(
        text,
        path_and_bytes(#[trigger] s.backups@[k]),
    ) by {
        lemma_mentions_through(text, row, path_and_bytes(s.backups@[k]));
    }
    if let Some(h) = s.leftover {
        lemma_mentions_through(text, row, "\"leftover\": "@ + path_and_bytes(h));
    }
}

proof fn lemma_empty_is_left_out(stored: Seq<Stored>, i: int)
    requires
        0 <= i < stored.len(),
        !takes_space(stored[i]),
    ensures
        blocks_text(stored.remove(i)) == blocks_text(stored),
        rows_of(stored.remove(i)) == rows_of(stored),
        shown_in(stored.remove(i)) == shown_in(stored),
    decreases stored.len(),
{
    if i == stored.len() - 1 {
        assert(stored.remove(i) =~= stored.drop_last());
    } else {
        let rest = stored.drop_last();
        lemma_empty_is_left_out(rest, i);
        let less = stored.remove(i);
        assert(less.drop_last() =~= rest.remove(i));
        assert(less.last() == stored.last());
    }
}

/// A library of which nothing takes up space makes no difference to either
/// report, and is all that makes none: a report says that nothing is stored
/// only where that is so of every library.
pub proof fn lemma_only_empty_libraries_are_left_out(stored: Seq<Stored>, v: Volume, i: int)
    requires
        0 <= i < stored.len(),
        !takes_space(stored[i]),
    ensures
        storage_text(false, stored.remove(i), v) == storage_text(false, stored, v),
        storage_text(true, stored.remove(i), v) == storage_text(true, stored, v),
{
    lemma_empty_is_left_out(stored, i);
}

/// Where nothing takes up space, that is what is said, with the room there is.
pub proof fn lemma_nothing_stored(stored: Seq<Stored>, v: Volume)
    requires
        forall|i: int| 0 <= i < stored.len() ==> !takes_space(#[trigger] stored[i]),
    ensures
        mentions(storage_text(false, stored, v), "Nothing stored by LibraryBridge yet."@),
        v.free matches Some(free) ==> mentions(storage_text(false, stored, v), v.root@) && mentions(
            storage_text(false, stored, v),
            free.shown@,
        ),
    decreases stored.len(),
{
    if stored.len() > 0 {
        let rest = stored.drop_last();
        assert forall|i: int| 0 <= i < rest.len() implies !takes_space(#[trigger] rest[i]) by {
            assert(rest[i] == stored[i]);
        }
        lemma_nothing_stored(rest, v);
        assert(!takes_space(stored[stored.len() - 1]));
    } else {
        reveal_strlit("Nothing stored by LibraryBridge yet.\n");
        reveal_strlit("Nothing stored by LibraryBridge yet.");
        reveal_strlit("\n");
        let said = "Nothing stored by LibraryBridge yet."@;
        let text = storage_text(false, stored, v);
        lemma_mentions_piece(seq![], said, "\n"@ + nothing_stored_text(v));
        assert(Seq::<char>::empty() + said + ("\n"@ + nothing_stored_text(v)) =~= text);
        if let Some(free) = v.free {
            let a = "Nothing stored by LibraryBridge yet.\n"@ + "The copies live at "@;
            let b = ", with "@ + free.shown@ + " free right now.\n"@;
            lemma_mentions_piece(a, v.root@, b);
            assert(a + v.root@ + b =~= text);
            let c = a + v.root@ + ", with "@;
            lemma_mentions_piece(c, free.shown@, " free right now.\n"@);
            assert(c + free.shown@ + " free right now.\n"@ =~= text);
        }
    }
}

/// What is measured is where the link leads of a library that is repaired, and
/// what is at the destination of any other. What a stopped copy left counts
/// whichever way it went.
pub proof fn lemma_what_is_measured(report: Report)
    ensures
        report.state matches State::Repaired { target, .. } ==> live_of(report) == Some(target),
        !(report.state is Repaired) ==> live_of(report) == report.existing_destination,
        report.abandoned_copy is Some ==> leftover_of(report) == report.abandoned_copy,
        report.abandoned_copy is None ==> leftover_of(report) == report.interrupted_restore,
{
}

/// Room is told as low where less than two gibibytes are free, and nowhere else.
/// Where the room is known, it is told with where the copies are and what they
/// take.
pub proof fn lemma_low_room_is_told(v: Volume, free: u64)
    ensures
        headroom_text(free).len() > 0 <==> free < 2147483648,
        v.free matches Some(size) ==> begins(
            volume_line_text(v),
            "\nThe copies live at "@ + v.root@ + " and take "@ + v.used.shown@ + "; "@
                + size.shown@ + " is free there right now.\n"@,
        ),
        v.free is None ==> volume_line_text(v).len() == 0,
{
    reveal_strlit(
        "That is low headroom. A large prefix could push it past comfortable. Consider deleting \
            originals with `librarybridge backup <library>` once they are confirmed working.\n",
    );
    if v.free is Some {
        let head = "\nThe copies live at "@ + v.root@ + " and take "@ + v.used.shown@ + "; "@
            + v.free->Some_0.shown@ + " is free there right now.\n"@;
        let whole = volume_line_text(v);
        assert(whole =~= head + headroom_text(v.free->Some_0.bytes));
        assert(whole.take(head.len() as int) =~= head);
    }
}


/// Each thing is told as what it is: the live copy, an original that was kept,
/// or what an unfinished copy left.
pub proof fn lemma_each_thing_is_told_as_what_it_is(s: Stored, k: int)
    ensures
        s.live matches Some(h) ==> mentions(
            stored_block_text(s),
            "      live        "@ + h.path@ + " ("@ + h.size.shown@ + ")\n"@,
        ),
        0 <= k < s.backups@.len() ==> mentions(
            stored_block_text(s),
            "      original    "@ + s.backups@[k].path@ + " ("@ + s.backups@[k].size.shown@
                + ")\n"@,
        ),
        s.leftover matches Some(h) ==> mentions(
            stored_block_text(s),
            "      unfinished  "@ + h.path@ + " ("@ + h.size.shown@
                + "), left by a copy that stopped\n"@,
        ),
        s.live is None ==> mentions(stored_json_text(s), "\"live\": "@ + "null"@),
        s.leftover is None ==> mentions(stored_json_text(s), "\"leftover\": "@ + "null"@),
        mentions(
            stored_json_text(s),
            "\"backups\": ["@ + joined(
                Seq::new(s.backups@.len(), |i: int| path_and_bytes(s.backups@[i])),
                ", "@,
            ) + "]"@,
        ),
{
    lemma_mentions_self(live_line_text(s));
    lemma_mentions_self(unfinished_line_text(s));
    lemma_block_mentions(s, live_line_text(s));
    lemma_block_mentions(s, unfinished_line_text(s));
    if 0 <= k < s.backups@.len() {
        lemma_original_line(s.backups@, k);
        lemma_block_mentions(s, original_line_text(s.backups@[k]));
    }
    lemma_row_says_it_all(s);
    lemma_row_backups(s);
}

proof fn lemma_original_line(backups: Seq<Held>, k: int)
    requires
        0 <= k < backups.len(),
    ensures
        mentions(originals_text(backups), original_line_text(backups[k])),
    decreases backups.len(),
{
    let rest = originals_text(backups.drop_last());
    let line = original_line_text(backups.last());
    if k == backups.len() - 1 {
        lemma_mentions_piece(rest, line, seq![]);
    } else {
        lemma_original_line(backups.drop_last(), k);
        assert(backups.drop_last()[k] == backups[k]);
        lemma_mentions_in(seq![], rest, line, original_line_text(backups[k]));
    }
}

proof fn lemma_row_backups(s: Stored)
    ensures
        mentions(
            stored_json_text(s),
            "\"backups\": ["@ + joined(
                Seq::new(s.backups@.len(), |i: int| path_and_bytes(s.backups@[i])),
                ", "@,
            ) + "]"@,
        ),
{
    reveal_strlit(",\n      \"backups\": [");
    reveal_strlit(",\n      ");
    reveal_strlit("\"backups\": [");
    reveal_strlit("],\n      \"leftover\": ");
    reveal_strlit("]");
    reveal_strlit(",\n      \"leftover\": ");
    let rows = Seq::new(s.backups@.len(), |i: int| path_and_bytes(s.backups@[i]));
    assert(rows =~= all_held_json(s.backups@));
    let part = "\"backups\": ["@ + joined(rows, ", "@) + "]"@;
    let head = row_to_live(s) + ",\n      "@;
    let tail = ",\n      \"leftover\": "@ + optional_held_text(s.leftover) + "\n    }"@;
    assert(stored_json_text(s) =~= head + part + tail);
    lemma_mentions_piece(head, part, tail);
}

} // verus!
