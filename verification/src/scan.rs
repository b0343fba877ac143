//! What a scan of the Steam libraries reports. It changes nothing.

use vstd::prelude::*;

use crate::document::{
    json_bool, json_list, json_optional, json_string, json_text, list_text, optional_text, truth,
};
use crate::library::{capability, capability_of, Capability, Library, Mount, Options, Report, State};
use crate::sorting::{lemma_in_order, lemma_strings_in_order, own_key, sort, texts_in_order};
use crate::text::{
    begins, cat2, cat3, cat5, decimal, decimal_of, each, ends, for_each, join, joined,
    lemma_each_mentions, lemma_joined_mentions, lemma_mentions_in, lemma_mentions_piece,
    lemma_mentions_self, lemma_mentions_through, lemma_views_push, mentions, pad, padded, views,
};

verus! {

/// A Steam that was found.
#[derive(Debug)]
pub struct Install {
    pub kind: String,
    pub root: String,
}

/// A library and what was found out about it.
#[derive(Debug)]
pub struct Seen {
    pub library: Library,
    pub report: Report,
    pub mount: Option<Mount>,
    /// The names of the games installed in it.
    pub titles: Vec<String>,
}

// ------------------------------------------------------------- what to do

/// What the filesystem can do, as far as it is known.
pub open spec fn ability(mount: Option<Mount>) -> Capability {
    match mount {
        Some(m) => m.capability,
        None => Capability::Unknown,
    }
}

/// What is advised, one line each.
pub open spec fn advice_of(l: Library, state: State, c: Capability) -> Seq<Seq<char>> {
    match state {
        State::NotRepaired { .. } => if c == Capability::NoSymlinks {
            seq![
                "            This filesystem has no symlinks, so the repair cannot work. Move the \
                    library to a Linux filesystem with Steam itself."@,
            ]
        } else if c == Capability::Native {
            seq!["            Already on a Linux filesystem. No repair needed."@]
        } else {
            seq!["            run:  librarybridge fix "@ + l.id@]
        },
        State::InterruptedAwaitingLink { backup } => seq![
            "            An earlier run stopped after moving the original to"@,
            "            "@ + backup@,
            "            Nothing was lost. Run:  librarybridge fix "@ + l.id@,
        ],
        State::DanglingLink { .. } => seq![
            "            The destination is missing. If it is on another drive,"@,
            "            connect it. LibraryBridge will not change anything meanwhile."@,
        ],
        State::LinkedElsewhere { .. } => seq![
            "            This link was not made by LibraryBridge, so it is left alone."@,
        ],
        State::Repaired { .. } => seq!["            to reverse:  librarybridge undo "@ + l.id@],
        State::Unusable { detail } => seq!["            "@ + detail@],
        _ => seq![],
    }
}

fn one_line(a: &str, b: &str) -> (lines: Vec<String>)
    ensures
        views(lines@) == seq![a@ + b@],
{
    let mut lines: Vec<String> = Vec::new();
    lines.push(cat2(a, b));
    assert(views(lines@) =~= seq![a@ + b@]);
    lines
}

fn plain_line(a: &str) -> (lines: Vec<String>)
    ensures
        views(lines@) == seq![a@],
{
    let mut lines: Vec<String> = Vec::new();
    lines.push(a.to_owned());
    assert(views(lines@) =~= seq![a@]);
    lines
}

/// Say what is advised.
pub fn advice(l: &Library, report: &Report, mount: &Option<Mount>) -> (lines: Vec<String>)
    ensures
        views(lines@) == advice_of(*l, report.state, ability(*mount)),
{
    let c = match mount {
        Some(m) => m.capability,
        None => Capability::Unknown,
    };
    match &report.state {
        State::NotRepaired { .. } => match c {
            Capability::NoSymlinks => plain_line(
                "            This filesystem has no symlinks, so the repair cannot work. Move the \
                    library to a Linux filesystem with Steam itself.",
            ),
            Capability::Native => plain_line(
                "            Already on a Linux filesystem. No repair needed.",
            ),
            _ => one_line("            run:  librarybridge fix ", l.id.as_str()),
        },
        State::InterruptedAwaitingLink { backup } => {
            let mut lines = plain_line(
                "            An earlier run stopped after moving the original to",
            );
            let second = cat2("            ", backup.as_str());
            proof {
                lemma_views_push(lines@, second);
            }
            lines.push(second);
            let third = cat2("            Nothing was lost. Run:  librarybridge fix ", l.id.as_str());
            proof {
                lemma_views_push(lines@, third);
            }
            lines.push(third);
            assert(views(lines@) =~= advice_of(*l, report.state, ability(*mount)));
            lines
        },
        State::DanglingLink { .. } => {
            let mut lines = plain_line(
                "            The destination is missing. If it is on another drive,",
            );
            let second =
                "            connect it. LibraryBridge will not change anything meanwhile.".to_owned();
            proof {
                lemma_views_push(lines@, second);
            }
            lines.push(second);
            assert(views(lines@) =~= advice_of(*l, report.state, ability(*mount)));
            lines
        },
        State::LinkedElsewhere { .. } => plain_line(
            "            This link was not made by LibraryBridge, so it is left alone.",
        ),
        State::Repaired { .. } => one_line("            to reverse:  librarybridge undo ", l.id.as_str()),
        State::Unusable { detail } => one_line("            ", detail.as_str()),
        _ => {
            let lines: Vec<String> = Vec::new();
            assert(views(lines@) =~= advice_of(*l, report.state, ability(*mount)));
            lines
        },
    }
}

/// Why a library cannot be repaired as things stand, or `None` if it can.
///
/// An interrupted repair is finished regardless of what the filesystem looks
/// like: that decision was made and acted on already, and the remaining step
/// is one symlink.
pub open spec fn blocker(state: State, c: Option<Capability>) -> Option<Seq<char>> {
    match state {
        State::InterruptedAwaitingLink { .. } => None,
        State::NotRepaired { .. } => match c {
            Some(Capability::NoSymlinks) => Some(
                "its filesystem has no symlinks, so this repair cannot work there"@,
            ),
            Some(Capability::Native) => Some("it is already on a Linux filesystem"@),
            Some(Capability::NeedsRepair) => None,
            _ => Some("its filesystem could not be identified"@),
        },
        State::Repaired { .. } => Some("it is already repaired"@),
        State::Disconnected => Some("the drive is not connected"@),
        State::NoCompatdata => Some("there is no Proton data to move yet"@),
        State::DanglingLink { .. } => Some("its link points at something that is not there"@),
        State::LinkedElsewhere { .. } => Some(
            "it is already linked somewhere this tool did not choose"@,
        ),
        State::Unusable { .. } => Some("it needs attention first"@),
    }
}

pub fn repair_blocker(report: &Report, mount: &Option<Mount>) -> (why: Option<String>)
    ensures
        match blocker(report.state, capability_of(*mount)) {
            Some(t) => why matches Some(s) && s@ == t,
            None => why is None,
        },
{
    match &report.state {
        State::InterruptedAwaitingLink { .. } => None,
        State::NotRepaired { .. } => match capability(mount) {
            Some(Capability::NoSymlinks) => Some(
                "its filesystem has no symlinks, so this repair cannot work there".to_owned(),
            ),
            Some(Capability::Native) => Some("it is already on a Linux filesystem".to_owned()),
            Some(Capability::NeedsRepair) => None,
            _ => Some("its filesystem could not be identified".to_owned()),
        },
        State::Repaired { .. } => Some("it is already repaired".to_owned()),
        State::Disconnected => Some("the drive is not connected".to_owned()),
        State::NoCompatdata => Some("there is no Proton data to move yet".to_owned()),
        State::DanglingLink { .. } => Some(
            "its link points at something that is not there".to_owned(),
        ),
        State::LinkedElsewhere { .. } => Some(
            "it is already linked somewhere this tool did not choose".to_owned(),
        ),
        State::Unusable { .. } => Some("it needs attention first".to_owned()),
    }
}

/// A library that a scan calls eligible is one that a repair does not turn away
/// for its state or its filesystem, without being forced.
pub proof fn lemma_eligible_is_not_refused(state: State, c: Option<Capability>)
    requires
        blocker(state, c) is None,
    ensures
        crate::fix::by_state(state) == Some(
            crate::fix::FixNext::Stop(crate::fix::Ending::Interrupted),
        ) || (crate::fix::by_state(state) is None && crate::fix::by_filesystem(c, false) is None),
{
}

/// Whether a library is counted as one that can be repaired.
pub open spec fn is_actionable(state: State) -> bool {
    state is NotRepaired || state is InterruptedAwaitingLink
}

pub open spec fn actionable_in(seen: Seq<Seen>) -> nat
    decreases seen.len(),
{
    if seen.len() == 0 {
        0
    } else if is_actionable(seen.last().report.state) {
        actionable_in(seen.drop_last()) + 1
    } else {
        actionable_in(seen.drop_last())
    }
}

// ---------------------------------------------------------- for people

pub open spec fn filesystem_line_text(mount: Option<Mount>) -> Seq<char> {
    match mount {
        Some(m) => "      filesystem  "@ + m.described@ + " ("@ + capability_note_text(m.capability)
            + ")\n"@,
        None => "      filesystem  unknown (no mount table on this system)\n"@,
    }
}

pub open spec fn capability_note_text(c: Capability) -> Seq<char> {
    match c {
        Capability::NeedsRepair => "Proton data does not belong here"@,
        Capability::NoSymlinks => "no symlink support, cannot be repaired"@,
        Capability::Native => "fine for Proton"@,
        Capability::Unknown => "not recognised"@,
    }
}

fn capability_note(c: Capability) -> (out: &'static str)
    ensures
        out@ == capability_note_text(c),
{
    match c {
        Capability::NeedsRepair => "Proton data does not belong here",
        Capability::NoSymlinks => "no symlink support, cannot be repaired",
        Capability::Native => "fine for Proton",
        Capability::Unknown => "not recognised",
    }
}

fn filesystem_line(mount: &Option<Mount>) -> (out: String)
    ensures
        out@ == filesystem_line_text(*mount),
{
    match mount {
        Some(m) => cat5(
            "      filesystem  ",
            m.described.as_str(),
            " (",
            capability_note(m.capability),
            ")\n",
        ),
        None => "      filesystem  unknown (no mount table on this system)\n".to_owned(),
    }
}

pub open spec fn prefix_count_text(prefixes: usize) -> Seq<char> {
    "      compatdata  "@ + decimal_of(prefixes as nat) + " prefixes\n"@
}

fn prefix_count(prefixes: usize) -> (out: String)
    ensures
        out@ == prefix_count_text(prefixes),
{
    let mut out = "      compatdata  ".to_owned();
    out.append(decimal(prefixes as u64).as_str());
    out.append(" prefixes\n");
    out
}

pub open spec fn compatdata_line_text(state: State) -> Seq<char> {
    match state {
        State::NotRepaired { prefixes } => prefix_count_text(prefixes),
        State::Repaired { prefixes, .. } => prefix_count_text(prefixes),
        _ => seq![],
    }
}

fn compatdata_line(state: &State) -> (out: String)
    ensures
        out@ == compatdata_line_text(*state),
{
    match state {
        State::NotRepaired { prefixes } => prefix_count(*prefixes),
        State::Repaired { prefixes, .. } => prefix_count(*prefixes),
        _ => String::new(),
    }
}

/// No more than the first three.
pub open spec fn first_three(parts: Seq<Seq<char>>) -> Seq<Seq<char>> {
    if parts.len() <= 3 {
        parts
    } else {
        parts.take(3)
    }
}

/// Three of the games in it by name, and how many more there are.
pub open spec fn games_text(connected: bool, titles: Seq<Seq<char>>) -> Seq<char> {
    let sorted = texts_in_order(titles);
    if !connected || titles.len() == 0 {
        seq![]
    } else if titles.len() > 3 {
        "      games       "@ + joined(first_three(sorted), ", "@) + ", and "@ + decimal_of(
            (titles.len() - 3) as nat,
        ) + " more\n"@
    } else {
        "      games       "@ + joined(first_three(sorted), ", "@) + "\n"@
    }
}

fn copy_texts(texts: &Vec<String>) -> (out: Vec<String>)
    ensures
        out@ == texts@,
{
    let mut out: Vec<String> = Vec::new();
    for i in 0..texts.len()
        invariant
            out@ == texts@.take(i as int),
    {
        out.push(texts[i].clone());
        assert(texts@.take(i + 1) =~= texts@.take(i as int).push(texts@[i as int]));
    }
    assert(texts@.take(texts@.len() as int) =~= texts@);
    out
}

fn games(connected: bool, titles: &Vec<String>) -> (out: String)
    ensures
        out@ == games_text(connected, views(titles@)),
{
    if !connected || titles.len() == 0 {
        return String::new();
    }
    let sorted = sort(copy_texts(titles));
    proof {
        lemma_strings_in_order(titles@);
        lemma_in_order(titles@, own_key::<String>());
    }
    let mut few: Vec<String> = Vec::new();
    let n = if sorted.len() <= 3 {
        sorted.len()
    } else {
        3
    };
    assert(views(few@) =~= views(sorted@).take(0));
    for i in 0..n
        invariant
            n <= sorted@.len(),
            views(few@) == views(sorted@).take(i as int),
    {
        let one = sorted[i].clone();
        proof {
            lemma_views_push(few@, one);
            assert(views(sorted@).take(i + 1) =~= views(sorted@).take(i as int).push(one@));
        }
        few.push(one);
    }
    assert(views(sorted@).take(sorted@.len() as int) =~= views(sorted@));
    if titles.len() > 3 {
        cat5(
            "      games       ",
            join(&few, ", ").as_str(),
            ", and ",
            decimal((titles.len() - 3) as u64).as_str(),
            " more\n",
        )
    } else {
        cat3("      games       ", join(&few, ", ").as_str(), "\n")
    }
}

pub open spec fn link_line_text(state: State) -> Seq<char> {
    match state {
        State::Repaired { target, .. } => "      moved to    "@ + target@ + "\n"@,
        State::LinkedElsewhere { target } => "      links to    "@ + target@ + "\n"@,
        State::DanglingLink { target } => "      links to    "@ + target@ + "\n"@,
        _ => seq![],
    }
}

fn link_line(state: &State) -> (out: String)
    ensures
        out@ == link_line_text(*state),
{
    match state {
        State::Repaired { target, .. } => cat3("      moved to    ", target.as_str(), "\n"),
        State::LinkedElsewhere { target } => cat3("      links to    ", target.as_str(), "\n"),
        State::DanglingLink { target } => cat3("      links to    ", target.as_str(), "\n"),
        _ => String::new(),
    }
}

pub open spec fn occupied_line_text(report: Report) -> Seq<char> {
    match report.existing_destination {
        Some(path) => "      note        the destination already holds data: "@ + path@ + "\n"@,
        None => seq![],
    }
}

fn occupied_line(report: &Report) -> (out: String)
    ensures
        out@ == occupied_line_text(*report),
{
    match &report.existing_destination {
        Some(path) => {
            let mut out = "      note        the destination already holds data: ".to_owned();
            out.append(path.as_str());
            out.append("\n");
            out
        },
        None => String::new(),
    }
}

pub open spec fn restore_line_text(report: Report) -> Seq<char> {
    match report.interrupted_restore {
        Some(path) => "      note        a copy back to this drive stopped part way: "@ + path@
                + "\n                  the repair is untouched; that folder is not in use\n"@,
        None => seq![],
    }
}

fn restore_line(report: &Report) -> (out: String)
    ensures
        out@ == restore_line_text(*report),
{
    match &report.interrupted_restore {
        Some(path) => {
            let mut out = "      note        a copy back to this drive stopped part way: ".to_owned();
            out.append(path.as_str());
            out.append("\n                  the repair is untouched; that folder is not in use\n");
            out
        },
        None => String::new(),
    }
}

pub open spec fn leftover_line_text(report: Report) -> Seq<char> {
    match report.abandoned_copy {
        Some(path) => "      leftover    "@ + path@ + " (unfinished copy, safe to delete)\n"@,
        None => seq![],
    }
}

fn leftover_line(report: &Report) -> (out: String)
    ensures
        out@ == leftover_line_text(*report),
{
    match &report.abandoned_copy {
        Some(path) => {
            let mut out = "      leftover    ".to_owned();
            out.append(path.as_str());
            out.append(" (unfinished copy, safe to delete)\n");
            out
        },
        None => String::new(),
    }
}

/// A library as a scan shows it.
pub open spec fn shown_library_text(seen: Seen) -> Seq<char> {
    "\n  ["@ + seen.library.id@ + "] "@ + seen.library.path@ + "\n      name        "@
        + seen.library.name@ + "\n"@ + filesystem_line_text(seen.mount)
        + compatdata_line_text(seen.report.state)
        + games_text(seen.library.connected, views(seen.titles@))
        + link_line_text(seen.report.state) + "      state       "@ + seen.report.headline@
        + "\n"@
        + each(advice_of(seen.library, seen.report.state, ability(seen.mount)), "      "@, "\n"@)
        + each(views(seen.report.backups@), "      backup      "@, "\n"@)
        + occupied_line_text(seen.report) + restore_line_text(seen.report)
        + leftover_line_text(seen.report)
}

pub fn shown_library(seen: &Seen) -> (out: String)
    ensures
        out@ == shown_library_text(*seen),
{
    let mut out = "\n  [".to_owned();
    out.append(seen.library.id.as_str());
    out.append("] ");
    out.append(seen.library.path.as_str());
    out.append("\n      name        ");
    out.append(seen.library.name.as_str());
    out.append("\n");
    out.append(filesystem_line(&seen.mount).as_str());
    out.append(compatdata_line(&seen.report.state).as_str());
    out.append(games(seen.library.connected, &seen.titles).as_str());
    out.append(link_line(&seen.report.state).as_str());
    out.append("      state       ");
    out.append(seen.report.headline.as_str());
    out.append("\n");
    out.append(for_each(&advice(&seen.library, &seen.report, &seen.mount), "      ", "\n").as_str());
    out.append(for_each(&seen.report.backups, "      backup      ", "\n").as_str());
    out.append(occupied_line(&seen.report).as_str());
    out.append(restore_line(&seen.report).as_str());
    out.append(leftover_line(&seen.report).as_str());
    out
}

pub open spec fn installs_text(installs: Seq<Install>) -> Seq<char>
    decreases installs.len(),
{
    if installs.len() == 0 {
        seq![]
    } else {
        installs_text(installs.drop_last()) + "  "@ + padded(installs.last().kind@, 8) + " "@
            + installs.last().root@ + "\n"@
    }
}

fn shown_installs(installs: &Vec<Install>) -> (out: String)
    ensures
        out@ == installs_text(installs@),
{
    let mut out = String::new();
    for i in 0..installs.len()
        invariant
            out@ == installs_text(installs@.take(i as int)),
    {
        out.append("  ");
        out.append(pad(installs[i].kind.as_str(), 8).as_str());
        out.append(" ");
        out.append(installs[i].root.as_str());
        out.append("\n");
        assert(installs@.take(i + 1).drop_last() =~= installs@.take(i as int));
    }
    assert(installs@.take(installs@.len() as int) =~= installs@);
    out
}

pub open spec fn libraries_text(seen: Seq<Seen>) -> Seq<char>
    decreases seen.len(),
{
    if seen.len() == 0 {
        seq![]
    } else {
        libraries_text(seen.drop_last()) + shown_library_text(seen.last())
    }
}

fn shown_libraries(seen: &Vec<Seen>) -> (out: String)
    ensures
        out@ == libraries_text(seen@),
{
    let mut out = String::new();
    for i in 0..seen.len()
        invariant
            out@ == libraries_text(seen@.take(i as int)),
    {
        out.append(shown_library(&seen[i]).as_str());
        assert(seen@.take(i + 1).drop_last() =~= seen@.take(i as int));
    }
    assert(seen@.take(seen@.len() as int) =~= seen@);
    out
}

fn count_actionable(seen: &Vec<Seen>) -> (n: usize)
    ensures
        n == actionable_in(seen@),
        n <= seen@.len(),
{
    let mut n: usize = 0;
    for i in 0..seen.len()
        invariant
            n == actionable_in(seen@.take(i as int)),
            n <= i,
    {
        assert(seen@.take(i + 1).drop_last() =~= seen@.take(i as int));
        if matches!(
            seen[i].report.state,
            State::NotRepaired { .. } | State::InterruptedAwaitingLink { .. }
        ) {
            n = n + 1;
        }
    }
    assert(seen@.take(seen@.len() as int) =~= seen@);
    n
}

pub open spec fn tally_text(n: nat) -> Seq<char> {
    if n == 0 {
        "Nothing to do.\n"@
    } else if n == 1 {
        "1 library can be repaired. Run `librarybridge fix <id>`.\n"@
    } else {
        decimal_of(n) + " libraries can be repaired. Run `librarybridge fix <id>` for each.\n"@
    }
}

fn tally(n: usize) -> (out: String)
    ensures
        out@ == tally_text(n as nat),
{
    if n == 0 {
        "Nothing to do.\n".to_owned()
    } else if n == 1 {
        "1 library can be repaired. Run `librarybridge fix <id>`.\n".to_owned()
    } else {
        cat2(
            decimal(n as u64).as_str(),
            " libraries can be repaired. Run `librarybridge fix <id>` for each.\n",
        )
    }
}

pub open spec fn notes_text(warnings: Seq<Seq<char>>) -> Seq<char> {
    if warnings.len() > 0 {
        "\n"@ + each(warnings, "  note: "@, "\n"@)
    } else {
        seq![]
    }
}

fn notes(warnings: &Vec<String>) -> (out: String)
    ensures
        out@ == notes_text(views(warnings@)),
{
    if warnings.len() > 0 {
        let mut out = "\n".to_owned();
        out.append(for_each(warnings, "  note: ", "\n").as_str());
        out
    } else {
        String::new()
    }
}

pub open spec fn nothing_found_text(warnings: Seq<Seq<char>>) -> Seq<char> {
    "No Steam libraries found.\n\nLooked for Steam in the usual places under your home \
        directory.\nIf Steam is installed somewhere else, point at it directly:\n    librarybridge \
        --steam-root /path/to/Steam scan\n"@
        + each(warnings, "  note: "@, "\n"@)
}

fn nothing_found(warnings: &Vec<String>) -> (out: String)
    ensures
        out@ == nothing_found_text(views(warnings@)),
{
    let mut out = "No Steam libraries found.\n\nLooked for Steam in the usual places under your \
        home directory.\nIf Steam is installed somewhere else, point at it directly:\n    \
        librarybridge --steam-root /path/to/Steam scan\n".to_owned();
    out.append(for_each(warnings, "  note: ", "\n").as_str());
    out
}

pub open spec fn scan_text(installs: Seq<Install>, seen: Seq<Seen>, warnings: Seq<Seq<char>>) -> Seq<
    char,
> {
    if seen.len() == 0 {
        nothing_found_text(warnings)
    } else {
        "Steam installations\n"@ + installs_text(installs) + "\nLibraries\n"@ + libraries_text(seen)
            + notes_text(warnings) + "\n"@ + tally_text(actionable_in(seen))
    }
}

// -------------------------------------------------------- for machines

pub open spec fn fs_type_of(mount: Option<Mount>) -> Seq<char> {
    match mount {
        Some(m) => m.fs_type@,
        None => seq![],
    }
}

fn fs_type(mount: &Option<Mount>) -> (out: String)
    ensures
        out@ == fs_type_of(*mount),
{
    match mount {
        Some(m) => m.fs_type.clone(),
        None => String::new(),
    }
}

pub open spec fn blocker_json(why: Option<Seq<char>>) -> Seq<char> {
    match why {
        Some(t) => json_text(t),
        None => "null"@,
    }
}

pub open spec fn library_json_text(seen: Seen) -> Seq<char> {
    let why = blocker(seen.report.state, capability_of(seen.mount));
    "    {\n      \"id\": "@ + json_text(seen.library.id@) + ",\n      \"path\": "@ + json_text(
        seen.library.path@,
    ) + ",\n      \"name\": "@ + json_text(seen.library.name@) + ",\n      \"steam\": "@
        + json_text(seen.library.steam@) + ",\n      \"filesystem\": "@ + json_text(
        fs_type_of(seen.mount),
    ) + ",\n      \"connected\": "@ + truth(seen.library.connected) + ",\n      \"state\": "@
        + json_text(seen.report.code@) + ",\n      \"target\": "@ + json_text(seen.library.target@)
        + ",\n      \"backups\": ["@ + list_text(views(seen.report.backups@))
        + "],\n      \"destination_occupied\": "@ + optional_text(seen.report.existing_destination)
        + ",\n      \"eligible\": "@ + truth(why is None) + ",\n      \"blocking_reason\": "@
        + blocker_json(why) + "\n    }"@
}

fn library_json(seen: &Seen) -> (out: String)
    ensures
        out@ == library_json_text(*seen),
{
    let why = repair_blocker(&seen.report, &seen.mount);
    let mut out = "    {\n      \"id\": ".to_owned();
    out.append(json_string(seen.library.id.as_str()).as_str());
    out.append(",\n      \"path\": ");
    out.append(json_string(seen.library.path.as_str()).as_str());
    out.append(",\n      \"name\": ");
    out.append(json_string(seen.library.name.as_str()).as_str());
    out.append(",\n      \"steam\": ");
    out.append(json_string(seen.library.steam.as_str()).as_str());
    out.append(",\n      \"filesystem\": ");
    out.append(json_string(fs_type(&seen.mount).as_str()).as_str());
    out.append(",\n      \"connected\": ");
    out.append(json_bool(seen.library.connected));
    out.append(",\n      \"state\": ");
    out.append(json_string(seen.report.code.as_str()).as_str());
    out.append(",\n      \"target\": ");
    out.append(json_string(seen.library.target.as_str()).as_str());
    out.append(",\n      \"backups\": [");
    out.append(json_list(&seen.report.backups).as_str());
    out.append("],\n      \"destination_occupied\": ");
    out.append(json_optional(&seen.report.existing_destination).as_str());
    out.append(",\n      \"eligible\": ");
    out.append(json_bool(why.is_none()));
    out.append(",\n      \"blocking_reason\": ");
    out.append(json_optional(&why).as_str());
    out.append("\n    }");
    out
}

/// Every library in turn. Each but the last is followed by a comma.
pub open spec fn libraries_json(seen: Seq<Seen>) -> Seq<Seq<char>> {
    seen.map_values(|s: Seen| library_json_text(s))
}

/// What follows the rows of a list that has any.
pub open spec fn row_end_text(rows: nat) -> Seq<char> {
    if rows > 0 {
        "\n"@
    } else {
        seq![]
    }
}

fn row_end(rows: usize) -> (out: String)
    ensures
        out@ == row_end_text(rows as nat),
{
    if rows > 0 {
        "\n".to_owned()
    } else {
        String::new()
    }
}

/// A scan that could not read everything is not the same as a scan that found
/// nothing, and a caller has to be able to tell them apart.
pub open spec fn scan_json_text(version: Seq<char>, seen: Seq<Seen>, warnings: Seq<Seq<char>>) -> Seq<
    char,
> {
    "{\n  \"schema\": 1,\n  \"tool_version\": "@ + json_text(version) + ",\n  \"complete\": "@ + truth(
        warnings.len() == 0,
    ) + ",\n  \"libraries_seen\": "@ + decimal_of(seen.len()) + ",\n  \"libraries\": [\n"@ + joined(
        libraries_json(seen),
        ",\n"@,
    ) + row_end_text(seen.len()) + "  ],\n  \"warnings\": ["@ + list_text(warnings) + "]\n}\n"@
}

/// A scan as a document.
pub fn scan_json(version: &str, seen: &Vec<Seen>, warnings: &Vec<String>) -> (out: String)
    ensures
        out@ == scan_json_text(version@, seen@, views(warnings@)),
{
    let mut rows: Vec<String> = Vec::new();
    assert(views(rows@) =~= libraries_json(seen@.take(0)));
    for i in 0..seen.len()
        invariant
            views(rows@) == libraries_json(seen@.take(i as int)),
    {
        let row = library_json(&seen[i]);
        proof {
            lemma_views_push(rows@, row);
            assert(libraries_json(seen@.take(i + 1)) =~= libraries_json(seen@.take(i as int)).push(
                row@,
            ));
        }
        rows.push(row);
    }
    assert(seen@.take(seen@.len() as int) =~= seen@);
    let mut out = "{\n  \"schema\": 1,\n  \"tool_version\": ".to_owned();
    out.append(json_string(version).as_str());
    out.append(",\n  \"complete\": ");
    out.append(json_bool(warnings.len() == 0));
    out.append(",\n  \"libraries_seen\": ");
    out.append(decimal(seen.len() as u64).as_str());
    out.append(",\n  \"libraries\": [\n");
    out.append(join(&rows, ",\n").as_str());
    out.append(row_end(seen.len()).as_str());
    out.append("  ],\n  \"warnings\": [");
    out.append(json_list(warnings).as_str());
    out.append("]\n}\n");
    out
}

/// What a scan reports.
pub fn scan(
    o: &Options,
    version: &str,
    installs: &Vec<Install>,
    seen: &Vec<Seen>,
    warnings: &Vec<String>,
) -> (out: String)
    ensures
        out@ == if o.json {
            scan_json_text(version@, seen@, views(warnings@))
        } else {
            scan_text(installs@, seen@, views(warnings@))
        },
{
    if o.json {
        return scan_json(version, seen, warnings);
    }
    if seen.len() == 0 {
        return nothing_found(warnings);
    }
    let mut out = "Steam installations\n".to_owned();
    out.append(shown_installs(installs).as_str());
    out.append("\nLibraries\n");
    out.append(shown_libraries(seen).as_str());
    out.append(notes(warnings).as_str());
    out.append("\n");
    out.append(tally(count_actionable(seen)).as_str());
    out
}

// --------------------------------------------------- what holds of a scan

/// A library can be repaired exactly where its data is not moved yet and its
/// filesystem is known to need it, or where a repair stopped just before its
/// link.
pub proof fn lemma_what_can_be_repaired(state: State, c: Option<Capability>)
    ensures
        blocker(state, c) is None <==> state is InterruptedAwaitingLink || (state is NotRepaired
            && c == Some(Capability::NeedsRepair)),
        state is NotRepaired ==> (blocker(state, c) == Some(
            "it is already on a Linux filesystem"@,
        ) <==> c == Some(Capability::Native)),
        state is NotRepaired ==> (blocker(state, c) == Some(
            "its filesystem has no symlinks, so this repair cannot work there"@,
        ) <==> c == Some(Capability::NoSymlinks)),
        state is NotRepaired ==> (blocker(state, c) == Some(
            "its filesystem could not be identified"@,
        ) <==> c is None || c == Some(Capability::Unknown)),
        state is Repaired ==> blocker(state, c) == Some("it is already repaired"@),
        state is Disconnected ==> blocker(state, c) == Some("the drive is not connected"@),
{
    reveal_strlit("it is already on a Linux filesystem");
    reveal_strlit("its filesystem has no symlinks, so this repair cannot work there");
    reveal_strlit("its filesystem could not be identified");
    assert("it is already on a Linux filesystem"@.len() == 35);
    assert("its filesystem has no symlinks, so this repair cannot work there"@.len() == 64);
    assert("its filesystem could not be identified"@.len() == 38);
}

/// A repair is advised, by the library's id, wherever one may work. An undo is
/// advised where a repair was made, and nothing that changes anything is advised
/// elsewhere.
pub proof fn lemma_what_is_advised(l: Library, state: State, c: Capability)
    ensures
        state is NotRepaired && c != Capability::NoSymlinks && c != Capability::Native
            ==> advice_of(l, state, c).len() == 1 && ends(
            advice_of(l, state, c)[0],
            "librarybridge fix "@ + l.id@,
        ),
        state is InterruptedAwaitingLink ==> advice_of(l, state, c).len() == 3 && ends(
            advice_of(l, state, c)[2],
            "librarybridge fix "@ + l.id@,
        ) && mentions(advice_of(l, state, c)[1], state->backup@),
        state is Repaired ==> advice_of(l, state, c).len() == 1 && ends(
            advice_of(l, state, c)[0],
            "librarybridge undo "@ + l.id@,
        ),
        state is Unusable ==> advice_of(l, state, c).len() == 1 && mentions(
            advice_of(l, state, c)[0],
            state->detail@,
        ),
{
    reveal_strlit("librarybridge fix ");
    reveal_strlit("librarybridge undo ");
    reveal_strlit("            run:  librarybridge fix ");
    reveal_strlit("            Nothing was lost. Run:  librarybridge fix ");
    reveal_strlit("            to reverse:  librarybridge undo ");
    let all = advice_of(l, state, c);
    if state is NotRepaired && c != Capability::NoSymlinks && c != Capability::Native {
        let part = "librarybridge fix "@ + l.id@;
        assert(all[0].subrange(all[0].len() - part.len(), all[0].len() as int) =~= part);
    }
    if state is InterruptedAwaitingLink {
        let part = "librarybridge fix "@ + l.id@;
        assert(all[2].subrange(all[2].len() - part.len(), all[2].len() as int) =~= part);
        lemma_mentions_piece("            "@, state->backup@, seq![]);
    }
    if state is Repaired {
        let part = "librarybridge undo "@ + l.id@;
        assert(all[0].subrange(all[0].len() - part.len(), all[0].len() as int) =~= part);
    }
    if state is Unusable {
        lemma_mentions_piece("            "@, state->detail@, seq![]);
    }
}

/// What is counted as repairable is every library whose data is not moved yet or
/// whose repair stopped before its link.
pub proof fn lemma_what_is_counted(a: Seq<Seen>, b: Seq<Seen>, s: Seen)
    ensures
        actionable_in(a + b) == actionable_in(a) + actionable_in(b),
        actionable_in(seq![s]) == if s.report.state is NotRepaired || s.report.state
            is InterruptedAwaitingLink {
            1nat
        } else {
            0nat
        },
        tally_text(0) == "Nothing to do.\n"@,
        forall|n: nat| n > 1 ==> mentions(#[trigger] tally_text(n), decimal_of(n)),
    decreases b.len(),
{
    assert(seq![s].drop_last() =~= Seq::<Seen>::empty());
    assert(actionable_in(seq![s].drop_last()) == 0);
    assert forall|n: nat| n > 1 implies mentions(#[trigger] tally_text(n), decimal_of(n)) by {
        lemma_mentions_piece(
            seq![],
            decimal_of(n),
            " libraries can be repaired. Run `librarybridge fix <id>` for each.\n"@,
        );
    }
    if b.len() == 0 {
        assert(a + b =~= a);
    } else {
        lemma_what_is_counted(a, b.drop_last(), s);
        assert((a + b).drop_last() =~= a + b.drop_last());
        assert((a + b).last() == b.last());
    }
}

/// The first three games in order are named where the library is connected, and
/// the others are counted.
pub proof fn lemma_three_games_are_named(titles: Seq<Seq<char>>, i: int)
    requires
        0 <= i < titles.len(),
        i < 3,
    ensures
        mentions(games_text(true, titles), texts_in_order(titles)[i]),
        titles.len() > 3 ==> mentions(
            games_text(true, titles),
            ", and "@ + decimal_of((titles.len() - 3) as nat) + " more\n"@,
        ),
        games_text(false, titles).len() == 0,
        titles.len() <= 3 ==> games_text(true, titles) == "      games       "@ + joined(
            texts_in_order(titles),
            ", "@,
        ) + "\n"@,
{
    let sorted = texts_in_order(titles);
    lemma_in_order(titles, |t: Seq<char>| t);
    assert(sorted.len() == titles.len());
    let few = first_three(sorted);
    assert(few[i] == sorted[i]);
    lemma_joined_mentions(few, ", "@, i);
    let a = "      games       "@ + joined(few, ", "@);
    lemma_mentions_in("      games       "@, joined(few, ", "@), seq![], sorted[i]);
    lemma_mentions_in(seq![], a, "\n"@, sorted[i]);
    if titles.len() > 3 {
        let n = decimal_of((titles.len() - 3) as nat);
        let b = a + ", and "@;
        lemma_mentions_in(seq![], a, ", and "@, sorted[i]);
        lemma_mentions_in(seq![], b, n, sorted[i]);
        lemma_mentions_in(seq![], b + n, " more\n"@, sorted[i]);
        let part = ", and "@ + n + " more\n"@;
        assert(games_text(true, titles) =~= a + part);
        lemma_mentions_piece(a, part, seq![]);
    }
}

proof fn lemma_libraries_has(seen: Seq<Seen>, i: int)
    requires
        0 <= i < seen.len(),
    ensures
        mentions(libraries_text(seen), shown_library_text(seen[i])),
    decreases seen.len(),
{
    let head = libraries_text(seen.drop_last());
    let block = shown_library_text(seen.last());
    if i == seen.len() - 1 {
        lemma_mentions_piece(head, block, seq![]);
    } else {
        lemma_libraries_has(seen.drop_last(), i);
        lemma_mentions_in(seq![], head, block, shown_library_text(seen[i]));
    }
}

proof fn lemma_installs_has(installs: Seq<Install>, i: int)
    requires
        0 <= i < installs.len(),
    ensures
        mentions(installs_text(installs), installs[i].root@),
    decreases installs.len(),
{
    let head = installs_text(installs.drop_last());
    let last = installs.last();
    let a = head + "  "@;
    let b = a + padded(last.kind@, 8);
    let c = b + " "@;
    let d = c + last.root@;
    if i == installs.len() - 1 {
        lemma_mentions_piece(c, last.root@, seq![]);
        lemma_mentions_in(seq![], d, "\n"@, last.root@);
    } else {
        let part = installs[i].root@;
        lemma_installs_has(installs.drop_last(), i);
        lemma_mentions_in(seq![], head, "  "@, part);
        lemma_mentions_in(seq![], a, padded(last.kind@, 8), part);
        lemma_mentions_in(seq![], b, " "@, part);
        lemma_mentions_in(seq![], c, last.root@, part);
        lemma_mentions_in(seq![], d, "\n"@, part);
    }
}

/// A library is shown with its id, its path and its name, and with its state.
pub proof fn lemma_how_a_library_is_shown(seen: Seen)
    ensures
        begins(
            shown_library_text(seen),
            "\n  ["@ + seen.library.id@ + "] "@ + seen.library.path@ + "\n      name        "@
                + seen.library.name@ + "\n"@,
        ),
        mentions(
            shown_library_text(seen),
            "      state       "@ + seen.report.headline@ + "\n"@,
        ),
        mentions(
            shown_library_text(seen),
            each(advice_of(seen.library, seen.report.state, ability(seen.mount)), "      "@, "\n"@),
        ),
{
    let a = "\n  ["@ + seen.library.id@ + "] "@ + seen.library.path@ + "\n      name        "@
        + seen.library.name@ + "\n"@;
    let b = a + filesystem_line_text(seen.mount) + compatdata_line_text(seen.report.state)
        + games_text(seen.library.connected, views(seen.titles@)) + link_line_text(
        seen.report.state,
    );
    let c = "      state       "@ + seen.report.headline@ + "\n"@;
    let d = each(advice_of(seen.library, seen.report.state, ability(seen.mount)), "      "@, "\n"@);
    let e = each(views(seen.report.backups@), "      backup      "@, "\n"@) + occupied_line_text(
        seen.report,
    ) + restore_line_text(seen.report) + leftover_line_text(seen.report);
    let whole = shown_library_text(seen);
    assert(whole =~= b + c + (d + e));
    lemma_mentions_piece(b, c, d + e);
    assert(whole =~= (b + c) + d + e);
    lemma_mentions_piece(b + c, d, e);
    assert(whole.take(a.len() as int) =~= a);
}

/// A scan shows every library, every Steam and every warning. Nothing found is
/// told only where there is no library.
pub proof fn lemma_scan_shows_everything(
    installs: Seq<Install>,
    seen: Seq<Seen>,
    warnings: Seq<Seq<char>>,
    i: int,
)
    requires
        seen.len() > 0,
    ensures
        0 <= i < seen.len() ==> mentions(
            scan_text(installs, seen, warnings),
            shown_library_text(seen[i]),
        ),
        0 <= i < installs.len() ==> mentions(
            scan_text(installs, seen, warnings),
            installs[i].root@,
        ),
        0 <= i < warnings.len() ==> mentions(
            scan_text(installs, seen, warnings),
            "  note: "@ + warnings[i] + "\n"@,
        ),
        ends(scan_text(installs, seen, warnings), tally_text(actionable_in(seen))),
{
    let a = "Steam installations\n"@ + installs_text(installs);
    let b = a + "\nLibraries\n"@;
    let c = b + libraries_text(seen);
    let n = notes_text(warnings);
    let d = c + n;
    let e = d + "\n"@;
    let t = tally_text(actionable_in(seen));
    let whole = scan_text(installs, seen, warnings);
    assert(whole.subrange(whole.len() - t.len(), whole.len() as int) =~= t);
    if 0 <= i < seen.len() {
        let part = shown_library_text(seen[i]);
        lemma_libraries_has(seen, i);
        lemma_mentions_in(b, libraries_text(seen), seq![], part);
        lemma_mentions_in(seq![], c, n, part);
        lemma_mentions_in(seq![], d, "\n"@, part);
        lemma_mentions_in(seq![], e, t, part);
    }
    if 0 <= i < installs.len() {
        let part = installs[i].root@;
        lemma_installs_has(installs, i);
        lemma_mentions_in("Steam installations\n"@, installs_text(installs), seq![], part);
        lemma_mentions_in(seq![], a, "\nLibraries\n"@, part);
        lemma_mentions_in(seq![], b, libraries_text(seen), part);
        lemma_mentions_in(seq![], c, n, part);
        lemma_mentions_in(seq![], d, "\n"@, part);
        lemma_mentions_in(seq![], e, t, part);
    }
    if 0 <= i < warnings.len() {
        let part = "  note: "@ + warnings[i] + "\n"@;
        lemma_each_mentions(warnings, "  note: "@, "\n"@, i);
        lemma_mentions_in("\n"@, each(warnings, "  note: "@, "\n"@), seq![], part);
        lemma_mentions_in(c, n, seq![], part);
        lemma_mentions_in(seq![], d, "\n"@, part);
        lemma_mentions_in(seq![], e, t, part);
    }
}

/// A document says that it is complete exactly where there was no warning, and
/// has a row for every library, which says whether it can be repaired.
pub proof fn lemma_scan_document(
    version: Seq<char>,
    seen: Seq<Seen>,
    warnings: Seq<Seq<char>>,
    i: int,
)
    requires
        0 <= i < seen.len(),
    ensures
        mentions(scan_json_text(version, seen, warnings), library_json_text(seen[i])),
        mentions(
            scan_json_text(version, seen, warnings),
            if warnings.len() == 0 {
                ",\n  \"complete\": true,\n"@
            } else {
                ",\n  \"complete\": false,\n"@
            },
        ),
        mentions(
            library_json_text(seen[i]),
            if blocker(seen[i].report.state, capability_of(seen[i].mount)) is None {
                ",\n      \"eligible\": true,\n"@
            } else {
                ",\n      \"eligible\": false,\n"@
            },
        ),
{
    let rows = libraries_json(seen);
    let head = "{\n  \"schema\": 1,\n  \"tool_version\": "@ + json_text(version)
        + ",\n  \"complete\": "@ + truth(warnings.len() == 0) + ",\n  \"libraries_seen\": "@
        + decimal_of(seen.len()) + ",\n  \"libraries\": [\n"@;
    let all = joined(rows, ",\n"@);
    let a = head + all;
    let b = a + row_end_text(seen.len());
    let c = b + "  ],\n  \"warnings\": ["@;
    let d = c + list_text(warnings);
    assert(rows[i] == library_json_text(seen[i]));
    lemma_joined_mentions(rows, ",\n"@, i);
    lemma_mentions_in(head, all, seq![], rows[i]);
    lemma_mentions_in(seq![], a, row_end_text(seen.len()), rows[i]);
    lemma_mentions_in(seq![], b, "  ],\n  \"warnings\": ["@, rows[i]);
    lemma_mentions_in(seq![], c, list_text(warnings), rows[i]);
    lemma_mentions_in(seq![], d, "]\n}\n"@, rows[i]);
    lemma_complete_is_told(version, seen, warnings);
    lemma_eligible_is_told(seen[i]);
}

proof fn lemma_complete_is_told(version: Seq<char>, seen: Seq<Seen>, warnings: Seq<Seq<char>>)
    ensures
        mentions(
            scan_json_text(version, seen, warnings),
            if warnings.len() == 0 {
                ",\n  \"complete\": true,\n"@
            } else {
                ",\n  \"complete\": false,\n"@
            },
        ),
{
    reveal_strlit(",\n  \"complete\": ");
    reveal_strlit("true");
    reveal_strlit("false");
    reveal_strlit(",\n  \"libraries_seen\": ");
    reveal_strlit("  \"libraries_seen\": ");
    reveal_strlit(",\n  \"complete\": true,\n");
    reveal_strlit(",\n  \"complete\": false,\n");
    let part = if warnings.len() == 0 {
        ",\n  \"complete\": true,\n"@
    } else {
        ",\n  \"complete\": false,\n"@
    };
    let h = "{\n  \"schema\": 1,\n  \"tool_version\": "@ + json_text(version);
    let rest = "  \"libraries_seen\": "@;
    let t0 = h + ",\n  \"complete\": "@ + truth(warnings.len() == 0)
        + ",\n  \"libraries_seen\": "@;
    assert(t0 =~= h + part + rest);
    lemma_mentions_piece(h, part, rest);
    lemma_scan_tail(t0, seen, warnings, part);
}

proof fn lemma_scan_tail(
    head: Seq<char>,
    seen: Seq<Seen>,
    warnings: Seq<Seq<char>>,
    part: Seq<char>,
)
    requires
        mentions(head, part),
    ensures
        mentions(
            head + decimal_of(seen.len()) + ",\n  \"libraries\": [\n"@ + joined(
                libraries_json(seen),
                ",\n"@,
            ) + row_end_text(seen.len()) + "  ],\n  \"warnings\": ["@ + list_text(warnings)
                + "]\n}\n"@,
            part,
        ),
{
    let t1 = head + decimal_of(seen.len());
    let t2 = t1 + ",\n  \"libraries\": [\n"@;
    let all = joined(libraries_json(seen), ",\n"@);
    let t3 = t2 + all;
    let t4 = t3 + row_end_text(seen.len());
    let t5 = t4 + "  ],\n  \"warnings\": ["@;
    let t6 = t5 + list_text(warnings);
    lemma_mentions_in(seq![], head, decimal_of(seen.len()), part);
    lemma_mentions_in(seq![], t1, ",\n  \"libraries\": [\n"@, part);
    lemma_mentions_in(seq![], t2, all, part);
    lemma_mentions_in(seq![], t3, row_end_text(seen.len()), part);
    lemma_mentions_in(seq![], t4, "  ],\n  \"warnings\": ["@, part);
    lemma_mentions_in(seq![], t5, list_text(warnings), part);
    lemma_mentions_in(seq![], t6, "]\n}\n"@, part);
}

proof fn lemma_eligible_is_told(seen: Seen)
    ensures
        mentions(
            library_json_text(seen),
            if blocker(seen.report.state, capability_of(seen.mount)) is None {
                ",\n      \"eligible\": true,\n"@
            } else {
                ",\n      \"eligible\": false,\n"@
            },
        ),
{
    reveal_strlit(",\n      \"eligible\": ");
    reveal_strlit("true");
    reveal_strlit("false");
    reveal_strlit(",\n      \"blocking_reason\": ");
    reveal_strlit("      \"blocking_reason\": ");
    reveal_strlit(",\n      \"eligible\": true,\n");
    reveal_strlit(",\n      \"eligible\": false,\n");
    let why = blocker(seen.report.state, capability_of(seen.mount));
    let part = if why is None {
        ",\n      \"eligible\": true,\n"@
    } else {
        ",\n      \"eligible\": false,\n"@
    };
    let h = "    {\n      \"id\": "@ + json_text(seen.library.id@) + ",\n      \"path\": "@
        + json_text(seen.library.path@) + ",\n      \"name\": "@ + json_text(seen.library.name@)
        + ",\n      \"steam\": "@ + json_text(seen.library.steam@) + ",\n      \"filesystem\": "@
        + json_text(fs_type_of(seen.mount)) + ",\n      \"connected\": "@ + truth(
        seen.library.connected,
    ) + ",\n      \"state\": "@ + json_text(seen.report.code@) + ",\n      \"target\": "@
        + json_text(seen.library.target@) + ",\n      \"backups\": ["@ + list_text(
        views(seen.report.backups@),
    ) + "],\n      \"destination_occupied\": "@ + optional_text(seen.report.existing_destination);
    let mid = ",\n      \"eligible\": "@ + truth(why is None) + ",\n      \"blocking_reason\": "@;
    let tail = blocker_json(why) + "\n    }"@;
    assert(mid =~= part + "      \"blocking_reason\": "@);
    let whole = library_json_text(seen);
    assert(whole =~= h + mid + tail);
    assert(whole =~= h + part + ("      \"blocking_reason\": "@ + tail));
    lemma_mentions_piece(h, part, "      \"blocking_reason\": "@ + tail);
}


/// What is known of a library is shown with it: its filesystem, how many
/// prefixes it holds, its games, where its data went, and what an earlier run
/// left behind.
pub proof fn lemma_what_is_noted_of_a_library(seen: Seen, i: int)
    ensures
        seen.mount matches Some(m) ==> mentions(
            shown_library_text(seen),
            "      filesystem  "@ + m.described@ + " ("@ + match m.capability {
                Capability::NeedsRepair => "Proton data does not belong here"@,
                Capability::NoSymlinks => "no symlink support, cannot be repaired"@,
                Capability::Native => "fine for Proton"@,
                Capability::Unknown => "not recognised"@,
            } + ")\n"@,
        ),
        seen.mount is None ==> mentions(
            shown_library_text(seen),
            "      filesystem  unknown (no mount table on this system)\n"@,
        ),
        seen.report.state matches State::NotRepaired { prefixes } ==> mentions(
            shown_library_text(seen),
            "      compatdata  "@ + decimal_of(prefixes as nat) + " prefixes\n"@,
        ),
        seen.report.state matches State::Repaired { prefixes, target, .. } ==> mentions(
            shown_library_text(seen),
            "      compatdata  "@ + decimal_of(prefixes as nat) + " prefixes\n"@,
        ) && mentions(shown_library_text(seen), "      moved to    "@ + target@ + "\n"@),
        seen.report.state matches State::LinkedElsewhere { target } ==> mentions(
            shown_library_text(seen),
            "      links to    "@ + target@ + "\n"@,
        ),
        seen.report.state matches State::DanglingLink { target } ==> mentions(
            shown_library_text(seen),
            "      links to    "@ + target@ + "\n"@,
        ),
        mentions(
            shown_library_text(seen),
            games_text(seen.library.connected, views(seen.titles@)),
        ),
        0 <= i < seen.report.backups@.len() ==> mentions(
            shown_library_text(seen),
            "      backup      "@ + seen.report.backups@[i]@ + "\n"@,
        ),
        seen.report.existing_destination matches Some(path) ==> mentions(
            shown_library_text(seen),
            "the destination already holds data: "@ + path@ + "\n"@,
        ),
        seen.report.interrupted_restore matches Some(path) ==> mentions(
            shown_library_text(seen),
            "a copy back to this drive stopped part way: "@ + path@ + "\n"@,
        ),
        seen.report.abandoned_copy matches Some(path) ==> mentions(
            shown_library_text(seen),
            "      leftover    "@ + path@ + " (unfinished copy, safe to delete)\n"@,
        ),
{
    lemma_library_lines(seen);
    lemma_library_tail(seen);
    let whole = shown_library_text(seen);
    if 0 <= i < seen.report.backups@.len() {
        let kept = views(seen.report.backups@);
        lemma_each_mentions(kept, "      backup      "@, "\n"@, i);
        lemma_mentions_through(
            whole,
            each(kept, "      backup      "@, "\n"@),
            "      backup      "@ + kept[i] + "\n"@,
        );
    }
    if seen.report.existing_destination is Some {
        let path = seen.report.existing_destination->Some_0@;
        reveal_strlit("      note        the destination already holds data: ");
        reveal_strlit("      note        ");
        reveal_strlit("the destination already holds data: ");
        let part = "the destination already holds data: "@ + path + "\n"@;
        assert(occupied_line_text(seen.report) =~= "      note        "@ + part);
        lemma_mentions_piece("      note        "@, part, seq![]);
        lemma_mentions_through(whole, occupied_line_text(seen.report), part);
    }
    if seen.report.interrupted_restore is Some {
        let path = seen.report.interrupted_restore->Some_0@;
        reveal_strlit("      note        a copy back to this drive stopped part way: ");
        reveal_strlit("      note        ");
        reveal_strlit("a copy back to this drive stopped part way: ");
        reveal_strlit("\n");
        reveal_strlit("\n                  the repair is untouched; that folder is not in use\n");
        reveal_strlit("                  the repair is untouched; that folder is not in use\n");
        let part = "a copy back to this drive stopped part way: "@ + path + "\n"@;
        let rest = "                  the repair is untouched; that folder is not in use\n"@;
        assert(restore_line_text(seen.report) =~= "      note        "@ + part + rest);
        lemma_mentions_piece("      note        "@, part, rest);
        lemma_mentions_through(whole, restore_line_text(seen.report), part);
    }
}

proof fn lemma_library_lines(seen: Seen)
    ensures
        mentions(shown_library_text(seen), filesystem_line_text(seen.mount)),
        mentions(shown_library_text(seen), compatdata_line_text(seen.report.state)),
        mentions(shown_library_text(seen), games_text(seen.library.connected, views(seen.titles@))),
        mentions(shown_library_text(seen), link_line_text(seen.report.state)),
{
    let a0 = "\n  ["@;
    let a1 = a0 + seen.library.id@;
    let a2 = a1 + "] "@;
    let a3 = a2 + seen.library.path@;
    let a4 = a3 + "\n      name        "@;
    let a5 = a4 + seen.library.name@;
    let a6 = a5 + "\n"@;
    let a7 = a6 + filesystem_line_text(seen.mount);
    let a8 = a7 + compatdata_line_text(seen.report.state);
    let a9 = a8 + games_text(seen.library.connected, views(seen.titles@));
    let a10 = a9 + link_line_text(seen.report.state);
    let a11 = a10 + "      state       "@;
    let a12 = a11 + seen.report.headline@;
    let a13 = a12 + "\n"@;
    let a14 = a13
        + each(advice_of(seen.library, seen.report.state, ability(seen.mount)), "      "@, "\n"@);
    let a15 = a14 + each(views(seen.report.backups@), "      backup      "@, "\n"@);
    let a16 = a15 + occupied_line_text(seen.report);
    let a17 = a16 + restore_line_text(seen.report);
    let a18 = a17 + leftover_line_text(seen.report);
    lemma_mentions_piece(a6, filesystem_line_text(seen.mount), seq![]);
    lemma_mentions_in(seq![], a7, compatdata_line_text(seen.report.state),
        filesystem_line_text(seen.mount));
    lemma_mentions_in(seq![], a8, games_text(seen.library.connected, views(seen.titles@)),
        filesystem_line_text(seen.mount));
    lemma_mentions_in(seq![], a9, link_line_text(seen.report.state),
        filesystem_line_text(seen.mount));
    lemma_mentions_in(seq![], a10, "      state       "@, filesystem_line_text(seen.mount));
    lemma_mentions_in(seq![], a11, seen.report.headline@, filesystem_line_text(seen.mount));
    lemma_mentions_in(seq![], a12, "\n"@, filesystem_line_text(seen.mount));
    lemma_mentions_in(seq![], a13, each(advice_of(seen.library, seen.report.state,
        ability(seen.mount)), "      "@, "\n"@), filesystem_line_text(seen.mount));
    lemma_mentions_in(seq![], a14, each(views(seen.report.backups@), "      backup      "@, "\n"@),
        filesystem_line_text(seen.mount));
    lemma_mentions_in(seq![], a15, occupied_line_text(seen.report),
        filesystem_line_text(seen.mount));
    lemma_mentions_in(seq![], a16, restore_line_text(seen.report),
        filesystem_line_text(seen.mount));
    lemma_mentions_in(seq![], a17, leftover_line_text(seen.report),
        filesystem_line_text(seen.mount));
    lemma_mentions_piece(a7, compatdata_line_text(seen.report.state), seq![]);
    lemma_mentions_in(seq![], a8, games_text(seen.library.connected, views(seen.titles@)),
        compatdata_line_text(seen.report.state));
    lemma_mentions_in(seq![], a9, link_line_text(seen.report.state),
        compatdata_line_text(seen.report.state));
    lemma_mentions_in(seq![], a10, "      state       "@, compatdata_line_text(seen.report.state));
    lemma_mentions_in(seq![], a11, seen.report.headline@, compatdata_line_text(seen.report.state));
    lemma_mentions_in(seq![], a12, "\n"@, compatdata_line_text(seen.report.state));
    lemma_mentions_in(seq![], a13, each(advice_of(seen.library, seen.report.state,
        ability(seen.mount)), "      "@, "\n"@), compatdata_line_text(seen.report.state));
    lemma_mentions_in(seq![], a14, each(views(seen.report.backups@), "      backup      "@, "\n"@),
        compatdata_line_text(seen.report.state));
    lemma_mentions_in(seq![], a15, occupied_line_text(seen.report),
        compatdata_line_text(seen.report.state));
    lemma_mentions_in(seq![], a16, restore_line_text(seen.report),
        compatdata_line_text(seen.report.state));
    lemma_mentions_in(seq![], a17, leftover_line_text(seen.report),
        compatdata_line_text(seen.report.state));
    lemma_mentions_piece(a8, games_text(seen.library.connected, views(seen.titles@)), seq![]);
    lemma_mentions_in(seq![], a9, link_line_text(seen.report.state),
        games_text(seen.library.connected, views(seen.titles@)));
    lemma_mentions_in(seq![], a10, "      state       "@, games_text(seen.library.connected,
        views(seen.titles@)));
    lemma_mentions_in(seq![], a11, seen.report.headline@, games_text(seen.library.connected,
        views(seen.titles@)));
    lemma_mentions_in(seq![], a12, "\n"@, games_text(seen.library.connected, views(seen.titles@)));
    lemma_mentions_in(seq![], a13, each(advice_of(seen.library, seen.report.state,
        ability(seen.mount)), "      "@, "\n"@), games_text(seen.library.connected,
        views(seen.titles@)));
    lemma_mentions_in(seq![], a14, each(views(seen.report.backups@), "      backup      "@, "\n"@),
        games_text(seen.library.connected, views(seen.titles@)));
    lemma_mentions_in(seq![], a15, occupied_line_text(seen.report),
        games_text(seen.library.connected, views(seen.titles@)));
    lemma_mentions_in(seq![], a16, restore_line_text(seen.report),
        games_text(seen.library.connected, views(seen.titles@)));
    lemma_mentions_in(seq![], a17, leftover_line_text(seen.report),
        games_text(seen.library.connected, views(seen.titles@)));
    lemma_mentions_piece(a9, link_line_text(seen.report.state), seq![]);
    lemma_mentions_in(seq![], a10, "      state       "@, link_line_text(seen.report.state));
    lemma_mentions_in(seq![], a11, seen.report.headline@, link_line_text(seen.report.state));
    lemma_mentions_in(seq![], a12, "\n"@, link_line_text(seen.report.state));
    lemma_mentions_in(seq![], a13, each(advice_of(seen.library, seen.report.state,
        ability(seen.mount)), "      "@, "\n"@), link_line_text(seen.report.state));
    lemma_mentions_in(seq![], a14, each(views(seen.report.backups@), "      backup      "@, "\n"@),
        link_line_text(seen.report.state));
    lemma_mentions_in(seq![], a15, occupied_line_text(seen.report),
        link_line_text(seen.report.state));
    lemma_mentions_in(seq![], a16, restore_line_text(seen.report),
        link_line_text(seen.report.state));
    lemma_mentions_in(seq![], a17, leftover_line_text(seen.report),
        link_line_text(seen.report.state));
    assert(a18 == shown_library_text(seen));
}

proof fn lemma_library_tail(seen: Seen)
    ensures
        mentions(shown_library_text(seen), each(views(seen.report.backups@), "      backup      "@,
            "\n"@)),
        mentions(shown_library_text(seen), occupied_line_text(seen.report)),
        mentions(shown_library_text(seen), restore_line_text(seen.report)),
        mentions(shown_library_text(seen), leftover_line_text(seen.report)),
{
    let a0 = "\n  ["@;
    let a1 = a0 + seen.library.id@;
    let a2 = a1 + "] "@;
    let a3 = a2 + seen.library.path@;
    let a4 = a3 + "\n      name        "@;
    let a5 = a4 + seen.library.name@;
    let a6 = a5 + "\n"@;
    let a7 = a6 + filesystem_line_text(seen.mount);
    let a8 = a7 + compatdata_line_text(seen.report.state);
    let a9 = a8 + games_text(seen.library.connected, views(seen.titles@));
    let a10 = a9 + link_line_text(seen.report.state);
    let a11 = a10 + "      state       "@;
    let a12 = a11 + seen.report.headline@;
    let a13 = a12 + "\n"@;
    let a14 = a13
        + each(advice_of(seen.library, seen.report.state, ability(seen.mount)), "      "@, "\n"@);
    let a15 = a14 + each(views(seen.report.backups@), "      backup      "@, "\n"@);
    let a16 = a15 + occupied_line_text(seen.report);
    let a17 = a16 + restore_line_text(seen.report);
    let a18 = a17 + leftover_line_text(seen.report);
    lemma_mentions_piece(a14, each(views(seen.report.backups@), "      backup      "@, "\n"@),
        seq![]);
    lemma_mentions_in(seq![], a15, occupied_line_text(seen.report),
        each(views(seen.report.backups@), "      backup      "@, "\n"@));
    lemma_mentions_in(seq![], a16, restore_line_text(seen.report),
        each(views(seen.report.backups@), "      backup      "@, "\n"@));
    lemma_mentions_in(seq![], a17, leftover_line_text(seen.report),
        each(views(seen.report.backups@), "      backup      "@, "\n"@));
    lemma_mentions_piece(a15, occupied_line_text(seen.report), seq![]);
    lemma_mentions_in(seq![], a16, restore_line_text(seen.report), occupied_line_text(seen.report));
    lemma_mentions_in(seq![], a17, leftover_line_text(seen.report),
        occupied_line_text(seen.report));
    lemma_mentions_piece(a16, restore_line_text(seen.report), seq![]);
    lemma_mentions_in(seq![], a17, leftover_line_text(seen.report), restore_line_text(seen.report));
    lemma_mentions_piece(a17, leftover_line_text(seen.report), seq![]);
    assert(a18 == shown_library_text(seen));
}

/// A document says of each library what it is, where it is and why it cannot
/// be repaired, if it cannot.
pub proof fn lemma_what_a_document_says_of_a_library(seen: Seen)
    ensures
        mentions(library_json_text(seen), "{\n      \"id\": "@ + json_text(seen.library.id@)),
        mentions(library_json_text(seen), ",\n      \"path\": "@ + json_text(seen.library.path@)),
        mentions(library_json_text(seen), ",\n      \"name\": "@ + json_text(seen.library.name@)),
        seen.mount matches Some(m) ==> mentions(
            library_json_text(seen),
            ",\n      \"filesystem\": "@ + json_text(m.fs_type@),
        ),
        seen.mount is None ==> mentions(
            library_json_text(seen),
            ",\n      \"filesystem\": "@ + json_text(seq![]),
        ),
        mentions(
            library_json_text(seen),
            ",\n      \"connected\": "@ + truth(seen.library.connected),
        ),
        mentions(library_json_text(seen), ",\n      \"state\": "@ + json_text(seen.report.code@)),
        mentions(
            library_json_text(seen),
            ",\n      \"target\": "@ + json_text(seen.library.target@),
        ),
        mentions(
            library_json_text(seen),
            ",\n      \"destination_occupied\": "@ + optional_text(
                seen.report.existing_destination,
            ),
        ),
        blocker(seen.report.state, capability_of(seen.mount)) matches Some(why) ==> mentions(
            library_json_text(seen),
            ",\n      \"blocking_reason\": "@ + json_text(why),
        ),
        blocker(seen.report.state, capability_of(seen.mount)) is None ==> mentions(
            library_json_text(seen),
            ",\n      \"blocking_reason\": null"@,
        ),
{
    let whole = library_json_text(seen);
    let why = blocker(seen.report.state, capability_of(seen.mount));
    reveal_strlit("    {\n      \"id\": ");
    reveal_strlit("{\n      \"id\": ");
    reveal_strlit("    ");
    assert("    {\n      \"id\": "@ =~= "    "@ + "{\n      \"id\": "@);
    let id = "{\n      \"id\": "@ + json_text(seen.library.id@);
    assert("    {\n      \"id\": "@ + json_text(seen.library.id@) =~= "    "@ + id);
    lemma_mentions_piece("    "@, id, seq![]);
    if why is None {
        reveal_strlit(",\n      \"blocking_reason\": ");
        reveal_strlit("null");
        reveal_strlit(",\n      \"blocking_reason\": null");
        assert(",\n      \"blocking_reason\": "@ + "null"@
            =~= ",\n      \"blocking_reason\": null"@);
    }
    lemma_document_rows(seen);
    lemma_mentions_through(
        whole,
        "    {\n      \"id\": "@ + json_text(seen.library.id@),
        id,
    );
}

proof fn lemma_regrouped(a: Seq<char>, b: Seq<char>, c: Seq<char>)
    ensures
        a + b + c == a + (b + c),
{
    assert(a + b + c =~= a + (b + c));
}

#[verifier::rlimit(40)]
proof fn lemma_document_rows(seen: Seen)
    ensures
        mentions(library_json_text(seen), "    {\n      \"id\": "@ + json_text(seen.library.id@)),
        mentions(library_json_text(seen), ",\n      \"path\": "@ + json_text(seen.library.path@)),
        mentions(library_json_text(seen), ",\n      \"name\": "@ + json_text(seen.library.name@)),
        mentions(library_json_text(seen), ",\n      \"filesystem\": "@
            + json_text(fs_type_of(seen.mount))),
        mentions(library_json_text(seen), ",\n      \"connected\": "@
            + truth(seen.library.connected)),
        mentions(library_json_text(seen), ",\n      \"state\": "@ + json_text(seen.report.code@)),
        mentions(library_json_text(seen), ",\n      \"target\": "@
            + json_text(seen.library.target@)),
        mentions(library_json_text(seen), ",\n      \"destination_occupied\": "@
            + optional_text(seen.report.existing_destination)),
        mentions(library_json_text(seen), ",\n      \"blocking_reason\": "@
            + blocker_json(blocker(seen.report.state, capability_of(seen.mount)))),
{
    let why = blocker(seen.report.state, capability_of(seen.mount));
    let a0 = "    {\n      \"id\": "@ + json_text(seen.library.id@);
    let p1 = ",\n      \"path\": "@ + json_text(seen.library.path@);
    let a1 = a0 + p1;
    let p2 = ",\n      \"name\": "@ + json_text(seen.library.name@);
    let a2 = a1 + p2;
    let p3 = ",\n      \"steam\": "@ + json_text(seen.library.steam@);
    let a3 = a2 + p3;
    let p4 = ",\n      \"filesystem\": "@ + json_text(fs_type_of(seen.mount));
    let a4 = a3 + p4;
    let p5 = ",\n      \"connected\": "@ + truth(seen.library.connected);
    let a5 = a4 + p5;
    let p6 = ",\n      \"state\": "@ + json_text(seen.report.code@);
    let a6 = a5 + p6;
    let p7 = ",\n      \"target\": "@ + json_text(seen.library.target@);
    let a7 = a6 + p7;
    let p8 = ",\n      \"backups\": ["@ + list_text(views(seen.report.backups@));
    let a8 = a7 + p8;
    let p9 = "],\n      \"destination_occupied\": "@
        + optional_text(seen.report.existing_destination);
    let a9 = a8 + p9;
    let p10 = ",\n      \"eligible\": "@ + truth(why is None);
    let a10 = a9 + p10;
    let p11 = ",\n      \"blocking_reason\": "@ + blocker_json(why);
    let a11 = a10 + p11;
    lemma_regrouped(a0, ",\n      \"path\": "@, json_text(seen.library.path@));
    lemma_regrouped(a1, ",\n      \"name\": "@, json_text(seen.library.name@));
    lemma_regrouped(a2, ",\n      \"steam\": "@, json_text(seen.library.steam@));
    lemma_regrouped(a3, ",\n      \"filesystem\": "@, json_text(fs_type_of(seen.mount)));
    lemma_regrouped(a4, ",\n      \"connected\": "@, truth(seen.library.connected));
    lemma_regrouped(a5, ",\n      \"state\": "@, json_text(seen.report.code@));
    lemma_regrouped(a6, ",\n      \"target\": "@, json_text(seen.library.target@));
    lemma_regrouped(a7, ",\n      \"backups\": ["@, list_text(views(seen.report.backups@)));
    lemma_regrouped(a8, "],\n      \"destination_occupied\": "@,
        optional_text(seen.report.existing_destination));
    lemma_regrouped(a9, ",\n      \"eligible\": "@, truth(why is None));
    lemma_regrouped(a10, ",\n      \"blocking_reason\": "@, blocker_json(why));
    assert(library_json_text(seen) == a11 + "\n    }"@);
    lemma_mentions_self(a0);
    lemma_mentions_in(seq![], a0, p1, a0);
    lemma_mentions_in(seq![], a1, p2, a0);
    lemma_mentions_in(seq![], a2, p3, a0);
    lemma_mentions_in(seq![], a3, p4, a0);
    lemma_mentions_in(seq![], a4, p5, a0);
    lemma_mentions_in(seq![], a5, p6, a0);
    lemma_mentions_in(seq![], a6, p7, a0);
    lemma_mentions_in(seq![], a7, p8, a0);
    lemma_mentions_in(seq![], a8, p9, a0);
    lemma_mentions_in(seq![], a9, p10, a0);
    lemma_mentions_in(seq![], a10, p11, a0);
    lemma_mentions_in(seq![], a11, "\n    }"@, a0);
    lemma_mentions_piece(a0, p1, seq![]);
    lemma_mentions_in(seq![], a1, p2, p1);
    lemma_mentions_in(seq![], a2, p3, p1);
    lemma_mentions_in(seq![], a3, p4, p1);
    lemma_mentions_in(seq![], a4, p5, p1);
    lemma_mentions_in(seq![], a5, p6, p1);
    lemma_mentions_in(seq![], a6, p7, p1);
    lemma_mentions_in(seq![], a7, p8, p1);
    lemma_mentions_in(seq![], a8, p9, p1);
    lemma_mentions_in(seq![], a9, p10, p1);
    lemma_mentions_in(seq![], a10, p11, p1);
    lemma_mentions_in(seq![], a11, "\n    }"@, p1);
    lemma_mentions_piece(a1, p2, seq![]);
    lemma_mentions_in(seq![], a2, p3, p2);
    lemma_mentions_in(seq![], a3, p4, p2);
    lemma_mentions_in(seq![], a4, p5, p2);
    lemma_mentions_in(seq![], a5, p6, p2);
    lemma_mentions_in(seq![], a6, p7, p2);
    lemma_mentions_in(seq![], a7, p8, p2);
    lemma_mentions_in(seq![], a8, p9, p2);
    lemma_mentions_in(seq![], a9, p10, p2);
    lemma_mentions_in(seq![], a10, p11, p2);
    lemma_mentions_in(seq![], a11, "\n    }"@, p2);
    lemma_mentions_piece(a3, p4, seq![]);
    lemma_mentions_in(seq![], a4, p5, p4);
    lemma_mentions_in(seq![], a5, p6, p4);
    lemma_mentions_in(seq![], a6, p7, p4);
    lemma_mentions_in(seq![], a7, p8, p4);
    lemma_mentions_in(seq![], a8, p9, p4);
    lemma_mentions_in(seq![], a9, p10, p4);
    lemma_mentions_in(seq![], a10, p11, p4);
    lemma_mentions_in(seq![], a11, "\n    }"@, p4);
    lemma_mentions_piece(a4, p5, seq![]);
    lemma_mentions_in(seq![], a5, p6, p5);
    lemma_mentions_in(seq![], a6, p7, p5);
    lemma_mentions_in(seq![], a7, p8, p5);
    lemma_mentions_in(seq![], a8, p9, p5);
    lemma_mentions_in(seq![], a9, p10, p5);
    lemma_mentions_in(seq![], a10, p11, p5);
    lemma_mentions_in(seq![], a11, "\n    }"@, p5);
    lemma_mentions_piece(a5, p6, seq![]);
    lemma_mentions_in(seq![], a6, p7, p6);
    lemma_mentions_in(seq![], a7, p8, p6);
    lemma_mentions_in(seq![], a8, p9, p6);
    lemma_mentions_in(seq![], a9, p10, p6);
    lemma_mentions_in(seq![], a10, p11, p6);
    lemma_mentions_in(seq![], a11, "\n    }"@, p6);
    lemma_mentions_piece(a6, p7, seq![]);
    lemma_mentions_in(seq![], a7, p8, p7);
    lemma_mentions_in(seq![], a8, p9, p7);
    lemma_mentions_in(seq![], a9, p10, p7);
    lemma_mentions_in(seq![], a10, p11, p7);
    lemma_mentions_in(seq![], a11, "\n    }"@, p7);
    lemma_mentions_piece(a8, p9, seq![]);
    lemma_mentions_in(seq![], a9, p10, p9);
    lemma_mentions_in(seq![], a10, p11, p9);
    lemma_mentions_in(seq![], a11, "\n    }"@, p9);
    lemma_mentions_piece(a10, p11, seq![]);
    lemma_mentions_in(seq![], a11, "\n    }"@, p11);
    let occupied = ",\n      \"destination_occupied\": "@ + optional_text(
        seen.report.existing_destination,
    );
    reveal_strlit("],\n      \"destination_occupied\": ");
    reveal_strlit(",\n      \"destination_occupied\": ");
    reveal_strlit("]");
    assert("],\n      \"destination_occupied\": "@ =~= "]"@
        + ",\n      \"destination_occupied\": "@);
    assert(p9 =~= "]"@ + occupied);
    lemma_mentions_piece("]"@, occupied, seq![]);
    lemma_mentions_through(library_json_text(seen), p9, occupied);
}

} // verus!
