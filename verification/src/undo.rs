//! Undoing a repair: the current data goes back to the game drive.
//!
//! What is copied back is the live data, never the old backup: saves made
//! since the repair are the ones that matter.

use vstd::prelude::*;

use crate::fix::{Copied, Escape};
use crate::fix_text::{escape_lines, escape_lines_of, lemma_ten_are_named};
use crate::library::{Library, Mount, Options, Report, Size, State};
use crate::protocol::{
    cannot_tell, cannot_tell_text, changes, mounted_read_only, mounted_read_only_text, or,
    preflight, reaches_library, still_running, still_running_text, tries, try_once, unready,
    wait_for, waits, Effect, Known, Next, Unready,
};
use crate::text::{
    cat5, decimal, decimal_of, each, first_ten, for_each, join_ten, joined, lemma_each_mentions,
    lemma_mentions_in, lemma_mentions_piece, lemma_mentions_self, lemma_mentions_through, mentions,
    views,
};

verus! {

/// What a walk of the live data found.
#[derive(Debug)]
pub struct Live {
    pub bytes: Size,
    pub escaping: Vec<Escape>,
}

#[derive(Debug, Clone, Copy, PartialEq, Eq, Structural)]
pub enum UndoStep {
    Lock,
    Inspect,
    Processes,
    LibraryMount,
    Inventory,
    ShowPlan,
    FreeSpace,
    Confirm,
    /// Copy from where the library's link leads to a new folder beside it.
    Copy,
    CheckCopy,
    CheckSource,
    OpenLibrary,
    RemoveLink,
    MoveBack,
    Sync,
}

#[derive(Debug, Clone, Copy, PartialEq, Eq, Structural)]
pub enum UndoRefusal {
    Unready(Unready),
    MidRepair,
    NothingToUndo,
    Escaping,
    NoRoom,
    CopyDiffers,
    SourceChanged,
}

#[derive(Debug, Clone, Copy, PartialEq, Eq, Structural)]
pub enum UndoEnding {
    DryRun,
    Cancelled,
    Undone,
    Refused(UndoRefusal),
}

pub type UndoNext = Next<UndoStep, UndoEnding>;

/// What is known of an undo so far.
#[derive(Debug)]
pub struct UndoFacts {
    pub lock: Known<()>,
    pub report: Known<Report>,
    pub running: Known<Vec<String>>,
    pub mount: Known<Option<Mount>>,
    pub live: Known<Live>,
    pub shown: Known<()>,
    /// What is free on the game drive, where that can be told.
    pub free: Known<Option<Size>>,
    pub confirmed: Known<bool>,
    pub copy: Known<Copied>,
    pub problems: Known<Vec<String>>,
    pub changed: Known<Vec<String>>,
    pub open_library: Known<()>,
    pub remove_link: Known<()>,
    pub move_back: Known<()>,
    pub sync: Known<()>,
}

pub open spec fn undo_refuse(r: UndoRefusal) -> Option<UndoNext> {
    Some(Next::Stop(UndoEnding::Refused(r)))
}

/// What the state of the library says by itself.
pub open spec fn undo_by_state(state: State) -> Option<UndoNext> {
    match state {
        State::Repaired { .. } => None,
        State::InterruptedAwaitingLink { .. } => undo_refuse(UndoRefusal::MidRepair),
        _ => undo_refuse(UndoRefusal::NothingToUndo),
    }
}

pub open spec fn undo_checks(o: Options, f: UndoFacts) -> Option<UndoNext> {
    or(
        if o.dry_run {
            None
        } else {
            waits(f.lock, UndoStep::Lock)
        },
        or(
            waits(f.report, UndoStep::Inspect),
            or(
                waits(f.running, UndoStep::Processes),
                or(
                    if f.running->Got_0@.len() > 0 {
                        undo_refuse(UndoRefusal::Unready(Unready::Running))
                    } else {
                        None
                    },
                    or(
                        waits(f.mount, UndoStep::LibraryMount),
                        or(
                            match unready(f.running->Got_0@, f.mount->Got_0) {
                                Some(u) => undo_refuse(UndoRefusal::Unready(u)),
                                None => None,
                            },
                            undo_by_state(f.report->Got_0.state),
                        ),
                    ),
                ),
            ),
        ),
    )
}

/// A relative link pointing out of the prefix means something different once
/// the prefix moves, whichever way it is moving. And there has to be room.
pub open spec fn undo_review(o: Options, f: UndoFacts) -> Option<UndoNext> {
    or(
        waits(f.live, UndoStep::Inventory),
        or(
            if f.live->Got_0.escaping@.len() > 0 {
                undo_refuse(UndoRefusal::Escaping)
            } else {
                None
            },
            or(
                waits(f.shown, UndoStep::ShowPlan),
                or(
                    waits(f.free, UndoStep::FreeSpace),
                    or(
                        match f.free->Got_0 {
                            Some(free) => if free.bytes < f.live->Got_0.bytes.bytes {
                                undo_refuse(UndoRefusal::NoRoom)
                            } else {
                                None
                            },
                            None => None,
                        },
                        if o.dry_run {
                            Some(Next::Stop(UndoEnding::DryRun))
                        } else if o.assume_yes {
                            None
                        } else {
                            or(
                                waits(f.confirmed, UndoStep::Confirm),
                                if f.confirmed->Got_0 {
                                    None
                                } else {
                                    Some(Next::Stop(UndoEnding::Cancelled))
                                },
                            )
                        },
                    ),
                ),
            ),
        ),
    )
}

/// If the live data changed while it was being copied, the copy is a mixture
/// and must not become the live data.
pub open spec fn undo_copying(f: UndoFacts) -> Option<UndoNext> {
    or(
        waits(f.copy, UndoStep::Copy),
        or(
            waits(f.problems, UndoStep::CheckCopy),
            or(
                if f.problems->Got_0@.len() > 0 {
                    undo_refuse(UndoRefusal::CopyDiffers)
                } else {
                    None
                },
                or(
                    waits(f.changed, UndoStep::CheckSource),
                    if f.changed->Got_0@.len() > 0 {
                        undo_refuse(UndoRefusal::SourceChanged)
                    } else {
                        None
                    },
                ),
            ),
        ),
    )
}

pub open spec fn undo_switch(f: UndoFacts) -> Option<UndoNext> {
    or(
        waits(f.open_library, UndoStep::OpenLibrary),
        or(
            waits(f.remove_link, UndoStep::RemoveLink),
            or(waits(f.move_back, UndoStep::MoveBack), tries(f.sync, UndoStep::Sync)),
        ),
    )
}

/// What comes next in undoing a repair.
pub open spec fn undo_next(o: Options, f: UndoFacts) -> UndoNext {
    match or(undo_checks(o, f), or(undo_review(o, f), or(undo_copying(f), undo_switch(f)))) {
        Some(n) => n,
        None => Next::Stop(UndoEnding::Undone),
    }
}

fn undo_state(state: &State) -> (n: Option<UndoNext>)
    ensures
        n == undo_by_state(*state),
{
    match state {
        State::Repaired { .. } => None,
        State::InterruptedAwaitingLink { .. } => Some(
            Next::Stop(UndoEnding::Refused(UndoRefusal::MidRepair)),
        ),
        _ => Some(Next::Stop(UndoEnding::Refused(UndoRefusal::NothingToUndo))),
    }
}

fn undo_checks_next(o: &Options, f: &UndoFacts) -> (n: Option<UndoNext>)
    ensures
        n == undo_checks(*o, *f),
{
    if !o.dry_run {
        let n = wait_for(&f.lock, UndoStep::Lock);
        if n.is_some() {
            return n;
        }
    }
    let report = match &f.report {
        Known::NotYet => return Some(Next::Take(UndoStep::Inspect)),
        Known::Failed => return Some(Next::Failed(UndoStep::Inspect)),
        Known::Got(x) => x,
    };
    let running = match &f.running {
        Known::NotYet => return Some(Next::Take(UndoStep::Processes)),
        Known::Failed => return Some(Next::Failed(UndoStep::Processes)),
        Known::Got(x) => x,
    };
    if running.len() > 0 {
        return Some(
            Next::Stop(UndoEnding::Refused(UndoRefusal::Unready(Unready::Running))),
        );
    }
    let mount = match &f.mount {
        Known::NotYet => return Some(Next::Take(UndoStep::LibraryMount)),
        Known::Failed => return Some(Next::Failed(UndoStep::LibraryMount)),
        Known::Got(x) => x,
    };
    match preflight(running, mount) {
        Some(u) => {
            return Some(Next::Stop(UndoEnding::Refused(UndoRefusal::Unready(u))));
        },
        None => {},
    }
    undo_state(&report.state)
}

fn undo_review_next(o: &Options, f: &UndoFacts) -> (n: Option<UndoNext>)
    ensures
        n == undo_review(*o, *f),
{
    let live = match &f.live {
        Known::NotYet => return Some(Next::Take(UndoStep::Inventory)),
        Known::Failed => return Some(Next::Failed(UndoStep::Inventory)),
        Known::Got(x) => x,
    };
    if live.escaping.len() > 0 {
        return Some(Next::Stop(UndoEnding::Refused(UndoRefusal::Escaping)));
    }
    let n = wait_for(&f.shown, UndoStep::ShowPlan);
    if n.is_some() {
        return n;
    }
    let free = match &f.free {
        Known::NotYet => return Some(Next::Take(UndoStep::FreeSpace)),
        Known::Failed => return Some(Next::Failed(UndoStep::FreeSpace)),
        Known::Got(x) => x,
    };
    match free {
        Some(free) => if free.bytes < live.bytes.bytes {
            return Some(Next::Stop(UndoEnding::Refused(UndoRefusal::NoRoom)));
        },
        None => {},
    }
    if o.dry_run {
        return Some(Next::Stop(UndoEnding::DryRun));
    }
    if o.assume_yes {
        return None;
    }
    match &f.confirmed {
        Known::NotYet => Some(Next::Take(UndoStep::Confirm)),
        Known::Failed => Some(Next::Failed(UndoStep::Confirm)),
        Known::Got(yes) => if *yes {
            None
        } else {
            Some(Next::Stop(UndoEnding::Cancelled))
        },
    }
}

fn undo_copying_next(f: &UndoFacts) -> (n: Option<UndoNext>)
    ensures
        n == undo_copying(*f),
{
    let n = wait_for(&f.copy, UndoStep::Copy);
    if n.is_some() {
        return n;
    }
    let problems = match &f.problems {
        Known::NotYet => return Some(Next::Take(UndoStep::CheckCopy)),
        Known::Failed => return Some(Next::Failed(UndoStep::CheckCopy)),
        Known::Got(x) => x,
    };
    if problems.len() > 0 {
        return Some(Next::Stop(UndoEnding::Refused(UndoRefusal::CopyDiffers)));
    }
    let changed = match &f.changed {
        Known::NotYet => return Some(Next::Take(UndoStep::CheckSource)),
        Known::Failed => return Some(Next::Failed(UndoStep::CheckSource)),
        Known::Got(x) => x,
    };
    if changed.len() > 0 {
        return Some(Next::Stop(UndoEnding::Refused(UndoRefusal::SourceChanged)));
    }
    None
}

/// Say what comes next in undoing a repair.
pub fn undo(o: &Options, f: &UndoFacts) -> (n: UndoNext)
    ensures
        n == undo_next(*o, *f),
{
    match undo_checks_next(o, f) {
        Some(n) => return n,
        None => {},
    }
    match undo_review_next(o, f) {
        Some(n) => return n,
        None => {},
    }
    match undo_copying_next(f) {
        Some(n) => return n,
        None => {},
    }
    match wait_for(&f.open_library, UndoStep::OpenLibrary) {
        Some(n) => return n,
        None => {},
    }
    match wait_for(&f.remove_link, UndoStep::RemoveLink) {
        Some(n) => return n,
        None => {},
    }
    match wait_for(&f.move_back, UndoStep::MoveBack) {
        Some(n) => return n,
        None => {},
    }
    match try_once(&f.sync, UndoStep::Sync) {
        Some(n) => n,
        None => Next::Stop(UndoEnding::Undone),
    }
}

// ------------------------------------------------- what holds of every run

/// What each step does to what is on disk. The copy goes to a new folder
/// beside the library, which nothing reads until it is moved into place.
pub open spec fn undo_effect(s: UndoStep) -> Effect {
    match s {
        UndoStep::Lock => Effect::Locks,
        UndoStep::Copy => Effect::Writes,
        UndoStep::RemoveLink => Effect::Unlinks,
        UndoStep::MoveBack => Effect::Renames,
        UndoStep::Sync => Effect::Flushes,
        _ => Effect::Reads,
    }
}

/// Whether a step has not been taken yet.
pub open spec fn undo_untaken(f: UndoFacts, s: UndoStep) -> bool {
    match s {
        UndoStep::Lock => f.lock is NotYet,
        UndoStep::Inspect => f.report is NotYet,
        UndoStep::Processes => f.running is NotYet,
        UndoStep::LibraryMount => f.mount is NotYet,
        UndoStep::Inventory => f.live is NotYet,
        UndoStep::ShowPlan => f.shown is NotYet,
        UndoStep::FreeSpace => f.free is NotYet,
        UndoStep::Confirm => f.confirmed is NotYet,
        UndoStep::Copy => f.copy is NotYet,
        UndoStep::CheckCopy => f.problems is NotYet,
        UndoStep::CheckSource => f.changed is NotYet,
        UndoStep::OpenLibrary => f.open_library is NotYet,
        UndoStep::RemoveLink => f.remove_link is NotYet,
        UndoStep::MoveBack => f.move_back is NotYet,
        UndoStep::Sync => f.sync is NotYet,
    }
}

/// A dry run takes no step that changes anything.
pub proof fn lemma_undo_dry_run_changes_nothing(o: Options, f: UndoFacts, s: UndoStep)
    requires
        o.dry_run,
        undo_next(o, f) == UndoNext::Take(s),
    ensures
        !changes(undo_effect(s)),
{
}

/// Undoing deletes no data: what is removed is a link.
pub proof fn lemma_undo_deletes_no_data(o: Options, f: UndoFacts, s: UndoStep)
    requires
        undo_next(o, f) == UndoNext::Take(s),
    ensures
        undo_effect(s) != Effect::Deletes,
        undo_effect(s) == Effect::Unlinks ==> f.report->Got_0.state is Repaired,
{
}

/// The repair is left in place until the copy back has been made, matches what
/// was copied, and the live data still does too.
pub proof fn lemma_undo_checks_before_the_library_changes(o: Options, f: UndoFacts, s: UndoStep)
    requires
        undo_next(o, f) == UndoNext::Take(s),
        reaches_library(undo_effect(s)),
    ensures
        f.report->Got_0.state is Repaired,
        f.copy is Got,
        f.problems is Got && f.problems->Got_0@.len() == 0,
        f.changed is Got && f.changed->Got_0@.len() == 0,
{
}

/// Nothing but the lock is written while Steam runs, without agreement, or
/// where the room is known not to be enough.
pub proof fn lemma_undo_is_agreed_to(o: Options, f: UndoFacts, s: UndoStep)
    requires
        undo_next(o, f) == UndoNext::Take(s),
        changes(undo_effect(s)),
        s != UndoStep::Lock,
    ensures
        f.running is Got && f.running->Got_0@.len() == 0,
        f.mount->Got_0 is Some ==> !f.mount->Got_0->Some_0.read_only,
        f.shown is Got,
        o.assume_yes || f.confirmed == Known::Got(true),
        f.free->Got_0 is Some ==> f.free->Got_0->Some_0.bytes >= f.live->Got_0.bytes.bytes,
{
}

/// A step is never asked for twice, so a run comes to an end.
pub proof fn lemma_undo_step_taken_once(o: Options, f: UndoFacts, s: UndoStep)
    requires
        undo_next(o, f) == UndoNext::Take(s),
    ensures
        undo_untaken(f, s),
{
}

// ------------------------------------------------------------ what is said

/// Where the link of a repaired library leads.
pub open spec fn live_target(report: Report) -> Seq<char> {
    match report.state {
        State::Repaired { target, .. } => target@,
        _ => seq![],
    }
}

/// Where the live data is.
pub fn live_path(report: &Report) -> (path: String)
    ensures
        path@ == live_target(*report),
{
    match &report.state {
        State::Repaired { target, .. } => target.clone(),
        _ => String::new(),
    }
}

/// Data is only copied back where the library is repaired, so where there is
/// live data to copy. It is only reported as done once the link is gone and
/// that copy is where Steam expects it.
pub proof fn lemma_undo_copies_a_repaired_library(o: Options, f: UndoFacts)
    ensures
        undo_next(o, f) == UndoNext::Take(UndoStep::Copy) ==> f.report->Got_0.state is Repaired,
        undo_next(o, f) == UndoNext::Stop(UndoEnding::Undone) ==> !o.dry_run && f.copy is Got
            && f.remove_link is Got && f.move_back is Got,
{
}

pub open spec fn undo_plan_text(l: Library, report: Report, live: Live) -> Seq<char> {
    "Library     "@ + l.path@ + "\nCurrent     "@ + live_target(report) + "\nGoing back  "@
        + l.compatdata@ + "\nTo copy     "@ + live.bytes.shown@ + "\n"@
        + each(views(report.backups@), "Old backup  "@, " (left alone)\n"@)
}

fn undo_plan(l: &Library, report: &Report, live: &Live) -> (out: String)
    ensures
        out@ == undo_plan_text(*l, *report, *live),
{
    let mut out = "Library     ".to_owned();
    out.append(l.path.as_str());
    out.append("\nCurrent     ");
    out.append(live_path(report).as_str());
    out.append("\nGoing back  ");
    out.append(l.compatdata.as_str());
    out.append("\nTo copy     ");
    out.append(live.bytes.shown.as_str());
    out.append("\n");
    out.append(for_each(&report.backups, "Old backup  ", " (left alone)\n").as_str());
    out
}

pub open spec fn undo_copied_text(c: Copied) -> Seq<char> {
    "  "@ + decimal_of(c.files as nat) + " files, "@ + c.bytes.shown@
        + "\nChecking every file...\n"@
}

fn undo_copied(c: &Copied) -> (out: String)
    ensures
        out@ == undo_copied_text(*c),
{
    let mut out = "  ".to_owned();
    out.append(decimal(c.files as u64).as_str());
    out.append(" files, ");
    out.append(c.bytes.shown.as_str());
    out.append("\nChecking every file...\n");
    out
}

/// What is said before a step is taken.
pub open spec fn undo_announcement(l: Library, f: UndoFacts, s: UndoStep) -> Seq<char> {
    match s {
        UndoStep::ShowPlan => undo_plan_text(l, f.report->Got_0, f.live->Got_0),
        UndoStep::Confirm => "\nContinue? [y/N] "@,
        UndoStep::Copy => "\nCopying the current data back...\n"@,
        UndoStep::CheckCopy => undo_copied_text(f.copy->Got_0),
        UndoStep::OpenLibrary => "  every file matches\n"@,
        _ => seq![],
    }
}

/// Say what there is to say before a step is taken.
pub fn undo_announce(o: &Options, l: &Library, f: &UndoFacts, s: UndoStep) -> (out: String)
    requires
        undo_next(*o, *f) == UndoNext::Take(s),
    ensures
        out@ == undo_announcement(*l, *f, s),
{
    match s {
        UndoStep::ShowPlan => match (&f.report, &f.live) {
            (Known::Got(report), Known::Got(live)) => undo_plan(l, report, live),
            _ => String::new(),
        },
        UndoStep::Confirm => "\nContinue? [y/N] ".to_owned(),
        UndoStep::Copy => "\nCopying the current data back...\n".to_owned(),
        UndoStep::CheckCopy => match &f.copy {
            Known::Got(c) => undo_copied(c),
            _ => String::new(),
        },
        UndoStep::OpenLibrary => "  every file matches\n".to_owned(),
        _ => String::new(),
    }
}

pub open spec fn mid_repair_text(l: Library, backup: Seq<char>) -> Seq<char> {
    "this library is mid-repair. Your original is at "@ + backup
        + ". Either run `librarybridge fix "@ + l.id@
        + "` to finish, or rename that directory back to compatdata by hand."@
}

fn mid_repair(l: &Library, backup: &str) -> (out: String)
    ensures
        out@ == mid_repair_text(*l, backup@),
{
    let mut out = "this library is mid-repair. Your original is at ".to_owned();
    out.append(backup);
    out.append(". Either run `librarybridge fix ");
    out.append(l.id.as_str());
    out.append("` to finish, or rename that directory back to compatdata by hand.");
    out
}

pub open spec fn nothing_to_undo_text(report: Report) -> Seq<char> {
    "nothing to undo: this library is '"@ + report.headline@ + "'."@
}

fn nothing_to_undo(report: &Report) -> (out: String)
    ensures
        out@ == nothing_to_undo_text(*report),
{
    let mut out = "nothing to undo: this library is '".to_owned();
    out.append(report.headline.as_str());
    out.append("'.");
    out
}

pub open spec fn undo_escapes_text(lines: Seq<Seq<char>>) -> Seq<char> {
    "this prefix contains relative links that point outside it, and moving the tree back would \
        change where they lead:\n"@
        + joined(first_ten(lines), "\n"@)
        + "\n\nNothing was changed. The repair is still in place and your data is still reachable \
            through it."@
}

fn undo_escapes(lines: &Vec<String>) -> (out: String)
    ensures
        out@ == undo_escapes_text(views(lines@)),
{
    let mut out = "this prefix contains relative links that point outside it, and moving the tree \
        back would change where they lead:\n".to_owned();
    out.append(join_ten(lines, "\n").as_str());
    out.append("\n\nNothing was changed. The repair is still in place and your data is still \
        reachable through it.");
    out
}

pub open spec fn undo_no_room_text(live: Live, free: Size) -> Seq<char> {
    "not enough room on the game drive: "@ + live.bytes.shown@ + " needed, "@ + free.shown@
        + " free."@
}

fn undo_no_room(live: &Live, free: &Size) -> (out: String)
    ensures
        out@ == undo_no_room_text(*live, *free),
{
    let mut out = "not enough room on the game drive: ".to_owned();
    out.append(live.bytes.shown.as_str());
    out.append(" needed, ");
    out.append(free.shown.as_str());
    out.append(" free.");
    out
}

pub open spec fn undo_differs_text(problems: Seq<Seq<char>>) -> Seq<char> {
    "the copy back does not match, so the repair was left in place.\n  "@
        + joined(first_ten(problems), "\n  "@)
}

fn undo_differs(problems: &Vec<String>) -> (out: String)
    ensures
        out@ == undo_differs_text(views(problems@)),
{
    let mut out = "the copy back does not match, so the repair was left in place.\n  ".to_owned();
    out.append(join_ten(problems, "\n  ").as_str());
    out
}

pub open spec fn undo_source_changed_text(changed: Seq<Seq<char>>) -> Seq<char> {
    "the data changed while it was being copied back, so the repair was left in place. Make sure \
        Steam is closed and try again.\n  "@
        + joined(first_ten(changed), "\n  "@)
}

fn undo_source_changed(changed: &Vec<String>) -> (out: String)
    ensures
        out@ == undo_source_changed_text(views(changed@)),
{
    let mut out = "the data changed while it was being copied back, so the repair was left in \
        place. Make sure Steam is closed and try again.\n  ".to_owned();
    out.append(join_ten(changed, "\n  ").as_str());
    out
}

/// How an original is removed. The command asks for a repaired library, so
/// that comes first.
pub open spec fn originals_note_text(l: Library, originals: nat) -> Seq<char> {
    if originals > 0 {
        "  Do not delete an original by hand. Once the library is repaired again and a\n  game has \
            launched and loaded a save, `librarybridge backup "@
            + l.id@ + "` can remove it.\n"@
    } else {
        seq![]
    }
}

fn originals_note(l: &Library, originals: usize) -> (out: String)
    ensures
        out@ == originals_note_text(*l, originals as nat),
{
    if originals > 0 {
        let mut out = "  Do not delete an original by hand. Once the library is repaired again and \
            a\n  game has launched and loaded a save, `librarybridge backup ".to_owned();
        out.append(l.id.as_str());
        out.append("` can remove it.\n");
        out
    } else {
        String::new()
    }
}

pub open spec fn undone_text(l: Library, report: Report) -> Seq<char> {
    "\nDone. Steam is using the game drive again.\n  Still on disk:\n    "@ + live_target(report)
        + "\n"@ + each(views(report.backups@), "    "@, "\n"@) + originals_note_text(
        l,
        report.backups@.len(),
    )
}

fn undone(l: &Library, report: &Report) -> (out: String)
    ensures
        out@ == undone_text(*l, *report),
{
    let mut out = "\nDone. Steam is using the game drive again.\n  Still on disk:\n    ".to_owned();
    out.append(live_path(report).as_str());
    out.append("\n");
    out.append(for_each(&report.backups, "    ", "\n").as_str());
    out.append(originals_note(l, report.backups.len()).as_str());
    out
}

/// The original that an interrupted repair set aside.
pub open spec fn interrupted_backup(report: Report) -> Seq<char> {
    match report.state {
        State::InterruptedAwaitingLink { backup } => backup@,
        _ => seq![],
    }
}

fn backup_of(report: &Report) -> (path: String)
    ensures
        path@ == interrupted_backup(*report),
{
    match &report.state {
        State::InterruptedAwaitingLink { backup } => backup.clone(),
        _ => String::new(),
    }
}

/// What is said where the run ends.
pub open spec fn undo_closing_text(l: Library, f: UndoFacts, e: UndoEnding) -> Seq<char> {
    match e {
        UndoEnding::DryRun => "\nDry run. Nothing was changed.\n"@,
        UndoEnding::Cancelled => "Cancelled. Nothing was changed.\n"@,
        UndoEnding::Undone => undone_text(l, f.report->Got_0),
        UndoEnding::Refused(r) => match r {
            UndoRefusal::Unready(Unready::Running) => still_running_text(f.running->Got_0),
            UndoRefusal::Unready(Unready::ReadOnly) => mounted_read_only_text(
                f.mount->Got_0->Some_0,
            ),
            UndoRefusal::MidRepair => mid_repair_text(l, interrupted_backup(f.report->Got_0)),
            UndoRefusal::NothingToUndo => nothing_to_undo_text(f.report->Got_0),
            UndoRefusal::Escaping => undo_escapes_text(escape_lines_of(f.live->Got_0.escaping@)),
            UndoRefusal::NoRoom => undo_no_room_text(f.live->Got_0, f.free->Got_0->Some_0),
            UndoRefusal::CopyDiffers => undo_differs_text(views(f.problems->Got_0@)),
            UndoRefusal::SourceChanged => undo_source_changed_text(views(f.changed->Got_0@)),
        },
    }
}

/// Say what there is to say where the run ends.
pub fn undo_closing(o: &Options, l: &Library, f: &UndoFacts, e: UndoEnding) -> (out: String)
    requires
        undo_next(*o, *f) == UndoNext::Stop(e),
    ensures
        out@ == undo_closing_text(*l, *f, e),
{
    match e {
        UndoEnding::DryRun => "\nDry run. Nothing was changed.\n".to_owned(),
        UndoEnding::Cancelled => "Cancelled. Nothing was changed.\n".to_owned(),
        UndoEnding::Undone => match &f.report {
            Known::Got(report) => undone(l, report),
            _ => String::new(),
        },
        UndoEnding::Refused(r) => match r {
            UndoRefusal::Unready(Unready::Running) => match &f.running {
                Known::Got(running) => still_running(running),
                _ => String::new(),
            },
            UndoRefusal::Unready(Unready::ReadOnly) => match &f.mount {
                Known::Got(Some(mount)) => mounted_read_only(mount),
                _ => String::new(),
            },
            UndoRefusal::MidRepair => match &f.report {
                Known::Got(report) => mid_repair(l, backup_of(report).as_str()),
                _ => String::new(),
            },
            UndoRefusal::NothingToUndo => match &f.report {
                Known::Got(report) => nothing_to_undo(report),
                _ => String::new(),
            },
            UndoRefusal::Escaping => match &f.live {
                Known::Got(live) => undo_escapes(&escape_lines(&live.escaping)),
                _ => String::new(),
            },
            UndoRefusal::NoRoom => match (&f.live, &f.free) {
                (Known::Got(live), Known::Got(Some(free))) => undo_no_room(live, free),
                _ => String::new(),
            },
            UndoRefusal::CopyDiffers => match &f.problems {
                Known::Got(problems) => undo_differs(problems),
                _ => String::new(),
            },
            UndoRefusal::SourceChanged => match &f.changed {
                Known::Got(changed) => undo_source_changed(changed),
                _ => String::new(),
            },
        },
    }
}

/// What is said where a step fails, given the reason it gave.
pub open spec fn undo_failure_text(
    report: Report,
    staging: Seq<char>,
    s: UndoStep,
    reason: Seq<char>,
) -> Seq<char> {
    match s {
        UndoStep::Processes => cannot_tell_text(reason),
        UndoStep::MoveBack => reason + ". The data is safe at "@ + staging + " and at "@
            + live_target(report) + "."@,
        _ => reason,
    }
}

pub fn undo_failure(report: &Report, staging: &str, s: UndoStep, reason: &str) -> (out: String)
    ensures
        out@ == undo_failure_text(*report, staging@, s, reason@),
{
    match s {
        UndoStep::Processes => cannot_tell(reason),
        UndoStep::MoveBack => {
            let mut out = cat5(
                reason,
                ". The data is safe at ",
                staging,
                " and at ",
                live_path(report).as_str(),
            );
            out.append(".");
            out
        },
        _ => reason.to_owned(),
    }
}

// --------------------------------------------- when an undo is refused, or not

/// An undo is only refused for a reason that is there.
pub proof fn lemma_undo_refusals_have_a_reason(o: Options, f: UndoFacts, r: UndoRefusal)
    requires
        undo_next(o, f) == UndoNext::Stop(UndoEnding::Refused(r)),
    ensures
        match r {
            UndoRefusal::Unready(Unready::Running) => f.running->Got_0@.len() > 0,
            UndoRefusal::Unready(Unready::ReadOnly) => f.mount->Got_0 is Some
                && f.mount->Got_0->Some_0.read_only,
            UndoRefusal::MidRepair => f.report->Got_0.state is InterruptedAwaitingLink,
            UndoRefusal::NothingToUndo => !(f.report->Got_0.state is Repaired) && !(
            f.report->Got_0.state is InterruptedAwaitingLink),
            UndoRefusal::Escaping => f.live->Got_0.escaping@.len() > 0,
            UndoRefusal::NoRoom => f.free->Got_0 is Some && f.free->Got_0->Some_0.bytes
                < f.live->Got_0.bytes.bytes,
            UndoRefusal::CopyDiffers => f.problems->Got_0@.len() > 0,
            UndoRefusal::SourceChanged => f.changed->Got_0@.len() > 0,
        },
{
}

/// Nothing but the lock is written by an undo unless the library is repaired and
/// writable, Steam is closed, no link leads out of the data, the plan was shown,
/// and there is known to be no less room than the live data takes.
pub proof fn lemma_undo_is_in_order(o: Options, f: UndoFacts, s: UndoStep)
    requires
        undo_next(o, f) == UndoNext::Take(s),
        s is Copy || s is CheckCopy || s is CheckSource || s is OpenLibrary || s is RemoveLink
            || s is MoveBack || s is Sync,
    ensures
        !o.dry_run && f.lock is Got,
        f.report->Got_0.state is Repaired,
        f.running is Got && f.running->Got_0@.len() == 0,
        f.mount->Got_0 matches Some(m) ==> !m.read_only,
        f.live is Got && f.live->Got_0.escaping@.len() == 0,
        f.shown is Got,
        f.free->Got_0 matches Some(free) ==> free.bytes >= f.live->Got_0.bytes.bytes,
        o.assume_yes || f.confirmed == Known::Got(true),
        s is RemoveLink || s is MoveBack || s is Sync ==> f.copy is Got && f.problems is Got
            && f.problems->Got_0@.len() == 0 && f.changed is Got && f.changed->Got_0@.len() == 0,
        s is MoveBack ==> f.remove_link is Got,
        s is Sync ==> f.move_back is Got,
{
}

/// Where everything is in order and agreed to, nothing keeps an undo from going
/// through.
pub proof fn lemma_undo_goes_through(o: Options, f: UndoFacts)
    requires
        o.dry_run || f.lock is Got,
        f.report is Got && f.report->Got_0.state is Repaired,
        f.running is Got && f.running->Got_0@.len() == 0,
        f.mount is Got && (f.mount->Got_0 matches Some(m) ==> !m.read_only),
        f.live is Got && f.live->Got_0.escaping@.len() == 0,
        f.free is Got && (f.free->Got_0 matches Some(free) ==> free.bytes
            >= f.live->Got_0.bytes.bytes),
    ensures
        f.shown is NotYet ==> undo_next(o, f) == UndoNext::Take(UndoStep::ShowPlan),
        o.dry_run && f.shown is Got ==> undo_next(o, f) == UndoNext::Stop(UndoEnding::DryRun),
        !o.dry_run && !o.assume_yes && f.shown is Got && f.confirmed == Known::Got(false)
            ==> undo_next(o, f) == UndoNext::Stop(UndoEnding::Cancelled),
        !o.dry_run && f.shown is Got && (o.assume_yes || f.confirmed == Known::Got(true)) ==> {
            &&& f.copy is NotYet ==> undo_next(o, f) == UndoNext::Take(UndoStep::Copy)
            &&& f.copy is Got && f.problems is Got && f.problems->Got_0@.len() == 0
                && f.changed is Got && f.changed->Got_0@.len() == 0 && f.open_library is Got
                && f.remove_link is Got && f.move_back is Got && !(f.sync is NotYet) ==> undo_next(
                o,
                f,
            ) == UndoNext::Stop(UndoEnding::Undone)
        },
{
}

/// What is undone, copied back and named is where the link of the library
/// leads.
pub proof fn lemma_live_target(report: Report)
    ensures
        report.state matches State::Repaired { target, .. } ==> live_target(report) == target@,
        report.state matches State::InterruptedAwaitingLink { backup } ==> interrupted_backup(report)
            == backup@,
{
}

// ------------------------------------------------ what holds of what is said

proof fn lemma_undo_plan_has_paths(l: Library, report: Report, live: Live)
    ensures
        mentions(undo_plan_text(l, report, live), "\nCurrent     "@ + live_target(report)
            + "\nGoing back  "@ + l.compatdata@ + "\nTo copy     "@ + live.bytes.shown@),
{
    let head = "Library     "@ + l.path@;
    let part = "\nCurrent     "@ + live_target(report) + "\nGoing back  "@ + l.compatdata@
        + "\nTo copy     "@ + live.bytes.shown@;
    let t7 = head + "\nCurrent     "@ + live_target(report) + "\nGoing back  "@ + l.compatdata@
        + "\nTo copy     "@ + live.bytes.shown@;
    assert(t7 =~= head + part);
    lemma_mentions_piece(head, part, seq![]);
    lemma_mentions_in(seq![], t7, "\n"@, part);
    let t8 = t7 + "\n"@;
    lemma_mentions_in(seq![], t8, each(views(report.backups@), "Old backup  "@,
        " (left alone)\n"@), part);
}

proof fn lemma_undo_plan_has_backups(l: Library, report: Report, live: Live)
    ensures
        mentions(undo_plan_text(l, report, live), each(views(report.backups@), "Old backup  "@,
            " (left alone)\n"@)),
{
    let head = "Library     "@ + l.path@ + "\nCurrent     "@ + live_target(report)
        + "\nGoing back  "@ + l.compatdata@ + "\nTo copy     "@ + live.bytes.shown@ + "\n"@;
    let part = each(views(report.backups@), "Old backup  "@, " (left alone)\n"@);
    lemma_mentions_piece(head, part, seq![]);
    let t9 = head + part;
}

proof fn lemma_mid_repair_has_backup(l: Library, backup: Seq<char>)
    ensures
        mentions(mid_repair_text(l, backup), backup),
{
    let head = "this library is mid-repair. Your original is at "@;
    let part = backup;
    lemma_mentions_piece(head, part, seq![]);
    let t1 = head + part;
    lemma_mentions_in(seq![], t1, ". Either run `librarybridge fix "@, part);
    let t2 = t1 + ". Either run `librarybridge fix "@;
    lemma_mentions_in(seq![], t2, l.id@, part);
    let t3 = t2 + l.id@;
    lemma_mentions_in(seq![], t3,
        "` to finish, or rename that directory back to compatdata by hand."@, part);
}

proof fn lemma_mid_repair_has_id(l: Library, backup: Seq<char>)
    ensures
        mentions(mid_repair_text(l, backup), l.id@),
{
    let head = "this library is mid-repair. Your original is at "@ + backup
        + ". Either run `librarybridge fix "@;
    let part = l.id@;
    lemma_mentions_piece(head, part, seq![]);
    let t3 = head + part;
    lemma_mentions_in(seq![], t3,
        "` to finish, or rename that directory back to compatdata by hand."@, part);
}

proof fn lemma_undone_has_target(l: Library, report: Report)
    ensures
        mentions(undone_text(l, report), live_target(report)),
{
    let head = "\nDone. Steam is using the game drive again.\n  Still on disk:\n    "@;
    let part = live_target(report);
    lemma_mentions_piece(head, part, seq![]);
    let t1 = head + part;
    lemma_mentions_in(seq![], t1, "\n"@, part);
    let t2 = t1 + "\n"@;
    lemma_mentions_in(seq![], t2, each(views(report.backups@), "    "@, "\n"@), part);
    let t3 = t2 + each(views(report.backups@), "    "@, "\n"@);
    lemma_mentions_in(seq![], t3, originals_note_text(l, report.backups@.len()), part);
}

proof fn lemma_undone_has_backups(l: Library, report: Report)
    ensures
        mentions(undone_text(l, report), each(views(report.backups@), "    "@, "\n"@)),
{
    let head = "\nDone. Steam is using the game drive again.\n  Still on disk:\n    "@
        + live_target(report) + "\n"@;
    let part = each(views(report.backups@), "    "@, "\n"@);
    lemma_mentions_piece(head, part, seq![]);
    let t3 = head + part;
    lemma_mentions_in(seq![], t3, originals_note_text(l, report.backups@.len()), part);
}

proof fn lemma_move_back_has_reason(report: Report, staging: Seq<char>, reason: Seq<char>)
    ensures
        mentions(undo_failure_text(report, staging, UndoStep::MoveBack, reason), reason),
{
    let part = reason;
    lemma_mentions_self(part);
    let t0 = part;
    lemma_mentions_in(seq![], t0, ". The data is safe at "@, part);
    let t1 = t0 + ". The data is safe at "@;
    lemma_mentions_in(seq![], t1, staging, part);
    let t2 = t1 + staging;
    lemma_mentions_in(seq![], t2, " and at "@, part);
    let t3 = t2 + " and at "@;
    lemma_mentions_in(seq![], t3, live_target(report), part);
    let t4 = t3 + live_target(report);
    lemma_mentions_in(seq![], t4, "."@, part);
}

proof fn lemma_move_back_has_places(report: Report, staging: Seq<char>, reason: Seq<char>)
    ensures
        mentions(undo_failure_text(report, staging, UndoStep::MoveBack, reason), staging
            + " and at "@ + live_target(report)),
{
    let head = reason + ". The data is safe at "@;
    let part = staging + " and at "@ + live_target(report);
    let t4 = head + staging + " and at "@ + live_target(report);
    assert(t4 =~= head + part);
    lemma_mentions_piece(head, part, seq![]);
    lemma_mentions_in(seq![], t4, "."@, part);
}

/// The plan of an undo names where the data is and where it goes back to, how
/// much it is, and every original that is left alone.
pub proof fn lemma_undo_plan_says_what_will_happen(l: Library, report: Report, live: Live, i: int)
    ensures
        report.state matches State::Repaired { target, .. } ==> mentions(
            undo_plan_text(l, report, live),
            "\nCurrent     "@ + target@ + "\nGoing back  "@ + l.compatdata@ + "\nTo copy     "@
                + live.bytes.shown@,
        ),
        0 <= i < report.backups@.len() ==> mentions(
            undo_plan_text(l, report, live),
            "Old backup  "@ + report.backups@[i]@ + " (left alone)\n"@,
        ),
{
    lemma_undo_plan_has_paths(l, report, live);
    if 0 <= i < report.backups@.len() {
        let all = views(report.backups@);
        assert(all[i] == report.backups@[i]@);
        lemma_undo_plan_has_backups(l, report, live);
        lemma_each_mentions(all, "Old backup  "@, " (left alone)\n"@, i);
        lemma_mentions_through(
            undo_plan_text(l, report, live),
            each(all, "Old backup  "@, " (left alone)\n"@),
            "Old backup  "@ + all[i] + " (left alone)\n"@,
        );
    }
}

/// An undo that was made names everything that is still on disk: the copy that
/// was in use and every original.
pub proof fn lemma_undone_names_what_is_left(l: Library, report: Report, i: int)
    ensures
        report.state matches State::Repaired { target, .. } ==> mentions(
            undone_text(l, report),
            target@,
        ),
        0 <= i < report.backups@.len() ==> mentions(
            undone_text(l, report),
            "    "@ + report.backups@[i]@ + "\n"@,
        ),
        originals_note_text(l, 0).len() == 0,
{
    lemma_undone_has_target(l, report);
    if 0 <= i < report.backups@.len() {
        let all = views(report.backups@);
        assert(all[i] == report.backups@[i]@);
        lemma_undone_has_backups(l, report);
        lemma_each_mentions(all, "    "@, "\n"@, i);
        lemma_mentions_through(
            undone_text(l, report),
            each(all, "    "@, "\n"@),
            "    "@ + all[i] + "\n"@,
        );
    }
}

/// A refusal names what it is about.
pub proof fn lemma_undo_refusal_says_why(l: Library, f: UndoFacts, r: UndoRefusal, i: int)
    ensures
        ({
            let said = undo_closing_text(l, f, UndoEnding::Refused(r));
            &&& r is MidRepair ==> (f.report->Got_0.state matches State::InterruptedAwaitingLink {
                backup,
            } ==> mentions(said, backup@)) && mentions(said, l.id@)
            &&& r is NothingToUndo ==> mentions(said, f.report->Got_0.headline@)
            &&& r is NoRoom ==> mentions(
                said,
                f.live->Got_0.bytes.shown@ + " needed, "@ + f.free->Got_0->Some_0.shown@
                    + " free."@,
            )
            &&& r is CopyDiffers && 0 <= i < 10 && i < f.problems->Got_0@.len() ==> mentions(
                said,
                f.problems->Got_0@[i]@,
            )
            &&& r is SourceChanged && 0 <= i < 10 && i < f.changed->Got_0@.len() ==> mentions(
                said,
                f.changed->Got_0@[i]@,
            )
            &&& r is Escaping && 0 <= i < 10 && i < f.live->Got_0.escaping@.len() ==> mentions(
                said,
                f.live->Got_0.escaping@[i].from@ + " -> "@ + f.live->Got_0.escaping@[i].to@,
            )
        }),
{
    match r {
        UndoRefusal::MidRepair => {
            lemma_mid_repair_has_backup(l, interrupted_backup(f.report->Got_0));
            lemma_mid_repair_has_id(l, interrupted_backup(f.report->Got_0));
        },
        UndoRefusal::NothingToUndo => {
            lemma_mentions_piece(
                "nothing to undo: this library is '"@,
                f.report->Got_0.headline@,
                "'."@,
            );
        },
        UndoRefusal::NoRoom => {
            let a = f.live->Got_0.bytes.shown@;
            let b = f.free->Got_0->Some_0.shown@;
            let part = a + " needed, "@ + b + " free."@;
            let head = "not enough room on the game drive: "@;
            assert(undo_no_room_text(f.live->Got_0, f.free->Got_0->Some_0) =~= head + part);
            lemma_mentions_piece(head, part, seq![]);
        },
        UndoRefusal::CopyDiffers => {
            let all = views(f.problems->Got_0@);
            if 0 <= i < 10 && i < all.len() {
                assert(all[i] == f.problems->Got_0@[i]@);
                lemma_ten_are_named(
                    "the copy back does not match, so the repair was left in place.\n  "@,
                    all,
                    "\n  "@,
                    seq![],
                    i,
                );
            }
        },
        UndoRefusal::SourceChanged => {
            let all = views(f.changed->Got_0@);
            if 0 <= i < 10 && i < all.len() {
                assert(all[i] == f.changed->Got_0@[i]@);
                lemma_ten_are_named(
                    "the data changed while it was being copied back, so the repair was left in \
                        place. Make sure Steam is closed and try again.\n  "@,
                    all,
                    "\n  "@,
                    seq![],
                    i,
                );
            }
        },
        UndoRefusal::Escaping => {
            let all = f.live->Got_0.escaping@;
            if 0 <= i < 10 && i < all.len() {
                let lines = escape_lines_of(all);
                let part = all[i].from@ + " -> "@ + all[i].to@;
                assert(lines[i] =~= "  "@ + part);
                lemma_mentions_piece("  "@, part, seq![]);
                lemma_ten_are_named(
                    "this prefix contains relative links that point outside it, and moving the tree \
                        back would change where they lead:\n"@,
                    lines,
                    "\n"@,
                    "\n\nNothing was changed. The repair is still in place and your data is still \
                        reachable through it."@,
                    i,
                );
                lemma_mentions_through(undo_escapes_text(lines), lines[i], part);
            }
        },
        _ => {},
    }
}

/// A failure says why. Where only the last move failed it says where the data
/// is, in both places.
pub proof fn lemma_undo_failure_says_why(
    report: Report,
    staging: Seq<char>,
    s: UndoStep,
    reason: Seq<char>,
)
    ensures
        mentions(undo_failure_text(report, staging, s, reason), reason),
        s is MoveBack ==> mentions(
            undo_failure_text(report, staging, s, reason),
            staging + " and at "@ + live_target(report),
        ),
        !(s is MoveBack) && !(s is Processes) ==> undo_failure_text(report, staging, s, reason)
            == reason,
{
    lemma_mentions_self(reason);
    lemma_mentions_piece(
        seq![],
        reason,
        ". LibraryBridge will not change a library while it cannot tell whether Steam is running, \
            because writes made during the move would be lost."@,
    );
    lemma_move_back_has_reason(report, staging, reason);
    lemma_move_back_has_places(report, staging, reason);
}


/// An undo asks before it starts and tells what it copied before it checks it.
pub proof fn lemma_undo_tells_what_it_copied(l: Library, f: UndoFacts)
    ensures
        undo_announcement(l, f, UndoStep::Confirm) == "\nContinue? [y/N] "@,
        mentions(
            undo_announcement(l, f, UndoStep::CheckCopy),
            decimal_of(f.copy->Got_0.files as nat) + " files, "@ + f.copy->Got_0.bytes.shown@,
        ),
        undo_announcement(l, f, UndoStep::Copy).len() > 0,
        undo_announcement(l, f, UndoStep::OpenLibrary) == "  every file matches\n"@,
{
    let c = f.copy->Got_0;
    let amounts = decimal_of(c.files as nat) + " files, "@ + c.bytes.shown@;
    assert(undo_copied_text(c) =~= "  "@ + amounts + "\nChecking every file...\n"@);
    lemma_mentions_piece("  "@, amounts, "\nChecking every file...\n"@);
    reveal_strlit("\nCopying the current data back...\n");
}


/// Steps are taken in turn, and an undo is not called done before the last of
/// them. That the drive could not be flushed does not stop it.
pub proof fn lemma_undo_steps_are_taken_in_turn(o: Options, f: UndoFacts, s: UndoStep)
    ensures
        undo_next(o, f) == UndoNext::Take(s) ==> match s {
            UndoStep::Lock => !o.dry_run,
            UndoStep::Inspect => o.dry_run || f.lock is Got,
            UndoStep::Processes => f.report is Got,
            UndoStep::LibraryMount => f.running is Got && f.running->Got_0@.len() == 0,
            UndoStep::Inventory => f.mount is Got && f.report->Got_0.state is Repaired,
            UndoStep::ShowPlan => f.live is Got && f.live->Got_0.escaping@.len() == 0,
            UndoStep::FreeSpace => f.shown is Got,
            UndoStep::Confirm => f.free is Got && !o.dry_run && !o.assume_yes,
            UndoStep::Copy => f.free is Got,
            UndoStep::CheckCopy => f.copy is Got,
            UndoStep::CheckSource => f.problems is Got && f.problems->Got_0@.len() == 0,
            UndoStep::OpenLibrary => f.changed is Got && f.changed->Got_0@.len() == 0,
            UndoStep::RemoveLink => f.open_library is Got,
            UndoStep::MoveBack => f.remove_link is Got,
            UndoStep::Sync => f.move_back is Got,
        },
        undo_next(o, f) == UndoNext::Stop(UndoEnding::Undone) ==> f.remove_link is Got
            && f.move_back is Got && !(f.sync is NotYet) && f.changed is Got && !o.dry_run,
        undo_next(o, f) != UndoNext::Failed(UndoStep::Sync),
{
}


/// How an undo that did not go through says so.
pub proof fn lemma_undo_endings_are_told(l: Library, f: UndoFacts)
    ensures
        undo_closing_text(l, f, UndoEnding::DryRun) == "\nDry run. Nothing was changed.\n"@,
        undo_closing_text(l, f, UndoEnding::Cancelled) == "Cancelled. Nothing was changed.\n"@,
        undo_closing_text(l, f, UndoEnding::Undone) == undone_text(l, f.report->Got_0),
{
}

} // verus!
