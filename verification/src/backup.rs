//! Removing the original that a completed repair kept beside the library.
//!
//! The only thing that is ever deleted, and it is gated hard because it is the
//! one branch that gives back the space a repair consumed: the library must be
//! repaired, a person must have recorded that a game launched and loaded a
//! save, and the moved copy must still carry the original it will leave
//! behind. The last check is one-way. Playing writes new files into the moved
//! copy, so the copy may be newer than the original, and the original may not
//! be newer than the copy.

use vstd::prelude::*;

use crate::library::{Library, Options, Report, Size, State};
use crate::protocol::{changes, or, tries, try_once, wait_for, waits, Effect, Known, Next};
use crate::text::{
    decimal, decimal_of, join, joined, lemma_joined_mentions, lemma_mentions_in,
    lemma_mentions_piece, lemma_mentions_through, mentions, views,
};
use crate::undo::{live_path, live_target};

verus! {

/// What a person has recorded about the game.
#[derive(Debug, Clone, Copy, PartialEq, Eq, Structural)]
pub struct Tried {
    pub launched: bool,
    pub saved: bool,
}

#[derive(Debug, Clone, Copy, PartialEq, Eq, Structural)]
pub enum BackupStep {
    Lock,
    Inspect,
    LoadEvidence,
    Measure,
    /// Look for what the original holds that the moved copy does not.
    Carry,
    Delete,
    ClearRecord,
}

#[derive(Debug, Clone, Copy, PartialEq, Eq, Structural)]
pub enum BackupRefusal {
    NotRepaired,
    Untried,
    /// The moved copy has not been shown to carry the original.
    NotCarried,
}

#[derive(Debug, Clone, Copy, PartialEq, Eq, Structural)]
pub enum BackupEnding {
    NoneKept,
    DryRun,
    Deleted,
    Refused(BackupRefusal),
}

pub type BackupNext = Next<BackupStep, BackupEnding>;

/// What is known of a removal so far.
#[derive(Debug)]
pub struct BackupFacts {
    pub lock: Known<()>,
    pub report: Known<Report>,
    pub tried: Known<Tried>,
    /// How large the original is.
    pub size: Known<Size>,
    /// What the original holds that the moved copy is missing or holds an
    /// older version of.
    pub lacking: Known<Vec<String>>,
    pub delete: Known<()>,
    pub clear_record: Known<()>,
}

pub open spec fn backup_refuse(r: BackupRefusal) -> Option<BackupNext> {
    Some(Next::Stop(BackupEnding::Refused(r)))
}

/// Everything that could leave a person with no copy.
pub open spec fn backup_gate(o: Options, f: BackupFacts) -> Option<BackupNext> {
    or(
        if o.dry_run {
            None
        } else {
            waits(f.lock, BackupStep::Lock)
        },
        or(
            waits(f.report, BackupStep::Inspect),
            or(
                if f.report->Got_0.state is Repaired {
                    None
                } else {
                    backup_refuse(BackupRefusal::NotRepaired)
                },
                or(
                    if f.report->Got_0.backups@.len() == 0 {
                        Some(Next::Stop(BackupEnding::NoneKept))
                    } else {
                        None
                    },
                    or(
                        waits(f.tried, BackupStep::LoadEvidence),
                        or(
                            if f.tried->Got_0.launched && f.tried->Got_0.saved {
                                None
                            } else {
                                backup_refuse(BackupRefusal::Untried)
                            },
                            or(waits(f.size, BackupStep::Measure), carried(f)),
                        ),
                    ),
                ),
            ),
        ),
    )
}

/// Where several originals were found, none can be tied to the moved copy, so
/// there is nothing to check it against.
pub open spec fn carried(f: BackupFacts) -> Option<BackupNext> {
    if f.report->Got_0.backups@.len() != 1 {
        backup_refuse(BackupRefusal::NotCarried)
    } else {
        or(
            waits(f.lacking, BackupStep::Carry),
            if f.lacking->Got_0@.len() > 0 {
                backup_refuse(BackupRefusal::NotCarried)
            } else {
                None
            },
        )
    }
}

/// What comes next in removing an original.
pub open spec fn backup_next(o: Options, f: BackupFacts) -> BackupNext {
    let done = or(
        waits(f.delete, BackupStep::Delete),
        tries(f.clear_record, BackupStep::ClearRecord),
    );
    match or(
        backup_gate(o, f),
        if o.dry_run {
            Some(Next::Stop(BackupEnding::DryRun))
        } else {
            done
        },
    ) {
        Some(n) => n,
        None => Next::Stop(BackupEnding::Deleted),
    }
}

fn carried_next(f: &BackupFacts, report: &Report) -> (n: Option<BackupNext>)
    requires
        f.report == Known::Got(*report),
    ensures
        n == carried(*f),
{
    if report.backups.len() != 1 {
        return Some(Next::Stop(BackupEnding::Refused(BackupRefusal::NotCarried)));
    }
    match &f.lacking {
        Known::NotYet => Some(Next::Take(BackupStep::Carry)),
        Known::Failed => Some(Next::Failed(BackupStep::Carry)),
        Known::Got(lacking) => if lacking.len() > 0 {
            Some(Next::Stop(BackupEnding::Refused(BackupRefusal::NotCarried)))
        } else {
            None
        },
    }
}

fn backup_gate_next(o: &Options, f: &BackupFacts) -> (n: Option<BackupNext>)
    ensures
        n == backup_gate(*o, *f),
{
    if !o.dry_run {
        let n = wait_for(&f.lock, BackupStep::Lock);
        if n.is_some() {
            return n;
        }
    }
    let report = match &f.report {
        Known::NotYet => return Some(Next::Take(BackupStep::Inspect)),
        Known::Failed => return Some(Next::Failed(BackupStep::Inspect)),
        Known::Got(x) => x,
    };
    if !matches!(report.state, State::Repaired { .. }) {
        return Some(Next::Stop(BackupEnding::Refused(BackupRefusal::NotRepaired)));
    }
    if report.backups.len() == 0 {
        return Some(Next::Stop(BackupEnding::NoneKept));
    }
    let tried = match &f.tried {
        Known::NotYet => return Some(Next::Take(BackupStep::LoadEvidence)),
        Known::Failed => return Some(Next::Failed(BackupStep::LoadEvidence)),
        Known::Got(x) => x,
    };
    if !tried.launched || !tried.saved {
        return Some(Next::Stop(BackupEnding::Refused(BackupRefusal::Untried)));
    }
    let n = wait_for(&f.size, BackupStep::Measure);
    if n.is_some() {
        return n;
    }
    carried_next(f, report)
}

/// Say what comes next in removing an original.
pub fn backup(o: &Options, f: &BackupFacts) -> (n: BackupNext)
    ensures
        n == backup_next(*o, *f),
{
    match backup_gate_next(o, f) {
        Some(n) => return n,
        None => {},
    }
    if o.dry_run {
        return Next::Stop(BackupEnding::DryRun);
    }
    match wait_for(&f.delete, BackupStep::Delete) {
        Some(n) => return n,
        None => {},
    }
    match try_once(&f.clear_record, BackupStep::ClearRecord) {
        Some(n) => n,
        None => Next::Stop(BackupEnding::Deleted),
    }
}

// ------------------------------------------------- what holds of every run

/// What each step does to what is on disk. What is deleted is the one original
/// beside the library.
pub open spec fn backup_effect(s: BackupStep) -> Effect {
    match s {
        BackupStep::Lock => Effect::Locks,
        BackupStep::Delete => Effect::Deletes,
        BackupStep::ClearRecord => Effect::Notes,
        _ => Effect::Reads,
    }
}

/// An original is only deleted where the library is repaired, a person has
/// recorded that a game launched and loaded a save, there is one original, and
/// everything it holds was found in the moved copy, at least as new.
pub proof fn lemma_deletion_is_gated(o: Options, f: BackupFacts, s: BackupStep)
    requires
        backup_next(o, f) == BackupNext::Take(s),
        backup_effect(s) == Effect::Deletes,
    ensures
        !o.dry_run,
        f.lock is Got,
        f.report->Got_0.state is Repaired,
        f.report->Got_0.backups@.len() == 1,
        f.tried == Known::Got(Tried { launched: true, saved: true }),
        f.lacking is Got && f.lacking->Got_0@.len() == 0,
{
}

/// A dry run takes no step that changes anything, and promises a deletion
/// exactly where the run itself would delete.
pub proof fn lemma_backup_dry_run_agrees(o: Options, dry: Options, f: BackupFacts)
    requires
        !o.dry_run,
        dry.dry_run,
        f.lock is Got,
        f.delete is NotYet,
    ensures
        backup_next(dry, f) == BackupNext::Stop(BackupEnding::DryRun) <==> backup_next(o, f)
            == BackupNext::Take(BackupStep::Delete),
        forall|s: BackupStep|
            #[trigger] changes(backup_effect(s)) ==> backup_next(dry, f) != BackupNext::Take(s),
{
}

/// The run is only reported as done once the original has been removed.
pub proof fn lemma_deleted_means_deleted(o: Options, f: BackupFacts)
    requires
        backup_next(o, f) == BackupNext::Stop(BackupEnding::Deleted),
    ensures
        f.delete is Got,
{
}

// ------------------------------------------------------------ what is said

pub open spec fn cannot_delete_text(l: Library, report: Report) -> Seq<char> {
    l.path@ + ": cannot delete a backup for this library because it is '"@ + report.headline@
        + "'. Nothing was changed."@
}

fn cannot_delete(l: &Library, report: &Report) -> (out: String)
    ensures
        out@ == cannot_delete_text(*l, *report),
{
    let mut out = l.path.clone();
    out.append(": cannot delete a backup for this library because it is '");
    out.append(report.headline.as_str());
    out.append("'. Nothing was changed.");
    out
}

pub open spec fn untried_text(l: Library) -> Seq<char> {
    l.path@
        + ": the backup exists as insurance, and there is no evidence yet that the moved copy \
            works. Answer these first (a repair cannot know the answers):\n     librarybridge \
            evidence "@
        + l.id@ + " --record launch=yes\n     librarybridge evidence "@ + l.id@
        + " --record save=yes\nNothing was changed."@
}

fn untried(l: &Library) -> (out: String)
    ensures
        out@ == untried_text(*l),
{
    let mut out = l.path.clone();
    out.append(": the backup exists as insurance, and there is no evidence yet that the moved copy \
        works. Answer these first (a repair cannot know the answers):\n     librarybridge evidence ");
    out.append(l.id.as_str());
    out.append(" --record launch=yes\n     librarybridge evidence ");
    out.append(l.id.as_str());
    out.append(" --record save=yes\nNothing was changed.");
    out
}

pub open spec fn several_text(count: usize) -> Seq<char> {
    decimal_of(count as nat) + " originals were found, so none can be tied to the moved copy"@
}

fn several(count: usize) -> (out: String)
    ensures
        out@ == several_text(count),
{
    let mut out = decimal(count as u64);
    out.append(" originals were found, so none can be tied to the moved copy");
    out
}

/// Why the original is not known to be carried.
pub open spec fn why_text(f: BackupFacts) -> Seq<char> {
    let count = f.report->Got_0.backups@.len();
    if count != 1 {
        several_text(count as usize)
    } else {
        joined(views(f.lacking->Got_0@), "; "@)
    }
}

fn why(report: &Report, f: &BackupFacts) -> (out: String)
    requires
        f.report == Known::Got(*report),
        report.backups@.len() == 1 ==> f.lacking is Got,
    ensures
        out@ == why_text(*f),
{
    if report.backups.len() != 1 {
        several(report.backups.len())
    } else {
        match &f.lacking {
            Known::Got(lacking) => join(lacking, "; "),
            _ => String::new(),
        }
    }
}

/// The original that is spoken of: the first.
pub open spec fn original_of(report: Report) -> Seq<char> {
    report.backups@[0]@
}

/// The original that is measured, compared and deleted.
pub fn original_path(report: &Report) -> (path: String)
    requires
        report.backups@.len() > 0,
    ensures
        path@ == original_of(*report),
{
    report.backups[0].clone()
}

pub open spec fn not_carried_text(
    original: Seq<char>,
    copy: Seq<char>,
    why: Seq<char>,
    dry_run: bool,
) -> Seq<char> {
    "the original at "@ + original + " is not fully carried by the moved copy at "@ + copy + ": "@
        + why + kept_words_text(dry_run)
}

fn not_carried(original: &str, copy: &str, why: &str, dry_run: bool) -> (out: String)
    ensures
        out@ == not_carried_text(original@, copy@, why@, dry_run),
{
    let mut out = "the original at ".to_owned();
    out.append(original);
    out.append(" is not fully carried by the moved copy at ");
    out.append(copy);
    out.append(": ");
    out.append(why);
    out.append(kept_words(dry_run));
    out
}

pub open spec fn kept_words_text(dry_run: bool) -> Seq<char> {
    if dry_run {
        ". This would NOT be deleted. Keep the backup."@
    } else {
        ". The original is kept, nothing was deleted."@
    }
}

fn kept_words(dry_run: bool) -> (out: &'static str)
    ensures
        out@ == kept_words_text(dry_run),
{
    if dry_run {
        ". This would NOT be deleted. Keep the backup."
    } else {
        ". The original is kept, nothing was deleted."
    }
}

pub open spec fn would_delete_text(
    l: Library,
    original: Seq<char>,
    size: Size,
    copy: Seq<char>,
) -> Seq<char> {
    "Library     "@ + l.path@ + "\nName        "@ + l.name@ + "\nOriginal    "@ + original + " ("@
        + size.shown@ + ")\nCopy        "@ + copy
        + "\nWould delete the original above. Every file it holds is present in the moved copy, at \
            least as new.\nDry run. Nothing was deleted.\n"@
}

fn would_delete(l: &Library, original: &str, size: &Size, copy: &str) -> (out: String)
    ensures
        out@ == would_delete_text(*l, original@, *size, copy@),
{
    let mut out = "Library     ".to_owned();
    out.append(l.path.as_str());
    out.append("\nName        ");
    out.append(l.name.as_str());
    out.append("\nOriginal    ");
    out.append(original);
    out.append(" (");
    out.append(size.shown.as_str());
    out.append(")\nCopy        ");
    out.append(copy);
    out.append("\nWould delete the original above. Every file it holds is present in the moved \
        copy, at least as new.\nDry run. Nothing was deleted.\n");
    out
}

pub open spec fn deleted_text(original: Seq<char>, size: Size) -> Seq<char> {
    "Deleted.\n  Original    "@ + original + "\n  Reclaimed   "@ + size.shown@ + "\n"@
}

fn deleted(original: &str, size: &Size) -> (out: String)
    ensures
        out@ == deleted_text(original@, *size),
{
    let mut out = "Deleted.\n  Original    ".to_owned();
    out.append(original);
    out.append("\n  Reclaimed   ");
    out.append(size.shown.as_str());
    out.append("\n");
    out
}

/// What is said where the run ends.
pub open spec fn backup_closing_text(o: Options, l: Library, f: BackupFacts, e: BackupEnding) -> Seq<
    char,
> {
    let report = f.report->Got_0;
    match e {
        BackupEnding::NoneKept => "No original kept for this library. Nothing to delete.\n"@,
        BackupEnding::DryRun => would_delete_text(
            l,
            original_of(report),
            f.size->Got_0,
            live_target(report),
        ),
        BackupEnding::Deleted => deleted_text(original_of(report), f.size->Got_0),
        BackupEnding::Refused(BackupRefusal::NotRepaired) => cannot_delete_text(l, report),
        BackupEnding::Refused(BackupRefusal::Untried) => untried_text(l),
        BackupEnding::Refused(BackupRefusal::NotCarried) => not_carried_text(
            original_of(report),
            live_target(report),
            why_text(f),
            o.dry_run,
        ),
    }
}

/// Say what there is to say where the run ends.
pub fn backup_closing(o: &Options, l: &Library, f: &BackupFacts, e: BackupEnding) -> (out: String)
    requires
        backup_next(*o, *f) == BackupNext::Stop(e),
    ensures
        out@ == backup_closing_text(*o, *l, *f, e),
{
    let report = match &f.report {
        Known::Got(report) => report,
        _ => return String::new(),
    };
    match e {
        BackupEnding::NoneKept => "No original kept for this library. Nothing to delete.\n".to_owned(),
        BackupEnding::DryRun => match &f.size {
            Known::Got(size) => would_delete(
                l,
                report.backups[0].as_str(),
                size,
                live_path(report).as_str(),
            ),
            _ => String::new(),
        },
        BackupEnding::Deleted => match &f.size {
            Known::Got(size) => deleted(report.backups[0].as_str(), size),
            _ => String::new(),
        },
        BackupEnding::Refused(BackupRefusal::NotRepaired) => cannot_delete(l, report),
        BackupEnding::Refused(BackupRefusal::Untried) => untried(l),
        BackupEnding::Refused(BackupRefusal::NotCarried) => not_carried(
            report.backups[0].as_str(),
            live_path(report).as_str(),
            why(report, f).as_str(),
            o.dry_run,
        ),
    }
}

// ----------------------------------------- when an original is deleted, or not

/// An original is only kept for a reason that is there.
pub proof fn lemma_backup_refusals_have_a_reason(o: Options, f: BackupFacts, r: BackupRefusal)
    requires
        backup_next(o, f) == BackupNext::Stop(BackupEnding::Refused(r)),
    ensures
        match r {
            BackupRefusal::NotRepaired => !(f.report->Got_0.state is Repaired),
            BackupRefusal::Untried => !f.tried->Got_0.launched || !f.tried->Got_0.saved,
            BackupRefusal::NotCarried => f.report->Got_0.backups@.len() > 1
                || f.lacking->Got_0@.len() > 0,
        },
{
}

/// The one original of a repaired library is deleted where a game was seen to
/// launch and to save and the moved copy lacks nothing of it. A dry run stops
/// before that, and where there is no original there is nothing to do.
pub proof fn lemma_backup_goes_through(o: Options, f: BackupFacts)
    requires
        o.dry_run || f.lock is Got,
        f.report is Got && f.report->Got_0.state is Repaired,
    ensures
        f.report->Got_0.backups@.len() == 0 ==> backup_next(o, f) == BackupNext::Stop(
            BackupEnding::NoneKept,
        ),
        f.report->Got_0.backups@.len() == 1 && f.tried == Known::Got(
            Tried { launched: true, saved: true },
        ) && f.size is Got && f.lacking is Got && f.lacking->Got_0@.len() == 0 ==> {
            &&& o.dry_run ==> backup_next(o, f) == BackupNext::Stop(BackupEnding::DryRun)
            &&& !o.dry_run && f.delete is NotYet ==> backup_next(o, f) == BackupNext::Take(
                BackupStep::Delete,
            )
            &&& !o.dry_run && f.delete is Got && !(f.clear_record is NotYet) ==> backup_next(o, f)
                == BackupNext::Stop(BackupEnding::Deleted)
        },
{
}

/// Nothing is deleted but after all of that.
pub proof fn lemma_deletion_is_earned(o: Options, f: BackupFacts)
    requires
        backup_next(o, f) == BackupNext::Take(BackupStep::Delete),
    ensures
        !o.dry_run && f.lock is Got,
        f.report->Got_0.state is Repaired,
        f.report->Got_0.backups@.len() == 1,
        f.tried is Got && f.tried->Got_0.launched && f.tried->Got_0.saved,
        f.lacking is Got && f.lacking->Got_0@.len() == 0,
{
}

// ------------------------------------------------ what holds of what is said

proof fn lemma_cannot_delete_has_headline(l: Library, report: Report)
    ensures
        mentions(cannot_delete_text(l, report), report.headline@),
{
    let head = l.path@ + ": cannot delete a backup for this library because it is '"@;
    let part = report.headline@;
    lemma_mentions_piece(head, part, seq![]);
    let t2 = head + part;
    lemma_mentions_in(seq![], t2, "'. Nothing was changed."@, part);
}

proof fn lemma_untried_has_questions(l: Library)
    ensures
        mentions(untried_text(l), l.id@ + " --record launch=yes\n     librarybridge evidence "@
            + l.id@ + " --record save=yes\nNothing was changed."@),
{
    let head = l.path@ + ": the backup exists as insurance, and there is no evidence yet that the moved copy \
            works. Answer these first (a repair cannot know the answers):\n     librarybridge \
            evidence "@;
    let part = l.id@ + " --record launch=yes\n     librarybridge evidence "@ + l.id@
        + " --record save=yes\nNothing was changed."@;
    let t5 = head + l.id@ + " --record launch=yes\n     librarybridge evidence "@ + l.id@
        + " --record save=yes\nNothing was changed."@;
    assert(t5 =~= head + part);
    lemma_mentions_piece(head, part, seq![]);
}

proof fn lemma_not_carried_has_both(original: Seq<char>, copy: Seq<char>, why: Seq<char>,
    dry_run: bool)
    ensures
        mentions(not_carried_text(original, copy, why, dry_run), original
            + " is not fully carried by the moved copy at "@ + copy),
{
    let head = "the original at "@;
    let part = original + " is not fully carried by the moved copy at "@ + copy;
    let t3 = head + original + " is not fully carried by the moved copy at "@ + copy;
    assert(t3 =~= head + part);
    lemma_mentions_piece(head, part, seq![]);
    lemma_mentions_in(seq![], t3, ": "@, part);
    let t4 = t3 + ": "@;
    lemma_mentions_in(seq![], t4, why, part);
    let t5 = t4 + why;
    lemma_mentions_in(seq![], t5, kept_words_text(dry_run), part);
}

proof fn lemma_not_carried_has_why(original: Seq<char>, copy: Seq<char>, why: Seq<char>,
    dry_run: bool)
    ensures
        mentions(not_carried_text(original, copy, why, dry_run), why + kept_words_text(dry_run)),
{
    let head = "the original at "@ + original + " is not fully carried by the moved copy at "@
        + copy + ": "@;
    let part = why + kept_words_text(dry_run);
    let t6 = head + why + kept_words_text(dry_run);
    assert(t6 =~= head + part);
    lemma_mentions_piece(head, part, seq![]);
}

proof fn lemma_would_delete_has_original(l: Library, original: Seq<char>, size: Size,
    copy: Seq<char>)
    ensures
        mentions(would_delete_text(l, original, size, copy), "\nOriginal    "@ + original + " ("@
            + size.shown@ + ")\nCopy        "@ + copy),
{
    let head = "Library     "@ + l.path@ + "\nName        "@ + l.name@;
    let part = "\nOriginal    "@ + original + " ("@ + size.shown@ + ")\nCopy        "@ + copy;
    let t9 = head + "\nOriginal    "@ + original + " ("@ + size.shown@ + ")\nCopy        "@ + copy;
    assert(t9 =~= head + part);
    lemma_mentions_piece(head, part, seq![]);
    lemma_mentions_in(seq![], t9, "\nWould delete the original above. Every file it holds is present in the moved copy, at \
            least as new.\nDry run. Nothing was deleted.\n"@, part);
}

/// What is said at the end names the original and what it takes up, and where
/// the copy is. An original that is kept is told with why: how many there are, or
/// each thing that the copy lacks.
pub proof fn lemma_backup_closing_says_which(
    o: Options,
    l: Library,
    f: BackupFacts,
    i: int,
)
    requires
        f.report is Got,
        0 < f.report->Got_0.backups@.len() <= usize::MAX,
    ensures
        ({
            let original = f.report->Got_0.backups@[0]@;
            let copy = live_target(f.report->Got_0);
            let dry = backup_closing_text(o, l, f, BackupEnding::DryRun);
            let done = backup_closing_text(o, l, f, BackupEnding::Deleted);
            let kept = backup_closing_text(o, l, f,
                BackupEnding::Refused(BackupRefusal::NotCarried));
            &&& mentions(
                dry,
                "\nOriginal    "@ + original + " ("@ + f.size->Got_0.shown@ + ")\nCopy        "@
                    + copy,
            )
            &&& done == "Deleted.\n  Original    "@ + original + "\n  Reclaimed   "@
                + f.size->Got_0.shown@ + "\n"@
            &&& mentions(kept, original + " is not fully carried by the moved copy at "@ + copy)
            &&& f.report->Got_0.backups@.len() > 1 ==> mentions(
                kept,
                decimal_of(f.report->Got_0.backups@.len()),
            )
            &&& f.report->Got_0.backups@.len() == 1 && 0 <= i < f.lacking->Got_0@.len()
                ==> mentions(kept, f.lacking->Got_0@[i]@)
            &&& o.dry_run ==> mentions(kept, ". This would NOT be deleted. Keep the backup."@)
            &&& !o.dry_run ==> mentions(kept, ". The original is kept, nothing was deleted."@)
        }),
{
    let report = f.report->Got_0;
    let original = original_of(report);
    let copy = live_target(report);
    let why = why_text(f);
    lemma_would_delete_has_original(l, original, f.size->Got_0, copy);
    lemma_not_carried_has_both(original, copy, why, o.dry_run);
    lemma_not_carried_has_why(original, copy, why, o.dry_run);
    let kept = not_carried_text(original, copy, why, o.dry_run);
    let words = kept_words_text(o.dry_run);
    lemma_mentions_piece(why, words, seq![]);
    lemma_mentions_through(kept, why + words, words);
    if report.backups@.len() > 1 {
        let n = decimal_of(report.backups@.len());
        lemma_mentions_piece(
            seq![],
            n,
            " originals were found, so none can be tied to the moved copy"@,
        );
        lemma_mentions_in(seq![], why, words, n);
        lemma_mentions_through(kept, why + words, n);
    } else if 0 <= i < f.lacking->Got_0@.len() {
        let all = views(f.lacking->Got_0@);
        assert(all[i] == f.lacking->Got_0@[i]@);
        lemma_joined_mentions(all, "; "@, i);
        lemma_mentions_in(seq![], why, words, all[i]);
        lemma_mentions_through(kept, why + words, all[i]);
    }
}

/// Where nothing was tried yet, both questions are asked, and where the library
/// is not repaired its state is told.
pub proof fn lemma_backup_refusal_says_why(o: Options, l: Library, f: BackupFacts)
    ensures
        mentions(
            backup_closing_text(o, l, f, BackupEnding::Refused(BackupRefusal::Untried)),
            l.id@ + " --record launch=yes\n     librarybridge evidence "@ + l.id@
                + " --record save=yes\nNothing was changed."@,
        ),
        mentions(
            backup_closing_text(o, l, f, BackupEnding::Refused(BackupRefusal::NotRepaired)),
            f.report->Got_0.headline@,
        ),
{
    lemma_untried_has_questions(l);
    lemma_cannot_delete_has_headline(l, f.report->Got_0);
}


/// Steps are taken in turn, and nothing is called deleted before it is. That
/// the record could not be cleared does not stop it.
pub proof fn lemma_backup_steps_are_taken_in_turn(o: Options, f: BackupFacts, s: BackupStep)
    ensures
        backup_next(o, f) == BackupNext::Take(s) ==> match s {
            BackupStep::Lock => !o.dry_run,
            BackupStep::Inspect => o.dry_run || f.lock is Got,
            BackupStep::LoadEvidence => f.report is Got && f.report->Got_0.backups@.len() > 0,
            BackupStep::Measure => f.tried is Got && f.tried->Got_0.launched
                && f.tried->Got_0.saved,
            BackupStep::Carry => f.size is Got && f.report->Got_0.backups@.len() == 1,
            BackupStep::Delete => f.lacking is Got,
            BackupStep::ClearRecord => f.delete is Got,
        },
        backup_next(o, f) == BackupNext::Stop(BackupEnding::Deleted) ==> !(f.clear_record is NotYet),
        backup_next(o, f) == BackupNext::Stop(BackupEnding::DryRun) ==> o.dry_run && f.lacking is Got
            && f.lacking->Got_0@.len() == 0,
        backup_next(o, f) == BackupNext::Stop(BackupEnding::NoneKept)
            ==> f.report->Got_0.backups@.len() == 0,
        backup_next(o, f) != BackupNext::Failed(BackupStep::ClearRecord),
{
}

} // verus!
