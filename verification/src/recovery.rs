//! The other ways a repair can go: finishing one that was interrupted, and
//! keeping what is already at the destination.

use vstd::prelude::*;

use crate::fix::{ensure_expected_plan, expected};
use crate::fix_text::{plan_changed, plan_changed_text};
use crate::library::{Library, Options};
use crate::path::{alike, same_path};
use crate::protocol::{
    changes, check_link, link_fault, link_fault_message, link_fault_text, or, tries, try_once,
    wait_for, waits, Effect, Known, LinkFault, LinkSeen, Next,
};
use crate::text::{cat3, lemma_mentions_in, lemma_mentions_piece, mentions, same_text};

verus! {

// ------------------------------------------------------- comparing two trees

/// The shape of a tree: how many entries, and how many bytes in all.
#[derive(Debug, Clone, Copy, PartialEq, Eq, Structural)]
pub struct Shape {
    pub entries: usize,
    pub bytes: u64,
}

#[derive(Debug, Clone, Copy, PartialEq, Eq, Structural)]
pub enum CompareStep {
    LeftShape,
    RightShape,
    /// Hash every file and compare every link text.
    Contents,
}

pub type CompareNext = Next<CompareStep, bool>;

/// Whether two trees are the same data. A different shape settles it. The same
/// shape proves nothing on its own, so then the contents are compared.
pub open spec fn compare_next(
    left: Known<Shape>,
    right: Known<Shape>,
    contents: Known<bool>,
) -> CompareNext {
    match or(waits(left, CompareStep::LeftShape), waits(right, CompareStep::RightShape)) {
        Some(n) => n,
        None => if left->Got_0 != right->Got_0 {
            Next::Stop(false)
        } else {
            match waits(contents, CompareStep::Contents) {
                Some(n) => n,
                None => Next::Stop(contents->Got_0),
            }
        },
    }
}

/// Say what comes next in comparing two trees.
pub fn same_data(left: &Known<Shape>, right: &Known<Shape>, contents: &Known<bool>) -> (n:
    CompareNext)
    ensures
        n == compare_next(*left, *right, *contents),
{
    match (left, right) {
        (Known::NotYet, _) => Next::Take(CompareStep::LeftShape),
        (Known::Failed, _) => Next::Failed(CompareStep::LeftShape),
        (_, Known::NotYet) => Next::Take(CompareStep::RightShape),
        (_, Known::Failed) => Next::Failed(CompareStep::RightShape),
        (Known::Got(a), Known::Got(b)) => if a.entries != b.entries || a.bytes != b.bytes {
            Next::Stop(false)
        } else {
            match contents {
                Known::NotYet => Next::Take(CompareStep::Contents),
                Known::Failed => Next::Failed(CompareStep::Contents),
                Known::Got(same) => Next::Stop(*same),
            }
        },
    }
}

/// Two trees are only called the same once their contents have been compared.
pub proof fn lemma_same_data_means_contents_compared(
    left: Known<Shape>,
    right: Known<Shape>,
    contents: Known<bool>,
)
    requires
        compare_next(left, right, contents) == CompareNext::Stop(true),
    ensures
        contents == Known::Got(true),
        left->Got_0 == right->Got_0,
{
}

// ------------------------------------------------ finishing an earlier repair

/// What an interrupted run left on record.
#[derive(Debug)]
pub struct Record {
    pub destination: String,
    /// The digest of the copy it had verified.
    pub digest: String,
}

#[derive(Debug, Clone, Copy, PartialEq, Eq, Structural)]
pub enum FinishStep {
    LookAtCopy,
    LoadRecord,
    DigestCopy,
    LookAtBackup,
    Compare,
    ShowEvidence,
    Confirm,
    /// Work out the identity of the plan as it is now.
    Identify,
    MakeLink,
    ReadLink,
    SyncLinked,
    ClearRecord,
}

#[derive(Debug, Clone, Copy, PartialEq, Eq, Structural)]
pub enum FinishRefusal {
    CopyMissing,
    NoEvidence,
    CopyDiffers,
    /// The plan is not the one that was reviewed.
    Changed,
    Link(LinkFault),
}

#[derive(Debug, Clone, Copy, PartialEq, Eq, Structural)]
pub enum FinishEnding {
    DryRun,
    Cancelled,
    Finished,
    Refused(FinishRefusal),
}

pub type FinishNext = Next<FinishStep, FinishEnding>;

/// What is known of a run that finishes an earlier one.
#[derive(Debug)]
pub struct FinishFacts {
    /// Whether the copy is a directory.
    pub copy: Known<bool>,
    pub record: Known<Option<Record>>,
    pub digest: Known<String>,
    /// Whether the original is a directory.
    pub backup: Known<bool>,
    /// Whether the original and the copy are the same data.
    pub same: Known<bool>,
    pub shown: Known<()>,
    pub confirmed: Known<bool>,
    /// The identity of the plan when it was agreed to.
    pub identity: Known<String>,
    pub make_link: Known<()>,
    pub link: Known<LinkSeen>,
    pub sync_linked: Known<()>,
    pub clear_record: Known<()>,
}

/// What shows that the copy is complete.
#[derive(Debug, Clone, Copy, PartialEq, Eq, Structural)]
pub enum Proof {
    /// It is the copy the interrupted run verified.
    Recorded,
    /// It is the same as the original beside the library.
    SameAsOriginal,
}

/// Whether a record of the interrupted run speaks of this copy.
pub open spec fn recorded_here(target: Seq<char>, record: Option<Record>) -> bool {
    match record {
        Some(r) => alike(r.destination@, target),
        None => false,
    }
}

/// Whether the record shows the copy to be the one that was verified.
pub open spec fn record_matches(target: Seq<char>, f: FinishFacts) -> bool {
    &&& f.record is Got
    &&& recorded_here(target, f.record->Got_0)
    &&& f.digest is Got
    &&& f.digest->Got_0@ == f.record->Got_0->Some_0.digest@
}

pub open spec fn proof_of(target: Seq<char>, f: FinishFacts) -> Proof {
    if record_matches(target, f) {
        Proof::Recorded
    } else {
        Proof::SameAsOriginal
    }
}

pub open spec fn finish_refuse(r: FinishRefusal) -> Option<FinishNext> {
    Some(Next::Stop(FinishEnding::Refused(r)))
}

/// What stands in the way of calling the copy complete. The record is the
/// cheap proof; comparing the copy against the original beside the library is
/// the authoritative one, where there is no record or it does not match.
pub open spec fn evidence_next(target: Seq<char>, f: FinishFacts) -> Option<FinishNext> {
    or(
        waits(f.record, FinishStep::LoadRecord),
        or(
            if recorded_here(target, f.record->Got_0) {
                waits(f.digest, FinishStep::DigestCopy)
            } else {
                None
            },
            if record_matches(target, f) {
                None
            } else {
                or(
                    waits(f.backup, FinishStep::LookAtBackup),
                    or(
                        if f.backup->Got_0 {
                            None
                        } else {
                            finish_refuse(FinishRefusal::NoEvidence)
                        },
                        or(
                            waits(f.same, FinishStep::Compare),
                            if f.same->Got_0 {
                                None
                            } else {
                                finish_refuse(FinishRefusal::CopyDiffers)
                            },
                        ),
                    ),
                )
            },
        ),
    )
}

pub open spec fn finish_link(target: Seq<char>, f: FinishFacts) -> Option<FinishNext> {
    or(
        waits(f.make_link, FinishStep::MakeLink),
        or(
            waits(f.link, FinishStep::ReadLink),
            or(
                match link_fault(target, f.link->Got_0) {
                    Some(fault) => finish_refuse(FinishRefusal::Link(fault)),
                    None => None,
                },
                or(
                    waits(f.sync_linked, FinishStep::SyncLinked),
                    tries(f.clear_record, FinishStep::ClearRecord),
                ),
            ),
        ),
    )
}

/// What was found is shown, and agreed to. The user may take time over that, so
/// the plan has to be the one that was quoted still.
pub open spec fn finish_consent(o: Options, f: FinishFacts) -> Option<FinishNext> {
    or(
        waits(f.shown, FinishStep::ShowEvidence),
        or(
            if o.dry_run {
                Some(Next::Stop(FinishEnding::DryRun))
            } else if o.assume_yes {
                None
            } else {
                or(
                    waits(f.confirmed, FinishStep::Confirm),
                    if f.confirmed->Got_0 {
                        None
                    } else {
                        Some(Next::Stop(FinishEnding::Cancelled))
                    },
                )
            },
            if o.expect is None {
                None
            } else {
                or(
                    waits(f.identity, FinishStep::Identify),
                    if expected(o, f.identity->Got_0@) {
                        None
                    } else {
                        finish_refuse(FinishRefusal::Changed)
                    },
                )
            },
        ),
    )
}

/// What comes next in finishing an interrupted repair.
pub open spec fn finish_next(o: Options, target: Seq<char>, f: FinishFacts) -> FinishNext {
    let copy = or(
        waits(f.copy, FinishStep::LookAtCopy),
        if f.copy->Got_0 {
            None
        } else {
            finish_refuse(FinishRefusal::CopyMissing)
        },
    );
    match or(
        copy,
        or(evidence_next(target, f), or(finish_consent(o, f), finish_link(target, f))),
    ) {
        Some(n) => n,
        None => Next::Stop(FinishEnding::Finished),
    }
}

fn here(target: &str, record: &Option<Record>) -> (yes: bool)
    ensures
        yes == recorded_here(target@, *record),
{
    match record {
        Some(r) => same_path(r.destination.as_str(), target),
        None => false,
    }
}

/// Establish that the copy is complete before adopting it. Existence is no
/// evidence: a half-written or unrelated directory must not become the live
/// data.
pub fn recovery_evidence(target: &str, f: &FinishFacts) -> (n: Option<FinishNext>)
    ensures
        n == evidence_next(target@, *f),
{
    let record = match &f.record {
        Known::NotYet => return Some(Next::Take(FinishStep::LoadRecord)),
        Known::Failed => return Some(Next::Failed(FinishStep::LoadRecord)),
        Known::Got(x) => x,
    };
    if here(target, record) {
        let digest = match &f.digest {
            Known::NotYet => return Some(Next::Take(FinishStep::DigestCopy)),
            Known::Failed => return Some(Next::Failed(FinishStep::DigestCopy)),
            Known::Got(x) => x,
        };
        match record {
            Some(r) => if same_text(digest.as_str(), r.digest.as_str()) {
                return None;
            },
            None => {},
        }
    }
    let backup = match &f.backup {
        Known::NotYet => return Some(Next::Take(FinishStep::LookAtBackup)),
        Known::Failed => return Some(Next::Failed(FinishStep::LookAtBackup)),
        Known::Got(x) => x,
    };
    if !*backup {
        return Some(Next::Stop(FinishEnding::Refused(FinishRefusal::NoEvidence)));
    }
    match &f.same {
        Known::NotYet => Some(Next::Take(FinishStep::Compare)),
        Known::Failed => Some(Next::Failed(FinishStep::Compare)),
        Known::Got(same) => if *same {
            None
        } else {
            Some(Next::Stop(FinishEnding::Refused(FinishRefusal::CopyDiffers)))
        },
    }
}

fn finish_link_next(target: &str, f: &FinishFacts) -> (n: Option<FinishNext>)
    ensures
        n == finish_link(target@, *f),
{
    let n = wait_for(&f.make_link, FinishStep::MakeLink);
    if n.is_some() {
        return n;
    }
    let link = match &f.link {
        Known::NotYet => return Some(Next::Take(FinishStep::ReadLink)),
        Known::Failed => return Some(Next::Failed(FinishStep::ReadLink)),
        Known::Got(x) => x,
    };
    match check_link(target, link) {
        Some(fault) => {
            return Some(Next::Stop(FinishEnding::Refused(FinishRefusal::Link(fault))));
        },
        None => {},
    }
    let n = wait_for(&f.sync_linked, FinishStep::SyncLinked);
    if n.is_some() {
        return n;
    }
    try_once(&f.clear_record, FinishStep::ClearRecord)
}

/// Say what comes next in finishing an interrupted repair.
pub fn finish_interrupted(o: &Options, target: &str, f: &FinishFacts) -> (n: FinishNext)
    ensures
        n == finish_next(*o, target@, *f),
{
    match &f.copy {
        Known::NotYet => return Next::Take(FinishStep::LookAtCopy),
        Known::Failed => return Next::Failed(FinishStep::LookAtCopy),
        Known::Got(there) => if !*there {
            return Next::Stop(FinishEnding::Refused(FinishRefusal::CopyMissing));
        },
    }
    match recovery_evidence(target, f) {
        Some(n) => return n,
        None => {},
    }
    match wait_for(&f.shown, FinishStep::ShowEvidence) {
        Some(n) => return n,
        None => {},
    }
    if o.dry_run {
        return Next::Stop(FinishEnding::DryRun);
    }
    if !o.assume_yes {
        match &f.confirmed {
            Known::NotYet => return Next::Take(FinishStep::Confirm),
            Known::Failed => return Next::Failed(FinishStep::Confirm),
            Known::Got(yes) => if !*yes {
                return Next::Stop(FinishEnding::Cancelled);
            },
        }
    }
    if o.expect.is_some() {
        match &f.identity {
            Known::NotYet => return Next::Take(FinishStep::Identify),
            Known::Failed => return Next::Failed(FinishStep::Identify),
            Known::Got(now) => if !ensure_expected_plan(&o.expect, now.as_str()) {
                return Next::Stop(FinishEnding::Refused(FinishRefusal::Changed));
            },
        }
    }
    match finish_link_next(target, f) {
        Some(n) => n,
        None => Next::Stop(FinishEnding::Finished),
    }
}

/// What each step does to what is on disk.
pub open spec fn finish_effect(s: FinishStep) -> Effect {
    match s {
        FinishStep::MakeLink => Effect::Links,
        FinishStep::SyncLinked => Effect::Flushes,
        FinishStep::ClearRecord => Effect::Notes,
        _ => Effect::Reads,
    }
}

/// A copy is only adopted once it has been shown to be complete, and the link
/// is never made on a dry run, without agreement, or where a plan was quoted
/// that is not the one there is.
pub proof fn lemma_recovery_adopts_only_a_proven_copy(
    o: Options,
    target: Seq<char>,
    f: FinishFacts,
    s: FinishStep,
)
    requires
        finish_next(o, target, f) == FinishNext::Take(s),
        changes(finish_effect(s)),
    ensures
        f.copy == Known::Got(true),
        record_matches(target, f) || (f.backup == Known::Got(true) && f.same == Known::Got(true)),
        !o.dry_run,
        o.assume_yes || f.confirmed == Known::Got(true),
        o.expect is Some ==> f.identity is Got && f.identity->Got_0@ == o.expect->Some_0@,
        finish_effect(s) != Effect::Deletes && finish_effect(s) != Effect::Unlinks,
{
}

pub open spec fn finish_header_text(backup: Seq<char>, target: Seq<char>) -> Seq<char> {
    "State       an earlier run stopped just before the last step\nOriginal    "@ + backup
        + "\nCopy        "@ + target + "\n"@
}

fn finish_header(backup: &str, target: &str) -> (out: String)
    ensures
        out@ == finish_header_text(backup@, target@),
{
    let mut out = "State       an earlier run stopped just before the last step\nOriginal    ".to_owned();
    out.append(backup);
    out.append("\nCopy        ");
    out.append(target);
    out.append("\n");
    out
}

pub open spec fn proof_text(p: Proof) -> Seq<char> {
    match p {
        Proof::Recorded => "the copy matches the one the interrupted run verified"@,
        Proof::SameAsOriginal => "the copy matches the original still on the game drive"@,
    }
}

fn proven(target: &str, f: &FinishFacts) -> (out: &'static str)
    ensures
        out@ == proof_text(proof_of(target@, *f)),
{
    match (&f.record, &f.digest) {
        (Known::Got(Some(r)), Known::Got(digest)) => if same_path(r.destination.as_str(), target)
            && same_text(digest.as_str(), r.digest.as_str()) {
            "the copy matches the one the interrupted run verified"
        } else {
            "the copy matches the original still on the game drive"
        },
        _ => "the copy matches the original still on the game drive",
    }
}

/// What is said before a step is taken.
pub open spec fn finish_announcement(
    backup: Seq<char>,
    target: Seq<char>,
    f: FinishFacts,
    s: FinishStep,
) -> Seq<char> {
    match s {
        FinishStep::LookAtCopy => finish_header_text(backup, target),
        FinishStep::ShowEvidence => "Checked     "@ + proof_text(proof_of(target, f)) + "\n"@,
        FinishStep::Confirm => "\nCreate the link and finish? [y/N] "@,
        _ => seq![],
    }
}

pub fn finish_announce(backup: &str, target: &str, f: &FinishFacts, s: FinishStep) -> (out: String)
    ensures
        out@ == finish_announcement(backup@, target@, *f, s),
{
    match s {
        FinishStep::LookAtCopy => finish_header(backup, target),
        FinishStep::ShowEvidence => cat3("Checked     ", proven(target, f), "\n"),
        FinishStep::Confirm => "\nCreate the link and finish? [y/N] ".to_owned(),
        _ => String::new(),
    }
}

pub open spec fn copy_missing_text(l: Library, backup: Seq<char>, target: Seq<char>) -> Seq<char> {
    "the copy at "@ + target
        + " is missing, so this cannot be finished automatically. Your data is intact at "@
        + backup + ". Rename it back to "@ + l.compatdata@ + " to return to the starting point."@
}

fn copy_missing(l: &Library, backup: &str, target: &str) -> (out: String)
    ensures
        out@ == copy_missing_text(*l, backup@, target@),
{
    let mut out = "the copy at ".to_owned();
    out.append(target);
    out.append(" is missing, so this cannot be finished automatically. Your data is intact at ");
    out.append(backup);
    out.append(". Rename it back to ");
    out.append(l.compatdata.as_str());
    out.append(" to return to the starting point.");
    out
}

pub open spec fn no_evidence_text(target: Seq<char>) -> Seq<char> {
    "there is no way to tell whether the copy at "@ + target
        + " is complete: no record of the interrupted run survived, and there is no original beside \
            the library to compare it against. Nothing was changed."@
}

fn no_evidence(target: &str) -> (out: String)
    ensures
        out@ == no_evidence_text(target@),
{
    let mut out = "there is no way to tell whether the copy at ".to_owned();
    out.append(target);
    out.append(" is complete: no record of the interrupted run survived, and there is no original \
        beside the library to compare it against. Nothing was changed.");
    out
}

pub open spec fn copy_differs_text(l: Library, backup: Seq<char>, target: Seq<char>) -> Seq<char> {
    "the copy at "@ + target + " does not match the original at "@ + backup
        + ", so it is not safe to point Steam at it. Nothing was changed. Compare them yourself, or \
            rename the original back to "@
        + l.compatdata@ + " to return to the starting point."@
}

fn copy_differs(l: &Library, backup: &str, target: &str) -> (out: String)
    ensures
        out@ == copy_differs_text(*l, backup@, target@),
{
    let mut out = "the copy at ".to_owned();
    out.append(target);
    out.append(" does not match the original at ");
    out.append(backup);
    out.append(", so it is not safe to point Steam at it. Nothing was changed. Compare them \
        yourself, or rename the original back to ");
    out.append(l.compatdata.as_str());
    out.append(" to return to the starting point.");
    out
}

pub open spec fn finished_text(backup: Seq<char>) -> Seq<char> {
    "\nDone. The original is still at "@ + backup + "\n"@
}

fn finished(backup: &str) -> (out: String)
    ensures
        out@ == finished_text(backup@),
{
    let mut out = "\nDone. The original is still at ".to_owned();
    out.append(backup);
    out.append("\n");
    out
}

/// What is said where the run ends.
pub open spec fn finish_closing_text(
    o: Options,
    l: Library,
    backup: Seq<char>,
    target: Seq<char>,
    f: FinishFacts,
    e: FinishEnding,
) -> Seq<char> {
    match e {
        FinishEnding::DryRun => "\nDry run. The remaining step is to create the link.\n"@,
        FinishEnding::Cancelled => "Cancelled. Nothing was changed.\n"@,
        FinishEnding::Finished => finished_text(backup),
        FinishEnding::Refused(FinishRefusal::CopyMissing) => copy_missing_text(l, backup, target),
        FinishEnding::Refused(FinishRefusal::NoEvidence) => no_evidence_text(target),
        FinishEnding::Refused(FinishRefusal::CopyDiffers) => copy_differs_text(l, backup, target),
        FinishEnding::Refused(FinishRefusal::Changed) => plan_changed_text(
            o.expect->Some_0@,
            f.identity->Got_0@,
        ),
        FinishEnding::Refused(FinishRefusal::Link(fault)) => link_fault_text(
            fault,
            l.compatdata@,
            target,
            f.link->Got_0,
        ),
    }
}

pub fn finish_closing(
    o: &Options,
    l: &Library,
    backup: &str,
    target: &str,
    f: &FinishFacts,
    e: FinishEnding,
) -> (out: String)
    requires
        finish_next(*o, target@, *f) == FinishNext::Stop(e),
    ensures
        out@ == finish_closing_text(*o, *l, backup@, target@, *f, e),
{
    match e {
        FinishEnding::DryRun => "\nDry run. The remaining step is to create the link.\n".to_owned(),
        FinishEnding::Cancelled => "Cancelled. Nothing was changed.\n".to_owned(),
        FinishEnding::Finished => finished(backup),
        FinishEnding::Refused(FinishRefusal::CopyMissing) => copy_missing(l, backup, target),
        FinishEnding::Refused(FinishRefusal::NoEvidence) => no_evidence(target),
        FinishEnding::Refused(FinishRefusal::CopyDiffers) => copy_differs(l, backup, target),
        FinishEnding::Refused(FinishRefusal::Changed) => match (&o.expect, &f.identity) {
            (Some(expect), Known::Got(now)) => plan_changed(expect.as_str(), now.as_str()),
            _ => String::new(),
        },
        FinishEnding::Refused(FinishRefusal::Link(fault)) => match &f.link {
            Known::Got(seen) => link_fault_message(fault, l.compatdata.as_str(), target, seen),
            _ => String::new(),
        },
    }
}

// ---------------------------------------------------- keeping the destination

#[derive(Debug, Clone, Copy, PartialEq, Eq, Structural)]
pub enum KeepStep {
    ShowIntent,
    Confirm,
    /// Work out the identity of the plan as it is now.
    Identify,
    OpenLibrary,
    LookAtSource,
    MoveSource,
    MakeLink,
    ReadLink,
    SyncLinked,
}

#[derive(Debug, Clone, Copy, PartialEq, Eq, Structural)]
pub enum KeepEnding {
    DryRun,
    Cancelled,
    Kept,
    /// The plan is not the one that was reviewed.
    Changed,
    Refused(LinkFault),
}

pub type KeepNext = Next<KeepStep, KeepEnding>;

/// What is known of a run that keeps the destination.
#[derive(Debug)]
pub struct KeepFacts {
    pub shown: Known<()>,
    pub confirmed: Known<bool>,
    /// The identity of the plan when it was agreed to.
    pub identity: Known<String>,
    pub open_library: Known<()>,
    /// Whether anything stands where the link goes.
    pub present: Known<bool>,
    pub move_source: Known<()>,
    pub make_link: Known<()>,
    pub link: Known<LinkSeen>,
    pub sync_linked: Known<()>,
}

/// Finish by keeping what is at the destination: the current compatdata is
/// renamed to a backup, and the link is created pointing at the destination. The
/// user may take time over agreeing, so the plan has to be the one that was
/// quoted still.
pub open spec fn keep_next(o: Options, destination: Seq<char>, f: KeepFacts) -> KeepNext {
    let agreed = or(
        waits(f.shown, KeepStep::ShowIntent),
        if o.dry_run {
            Some(Next::Stop(KeepEnding::DryRun))
        } else if o.assume_yes {
            None
        } else {
            or(
                waits(f.confirmed, KeepStep::Confirm),
                if f.confirmed->Got_0 {
                    None
                } else {
                    Some(Next::Stop(KeepEnding::Cancelled))
                },
            )
        },
    );
    let same_plan = if o.expect is None {
        None
    } else {
        or(
            waits(f.identity, KeepStep::Identify),
            if expected(o, f.identity->Got_0@) {
                None
            } else {
                Some(Next::Stop(KeepEnding::Changed))
            },
        )
    };
    let moved = or(
        waits(f.open_library, KeepStep::OpenLibrary),
        or(
            waits(f.present, KeepStep::LookAtSource),
            if f.present->Got_0 {
                waits(f.move_source, KeepStep::MoveSource)
            } else {
                None
            },
        ),
    );
    let linked = or(
        waits(f.make_link, KeepStep::MakeLink),
        or(
            waits(f.link, KeepStep::ReadLink),
            or(
                match link_fault(destination, f.link->Got_0) {
                    Some(fault) => Some(Next::Stop(KeepEnding::Refused(fault))),
                    None => None,
                },
                tries(f.sync_linked, KeepStep::SyncLinked),
            ),
        ),
    );
    match or(agreed, or(same_plan, or(moved, linked))) {
        Some(n) => n,
        None => Next::Stop(KeepEnding::Kept),
    }
}

/// Say what comes next in keeping the destination.
pub fn keep_destination(o: &Options, destination: &str, f: &KeepFacts) -> (n: KeepNext)
    ensures
        n == keep_next(*o, destination@, *f),
{
    match wait_for(&f.shown, KeepStep::ShowIntent) {
        Some(n) => return n,
        None => {},
    }
    if o.dry_run {
        return Next::Stop(KeepEnding::DryRun);
    }
    if !o.assume_yes {
        match &f.confirmed {
            Known::NotYet => return Next::Take(KeepStep::Confirm),
            Known::Failed => return Next::Failed(KeepStep::Confirm),
            Known::Got(yes) => if !*yes {
                return Next::Stop(KeepEnding::Cancelled);
            },
        }
    }
    if o.expect.is_some() {
        match &f.identity {
            Known::NotYet => return Next::Take(KeepStep::Identify),
            Known::Failed => return Next::Failed(KeepStep::Identify),
            Known::Got(now) => if !ensure_expected_plan(&o.expect, now.as_str()) {
                return Next::Stop(KeepEnding::Changed);
            },
        }
    }
    match wait_for(&f.open_library, KeepStep::OpenLibrary) {
        Some(n) => return n,
        None => {},
    }
    match &f.present {
        Known::NotYet => return Next::Take(KeepStep::LookAtSource),
        Known::Failed => return Next::Failed(KeepStep::LookAtSource),
        Known::Got(present) => if *present {
            match wait_for(&f.move_source, KeepStep::MoveSource) {
                Some(n) => return n,
                None => {},
            }
        },
    }
    match wait_for(&f.make_link, KeepStep::MakeLink) {
        Some(n) => return n,
        None => {},
    }
    let link = match &f.link {
        Known::NotYet => return Next::Take(KeepStep::ReadLink),
        Known::Failed => return Next::Failed(KeepStep::ReadLink),
        Known::Got(x) => x,
    };
    match check_link(destination, link) {
        Some(fault) => return Next::Stop(KeepEnding::Refused(fault)),
        None => {},
    }
    match try_once(&f.sync_linked, KeepStep::SyncLinked) {
        Some(n) => n,
        None => Next::Stop(KeepEnding::Kept),
    }
}

/// What each step does to what is on disk.
pub open spec fn keep_effect(s: KeepStep) -> Effect {
    match s {
        KeepStep::MoveSource => Effect::Renames,
        KeepStep::MakeLink => Effect::Links,
        KeepStep::SyncLinked => Effect::Flushes,
        _ => Effect::Reads,
    }
}

/// Keeping the destination changes nothing on a dry run, without agreement, or
/// where a plan was quoted that is not the one there is. It deletes neither
/// copy, and makes the link only where nothing stands.
pub proof fn lemma_keeping_keeps_both(o: Options, destination: Seq<char>, f: KeepFacts, s: KeepStep)
    requires
        keep_next(o, destination, f) == KeepNext::Take(s),
        changes(keep_effect(s)),
    ensures
        !o.dry_run,
        o.assume_yes || f.confirmed == Known::Got(true),
        o.expect is Some ==> f.identity is Got && f.identity->Got_0@ == o.expect->Some_0@,
        keep_effect(s) != Effect::Deletes && keep_effect(s) != Effect::Unlinks,
        s == KeepStep::MakeLink ==> f.present == Known::Got(false) || f.move_source is Got,
{
}

pub open spec fn keep_intent_text(destination: Seq<char>, backup: Seq<char>) -> Seq<char> {
    "Keeping     "@ + destination + "\nSetting aside the game drive copy as "@ + backup + "\n"@
}

fn keep_intent(destination: &str, backup: &str) -> (out: String)
    ensures
        out@ == keep_intent_text(destination@, backup@),
{
    let mut out = "Keeping     ".to_owned();
    out.append(destination);
    out.append("\nSetting aside the game drive copy as ");
    out.append(backup);
    out.append("\n");
    out
}

pub open spec fn keep_announcement(destination: Seq<char>, backup: Seq<char>, s: KeepStep) -> Seq<
    char,
> {
    match s {
        KeepStep::ShowIntent => keep_intent_text(destination, backup),
        KeepStep::Confirm => "\nContinue? [y/N] "@,
        _ => seq![],
    }
}

/// Say what there is to say before a step is taken.
pub fn keep_announce(destination: &str, backup: &str, s: KeepStep) -> (out: String)
    ensures
        out@ == keep_announcement(destination@, backup@, s),
{
    match s {
        KeepStep::ShowIntent => keep_intent(destination, backup),
        KeepStep::Confirm => "\nContinue? [y/N] ".to_owned(),
        _ => String::new(),
    }
}

pub open spec fn kept_text(destination: Seq<char>, backup: Seq<char>) -> Seq<char> {
    "\nDone. Steam reads the data at "@ + destination
        + "\nThe copy that was on the game drive is at "@ + backup + "\n"@
}

fn kept(destination: &str, backup: &str) -> (out: String)
    ensures
        out@ == kept_text(destination@, backup@),
{
    let mut out = "\nDone. Steam reads the data at ".to_owned();
    out.append(destination);
    out.append("\nThe copy that was on the game drive is at ");
    out.append(backup);
    out.append("\n");
    out
}

pub open spec fn keep_closing_text(
    o: Options,
    l: Library,
    destination: Seq<char>,
    backup: Seq<char>,
    f: KeepFacts,
    e: KeepEnding,
) -> Seq<char> {
    match e {
        KeepEnding::DryRun => "\nDry run. Nothing was changed.\n"@,
        KeepEnding::Cancelled => "Cancelled. Nothing was changed.\n"@,
        KeepEnding::Kept => kept_text(destination, backup),
        KeepEnding::Changed => plan_changed_text(o.expect->Some_0@, f.identity->Got_0@),
        KeepEnding::Refused(fault) => link_fault_text(
            fault,
            l.compatdata@,
            destination,
            f.link->Got_0,
        ),
    }
}

/// Say what there is to say where the run ends.
pub fn keep_closing(
    o: &Options,
    l: &Library,
    destination: &str,
    backup: &str,
    f: &KeepFacts,
    e: KeepEnding,
) -> (out: String)
    requires
        keep_next(*o, destination@, *f) == KeepNext::Stop(e),
    ensures
        out@ == keep_closing_text(*o, *l, destination@, backup@, *f, e),
{
    match e {
        KeepEnding::DryRun => "\nDry run. Nothing was changed.\n".to_owned(),
        KeepEnding::Cancelled => "Cancelled. Nothing was changed.\n".to_owned(),
        KeepEnding::Kept => kept(destination, backup),
        KeepEnding::Changed => match (&o.expect, &f.identity) {
            (Some(expect), Known::Got(now)) => plan_changed(expect.as_str(), now.as_str()),
            _ => String::new(),
        },
        KeepEnding::Refused(fault) => match &f.link {
            Known::Got(seen) => link_fault_message(fault, l.compatdata.as_str(), destination, seen),
            _ => String::new(),
        },
    }
}

// ------------------------------------- when either is refused, or goes through

/// Two trees are called the same where they have as many entries and bytes and
/// the contents were found the same, and nowhere else.
pub proof fn lemma_same_data_exactly(
    left: Known<Shape>,
    right: Known<Shape>,
    contents: Known<bool>,
)
    requires
        left is Got && right is Got,
    ensures
        left->Got_0.entries != right->Got_0.entries || left->Got_0.bytes != right->Got_0.bytes
            ==> compare_next(left, right, contents) == CompareNext::Stop(false),
        left->Got_0.entries == right->Got_0.entries && left->Got_0.bytes == right->Got_0.bytes ==> {
            &&& contents is NotYet ==> compare_next(left, right, contents) == CompareNext::Take(
                CompareStep::Contents,
            )
            &&& contents matches Known::Got(same) ==> compare_next(left, right, contents)
                == CompareNext::Stop(same)
        },
{
}

/// Finishing an interrupted repair is only refused for a reason that is there.
pub proof fn lemma_finish_refusals_have_a_reason(
    o: Options,
    target: Seq<char>,
    f: FinishFacts,
    r: FinishRefusal,
)
    requires
        finish_next(o, target, f) == FinishNext::Stop(FinishEnding::Refused(r)),
    ensures
        match r {
            FinishRefusal::CopyMissing => f.copy == Known::Got(false),
            FinishRefusal::NoEvidence => f.backup == Known::Got(false),
            FinishRefusal::CopyDiffers => f.same == Known::Got(false),
            FinishRefusal::Changed => o.expect is Some && o.expect->Some_0@ != f.identity->Got_0@,
            FinishRefusal::Link(LinkFault::NotSymlink) => !f.link->Got_0.is_symlink,
            FinishRefusal::Link(LinkFault::Elsewhere) => !alike(f.link->Got_0.points_at@, target),
            FinishRefusal::Link(LinkFault::Unreadable) => !f.link->Got_0.readable,
        },
        (r is NoEvidence || r is CopyDiffers) && f.record->Got_0 is Some ==> !alike(
            f.record->Got_0->Some_0.destination@,
            target,
        ) || f.digest->Got_0@ != f.record->Got_0->Some_0.digest@,
{
}

/// Whether a record names this copy with this digest, or there is none and the
/// copy is the same as the original.
pub open spec fn vouched_for(target: Seq<char>, f: FinishFacts) -> bool {
    match f.record->Got_0 {
        Some(rec) => alike(rec.destination@, target) && f.digest is Got && f.digest->Got_0@
            == rec.digest@,
        None => f.backup == Known::Got(true) && f.same == Known::Got(true),
    }
}

/// A copy that a record of the interrupted run vouches for is adopted without
/// another look, and one that is the same as the original is adopted too.
pub proof fn lemma_finish_goes_through(o: Options, target: Seq<char>, f: FinishFacts)
    requires
        f.copy == Known::Got(true),
        f.record is Got,
        vouched_for(target, f),
        o.expect is None,
    ensures
        f.shown is NotYet ==> finish_next(o, target, f) == FinishNext::Take(
            FinishStep::ShowEvidence,
        ),
        f.shown is Got && o.dry_run ==> finish_next(o, target, f) == FinishNext::Stop(
            FinishEnding::DryRun,
        ),
        f.shown is Got && !o.dry_run && !o.assume_yes && f.confirmed == Known::Got(false)
            ==> finish_next(o, target, f) == FinishNext::Stop(FinishEnding::Cancelled),
        f.shown is Got && !o.dry_run && (o.assume_yes || f.confirmed == Known::Got(true)) ==> {
            &&& f.make_link is NotYet ==> finish_next(o, target, f) == FinishNext::Take(
                FinishStep::MakeLink,
            )
            &&& f.make_link is Got && f.link is Got && f.link->Got_0.is_symlink && alike(
                f.link->Got_0.points_at@,
                target,
            ) && f.link->Got_0.readable && f.sync_linked is Got && !(f.clear_record is NotYet)
                ==> finish_next(o, target, f) == FinishNext::Stop(FinishEnding::Finished)
        },
{
}

/// An earlier repair is reported as finished once the link is there, leads to
/// the copy and can be read through.
pub proof fn lemma_finished_means_linked(o: Options, target: Seq<char>, f: FinishFacts)
    requires
        finish_next(o, target, f) == FinishNext::Stop(FinishEnding::Finished),
    ensures
        !o.dry_run,
        f.make_link is Got && f.sync_linked is Got,
        f.link->Got_0.is_symlink && alike(f.link->Got_0.points_at@, target)
            && f.link->Got_0.readable,
{
}

/// The destination is kept where that was agreed to, and reported as kept once
/// the link is there, leads to it and can be read through.
pub proof fn lemma_keep_goes_through(o: Options, destination: Seq<char>, f: KeepFacts)
    requires
        o.expect is None,
        f.shown is Got,
    ensures
        o.dry_run ==> keep_next(o, destination, f) == KeepNext::Stop(KeepEnding::DryRun),
        !o.dry_run && !o.assume_yes && f.confirmed == Known::Got(false) ==> keep_next(
            o,
            destination,
            f,
        ) == KeepNext::Stop(KeepEnding::Cancelled),
        !o.dry_run && (o.assume_yes || f.confirmed == Known::Got(true)) && f.open_library is Got
            ==> {
            &&& f.present == Known::Got(true) && f.move_source is NotYet ==> keep_next(
                o,
                destination,
                f,
            ) == KeepNext::Take(KeepStep::MoveSource)
            &&& f.present == Known::Got(false) && f.make_link is NotYet ==> keep_next(
                o,
                destination,
                f,
            ) == KeepNext::Take(KeepStep::MakeLink)
            &&& f.present is Got && (f.present->Got_0 ==> f.move_source is Got) && f.make_link is Got
                && f.link is Got && f.link->Got_0.is_symlink && alike(
                f.link->Got_0.points_at@,
                destination,
            ) && f.link->Got_0.readable && !(f.sync_linked is NotYet) ==> keep_next(
                o,
                destination,
                f,
            ) == KeepNext::Stop(KeepEnding::Kept)
        },
        keep_next(o, destination, f) == KeepNext::Stop(KeepEnding::Kept) ==> f.link is Got
            && f.link->Got_0.is_symlink && alike(f.link->Got_0.points_at@, destination)
            && f.link->Got_0.readable,
{
}

// ------------------------------------------------ what holds of what is said

proof fn lemma_copy_missing_has_target(l: Library, backup: Seq<char>, target: Seq<char>)
    ensures
        mentions(copy_missing_text(l, backup, target), target),
{
    let head = "the copy at "@;
    let part = target;
    lemma_mentions_piece(head, part, seq![]);
    let t1 = head + part;
    lemma_mentions_in(seq![], t1,
        " is missing, so this cannot be finished automatically. Your data is intact at "@, part);
    let t2 = t1 + " is missing, so this cannot be finished automatically. Your data is intact at "@;
    lemma_mentions_in(seq![], t2, backup, part);
    let t3 = t2 + backup;
    lemma_mentions_in(seq![], t3, ". Rename it back to "@, part);
    let t4 = t3 + ". Rename it back to "@;
    lemma_mentions_in(seq![], t4, l.compatdata@, part);
    let t5 = t4 + l.compatdata@;
    lemma_mentions_in(seq![], t5, " to return to the starting point."@, part);
}

proof fn lemma_copy_missing_has_backup(l: Library, backup: Seq<char>, target: Seq<char>)
    ensures
        mentions(copy_missing_text(l, backup, target), backup + ". Rename it back to "@
            + l.compatdata@),
{
    let head = "the copy at "@ + target
        + " is missing, so this cannot be finished automatically. Your data is intact at "@;
    let part = backup + ". Rename it back to "@ + l.compatdata@;
    let t5 = head + backup + ". Rename it back to "@ + l.compatdata@;
    assert(t5 =~= head + part);
    lemma_mentions_piece(head, part, seq![]);
    lemma_mentions_in(seq![], t5, " to return to the starting point."@, part);
}

proof fn lemma_copy_differs_has_both(l: Library, backup: Seq<char>, target: Seq<char>)
    ensures
        mentions(copy_differs_text(l, backup, target), target
            + " does not match the original at "@ + backup),
{
    let head = "the copy at "@;
    let part = target + " does not match the original at "@ + backup;
    let t3 = head + target + " does not match the original at "@ + backup;
    assert(t3 =~= head + part);
    lemma_mentions_piece(head, part, seq![]);
    lemma_mentions_in(seq![], t3, ", so it is not safe to point Steam at it. Nothing was changed. Compare them yourself, or \
            rename the original back to "@, part);
    let t4 = t3 + ", so it is not safe to point Steam at it. Nothing was changed. Compare them yourself, or \
            rename the original back to "@;
    lemma_mentions_in(seq![], t4, l.compatdata@, part);
    let t5 = t4 + l.compatdata@;
    lemma_mentions_in(seq![], t5, " to return to the starting point."@, part);
}

/// A run that finishes an earlier repair tells which is the original and which
/// is the copy, before it starts and where it stops.
pub proof fn lemma_finish_says_which_is_which(
    o: Options,
    l: Library,
    backup: Seq<char>,
    target: Seq<char>,
    f: FinishFacts,
)
    ensures
        mentions(
            finish_announcement(backup, target, f, FinishStep::LookAtCopy),
            "\nOriginal    "@ + backup + "\nCopy        "@ + target + "\n"@,
        ),
        mentions(
            finish_closing_text(o, l, backup, target, f, FinishEnding::Finished),
            "The original is still at "@ + backup,
        ),
        mentions(
            finish_closing_text(
                o,
                l,
                backup,
                target,
                f,
                FinishEnding::Refused(FinishRefusal::CopyMissing),
            ),
            target,
        ),
        mentions(
            finish_closing_text(
                o,
                l,
                backup,
                target,
                f,
                FinishEnding::Refused(FinishRefusal::CopyMissing),
            ),
            backup + ". Rename it back to "@ + l.compatdata@,
        ),
        mentions(
            finish_closing_text(
                o,
                l,
                backup,
                target,
                f,
                FinishEnding::Refused(FinishRefusal::NoEvidence),
            ),
            target,
        ),
        mentions(
            finish_closing_text(
                o,
                l,
                backup,
                target,
                f,
                FinishEnding::Refused(FinishRefusal::CopyDiffers),
            ),
            target + " does not match the original at "@ + backup,
        ),
{
    reveal_strlit("State       an earlier run stopped just before the last step\nOriginal    ");
    reveal_strlit("State       an earlier run stopped just before the last step");
    reveal_strlit("\nOriginal    ");
    let state = "State       an earlier run stopped just before the last step"@;
    let part = "\nOriginal    "@ + backup + "\nCopy        "@ + target + "\n"@;
    assert(finish_header_text(backup, target) =~= state + part);
    lemma_mentions_piece(state, part, seq![]);
    reveal_strlit("\nDone. The original is still at ");
    reveal_strlit("\nDone. ");
    reveal_strlit("The original is still at ");
    let left = "The original is still at "@ + backup;
    assert(finished_text(backup) =~= "\nDone. "@ + left + "\n"@);
    lemma_mentions_piece("\nDone. "@, left, "\n"@);
    lemma_copy_missing_has_target(l, backup, target);
    lemma_copy_missing_has_backup(l, backup, target);
    lemma_copy_differs_has_both(l, backup, target);
    lemma_mentions_piece(
        "there is no way to tell whether the copy at "@,
        target,
        " is complete: no record of the interrupted run survived, and there is no original beside \
            the library to compare it against. Nothing was changed."@,
    );
}

/// What vouches for a copy is told apart: the record of the interrupted run, or
/// the original it was compared with.
pub proof fn lemma_what_vouches_is_told(p: Proof)
    ensures
        proof_text(p) == "the copy matches the one the interrupted run verified"@ <==> p is Recorded,
        proof_text(p) == "the copy matches the original still on the game drive"@ <==> p
            is SameAsOriginal,
{
    reveal_strlit("the copy matches the one the interrupted run verified");
    reveal_strlit("the copy matches the original still on the game drive");
    assert("the copy matches the one the interrupted run verified"@[22] == 'n');
    assert("the copy matches the original still on the game drive"@[22] == 'r');
}

/// A run that keeps the destination tells what is kept and where the other copy
/// goes, before and after.
pub proof fn lemma_keep_says_which_is_which(
    o: Options,
    l: Library,
    destination: Seq<char>,
    backup: Seq<char>,
    f: KeepFacts,
)
    ensures
        keep_announcement(destination, backup, KeepStep::ShowIntent) == "Keeping     "@
            + destination + "\nSetting aside the game drive copy as "@ + backup + "\n"@,
        keep_closing_text(o, l, destination, backup, f, KeepEnding::Kept)
            == "\nDone. Steam reads the data at "@ + destination
            + "\nThe copy that was on the game drive is at "@ + backup + "\n"@,
{
}


/// A copy is adopted only when it is the one that was recorded, with the same
/// digest, or when it was compared with the original and found the same; and
/// what is said of it is which of the two it was.
pub proof fn lemma_only_a_vouched_copy_is_adopted(
    o: Options,
    backup: Seq<char>,
    target: Seq<char>,
    f: FinishFacts,
    s: FinishStep,
)
    requires
        finish_next(o, target, f) == FinishNext::Take(s),
        s is ShowEvidence || s is Confirm || s is Identify || s is MakeLink || s is ReadLink
            || s is SyncLinked || s is ClearRecord,
    ensures
        f.copy == Known::Got(true),
        f.record is Got,
        (f.record->Got_0 is Some && alike(f.record->Got_0->Some_0.destination@, target) && f.digest
            is Got && f.digest->Got_0@ == f.record->Got_0->Some_0.digest@) || (f.backup
            == Known::Got(true) && f.same == Known::Got(true)),
        s is ShowEvidence ==> finish_announcement(backup, target, f, s) == "Checked     "@ + if (
        f.record->Got_0 is Some && alike(f.record->Got_0->Some_0.destination@, target) && f.digest
            is Got && f.digest->Got_0@ == f.record->Got_0->Some_0.digest@) {
            proof_text(Proof::Recorded)
        } else {
            proof_text(Proof::SameAsOriginal)
        } + "\n"@,
{
}

/// What is asked of a copy before it is adopted, and when it is turned down.
pub proof fn lemma_how_a_copy_is_vouched_for(o: Options, target: Seq<char>, f: FinishFacts)
    ensures
        f.copy is NotYet ==> finish_next(o, target, f) == FinishNext::Take(FinishStep::LookAtCopy),
        f.copy == Known::Got(false) ==> finish_next(o, target, f) == FinishNext::Stop(
            FinishEnding::Refused(FinishRefusal::CopyMissing),
        ),
        f.copy == Known::Got(true) && f.record is NotYet ==> finish_next(o, target, f)
            == FinishNext::Take(FinishStep::LoadRecord),
        f.copy == Known::Got(true) && f.record is Got && f.record->Got_0 is Some && alike(
            f.record->Got_0->Some_0.destination@,
            target,
        ) && f.digest is NotYet ==> finish_next(o, target, f) == FinishNext::Take(
            FinishStep::DigestCopy,
        ),
        f.copy == Known::Got(true) && f.record is Got && (f.record->Got_0 is None || !alike(
            f.record->Got_0->Some_0.destination@,
            target,
        ) || (f.digest is Got && f.digest->Got_0@ != f.record->Got_0->Some_0.digest@)) ==> {
            &&& f.backup is NotYet ==> finish_next(o, target, f) == FinishNext::Take(
                FinishStep::LookAtBackup,
            )
            &&& f.backup == Known::Got(false) ==> finish_next(o, target, f) == FinishNext::Stop(
                FinishEnding::Refused(FinishRefusal::NoEvidence),
            )
            &&& f.backup == Known::Got(true) && f.same is NotYet ==> finish_next(o, target, f)
                == FinishNext::Take(FinishStep::Compare)
            &&& f.backup == Known::Got(true) && f.same == Known::Got(false) ==> finish_next(
                o,
                target,
                f,
            ) == FinishNext::Stop(FinishEnding::Refused(FinishRefusal::CopyDiffers))
            &&& f.backup == Known::Got(true) && f.same == Known::Got(true) && f.shown is NotYet
                ==> finish_next(o, target, f) == FinishNext::Take(FinishStep::ShowEvidence)
        },
{
}

/// Steps are taken in turn, and a run is not called finished before the last
/// of them.
pub proof fn lemma_finish_steps_are_taken_in_turn(
    o: Options,
    target: Seq<char>,
    f: FinishFacts,
    s: FinishStep,
)
    ensures
        finish_next(o, target, f) == FinishNext::Take(s) ==> match s {
            FinishStep::LookAtCopy => true,
            FinishStep::LoadRecord => f.copy == Known::Got(true),
            FinishStep::DigestCopy => f.record is Got && f.record->Got_0 is Some,
            FinishStep::LookAtBackup => f.record is Got,
            FinishStep::Compare => f.backup == Known::Got(true),
            FinishStep::ShowEvidence => f.record is Got,
            FinishStep::Confirm => f.shown is Got && !o.dry_run && !o.assume_yes,
            FinishStep::Identify => f.shown is Got && !o.dry_run && o.expect is Some && (
            o.assume_yes || f.confirmed == Known::Got(true)),
            FinishStep::MakeLink => f.shown is Got && !o.dry_run && (o.assume_yes || f.confirmed
                == Known::Got(true)) && (o.expect is Some ==> f.identity is Got
                && f.identity->Got_0@ == o.expect->Some_0@),
            FinishStep::ReadLink => f.make_link is Got,
            FinishStep::SyncLinked => f.link is Got && f.link->Got_0.is_symlink && alike(
                f.link->Got_0.points_at@,
                target,
            ) && f.link->Got_0.readable,
            FinishStep::ClearRecord => f.sync_linked is Got,
        },
        finish_next(o, target, f) == FinishNext::Stop(FinishEnding::Finished) ==> !(f.clear_record
            is NotYet),
        finish_next(o, target, f) != FinishNext::Failed(FinishStep::ClearRecord),
{
}

/// Steps are taken in turn, and the destination is not called kept before the
/// last of them. That the drive could not be flushed does not stop it.
pub proof fn lemma_keep_steps_are_taken_in_turn(
    o: Options,
    destination: Seq<char>,
    f: KeepFacts,
    s: KeepStep,
)
    ensures
        keep_next(o, destination, f) == KeepNext::Take(s) ==> match s {
            KeepStep::ShowIntent => f.shown is NotYet,
            KeepStep::Confirm => f.shown is Got && !o.dry_run && !o.assume_yes,
            KeepStep::Identify => f.shown is Got && !o.dry_run && o.expect is Some,
            KeepStep::OpenLibrary => f.shown is Got && !o.dry_run && (o.assume_yes || f.confirmed
                == Known::Got(true)) && (o.expect is Some ==> f.identity is Got
                && f.identity->Got_0@ == o.expect->Some_0@),
            KeepStep::LookAtSource => f.open_library is Got,
            KeepStep::MoveSource => f.present == Known::Got(true),
            KeepStep::MakeLink => f.present is Got && (f.present->Got_0 ==> f.move_source is Got),
            KeepStep::ReadLink => f.make_link is Got,
            KeepStep::SyncLinked => f.link is Got && f.link->Got_0.is_symlink && alike(
                f.link->Got_0.points_at@,
                destination,
            ) && f.link->Got_0.readable,
        },
        keep_next(o, destination, f) == KeepNext::Stop(KeepEnding::Kept) ==> !(f.sync_linked
            is NotYet) && f.open_library is Got && !o.dry_run,
        keep_next(o, destination, f) == KeepNext::Stop(KeepEnding::Changed) ==> o.expect is Some
            && f.identity->Got_0@ != o.expect->Some_0@,
        keep_next(o, destination, f) matches Next::Stop(KeepEnding::Refused(fault)) ==> match fault {
            LinkFault::NotSymlink => !f.link->Got_0.is_symlink,
            LinkFault::Elsewhere => !alike(f.link->Got_0.points_at@, destination),
            LinkFault::Unreadable => !f.link->Got_0.readable,
        },
        keep_next(o, destination, f) != KeepNext::Failed(KeepStep::SyncLinked),
{
}


/// How a run that finishes an earlier one, or keeps what is at the destination,
/// says that it stopped.
pub proof fn lemma_why_a_recovery_stopped_is_told(
    o: Options,
    l: Library,
    backup: Seq<char>,
    target: Seq<char>,
    f: FinishFacts,
    k: KeepFacts,
)
    ensures
        finish_closing_text(o, l, backup, target, f, FinishEnding::DryRun)
            == "\nDry run. The remaining step is to create the link.\n"@,
        finish_closing_text(o, l, backup, target, f, FinishEnding::Cancelled)
            == "Cancelled. Nothing was changed.\n"@,
        keep_closing_text(o, l, target, backup, k, KeepEnding::DryRun)
            == "\nDry run. Nothing was changed.\n"@,
        keep_closing_text(o, l, target, backup, k, KeepEnding::Cancelled)
            == "Cancelled. Nothing was changed.\n"@,
        mentions(
            finish_closing_text(
                o,
                l,
                backup,
                target,
                f,
                FinishEnding::Refused(FinishRefusal::Changed),
            ),
            " It was "@ + o.expect->Some_0@ + " and is now "@ + f.identity->Got_0@ + "."@,
        ),
        mentions(
            keep_closing_text(o, l, target, backup, k, KeepEnding::Changed),
            " It was "@ + o.expect->Some_0@ + " and is now "@ + k.identity->Got_0@ + "."@,
        ),
        finish_announcement(backup, target, f, FinishStep::Confirm)
            == "\nCreate the link and finish? [y/N] "@,
        keep_announcement(target, backup, KeepStep::Confirm) == "\nContinue? [y/N] "@,
{
    lemma_change_is_told(o.expect->Some_0@, f.identity->Got_0@);
    lemma_change_is_told(o.expect->Some_0@, k.identity->Got_0@);
}

proof fn lemma_change_is_told(expect: Seq<char>, identity: Seq<char>)
    ensures
        mentions(
            plan_changed_text(expect, identity),
            " It was "@ + expect + " and is now "@ + identity + "."@,
        ),
{
    reveal_strlit("this library has changed since the plan was reviewed. It was ");
    reveal_strlit("this library has changed since the plan was reviewed.");
    reveal_strlit(" It was ");
    reveal_strlit(". Nothing was done. Review it again.");
    reveal_strlit(".");
    reveal_strlit(" Nothing was done. Review it again.");
    let head = "this library has changed since the plan was reviewed."@;
    let tail = " Nothing was done. Review it again."@;
    assert("this library has changed since the plan was reviewed. It was "@ =~= head
        + " It was "@);
    assert(". Nothing was done. Review it again."@ =~= "."@ + tail);
    let part = " It was "@ + expect + " and is now "@ + identity + "."@;
    assert(plan_changed_text(expect, identity) =~= head + part + tail);
    lemma_mentions_piece(head, part, tail);
}

} // verus!
