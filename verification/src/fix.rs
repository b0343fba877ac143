//! Repairing a library: moving its Proton data to a Linux filesystem and
//! leaving a link where Steam expects it.
//!
//! Everything that could stand in the way is looked at before anything is
//! changed. The data is copied and the copy checked before the library is
//! touched, and the original is set aside rather than removed.

use vstd::prelude::*;

use crate::library::{
    capability, capability_of, Capability, Library, Mount, Options, Report, Size, State,
};
use crate::path::{alike, same_path};
use crate::protocol::{
    changes, check_link, link_fault, or, preflight, reaches_library, tries, try_once, unready,
    wait_for, waits, Effect, Known, LinkFault, LinkSeen, Next, Unready,
};
use crate::text::same_text;

verus! {

/// Room left for the prefix to grow after the move, over and above the bytes
/// being copied. A policy choice, not a Proton requirement.
pub const GROWTH_RESERVE: u64 = 2147483648;

/// A relative link that leads out of the tree it is in.
#[derive(Debug)]
pub struct Escape {
    pub from: String,
    pub to: String,
}

/// What a walk of a tree found.
#[derive(Debug)]
pub struct Inventory {
    pub entries: usize,
    pub bytes: Size,
    /// A digest of every entry and its contents.
    pub digest: String,
    /// Files with more than one name.
    pub hard_linked: usize,
    /// Files stored with holes, and what filling the holes costs.
    pub sparse: usize,
    pub sparse_saving: Size,
    pub escaping: Vec<Escape>,
}

/// How much is in a tree.
#[derive(Debug)]
pub struct Extent {
    pub files: usize,
    pub bytes: Size,
}

/// How much is at the destination, and in the library where it has any.
#[derive(Debug)]
pub struct Both {
    pub there: Extent,
    pub here: Option<Extent>,
}

/// What the library holds, and the names a repair would use.
#[derive(Debug)]
pub struct Scope {
    /// The app ids of the games that are installed.
    pub installed: Vec<String>,
    /// The folders in the library's compatdata.
    pub folders: Vec<String>,
    /// Where the original would be kept.
    pub backup: String,
    /// Where a copy at the destination would be moved to.
    pub aside: String,
}

/// What a copy of a tree did.
#[derive(Debug)]
pub struct Copied {
    pub files: usize,
    pub dirs: usize,
    pub symlinks: usize,
    pub hard_linked: usize,
    pub bytes: Size,
}

/// What stands at a name in a directory.
#[derive(Debug)]
pub struct Standing {
    pub directory: bool,
    pub label: String,
}

/// One thing to do or find out.
#[derive(Debug, Clone, Copy, PartialEq, Eq, Structural)]
pub enum Step {
    Lock,
    Inspect,
    Processes,
    LibraryMount,
    TargetMount,
    SameDirectory,
    Inventory,
    Digest,
    SameData,
    Extents,
    FreeSpace,
    Scope,
    ShowPlan,
    Confirm,
    InspectAgain,
    InventoryAgain,
    DigestAgain,
    Probe,
    CreateParent,
    LookAtTarget,
    SetTargetAside,
    Copy,
    CheckCopy,
    CheckSource,
    NameBackup,
    WriteRecord,
    SyncCopy,
    Publish,
    SyncPublished,
    NotePublished,
    OpenLibrary,
    LookAtSource,
    ResolveSource,
    MoveOriginal,
    SyncMoved,
    NoteBackedUp,
    CreateTarget,
    SyncCreated,
    MakeLink,
    ReadLink,
    SyncLinked,
    ClearRecord,
    NoteEvidence,
    FindBackup,
}

/// Why a repair is refused.
#[derive(Debug, Clone, Copy, PartialEq, Eq, Structural)]
pub enum Refusal {
    Unready(Unready),
    State,
    NoSymlinks,
    Native,
    Unidentified,
    SameFilesystem,
    /// The destination is on a filesystem that cannot hold Proton data.
    Destination,
    SameDirectory,
    Escaping,
    Conflict,
    NoRoom,
    /// The plan is not the one that was reviewed.
    Changed,
    /// It changed while it was being confirmed.
    ChangedAgain,
    CopyDiffers,
    SourceChanged,
    SourceReplaced,
    SourceMoved,
    Link(LinkFault),
}

/// How a run ends.
#[derive(Debug, Clone, Copy, PartialEq, Eq, Structural)]
pub enum Ending {
    AlreadyRepaired,
    /// An earlier run is to be finished instead.
    Interrupted,
    /// What is at the destination is to be kept instead.
    Keep,
    /// The plan as a document.
    Plan,
    DryRun,
    Cancelled,
    Applied,
    Refused(Refusal),
}

pub type FixNext = Next<Step, Ending>;

/// What is known of a run so far.
#[derive(Debug)]
pub struct Facts {
    pub lock: Known<()>,
    pub report: Known<Report>,
    pub running: Known<Vec<String>>,
    pub mount: Known<Option<Mount>>,
    /// What is mounted where the destination would go.
    pub target_mount: Known<Option<Mount>>,
    pub same_directory: Known<bool>,
    pub inventory: Known<Inventory>,
    pub fingerprint: Known<String>,
    /// Whether the destination already holds the same data.
    pub same_data: Known<bool>,
    pub extents: Known<Both>,
    /// What is free where the destination would go, where that can be told.
    pub free: Known<Option<Size>>,
    pub scope: Known<Scope>,
    pub shown: Known<()>,
    pub confirmed: Known<bool>,
    pub report_again: Known<Report>,
    pub inventory_again: Known<Inventory>,
    pub fingerprint_again: Known<String>,
    pub probe: Known<()>,
    pub parent: Known<()>,
    /// Whether anything is at the destination.
    pub target_present: Known<bool>,
    /// Where it was moved to.
    pub set_aside: Known<String>,
    pub copy: Known<Copied>,
    /// In what the copy differs from what was copied.
    pub problems: Known<Vec<String>>,
    /// In what the source differs from what was copied.
    pub changed: Known<Vec<String>>,
    pub backup: Known<String>,
    pub record: Known<()>,
    pub sync_copy: Known<()>,
    pub publish: Known<()>,
    pub sync_published: Known<()>,
    pub note_published: Known<()>,
    pub open_library: Known<()>,
    pub source: Known<Standing>,
    pub resolves: Known<bool>,
    pub move_original: Known<()>,
    pub sync_moved: Known<()>,
    pub note_backed_up: Known<()>,
    pub create_target: Known<()>,
    pub sync_created: Known<()>,
    pub make_link: Known<()>,
    pub link: Known<LinkSeen>,
    pub sync_linked: Known<()>,
    pub clear_record: Known<()>,
    pub note_evidence: Known<()>,
    /// The first original kept beside the library.
    pub found_backup: Known<Option<String>>,
}

// ----------------------------------------------------------- what comes next

pub open spec fn refuse(r: Refusal) -> Option<FixNext> {
    Some(Next::Stop(Ending::Refused(r)))
}

/// Whether the library has Proton data to move.
pub open spec fn has_source(report: Report) -> bool {
    report.state is NotRepaired
}

pub fn source_exists(report: &Report) -> (yes: bool)
    ensures
        yes == has_source(*report),
{
    matches!(report.state, State::NotRepaired { .. })
}

/// Whether the plan is the one that was reviewed, where one was.
pub open spec fn expected(o: Options, fingerprint: Seq<char>) -> bool {
    match o.expect {
        Some(e) => e@ == fingerprint,
        None => true,
    }
}

/// Where a plan was quoted, it has to be the one that was reviewed, whichever
/// way the run goes on.
pub open spec fn quoted(o: Options, f: Facts) -> Option<FixNext> {
    if o.expect is None {
        None
    } else {
        or(
            waits(f.fingerprint, Step::Digest),
            if expected(o, f.fingerprint->Got_0@) {
                None
            } else {
                refuse(Refusal::Changed)
            },
        )
    }
}

/// What the state of the library says by itself.
pub open spec fn by_state(state: State) -> Option<FixNext> {
    match state {
        State::Repaired { .. } => Some(Next::Stop(Ending::AlreadyRepaired)),
        State::InterruptedAwaitingLink { .. } => Some(Next::Stop(Ending::Interrupted)),
        State::NotRepaired { .. } => None,
        State::NoCompatdata => None,
        _ => refuse(Refusal::State),
    }
}

/// What the filesystem under the library says by itself. Repairing something
/// that cannot be identified is how a tool reports success without
/// establishing that it fixed anything.
pub open spec fn by_filesystem(c: Option<Capability>, force: bool) -> Option<FixNext> {
    match c {
        Some(Capability::NoSymlinks) => refuse(Refusal::NoSymlinks),
        Some(Capability::Native) => if force {
            None
        } else {
            refuse(Refusal::Native)
        },
        Some(Capability::NeedsRepair) => None,
        _ => if force {
            None
        } else {
            refuse(Refusal::Unidentified)
        },
    }
}

/// Whether Proton data cannot live on a filesystem. What cannot be identified
/// may be a Linux filesystem, so only what is known not to be one counts.
pub open spec fn is_unfit(c: Option<Capability>) -> bool {
    c == Some(Capability::NoSymlinks) || c == Some(Capability::NeedsRepair)
}

/// Whether two mounts are one.
pub open spec fn one_mount(a: Option<Mount>, b: Option<Mount>) -> bool {
    match (a, b) {
        (Some(x), Some(y)) => alike(x.mount_point@, y.mount_point@),
        _ => false,
    }
}

/// What the filesystem under the destination says by itself. It has to be
/// another one than the library's, and one that can hold Proton data. Neither
/// can be overruled.
pub open spec fn by_destination(mount: Option<Mount>, target_mount: Option<Mount>) -> Option<
    FixNext,
> {
    if one_mount(mount, target_mount) {
        refuse(Refusal::SameFilesystem)
    } else if is_unfit(capability_of(target_mount)) {
        refuse(Refusal::Destination)
    } else {
        None
    }
}

/// What has to be looked at before anything else, up to the plan's identity.
pub open spec fn checks(o: Options, f: Facts) -> Option<FixNext> {
    let locked = if o.dry_run {
        None
    } else {
        waits(f.lock, Step::Lock)
    };
    or(
        locked,
        or(
            waits(f.report, Step::Inspect),
            or(
                waits(f.running, Step::Processes),
                or(
                    if f.running->Got_0@.len() > 0 {
                        refuse(Refusal::Unready(Unready::Running))
                    } else {
                        None
                    },
                    or(
                        waits(f.mount, Step::LibraryMount),
                        or(
                            match unready(f.running->Got_0@, f.mount->Got_0) {
                                Some(u) => refuse(Refusal::Unready(u)),
                                None => None,
                            },
                            or(
                                or(
                                    if f.report->Got_0.state is InterruptedAwaitingLink {
                                        quoted(o, f)
                                    } else {
                                        None
                                    },
                                    by_state(f.report->Got_0.state),
                                ),
                                or(
                                    by_filesystem(capability_of(f.mount->Got_0), o.force),
                                    or(
                                        waits(f.target_mount, Step::TargetMount),
                                        or(
                                            by_destination(
                                                f.mount->Got_0,
                                                f.target_mount->Got_0,
                                            ),
                                            source_checks(f),
                                        ),
                                    ),
                                ),
                            ),
                        ),
                    ),
                ),
            ),
        ),
    )
}

/// What has to be known of the data itself.
pub open spec fn source_checks(f: Facts) -> Option<FixNext> {
    or(
        waits(f.same_directory, Step::SameDirectory),
        or(
            if f.same_directory->Got_0 {
                refuse(Refusal::SameDirectory)
            } else {
                None
            },
            or(
                if !has_source(f.report->Got_0) {
                    None
                } else {
                    or(
                        waits(f.inventory, Step::Inventory),
                        if f.inventory->Got_0.escaping@.len() > 0 {
                            refuse(Refusal::Escaping)
                        } else {
                            None
                        },
                    )
                },
                waits(f.fingerprint, Step::Digest),
            ),
        ),
    )
}

/// Something is already at the destination. If it is the same tree, it is the
/// leftover from an undone repair. If it differs, it is never guessed which
/// one the user wants.
pub open spec fn destination(o: Options, f: Facts) -> Option<FixNext> {
    let report = f.report->Got_0;
    if report.existing_destination is None {
        None
    } else {
        or(
            if has_source(report) {
                waits(f.same_data, Step::SameData)
            } else {
                None
            },
            if !(has_source(report) && f.same_data->Got_0) && !o.keep_destination
                && !o.replace_destination {
                or(waits(f.extents, Step::Extents), refuse(Refusal::Conflict))
            } else if o.keep_destination {
                or(quoted(o, f), Some(Next::Stop(Ending::Keep)))
            } else {
                None
            },
        )
    }
}

/// How much room a repair needs. Holes in the source become real bytes in the
/// copy, so it is the logical size plus what filling them costs, plus the
/// reserve.
pub open spec fn needed(f: Facts) -> nat {
    if has_source(f.report->Got_0) {
        (f.inventory->Got_0.bytes.bytes + f.inventory->Got_0.sparse_saving.bytes
            + GROWTH_RESERVE) as nat
    } else {
        GROWTH_RESERVE as nat
    }
}

pub open spec fn room(f: Facts) -> Option<FixNext> {
    or(
        waits(f.free, Step::FreeSpace),
        match f.free->Got_0 {
            Some(free) => if free.bytes < needed(f) {
                refuse(Refusal::NoRoom)
            } else {
                None
            },
            None => None,
        },
    )
}

/// The plan is shown, and agreed to. The user may take time over that, so the
/// state and the source are read again where a plan was quoted.
pub open spec fn consent(o: Options, f: Facts) -> Option<FixNext> {
    or(
        waits(f.scope, Step::Scope),
        if o.json && o.dry_run {
            Some(Next::Stop(Ending::Plan))
        } else {
            or(
                waits(f.shown, Step::ShowPlan),
                if !expected(o, f.fingerprint->Got_0@) {
                    refuse(Refusal::Changed)
                } else if o.dry_run {
                    Some(Next::Stop(Ending::DryRun))
                } else {
                    or(
                        if o.assume_yes {
                            None
                        } else {
                            or(
                                waits(f.confirmed, Step::Confirm),
                                if f.confirmed->Got_0 {
                                    None
                                } else {
                                    Some(Next::Stop(Ending::Cancelled))
                                },
                            )
                        },
                        if o.expect is None {
                            None
                        } else {
                            again(o, f)
                        },
                    )
                },
            )
        },
    )
}

pub open spec fn again(o: Options, f: Facts) -> Option<FixNext> {
    or(
        waits(f.report_again, Step::InspectAgain),
        or(
            if has_source(f.report_again->Got_0) {
                waits(f.inventory_again, Step::InventoryAgain)
            } else {
                None
            },
            or(
                waits(f.fingerprint_again, Step::DigestAgain),
                if expected(o, f.fingerprint_again->Got_0@) {
                    None
                } else {
                    refuse(Refusal::ChangedAgain)
                },
            ),
        ),
    )
}

/// The destination is made ready. What is left there by an earlier repair is
/// given another name.
pub open spec fn prepare(f: Facts) -> Option<FixNext> {
    or(
        waits(f.probe, Step::Probe),
        or(
            waits(f.parent, Step::CreateParent),
            or(
                waits(f.target_present, Step::LookAtTarget),
                if f.target_present->Got_0 {
                    waits(f.set_aside, Step::SetTargetAside)
                } else {
                    None
                },
            ),
        ),
    )
}

/// The data is copied, and both the copy and the source are checked against
/// what was copied.
pub open spec fn copying(f: Facts) -> Option<FixNext> {
    or(
        waits(f.copy, Step::Copy),
        or(
            waits(f.problems, Step::CheckCopy),
            or(
                if f.problems->Got_0@.len() > 0 {
                    refuse(Refusal::CopyDiffers)
                } else {
                    None
                },
                or(
                    waits(f.changed, Step::CheckSource),
                    if f.changed->Got_0@.len() > 0 {
                        refuse(Refusal::SourceChanged)
                    } else {
                        None
                    },
                ),
            ),
        ),
    )
}

/// The copy is published. Each step is on disk before the next one starts.
pub open spec fn publishing(f: Facts) -> Option<FixNext> {
    or(
        waits(f.backup, Step::NameBackup),
        or(
            waits(f.record, Step::WriteRecord),
            or(
                waits(f.sync_copy, Step::SyncCopy),
                or(
                    waits(f.publish, Step::Publish),
                    or(
                        waits(f.sync_published, Step::SyncPublished),
                        waits(f.note_published, Step::NotePublished),
                    ),
                ),
            ),
        ),
    )
}

/// The last look before the library is touched.
pub open spec fn cutover_blocked(source: Standing, resolves: Known<bool>) -> Option<FixNext> {
    if !source.directory {
        refuse(Refusal::SourceReplaced)
    } else {
        or(
            waits(resolves, Step::ResolveSource),
            if resolves->Got_0 {
                None
            } else {
                refuse(Refusal::SourceMoved)
            },
        )
    }
}

/// The original is set aside.
pub open spec fn cutover(f: Facts) -> Option<FixNext> {
    or(
        waits(f.open_library, Step::OpenLibrary),
        or(
            waits(f.source, Step::LookAtSource),
            or(
                cutover_blocked(f.source->Got_0, f.resolves),
                or(
                    waits(f.move_original, Step::MoveOriginal),
                    or(
                        waits(f.sync_moved, Step::SyncMoved),
                        waits(f.note_backed_up, Step::NoteBackedUp),
                    ),
                ),
            ),
        ),
    )
}

/// The link is made and looked at, and the run is wound up.
pub open spec fn linking(l: Library, f: Facts) -> Option<FixNext> {
    or(
        waits(f.make_link, Step::MakeLink),
        or(
            waits(f.link, Step::ReadLink),
            or(
                match link_fault(l.effective_target@, f.link->Got_0) {
                    Some(fault) => refuse(Refusal::Link(fault)),
                    None => None,
                },
                or(
                    waits(f.sync_linked, Step::SyncLinked),
                    or(
                        tries(f.clear_record, Step::ClearRecord),
                        or(
                            tries(f.note_evidence, Step::NoteEvidence),
                            tries(f.found_backup, Step::FindBackup),
                        ),
                    ),
                ),
            ),
        ),
    )
}

/// Everything that comes before the first change.
pub open spec fn review(o: Options, f: Facts) -> Option<FixNext> {
    or(checks(o, f), or(destination(o, f), or(room(f), consent(o, f))))
}

/// What moves the data.
pub open spec fn moving(f: Facts) -> Option<FixNext> {
    if has_source(f.report->Got_0) {
        or(copying(f), or(publishing(f), cutover(f)))
    } else {
        or(waits(f.create_target, Step::CreateTarget), waits(f.sync_created, Step::SyncCreated))
    }
}

/// What comes next in a repair.
pub open spec fn next(o: Options, l: Library, f: Facts) -> FixNext {
    match or(review(o, f), or(prepare(f), or(moving(f), linking(l, f)))) {
        Some(n) => n,
        None => Next::Stop(Ending::Applied),
    }
}

fn quoted_next(o: &Options, f: &Facts) -> (n: Option<FixNext>)
    ensures
        n == quoted(*o, *f),
{
    if o.expect.is_none() {
        return None;
    }
    let fingerprint = match &f.fingerprint {
        Known::NotYet => return Some(Next::Take(Step::Digest)),
        Known::Failed => return Some(Next::Failed(Step::Digest)),
        Known::Got(x) => x,
    };
    if ensure_expected_plan(&o.expect, fingerprint.as_str()) {
        None
    } else {
        Some(Next::Stop(Ending::Refused(Refusal::Changed)))
    }
}

fn state_next(state: &State) -> (n: Option<FixNext>)
    ensures
        n == by_state(*state),
{
    match state {
        State::Repaired { .. } => Some(Next::Stop(Ending::AlreadyRepaired)),
        State::InterruptedAwaitingLink { .. } => Some(Next::Stop(Ending::Interrupted)),
        State::NotRepaired { .. } => None,
        State::NoCompatdata => None,
        _ => Some(Next::Stop(Ending::Refused(Refusal::State))),
    }
}

fn filesystem_next(c: Option<Capability>, force: bool) -> (n: Option<FixNext>)
    ensures
        n == by_filesystem(c, force),
{
    match c {
        Some(Capability::NoSymlinks) => Some(Next::Stop(Ending::Refused(Refusal::NoSymlinks))),
        Some(Capability::Native) => if force {
            None
        } else {
            Some(Next::Stop(Ending::Refused(Refusal::Native)))
        },
        Some(Capability::NeedsRepair) => None,
        _ => if force {
            None
        } else {
            Some(Next::Stop(Ending::Refused(Refusal::Unidentified)))
        },
    }
}

fn unfit(c: Option<Capability>) -> (yes: bool)
    ensures
        yes == is_unfit(c),
{
    matches!(c, Some(Capability::NoSymlinks) | Some(Capability::NeedsRepair))
}

fn same_mount(a: &Option<Mount>, b: &Option<Mount>) -> (yes: bool)
    ensures
        yes == one_mount(*a, *b),
{
    match a {
        None => false,
        Some(x) => match b {
            None => false,
            Some(y) => same_path(x.mount_point.as_str(), y.mount_point.as_str()),
        },
    }
}

fn checks_next(o: &Options, f: &Facts) -> (n: Option<FixNext>)
    ensures
        n == checks(*o, *f),
{
    if !o.dry_run {
        let n = wait_for(&f.lock, Step::Lock);
        if n.is_some() {
            return n;
        }
    }
    let report = match &f.report {
        Known::NotYet => return Some(Next::Take(Step::Inspect)),
        Known::Failed => return Some(Next::Failed(Step::Inspect)),
        Known::Got(x) => x,
    };
    let running = match &f.running {
        Known::NotYet => return Some(Next::Take(Step::Processes)),
        Known::Failed => return Some(Next::Failed(Step::Processes)),
        Known::Got(x) => x,
    };
    if running.len() > 0 {
        return Some(Next::Stop(Ending::Refused(Refusal::Unready(Unready::Running))));
    }
    let mount = match &f.mount {
        Known::NotYet => return Some(Next::Take(Step::LibraryMount)),
        Known::Failed => return Some(Next::Failed(Step::LibraryMount)),
        Known::Got(x) => x,
    };
    match preflight(running, mount) {
        Some(u) => {
            return Some(Next::Stop(Ending::Refused(Refusal::Unready(u))));
        },
        None => {},
    }
    if matches!(report.state, State::InterruptedAwaitingLink { .. }) {
        let n = quoted_next(o, f);
        if n.is_some() {
            return n;
        }
    }
    let n = state_next(&report.state);
    if n.is_some() {
        return n;
    }
    let n = filesystem_next(capability(mount), o.force);
    if n.is_some() {
        return n;
    }
    let target_mount = match &f.target_mount {
        Known::NotYet => return Some(Next::Take(Step::TargetMount)),
        Known::Failed => return Some(Next::Failed(Step::TargetMount)),
        Known::Got(x) => x,
    };
    if same_mount(mount, target_mount) {
        return Some(Next::Stop(Ending::Refused(Refusal::SameFilesystem)));
    }
    if unfit(capability(target_mount)) {
        return Some(Next::Stop(Ending::Refused(Refusal::Destination)));
    }
    source_next(f)
}

fn source_next(f: &Facts) -> (n: Option<FixNext>)
    requires
        f.report is Got,
    ensures
        n == source_checks(*f),
{
    let report = match &f.report {
        Known::NotYet => return Some(Next::Take(Step::Inspect)),
        Known::Failed => return Some(Next::Failed(Step::Inspect)),
        Known::Got(x) => x,
    };
    let same = match &f.same_directory {
        Known::NotYet => return Some(Next::Take(Step::SameDirectory)),
        Known::Failed => return Some(Next::Failed(Step::SameDirectory)),
        Known::Got(x) => x,
    };
    if *same {
        return Some(Next::Stop(Ending::Refused(Refusal::SameDirectory)));
    }
    if source_exists(report) {
        let inventory = match &f.inventory {
            Known::NotYet => return Some(Next::Take(Step::Inventory)),
            Known::Failed => return Some(Next::Failed(Step::Inventory)),
            Known::Got(x) => x,
        };
        if inventory.escaping.len() > 0 {
            return Some(Next::Stop(Ending::Refused(Refusal::Escaping)));
        }
    }
    wait_for(&f.fingerprint, Step::Digest)
}

fn destination_next(o: &Options, f: &Facts) -> (n: Option<FixNext>)
    requires
        f.report is Got,
    ensures
        n == destination(*o, *f),
{
    let report = match &f.report {
        Known::NotYet => return Some(Next::Take(Step::Inspect)),
        Known::Failed => return Some(Next::Failed(Step::Inspect)),
        Known::Got(x) => x,
    };
    if report.existing_destination.is_none() {
        return None;
    }
    let same = if source_exists(report) {
        match &f.same_data {
            Known::NotYet => return Some(Next::Take(Step::SameData)),
            Known::Failed => return Some(Next::Failed(Step::SameData)),
            Known::Got(x) => *x,
        }
    } else {
        false
    };
    if !same && !o.keep_destination && !o.replace_destination {
        let n = wait_for(&f.extents, Step::Extents);
        if n.is_some() {
            return n;
        }
        return Some(Next::Stop(Ending::Refused(Refusal::Conflict)));
    }
    if o.keep_destination {
        match quoted_next(o, f) {
            Some(n) => Some(n),
            None => Some(Next::Stop(Ending::Keep)),
        }
    } else {
        None
    }
}

/// Whether there is less room than a repair needs.
fn too_little(f: &Facts, free: u64) -> (yes: bool)
    requires
        f.report is Got,
        has_source(f.report->Got_0) ==> f.inventory is Got,
    ensures
        yes == (free < needed(*f)),
{
    let mut need: u128 = GROWTH_RESERVE as u128;
    match &f.report {
        Known::Got(report) => if source_exists(report) {
            match &f.inventory {
                Known::Got(inventory) => {
                    need = need + inventory.bytes.bytes as u128 + inventory.sparse_saving.bytes
                        as u128;
                },
                _ => {},
            }
        },
        _ => {},
    }
    (free as u128) < need
}

fn room_next(f: &Facts) -> (n: Option<FixNext>)
    requires
        f.report is Got,
        has_source(f.report->Got_0) ==> f.inventory is Got,
    ensures
        n == room(*f),
{
    let free = match &f.free {
        Known::NotYet => return Some(Next::Take(Step::FreeSpace)),
        Known::Failed => return Some(Next::Failed(Step::FreeSpace)),
        Known::Got(x) => x,
    };
    match free {
        Some(free) => if too_little(f, free.bytes) {
            Some(Next::Stop(Ending::Refused(Refusal::NoRoom)))
        } else {
            None
        },
        None => None,
    }
}

/// Whether the plan is the one that was reviewed, where one was.
pub fn ensure_expected_plan(expect: &Option<String>, fingerprint: &str) -> (yes: bool)
    ensures
        yes == match *expect {
            Some(e) => e@ == fingerprint@,
            None => true,
        },
{
    match expect {
        Some(e) => same_text(e.as_str(), fingerprint),
        None => true,
    }
}

fn consent_next(o: &Options, f: &Facts) -> (n: Option<FixNext>)
    requires
        f.fingerprint is Got,
    ensures
        n == consent(*o, *f),
{
    let n = wait_for(&f.scope, Step::Scope);
    if n.is_some() {
        return n;
    }
    if o.json && o.dry_run {
        return Some(Next::Stop(Ending::Plan));
    }
    let n = wait_for(&f.shown, Step::ShowPlan);
    if n.is_some() {
        return n;
    }
    let fingerprint = match &f.fingerprint {
        Known::NotYet => return Some(Next::Take(Step::Digest)),
        Known::Failed => return Some(Next::Failed(Step::Digest)),
        Known::Got(x) => x,
    };
    if !ensure_expected_plan(&o.expect, fingerprint.as_str()) {
        return Some(Next::Stop(Ending::Refused(Refusal::Changed)));
    }
    if o.dry_run {
        return Some(Next::Stop(Ending::DryRun));
    }
    if !o.assume_yes {
        let confirmed = match &f.confirmed {
            Known::NotYet => return Some(Next::Take(Step::Confirm)),
            Known::Failed => return Some(Next::Failed(Step::Confirm)),
            Known::Got(x) => x,
        };
        if !*confirmed {
            return Some(Next::Stop(Ending::Cancelled));
        }
    }
    if o.expect.is_none() {
        None
    } else {
        again_next(o, f)
    }
}

fn again_next(o: &Options, f: &Facts) -> (n: Option<FixNext>)
    ensures
        n == again(*o, *f),
{
    let report = match &f.report_again {
        Known::NotYet => return Some(Next::Take(Step::InspectAgain)),
        Known::Failed => return Some(Next::Failed(Step::InspectAgain)),
        Known::Got(x) => x,
    };
    if source_exists(report) {
        let n = wait_for(&f.inventory_again, Step::InventoryAgain);
        if n.is_some() {
            return n;
        }
    }
    let fingerprint = match &f.fingerprint_again {
        Known::NotYet => return Some(Next::Take(Step::DigestAgain)),
        Known::Failed => return Some(Next::Failed(Step::DigestAgain)),
        Known::Got(x) => x,
    };
    if ensure_expected_plan(&o.expect, fingerprint.as_str()) {
        None
    } else {
        Some(Next::Stop(Ending::Refused(Refusal::ChangedAgain)))
    }
}

fn prepare_next(f: &Facts) -> (n: Option<FixNext>)
    ensures
        n == prepare(*f),
{
    let n = wait_for(&f.probe, Step::Probe);
    if n.is_some() {
        return n;
    }
    let n = wait_for(&f.parent, Step::CreateParent);
    if n.is_some() {
        return n;
    }
    let present = match &f.target_present {
        Known::NotYet => return Some(Next::Take(Step::LookAtTarget)),
        Known::Failed => return Some(Next::Failed(Step::LookAtTarget)),
        Known::Got(x) => x,
    };
    if *present {
        wait_for(&f.set_aside, Step::SetTargetAside)
    } else {
        None
    }
}

fn copying_next(f: &Facts) -> (n: Option<FixNext>)
    ensures
        n == copying(*f),
{
    let n = wait_for(&f.copy, Step::Copy);
    if n.is_some() {
        return n;
    }
    let problems = match &f.problems {
        Known::NotYet => return Some(Next::Take(Step::CheckCopy)),
        Known::Failed => return Some(Next::Failed(Step::CheckCopy)),
        Known::Got(x) => x,
    };
    if problems.len() > 0 {
        return Some(Next::Stop(Ending::Refused(Refusal::CopyDiffers)));
    }
    let changed = match &f.changed {
        Known::NotYet => return Some(Next::Take(Step::CheckSource)),
        Known::Failed => return Some(Next::Failed(Step::CheckSource)),
        Known::Got(x) => x,
    };
    if changed.len() > 0 {
        return Some(Next::Stop(Ending::Refused(Refusal::SourceChanged)));
    }
    None
}

fn publishing_next(f: &Facts) -> (n: Option<FixNext>)
    ensures
        n == publishing(*f),
{
    let n = wait_for(&f.backup, Step::NameBackup);
    if n.is_some() {
        return n;
    }
    let n = wait_for(&f.record, Step::WriteRecord);
    if n.is_some() {
        return n;
    }
    let n = wait_for(&f.sync_copy, Step::SyncCopy);
    if n.is_some() {
        return n;
    }
    let n = wait_for(&f.publish, Step::Publish);
    if n.is_some() {
        return n;
    }
    let n = wait_for(&f.sync_published, Step::SyncPublished);
    if n.is_some() {
        return n;
    }
    wait_for(&f.note_published, Step::NotePublished)
}

/// The last look before the library is touched. The type is read through the
/// opened directory rather than by path, and the name has to resolve without
/// leaving that directory.
fn cutover_precheck(source: &Standing, resolves: &Known<bool>) -> (n: Option<FixNext>)
    ensures
        n == cutover_blocked(*source, *resolves),
{
    if !source.directory {
        return Some(Next::Stop(Ending::Refused(Refusal::SourceReplaced)));
    }
    match resolves {
        Known::NotYet => Some(Next::Take(Step::ResolveSource)),
        Known::Failed => Some(Next::Failed(Step::ResolveSource)),
        Known::Got(inside) => if *inside {
            None
        } else {
            Some(Next::Stop(Ending::Refused(Refusal::SourceMoved)))
        },
    }
}

fn cutover_next(f: &Facts) -> (n: Option<FixNext>)
    ensures
        n == cutover(*f),
{
    let n = wait_for(&f.open_library, Step::OpenLibrary);
    if n.is_some() {
        return n;
    }
    let source = match &f.source {
        Known::NotYet => return Some(Next::Take(Step::LookAtSource)),
        Known::Failed => return Some(Next::Failed(Step::LookAtSource)),
        Known::Got(x) => x,
    };
    let n = cutover_precheck(source, &f.resolves);
    if n.is_some() {
        return n;
    }
    let n = wait_for(&f.move_original, Step::MoveOriginal);
    if n.is_some() {
        return n;
    }
    let n = wait_for(&f.sync_moved, Step::SyncMoved);
    if n.is_some() {
        return n;
    }
    wait_for(&f.note_backed_up, Step::NoteBackedUp)
}

fn linking_next(l: &Library, f: &Facts) -> (n: Option<FixNext>)
    ensures
        n == linking(*l, *f),
{
    let n = wait_for(&f.make_link, Step::MakeLink);
    if n.is_some() {
        return n;
    }
    let link = match &f.link {
        Known::NotYet => return Some(Next::Take(Step::ReadLink)),
        Known::Failed => return Some(Next::Failed(Step::ReadLink)),
        Known::Got(x) => x,
    };
    match check_link(l.effective_target.as_str(), link) {
        Some(fault) => {
            return Some(Next::Stop(Ending::Refused(Refusal::Link(fault))));
        },
        None => {},
    }
    let n = wait_for(&f.sync_linked, Step::SyncLinked);
    if n.is_some() {
        return n;
    }
    let n = try_once(&f.clear_record, Step::ClearRecord);
    if n.is_some() {
        return n;
    }
    let n = try_once(&f.note_evidence, Step::NoteEvidence);
    if n.is_some() {
        return n;
    }
    try_once(&f.found_backup, Step::FindBackup)
}

fn moving_next(f: &Facts) -> (n: Option<FixNext>)
    requires
        f.report is Got,
    ensures
        n == moving(*f),
{
    let report = match &f.report {
        Known::NotYet => return Some(Next::Take(Step::Inspect)),
        Known::Failed => return Some(Next::Failed(Step::Inspect)),
        Known::Got(x) => x,
    };
    if source_exists(report) {
        let n = copying_next(f);
        if n.is_some() {
            return n;
        }
        let n = publishing_next(f);
        if n.is_some() {
            return n;
        }
        cutover_next(f)
    } else {
        let n = wait_for(&f.create_target, Step::CreateTarget);
        if n.is_some() {
            return n;
        }
        wait_for(&f.sync_created, Step::SyncCreated)
    }
}

/// Say what comes next in a repair.
pub fn fix(o: &Options, l: &Library, f: &Facts) -> (n: FixNext)
    ensures
        n == next(*o, *l, *f),
{
    match checks_next(o, f) {
        Some(n) => return n,
        None => {},
    }
    match destination_next(o, f) {
        Some(n) => return n,
        None => {},
    }
    match room_next(f) {
        Some(n) => return n,
        None => {},
    }
    match consent_next(o, f) {
        Some(n) => return n,
        None => {},
    }
    match prepare_next(f) {
        Some(n) => return n,
        None => {},
    }
    match moving_next(f) {
        Some(n) => return n,
        None => {},
    }
    match linking_next(l, f) {
        Some(n) => n,
        None => Next::Stop(Ending::Applied),
    }
}

// ------------------------------------------------- what holds of every run

/// What each step does to what is on disk.
pub open spec fn effect(s: Step) -> Effect {
    match s {
        Step::Lock => Effect::Locks,
        Step::Probe => Effect::Probes,
        Step::CreateParent | Step::Copy | Step::CreateTarget => Effect::Writes,
        Step::SetTargetAside | Step::Publish => Effect::Moves,
        Step::SyncCopy | Step::SyncPublished | Step::SyncMoved | Step::SyncCreated
        | Step::SyncLinked => Effect::Flushes,
        Step::WriteRecord | Step::NotePublished | Step::NoteBackedUp | Step::ClearRecord
        | Step::NoteEvidence => Effect::Notes,
        Step::MoveOriginal => Effect::Renames,
        Step::MakeLink => Effect::Links,
        _ => Effect::Reads,
    }
}

/// Whether a step has not been taken yet.
pub open spec fn untaken(f: Facts, s: Step) -> bool {
    match s {
        Step::Lock => f.lock is NotYet,
        Step::Inspect => f.report is NotYet,
        Step::Processes => f.running is NotYet,
        Step::LibraryMount => f.mount is NotYet,
        Step::TargetMount => f.target_mount is NotYet,
        Step::SameDirectory => f.same_directory is NotYet,
        Step::Inventory => f.inventory is NotYet,
        Step::Digest => f.fingerprint is NotYet,
        Step::SameData => f.same_data is NotYet,
        Step::Extents => f.extents is NotYet,
        Step::FreeSpace => f.free is NotYet,
        Step::Scope => f.scope is NotYet,
        Step::ShowPlan => f.shown is NotYet,
        Step::Confirm => f.confirmed is NotYet,
        Step::InspectAgain => f.report_again is NotYet,
        Step::InventoryAgain => f.inventory_again is NotYet,
        Step::DigestAgain => f.fingerprint_again is NotYet,
        Step::Probe => f.probe is NotYet,
        Step::CreateParent => f.parent is NotYet,
        Step::LookAtTarget => f.target_present is NotYet,
        Step::SetTargetAside => f.set_aside is NotYet,
        Step::Copy => f.copy is NotYet,
        Step::CheckCopy => f.problems is NotYet,
        Step::CheckSource => f.changed is NotYet,
        Step::NameBackup => f.backup is NotYet,
        Step::WriteRecord => f.record is NotYet,
        Step::SyncCopy => f.sync_copy is NotYet,
        Step::Publish => f.publish is NotYet,
        Step::SyncPublished => f.sync_published is NotYet,
        Step::NotePublished => f.note_published is NotYet,
        Step::OpenLibrary => f.open_library is NotYet,
        Step::LookAtSource => f.source is NotYet,
        Step::ResolveSource => f.resolves is NotYet,
        Step::MoveOriginal => f.move_original is NotYet,
        Step::SyncMoved => f.sync_moved is NotYet,
        Step::NoteBackedUp => f.note_backed_up is NotYet,
        Step::CreateTarget => f.create_target is NotYet,
        Step::SyncCreated => f.sync_created is NotYet,
        Step::MakeLink => f.make_link is NotYet,
        Step::ReadLink => f.link is NotYet,
        Step::SyncLinked => f.sync_linked is NotYet,
        Step::ClearRecord => f.clear_record is NotYet,
        Step::NoteEvidence => f.note_evidence is NotYet,
        Step::FindBackup => f.found_backup is NotYet,
    }
}

/// A dry run takes no step that changes anything.
pub proof fn lemma_dry_run_changes_nothing(o: Options, l: Library, f: Facts, s: Step)
    requires
        o.dry_run,
        next(o, l, f) == FixNext::Take(s),
    ensures
        !changes(effect(s)),
{
}

/// No step of a repair deletes anything, not even a link.
pub proof fn lemma_repair_deletes_nothing(o: Options, l: Library, f: Facts, s: Step)
    requires
        next(o, l, f) == FixNext::Take(s),
    ensures
        effect(s) != Effect::Deletes,
        effect(s) != Effect::Unlinks,
{
}

/// The library is only touched once the copy has been made, matches what was
/// copied, the source still does too, and the copy is in place on disk.
pub proof fn lemma_copy_checked_before_library_changes(o: Options, l: Library, f: Facts, s: Step)
    requires
        next(o, l, f) == FixNext::Take(s),
        reaches_library(effect(s)),
        has_source(f.report->Got_0),
    ensures
        f.copy is Got,
        f.problems is Got && f.problems->Got_0@.len() == 0,
        f.changed is Got && f.changed->Got_0@.len() == 0,
        f.record is Got && f.publish is Got && f.sync_published is Got,
{
}

/// The link is only made where the original was, once that has been set aside
/// and is on disk under its new name.
pub proof fn lemma_original_set_aside_before_link(o: Options, l: Library, f: Facts)
    requires
        next(o, l, f) == FixNext::Take(Step::MakeLink),
        has_source(f.report->Got_0),
    ensures
        f.backup is Got && f.move_original is Got && f.sync_moved is Got,
        f.source->Got_0.directory && f.resolves == Known::Got(true),
{
}

/// Nothing but the lock is written before the plan has been shown and agreed
/// to, either beforehand or when asked.
pub proof fn lemma_changes_are_agreed_to(o: Options, l: Library, f: Facts, s: Step)
    requires
        next(o, l, f) == FixNext::Take(s),
        changes(effect(s)),
        s != Step::Lock,
    ensures
        f.shown is Got,
        o.assume_yes || f.confirmed == Known::Got(true),
{
}

/// Where a plan was quoted, nothing but the lock is written unless the plan is
/// that one, both when it was shown and when it was read again.
pub proof fn lemma_changes_follow_the_quoted_plan(o: Options, l: Library, f: Facts, s: Step)
    requires
        next(o, l, f) == FixNext::Take(s),
        changes(effect(s)),
        s != Step::Lock,
        o.expect is Some,
    ensures
        f.fingerprint->Got_0@ == o.expect->Some_0@,
        f.fingerprint_again->Got_0@ == o.expect->Some_0@,
{
}

/// Where a plan was quoted, neither is an interrupted repair finished nor the
/// destination kept unless the plan is that one.
pub proof fn lemma_recovery_follows_the_quoted_plan(o: Options, l: Library, f: Facts)
    requires
        next(o, l, f) == FixNext::Stop(Ending::Interrupted) || next(o, l, f) == FixNext::Stop(
            Ending::Keep,
        ),
        o.expect is Some,
    ensures
        f.fingerprint is Got,
        expected(o, f.fingerprint->Got_0@),
        f.fingerprint->Got_0@ == o.expect->Some_0@,
{
}

/// Nothing but the lock is written while Steam runs, while that cannot be
/// told, or on a library that is mounted read-only.
pub proof fn lemma_steam_is_closed(o: Options, l: Library, f: Facts, s: Step)
    requires
        next(o, l, f) == FixNext::Take(s),
        changes(effect(s)),
        s != Step::Lock,
    ensures
        f.running is Got && f.running->Got_0@.len() == 0,
        f.mount->Got_0 is Some ==> !f.mount->Got_0->Some_0.read_only,
{
}

/// Where two different sets of data exist, nothing but the lock is written
/// until the user has said which one counts.
pub proof fn lemma_conflict_is_never_guessed(o: Options, l: Library, f: Facts, s: Step)
    requires
        next(o, l, f) == FixNext::Take(s),
        changes(effect(s)),
        s != Step::Lock,
        f.report->Got_0.existing_destination is Some,
    ensures
        !o.keep_destination,
        o.replace_destination || (has_source(f.report->Got_0) && f.same_data == Known::Got(true)),
{
}

/// Nothing but the lock is written where the room is known not to be enough.
pub proof fn lemma_there_is_room(o: Options, l: Library, f: Facts, s: Step)
    requires
        next(o, l, f) == FixNext::Take(s),
        changes(effect(s)),
        s != Step::Lock,
        f.free->Got_0 is Some,
    ensures
        f.free->Got_0->Some_0.bytes >= needed(f),
{
}

/// A filesystem that cannot hold the link, is the destination's own, or needs
/// no repair is left alone. Only the last can be overruled. Nor is anything put
/// on a filesystem that is known not to hold Proton data, and that cannot be
/// overruled either.
pub proof fn lemma_filesystem_fits(o: Options, l: Library, f: Facts, s: Step)
    requires
        next(o, l, f) == FixNext::Take(s),
        changes(effect(s)),
        s != Step::Lock,
    ensures
        capability_of(f.mount->Got_0) != Some(Capability::NoSymlinks),
        !one_mount(f.mount->Got_0, f.target_mount->Got_0),
        f.target_mount is Got && !is_unfit(capability_of(f.target_mount->Got_0)),
        f.same_directory == Known::Got(false),
        capability_of(f.mount->Got_0) == Some(Capability::NeedsRepair) || o.force,
{
}

/// A step is never asked for twice, so a run comes to an end.
pub proof fn lemma_step_taken_once(o: Options, l: Library, f: Facts, s: Step)
    requires
        next(o, l, f) == FixNext::Take(s),
    ensures
        untaken(f, s),
{
}

/// A repair is only reported as done once the link is there, leads to the
/// destination and can be read through.
pub proof fn lemma_applied_means_linked(o: Options, l: Library, f: Facts)
    requires
        next(o, l, f) == FixNext::Stop(Ending::Applied),
    ensures
        !o.dry_run,
        f.link is Got && link_fault(l.effective_target@, f.link->Got_0) is None,
        f.sync_linked is Got,
        has_source(f.report->Got_0) ==> f.move_original is Got && f.publish is Got,
{
}

/// Finishing an interrupted repair and keeping the destination have to pass the
/// same checks first. The destination is only kept where Proton data can live.
pub proof fn lemma_recovery_passes_the_same_checks(o: Options, l: Library, f: Facts)
    requires
        next(o, l, f) == FixNext::Stop(Ending::Interrupted) || next(o, l, f) == FixNext::Stop(
            Ending::Keep,
        ),
    ensures
        o.dry_run || f.lock is Got,
        f.running is Got && f.running->Got_0@.len() == 0,
        f.mount is Got && (f.mount->Got_0 is Some ==> !f.mount->Got_0->Some_0.read_only),
        next(o, l, f) == FixNext::Stop(Ending::Keep) ==> f.target_mount is Got && !is_unfit(
            capability_of(f.target_mount->Got_0),
        ),
{
}

/// Nothing but the lock is written unless there is room for what is copied, for
/// what filling the holes in it costs, and for two gibibytes to grow into.
pub proof fn lemma_room_covers_the_copy(o: Options, l: Library, f: Facts, s: Step)
    requires
        next(o, l, f) == FixNext::Take(s),
        changes(effect(s)),
        s != Step::Lock,
        f.free->Got_0 is Some,
    ensures
        f.report->Got_0.state is NotRepaired ==> f.free->Got_0->Some_0.bytes
            >= f.inventory->Got_0.bytes.bytes + f.inventory->Got_0.sparse_saving.bytes + 2 * 1024
            * 1024 * 1024,
        f.free->Got_0->Some_0.bytes >= 2 * 1024 * 1024 * 1024,
{
}

/// Every step that has to do with the disk is one that changes something.
pub proof fn lemma_changing_steps(s: Step)
    requires
        s is Lock || s is Probe || s is CreateParent || s is SetTargetAside || s is Copy
            || s is WriteRecord || s is SyncCopy || s is Publish || s is SyncPublished
            || s is NotePublished || s is MoveOriginal || s is SyncMoved || s is NoteBackedUp
            || s is CreateTarget || s is SyncCreated || s is MakeLink || s is SyncLinked
            || s is ClearRecord || s is NoteEvidence,
    ensures
        changes(effect(s)),
        s is MoveOriginal || s is MakeLink ==> reaches_library(effect(s)),
{
}

/// A repair is only refused for a reason that is there.
pub proof fn lemma_refusals_have_a_reason(o: Options, l: Library, f: Facts, r: Refusal)
    requires
        next(o, l, f) == FixNext::Stop(Ending::Refused(r)),
    ensures
        match r {
            Refusal::Unready(Unready::Running) => f.running->Got_0@.len() > 0,
            Refusal::Unready(Unready::ReadOnly) => f.mount->Got_0 is Some
                && f.mount->Got_0->Some_0.read_only,
            Refusal::State => {
                ||| f.report->Got_0.state is Disconnected
                ||| f.report->Got_0.state is DanglingLink
                ||| f.report->Got_0.state is LinkedElsewhere
                ||| f.report->Got_0.state is Unusable
            },
            Refusal::NoSymlinks => f.mount->Got_0->Some_0.capability is NoSymlinks,
            Refusal::Native => f.mount->Got_0->Some_0.capability is Native && !o.force,
            Refusal::Unidentified => (f.mount->Got_0 is None
                || f.mount->Got_0->Some_0.capability is Unknown) && !o.force,
            Refusal::SameFilesystem => f.mount->Got_0 is Some && f.target_mount->Got_0 is Some
                && alike(
                f.mount->Got_0->Some_0.mount_point@,
                f.target_mount->Got_0->Some_0.mount_point@,
            ),
            Refusal::Destination => f.target_mount->Got_0 is Some && (
            f.target_mount->Got_0->Some_0.capability is NoSymlinks
                || f.target_mount->Got_0->Some_0.capability is NeedsRepair),
            Refusal::SameDirectory => f.same_directory == Known::Got(true),
            Refusal::Escaping => f.report->Got_0.state is NotRepaired
                && f.inventory->Got_0.escaping@.len() > 0,
            Refusal::Conflict => f.report->Got_0.existing_destination is Some
                && !o.keep_destination && !o.replace_destination && !(
            f.report->Got_0.state is NotRepaired && f.same_data == Known::Got(true)),
            Refusal::NoRoom => f.free->Got_0 is Some && if f.report->Got_0.state is NotRepaired {
                f.free->Got_0->Some_0.bytes < f.inventory->Got_0.bytes.bytes
                    + f.inventory->Got_0.sparse_saving.bytes + 2 * 1024 * 1024 * 1024
            } else {
                f.free->Got_0->Some_0.bytes < 2 * 1024 * 1024 * 1024
            },
            Refusal::Changed => o.expect is Some && o.expect->Some_0@ != f.fingerprint->Got_0@,
            Refusal::ChangedAgain => o.expect is Some && o.expect->Some_0@
                != f.fingerprint_again->Got_0@,
            Refusal::CopyDiffers => f.problems->Got_0@.len() > 0,
            Refusal::SourceChanged => f.changed->Got_0@.len() > 0,
            Refusal::SourceReplaced => !f.source->Got_0.directory,
            Refusal::SourceMoved => f.resolves == Known::Got(false),
            Refusal::Link(LinkFault::NotSymlink) => !f.link->Got_0.is_symlink,
            Refusal::Link(LinkFault::Elsewhere) => !alike(
                f.link->Got_0.points_at@,
                l.effective_target@,
            ),
            Refusal::Link(LinkFault::Unreadable) => !f.link->Got_0.readable,
        },
{
}

/// Whether everything was found in order before the plan was shown.
pub open spec fn in_order_to_start(o: Options, f: Facts) -> bool {
    let report = f.report->Got_0;
    &&& o.dry_run || f.lock is Got
    &&& f.report is Got && (report.state is NotRepaired || report.state is NoCompatdata)
    &&& report.existing_destination is None
    &&& f.running is Got && f.running->Got_0@.len() == 0
    &&& f.mount matches Known::Got(Some(m)) && !m.read_only && m.capability is NeedsRepair
    &&& f.target_mount is Got && (f.target_mount->Got_0 matches Some(t) ==> t.capability is Native
        && !alike(f.mount->Got_0->Some_0.mount_point@, t.mount_point@))
    &&& f.same_directory == Known::Got(false)
    &&& report.state is NotRepaired ==> f.inventory is Got
        && f.inventory->Got_0.escaping@.len() == 0
    &&& f.fingerprint is Got && o.expect is None
    &&& f.free is Got && (f.free->Got_0 matches Some(free) ==> free.bytes >= 2 * 1024 * 1024 * 1024
        + if report.state is NotRepaired {
        f.inventory->Got_0.bytes.bytes + f.inventory->Got_0.sparse_saving.bytes
    } else {
        0
    })
    &&& f.scope is Got
}

/// Where everything is in order and agreed to, nothing keeps a repair from
/// going through: the next step is always taken, up to the end. What is only
/// noted afterwards may fail.
pub proof fn lemma_repair_goes_through(o: Options, l: Library, f: Facts)
    requires
        in_order_to_start(o, f),
    ensures
        o.json && o.dry_run ==> next(o, l, f) == FixNext::Stop(Ending::Plan),
        !(o.json && o.dry_run) && f.shown is NotYet ==> next(o, l, f) == FixNext::Take(
            Step::ShowPlan,
        ),
        o.dry_run && !o.json && f.shown is Got ==> next(o, l, f) == FixNext::Stop(Ending::DryRun),
        !o.dry_run && !o.assume_yes && f.shown is Got && f.confirmed is NotYet ==> next(o, l, f)
            == FixNext::Take(Step::Confirm),
        !o.dry_run && !o.assume_yes && f.shown is Got && f.confirmed == Known::Got(false)
            ==> next(o, l, f) == FixNext::Stop(Ending::Cancelled),
        !o.dry_run && f.shown is Got && (o.assume_yes || f.confirmed == Known::Got(true))
            && f.probe is Got && f.parent is Got && f.target_present == Known::Got(false) && (
        f.report->Got_0.state is NotRepaired ==> f.copy is Got && f.problems is Got
            && f.problems->Got_0@.len() == 0 && f.changed is Got && f.changed->Got_0@.len() == 0
            && f.backup is Got && f.record is Got && f.sync_copy is Got && f.publish is Got
            && f.sync_published is Got && f.note_published is Got && f.open_library is Got
            && f.source is Got && f.source->Got_0.directory && f.resolves == Known::Got(true)
            && f.move_original is Got && f.sync_moved is Got && f.note_backed_up is Got) && (
        f.report->Got_0.state is NoCompatdata ==> f.create_target is Got && f.sync_created is Got)
            && f.make_link is Got && f.link is Got && f.link->Got_0.is_symlink && alike(
            f.link->Got_0.points_at@,
            l.effective_target@,
        ) && f.link->Got_0.readable && f.sync_linked is Got && !(f.clear_record is NotYet) && !(
        f.note_evidence is NotYet) && !(f.found_backup is NotYet) ==> next(o, l, f)
            == FixNext::Stop(Ending::Applied),
{
}

/// The states that are not repaired are told apart: one that is repaired is
/// left alone, one that stopped before its last step is finished, and one that
/// cannot be repaired is refused.
pub proof fn lemma_states_are_told_apart(o: Options, l: Library, f: Facts)
    requires
        o.dry_run || f.lock is Got,
        f.report is Got,
        f.running is Got && f.running->Got_0@.len() == 0,
        f.mount is Got && (f.mount->Got_0 matches Some(m) ==> !m.read_only),
        o.expect is None,
    ensures
        f.report->Got_0.state is Repaired ==> next(o, l, f) == FixNext::Stop(
            Ending::AlreadyRepaired,
        ),
        f.report->Got_0.state is InterruptedAwaitingLink ==> next(o, l, f) == FixNext::Stop(
            Ending::Interrupted,
        ),
        f.report->Got_0.state is Disconnected || f.report->Got_0.state is DanglingLink
            || f.report->Got_0.state is LinkedElsewhere || f.report->Got_0.state is Unusable
            ==> next(o, l, f) == FixNext::Stop(Ending::Refused(Refusal::State)),
        next(o, l, f) == FixNext::Stop(Ending::AlreadyRepaired) ==> f.report->Got_0.state is Repaired,
        next(o, l, f) == FixNext::Stop(Ending::Interrupted)
            ==> f.report->Got_0.state is InterruptedAwaitingLink,
        next(o, l, f) == FixNext::Stop(Ending::Keep) ==> o.keep_destination
            && f.report->Got_0.existing_destination is Some,
{
}

/// What is at the destination already is given another name before anything is
/// put there, and nothing is where nothing is.
pub proof fn lemma_what_is_there_is_set_aside(o: Options, l: Library, f: Facts, s: Step)
    requires
        next(o, l, f) == FixNext::Take(s),
    ensures
        s is Copy || s is CreateTarget || s is Publish ==> f.target_present == Known::Got(false)
            || (f.target_present == Known::Got(true) && f.set_aside is Got),
        s is SetTargetAside ==> f.target_present == Known::Got(true),
        s is Copy || s is MoveOriginal ==> f.report->Got_0.state is NotRepaired,
        s is CreateTarget ==> f.report->Got_0.state is NoCompatdata,
        s is Publish ==> f.sync_copy is Got && f.record is Got,
        s is MoveOriginal ==> f.note_published is Got,
        s is SyncMoved ==> f.move_original is Got,
        s is SyncLinked ==> f.link is Got,
        s is ClearRecord || s is NoteEvidence ==> f.sync_linked is Got,
{
}


/// What has to hold before a repair changes anything beyond its own lock.
pub proof fn lemma_changes_are_in_order(o: Options, l: Library, f: Facts, s: Step)
    requires
        next(o, l, f) == FixNext::Take(s),
        changes(effect(s)),
        s != Step::Lock,
    ensures
        !o.dry_run && f.lock is Got,
        f.report is Got && (f.report->Got_0.state is NotRepaired || f.report->Got_0.state
            is NoCompatdata),
        f.running is Got && f.running->Got_0@.len() == 0,
        f.mount is Got && f.target_mount is Got,
        f.mount->Got_0 is Some ==> !f.mount->Got_0->Some_0.read_only && !(
        f.mount->Got_0->Some_0.capability is NoSymlinks),
        o.force || (f.mount->Got_0 is Some && f.mount->Got_0->Some_0.capability is NeedsRepair),
        f.target_mount->Got_0 is Some ==> !(f.target_mount->Got_0->Some_0.capability is NoSymlinks)
            && !(f.target_mount->Got_0->Some_0.capability is NeedsRepair),
        f.mount->Got_0 is Some && f.target_mount->Got_0 is Some ==> !alike(
            f.mount->Got_0->Some_0.mount_point@,
            f.target_mount->Got_0->Some_0.mount_point@,
        ),
        f.same_directory == Known::Got(false),
        f.report->Got_0.state is NotRepaired ==> f.inventory is Got
            && f.inventory->Got_0.escaping@.len() == 0,
        f.fingerprint is Got && f.free is Got && f.scope is Got && f.shown is Got,
        o.expect is Some ==> f.fingerprint->Got_0@ == o.expect->Some_0@ && f.fingerprint_again is Got
            && f.fingerprint_again->Got_0@ == o.expect->Some_0@,
        f.report->Got_0.existing_destination is Some ==> !o.keep_destination && (
        o.replace_destination || (f.report->Got_0.state is NotRepaired && f.same_data == Known::Got(
            true,
        ))),
{
}

/// Which filesystems a repair is for. Forcing it passes over everything but a
/// filesystem that has no symlinks.
pub proof fn lemma_which_filesystems_are_repaired(o: Options, l: Library, f: Facts)
    requires
        o.dry_run || f.lock is Got,
        f.report is Got && (f.report->Got_0.state is NotRepaired || f.report->Got_0.state
            is NoCompatdata),
        f.running is Got && f.running->Got_0@.len() == 0,
        f.mount is Got && (f.mount->Got_0 is Some ==> !f.mount->Got_0->Some_0.read_only),
        f.target_mount is NotYet,
    ensures
        f.mount->Got_0 is None && !o.force ==> next(o, l, f) == FixNext::Stop(
            Ending::Refused(Refusal::Unidentified),
        ),
        f.mount->Got_0 is None && o.force ==> next(o, l, f) == FixNext::Take(Step::TargetMount),
        f.mount->Got_0 is Some ==> match f.mount->Got_0->Some_0.capability {
            Capability::NoSymlinks => next(o, l, f) == FixNext::Stop(
                Ending::Refused(Refusal::NoSymlinks),
            ),
            Capability::NeedsRepair => next(o, l, f) == FixNext::Take(Step::TargetMount),
            Capability::Native => next(o, l, f) == if o.force {
                FixNext::Take(Step::TargetMount)
            } else {
                FixNext::Stop(Ending::Refused(Refusal::Native))
            },
            Capability::Unknown => next(o, l, f) == if o.force {
                FixNext::Take(Step::TargetMount)
            } else {
                FixNext::Stop(Ending::Refused(Refusal::Unidentified))
            },
        },
{
}

/// Where the data may go: to another filesystem, and to one that can hold it.
pub proof fn lemma_which_destinations_are_fit(o: Options, l: Library, f: Facts)
    requires
        o.dry_run || f.lock is Got,
        f.report is Got && (f.report->Got_0.state is NotRepaired || f.report->Got_0.state
            is NoCompatdata),
        f.running is Got && f.running->Got_0@.len() == 0,
        f.mount is Got && f.mount->Got_0 is Some && !f.mount->Got_0->Some_0.read_only,
        f.mount->Got_0->Some_0.capability is NeedsRepair,
        f.target_mount is Got,
        f.same_directory is NotYet,
    ensures
        f.target_mount->Got_0 is None ==> next(o, l, f) == FixNext::Take(Step::SameDirectory),
        f.target_mount->Got_0 is Some && alike(
            f.mount->Got_0->Some_0.mount_point@,
            f.target_mount->Got_0->Some_0.mount_point@,
        ) ==> next(o, l, f) == FixNext::Stop(Ending::Refused(Refusal::SameFilesystem)),
        f.target_mount->Got_0 is Some && !alike(
            f.mount->Got_0->Some_0.mount_point@,
            f.target_mount->Got_0->Some_0.mount_point@,
        ) ==> match f.target_mount->Got_0->Some_0.capability {
            Capability::NoSymlinks | Capability::NeedsRepair => next(o, l, f) == FixNext::Stop(
                Ending::Refused(Refusal::Destination),
            ),
            _ => next(o, l, f) == FixNext::Take(Step::SameDirectory),
        },
{
}

/// Data that is already at the destination is kept when that is asked for,
/// replaced when that is asked for or when it is the same data, and a reason
/// to refuse otherwise.
pub proof fn lemma_how_a_taken_destination_is_settled(o: Options, l: Library, f: Facts)
    requires
        o.dry_run || f.lock is Got,
        f.report is Got && (f.report->Got_0.state is NotRepaired || f.report->Got_0.state
            is NoCompatdata),
        f.report->Got_0.existing_destination is Some,
        f.running is Got && f.running->Got_0@.len() == 0,
        f.mount is Got && f.mount->Got_0 is Some && !f.mount->Got_0->Some_0.read_only,
        f.mount->Got_0->Some_0.capability is NeedsRepair,
        f.target_mount is Got && f.target_mount->Got_0 is None,
        f.same_directory == Known::Got(false),
        f.report->Got_0.state is NotRepaired ==> f.inventory is Got
            && f.inventory->Got_0.escaping@.len() == 0 && f.same_data is Got,
        f.fingerprint is Got && o.expect is None,
        f.extents is Got,
        f.free is NotYet,
    ensures
        o.keep_destination ==> next(o, l, f) == FixNext::Stop(Ending::Keep),
        !o.keep_destination && o.replace_destination ==> next(o, l, f) == FixNext::Take(
            Step::FreeSpace,
        ),
        !o.keep_destination && f.report->Got_0.state is NotRepaired && f.same_data == Known::Got(
            true,
        ) ==> next(o, l, f) == FixNext::Take(Step::FreeSpace),
        !o.keep_destination && !o.replace_destination && !(f.report->Got_0.state is NotRepaired
            && f.same_data == Known::Got(true)) ==> next(o, l, f) == FixNext::Stop(
            Ending::Refused(Refusal::Conflict),
        ),
{
}

/// Steps are taken in turn: none before what it rests on has been done, and a
/// repair is not called applied before the last of them.
pub proof fn lemma_steps_are_taken_in_turn(o: Options, l: Library, f: Facts, s: Step)
    ensures
        next(o, l, f) == FixNext::Take(s) ==> match s {
            Step::Lock => !o.dry_run,
            Step::Inspect => o.dry_run || f.lock is Got,
            Step::Processes => f.report is Got,
            Step::LibraryMount => f.running is Got,
            Step::TargetMount => f.mount is Got,
            Step::SameDirectory => f.target_mount is Got,
            Step::Inventory => f.same_directory is Got,
            Step::Digest => f.report->Got_0.state is NotRepaired ==> f.inventory is Got,
            Step::SameData => f.fingerprint is Got,
            Step::Extents => f.fingerprint is Got,
            Step::FreeSpace => f.fingerprint is Got,
            Step::Scope => f.free is Got,
            Step::ShowPlan => f.scope is Got,
            Step::Confirm => f.shown is Got && !o.dry_run && !o.assume_yes,
            Step::InspectAgain => o.expect is Some,
            Step::InventoryAgain => f.report_again is Got,
            Step::DigestAgain => f.report_again is Got && (f.report_again->Got_0.state
                is NotRepaired ==> f.inventory_again is Got),
            Step::Probe => o.expect is Some ==> f.fingerprint_again is Got,
            Step::CreateParent => f.probe is Got,
            Step::LookAtTarget => f.parent is Got,
            Step::SetTargetAside => f.target_present is Got,
            Step::Copy => f.target_present is Got,
            Step::CheckCopy => f.copy is Got,
            Step::CheckSource => f.problems is Got,
            Step::NameBackup => f.changed is Got,
            Step::WriteRecord => f.backup is Got,
            Step::SyncCopy => f.record is Got,
            Step::Publish => f.sync_copy is Got,
            Step::SyncPublished => f.publish is Got,
            Step::NotePublished => f.sync_published is Got,
            Step::OpenLibrary => f.note_published is Got,
            Step::LookAtSource => f.open_library is Got,
            Step::ResolveSource => f.source is Got && f.source->Got_0.directory,
            Step::MoveOriginal => f.resolves == Known::Got(true) && f.source->Got_0.directory,
            Step::SyncMoved => f.move_original is Got,
            Step::NoteBackedUp => f.sync_moved is Got,
            Step::CreateTarget => f.target_present is Got,
            Step::SyncCreated => f.create_target is Got,
            Step::MakeLink => if f.report->Got_0.state is NotRepaired {
                f.note_backed_up is Got
            } else {
                f.sync_created is Got
            },
            Step::ReadLink => f.make_link is Got,
            Step::SyncLinked => f.link is Got,
            Step::ClearRecord => f.sync_linked is Got,
            Step::NoteEvidence => !(f.clear_record is NotYet),
            Step::FindBackup => !(f.note_evidence is NotYet),
        },
        next(o, l, f) == FixNext::Stop(Ending::Applied) ==> f.sync_linked is Got && !(f.clear_record
            is NotYet) && !(f.note_evidence is NotYet) && !(f.found_backup is NotYet),
        s is ClearRecord || s is NoteEvidence || s is FindBackup ==> next(o, l, f)
            != FixNext::Failed(s),
{
}

} // verus!
