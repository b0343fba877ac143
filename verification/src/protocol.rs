//! What the commands that change things have in common.
//!
//! A command is run by asking what comes next, given what is known so far. The
//! answer is a step to take or the end of the run. The outcome of the step is
//! added to what is known, and the question is asked again.

use vstd::prelude::*;

use crate::library::Mount;
use crate::path::{alike, file_name_of, last_component, parent, parent_of, same_path};
use crate::text::{
    cat2, cat5, is_blank, join, joined, lemma_joined_mentions, lemma_mentions_in,
    lemma_mentions_piece, lemma_trimmed_by, mentions, on_edge, same_text, trim, trimmed, views, Edge,
};

verus! {

/// What is known of something that has to be done or found out.
#[derive(Debug)]
pub enum Known<T> {
    NotYet,
    /// It was tried and failed.
    Failed,
    Got(T),
}

impl<T> Known<T> {
    /// Whether it went well.
    pub open spec fn has(self) -> bool {
        self is Got
    }
}

/// What comes next in a run.
#[derive(Debug)]
pub enum Next<S, E> {
    Take(S),
    Stop(E),
    /// A step failed, so the run ends with the reason it gave.
    Failed(S),
}

/// A step that has not been taken comes next, and one that failed ends the run.
pub open spec fn waits<T, S, E>(fact: Known<T>, step: S) -> Option<Next<S, E>> {
    match fact {
        Known::NotYet => Some(Next::Take(step)),
        Known::Failed => Some(Next::Failed(step)),
        Known::Got(_) => None,
    }
}

pub fn wait_for<T, S, E>(fact: &Known<T>, step: S) -> (n: Option<Next<S, E>>)
    ensures
        n == waits::<T, S, E>(*fact, step),
{
    match fact {
        Known::NotYet => Some(Next::Take(step)),
        Known::Failed => Some(Next::Failed(step)),
        Known::Got(_) => None,
    }
}

/// A step that is taken once, whatever comes of it.
pub open spec fn tries<T, S, E>(fact: Known<T>, step: S) -> Option<Next<S, E>> {
    match fact {
        Known::NotYet => Some(Next::Take(step)),
        _ => None,
    }
}

pub fn try_once<T, S, E>(fact: &Known<T>, step: S) -> (n: Option<Next<S, E>>)
    ensures
        n == tries::<T, S, E>(*fact, step),
{
    match fact {
        Known::NotYet => Some(Next::Take(step)),
        _ => None,
    }
}

/// The first of two that has an answer.
pub open spec fn or<S, E>(a: Option<Next<S, E>>, b: Option<Next<S, E>>) -> Option<Next<S, E>> {
    if a is Some {
        a
    } else {
        b
    }
}

/// What a step does to what is on disk.
#[derive(Debug, Clone, Copy, PartialEq, Eq, Structural)]
pub enum Effect {
    /// Nothing: it reads, asks or shows.
    Reads,
    /// It takes the lock that keeps a second run away.
    Locks,
    /// It writes something new outside every library.
    Writes,
    /// It gives a directory outside every library another name.
    Moves,
    /// It sees to it that what was written is on disk.
    Flushes,
    /// It tries out a library's filesystem and leaves it as it was.
    Probes,
    /// It gives something in a library another name.
    Renames,
    /// It makes a link in a library.
    Links,
    /// It removes a link, never what the link leads to.
    Unlinks,
    /// It keeps or clears a note of the run itself.
    Notes,
    /// It deletes data.
    Deletes,
}

/// Whether an effect is a change of any kind.
pub open spec fn changes(e: Effect) -> bool {
    e != Effect::Reads
}

/// Whether an effect changes what a library holds.
pub open spec fn reaches_library(e: Effect) -> bool {
    e == Effect::Renames || e == Effect::Links || e == Effect::Unlinks || e == Effect::Deletes
}

// ------------------------------------------------------------- the link

/// What is seen at a link that was just made.
#[derive(Debug)]
pub struct LinkSeen {
    pub is_symlink: bool,
    pub points_at: String,
    /// Whether a directory can be read through it.
    pub readable: bool,
}

/// What is wrong with a link that was just made.
#[derive(Debug, Clone, Copy, PartialEq, Eq, Structural)]
pub enum LinkFault {
    NotSymlink,
    Elsewhere,
    Unreadable,
}

pub open spec fn link_fault(target: Seq<char>, seen: LinkSeen) -> Option<LinkFault> {
    if !seen.is_symlink {
        Some(LinkFault::NotSymlink)
    } else if !alike(seen.points_at@, target) {
        Some(LinkFault::Elsewhere)
    } else if !seen.readable {
        Some(LinkFault::Unreadable)
    } else {
        None
    }
}

/// Judge a link that was just made.
pub fn check_link(target: &str, seen: &LinkSeen) -> (fault: Option<LinkFault>)
    ensures
        fault == link_fault(target@, *seen),
{
    if !seen.is_symlink {
        Some(LinkFault::NotSymlink)
    } else if !same_path(seen.points_at.as_str(), target) {
        Some(LinkFault::Elsewhere)
    } else if !seen.readable {
        Some(LinkFault::Unreadable)
    } else {
        None
    }
}

pub open spec fn link_fault_text(
    fault: LinkFault,
    link: Seq<char>,
    target: Seq<char>,
    seen: LinkSeen,
) -> Seq<char> {
    match fault {
        LinkFault::NotSymlink => link + ": did not end up as a symlink"@,
        LinkFault::Elsewhere => link + ": link points at "@ + seen.points_at@ + " instead of "@
            + target,
        LinkFault::Unreadable => link
            + ": the link was created but the destination is not readable through it"@,
    }
}

pub fn link_fault_message(fault: LinkFault, link: &str, target: &str, seen: &LinkSeen) -> (out:
    String)
    ensures
        out@ == link_fault_text(fault, link@, target@, *seen),
{
    match fault {
        LinkFault::NotSymlink => cat2(link, ": did not end up as a symlink"),
        LinkFault::Elsewhere => cat5(
            link,
            ": link points at ",
            seen.points_at.as_str(),
            " instead of ",
            target,
        ),
        LinkFault::Unreadable => cat2(
            link,
            ": the link was created but the destination is not readable through it",
        ),
    }
}

/// The directory that a link stands in, or why there is none.
pub fn link_parent(link: &str) -> (r: Result<String, String>)
    ensures
        match parent_of(link@) {
            Some(p) => r matches Ok(s) && s@ == p,
            None => r matches Err(e) && e@ == link@ + ": has no parent directory"@,
        },
{
    match parent(link) {
        Some(p) => Ok(p),
        None => Err(cat2(link, ": has no parent directory")),
    }
}

/// The last component of a path, or why there is none.
pub fn file_name(path: &str) -> (r: Result<String, String>)
    ensures
        match file_name_of(path@) {
            Some(n) => r matches Ok(s) && s@ == n,
            None => r matches Err(e) && e@ == path@ + ": has no final component"@,
        },
{
    match last_component(path) {
        Some(n) => Ok(n),
        None => Err(cat2(path, ": has no final component")),
    }
}

// ------------------------------------------------------------- preflight

/// Why a library must not be changed just now.
#[derive(Debug, Clone, Copy, PartialEq, Eq, Structural)]
pub enum Unready {
    Running,
    ReadOnly,
}

pub open spec fn unready(running: Seq<String>, mount: Option<Mount>) -> Option<Unready> {
    if running.len() > 0 {
        Some(Unready::Running)
    } else {
        match mount {
            Some(m) if m.read_only => Some(Unready::ReadOnly),
            _ => None,
        }
    }
}

/// The checks every path that changes a library must pass, whether it is a
/// repair, a recovery, a conflict resolution or an undo.
pub fn preflight(running: &Vec<String>, mount: &Option<Mount>) -> (r: Option<Unready>)
    ensures
        r == unready(running@, *mount),
{
    if running.len() > 0 {
        return Some(Unready::Running);
    }
    match mount {
        Some(m) => if m.read_only {
            Some(Unready::ReadOnly)
        } else {
            None
        },
        None => None,
    }
}

/// Where it cannot be told whether Steam is running.
pub open spec fn cannot_tell_text(reason: Seq<char>) -> Seq<char> {
    reason
        + ". LibraryBridge will not change a library while it cannot tell whether Steam is running, \
            because writes made during the move would be lost."@
}

pub fn cannot_tell(reason: &str) -> (out: String)
    ensures
        out@ == cannot_tell_text(reason@),
{
    let mut out = reason.to_owned();
    out.append(". LibraryBridge will not change a library while it cannot tell whether Steam is \
        running, because writes made during the move would be lost.");
    out
}

pub open spec fn still_running_text(running: Vec<String>) -> Seq<char> {
    "these processes are running: "@ + joined(views(running@), ", "@)
        + ". Close Steam and any running game first, otherwise writes made during the move would be \
            lost."@
}

pub fn still_running(running: &Vec<String>) -> (out: String)
    ensures
        out@ == still_running_text(*running),
{
    let mut out = "these processes are running: ".to_owned();
    out.append(join(running, ", ").as_str());
    out.append(". Close Steam and any running game first, otherwise writes made during the move \
        would be lost.");
    out
}

pub open spec fn mounted_read_only_text(mount: Mount) -> Seq<char> {
    mount.mount_point@
        + " is mounted read-only. Remount it writable and try again. A Windows fast-startup or \
            hibernation state is the usual cause."@
}

pub fn mounted_read_only(mount: &Mount) -> (out: String)
    ensures
        out@ == mounted_read_only_text(*mount),
{
    let mut out = mount.mount_point.clone();
    out.append(" is mounted read-only. Remount it writable and try again. A Windows fast-startup or \
        hibernation state is the usual cause.");
    out
}

/// Whether an answer agrees. Anything but a plain yes does not.
pub open spec fn is_yes(answer: Seq<char>) -> bool {
    let a = trimmed(answer);
    a == "y"@ || a == "Y"@ || a == "yes"@ || a == "Yes"@
}

pub fn confirm(answer: &str) -> (agreed: bool)
    ensures
        agreed == is_yes(answer@),
{
    let a = trim(answer);
    same_text(a.as_str(), "y") || same_text(a.as_str(), "Y") || same_text(a.as_str(), "yes")
        || same_text(a.as_str(), "Yes")
}

// -------------------------------------------------- what holds of the checks

/// A library may be changed exactly where nothing of Steam runs and its
/// filesystem is not known to be mounted read-only. What runs is told first.
pub proof fn lemma_when_a_library_may_be_changed(running: Seq<String>, mount: Option<Mount>)
    ensures
        unready(running, mount) is None <==> running.len() == 0 && !(mount is Some
            && mount->Some_0.read_only),
        unready(running, mount) == Some(Unready::Running) <==> running.len() > 0,
        unready(running, mount) == Some(Unready::ReadOnly) <==> running.len() == 0 && mount is Some
            && mount->Some_0.read_only,
{
}

/// A link is good exactly where it is a link, leads to where it should and can
/// be read through.
pub proof fn lemma_what_a_good_link_is(target: Seq<char>, seen: LinkSeen)
    ensures
        link_fault(target, seen) is None <==> seen.is_symlink && alike(seen.points_at@, target)
            && seen.readable,
        link_fault(target, seen) == Some(LinkFault::NotSymlink) <==> !seen.is_symlink,
        link_fault(target, seen) == Some(LinkFault::Elsewhere) <==> seen.is_symlink && !alike(
            seen.points_at@,
            target,
        ),
{
}

/// What is wrong with a link is told with its path, and with both places where
/// it leads elsewhere.
pub proof fn lemma_link_fault_says_where(
    fault: LinkFault,
    link: Seq<char>,
    target: Seq<char>,
    seen: LinkSeen,
)
    ensures
        mentions(link_fault_text(fault, link, target, seen), link),
        fault is Elsewhere ==> mentions(link_fault_text(fault, link, target, seen), seen.points_at@),
        fault is Elsewhere ==> mentions(link_fault_text(fault, link, target, seen), target),
{
    match fault {
        LinkFault::NotSymlink => {
            lemma_mentions_piece(seq![], link, ": did not end up as a symlink"@);
        },
        LinkFault::Unreadable => {
            lemma_mentions_piece(
                seq![],
                link,
                ": the link was created but the destination is not readable through it"@,
            );
        },
        LinkFault::Elsewhere => {
            let a = link + ": link points at "@;
            let b = a + seen.points_at@;
            let c = b + " instead of "@;
            lemma_mentions_piece(seq![], link, ": link points at "@);
            lemma_mentions_in(seq![], a, seen.points_at@, link);
            lemma_mentions_in(seq![], b, " instead of "@, link);
            lemma_mentions_in(seq![], c, target, link);
            lemma_mentions_piece(a, seen.points_at@, seq![]);
            lemma_mentions_in(seq![], b, " instead of "@, seen.points_at@);
            lemma_mentions_in(seq![], c, target, seen.points_at@);
            lemma_mentions_piece(c, target, seq![]);
        },
    }
}

/// Every process that runs is named.
pub proof fn lemma_what_runs_is_named(running: Vec<String>, i: int)
    requires
        0 <= i < running@.len(),
    ensures
        mentions(still_running_text(running), running@[i]@),
{
    let all = views(running@);
    lemma_joined_mentions(all, ", "@, i);
    assert(all[i] == running@[i]@);
    let a = "these processes are running: "@;
    lemma_mentions_in(a, joined(all, ", "@), seq![], running@[i]@);
    lemma_mentions_in(
        seq![],
        a + joined(all, ", "@),
        ". Close Steam and any running game first, otherwise writes made during the move would be \
            lost."@,
        running@[i]@,
    );
}

/// An answer agrees where it is a plain yes with nothing but blanks around it,
/// and nowhere else: an empty answer does not.
pub proof fn lemma_what_agrees(answer: Seq<char>, a: int, b: int)
    requires
        0 <= a <= b <= answer.len(),
        forall|i: int| 0 <= i < a ==> is_blank(#[trigger] answer[i]),
        forall|i: int| b <= i < answer.len() ==> is_blank(#[trigger] answer[i]),
        a < b ==> !is_blank(answer[a]) && !is_blank(answer[b - 1]),
    ensures
        is_yes(answer) <==> answer.subrange(a, b) == seq!['y'] || answer.subrange(a, b) == seq!['Y']
            || answer.subrange(a, b) == seq!['y', 'e', 's'] || answer.subrange(a, b) == seq![
            'Y',
            'e',
            's',
        ],
{
    reveal_strlit("y");
    reveal_strlit("Y");
    reveal_strlit("yes");
    reveal_strlit("Yes");
    assert("y"@ =~= seq!['y']);
    assert("Y"@ =~= seq!['Y']);
    assert("yes"@ =~= seq!['y', 'e', 's']);
    assert("Yes"@ =~= seq!['Y', 'e', 's']);
    assert forall|i: int| 0 <= i < a implies on_edge(Edge::Blank, #[trigger] answer[i]) by {}
    assert forall|i: int| b <= i < answer.len() implies on_edge(Edge::Blank, #[trigger] answer[i]) by {}
    lemma_trimmed_by(answer, Edge::Blank, a, b);
}

/// A step that was not taken is taken, one that failed ends the run, and one
/// that went well is done. A step that is only tried holds nothing up once it
/// was.
pub proof fn lemma_how_steps_are_taken<T, S, E>(fact: Known<T>, step: S)
    ensures
        waits::<T, S, E>(fact, step) is None <==> fact is Got,
        fact is NotYet ==> waits::<T, S, E>(fact, step) == Some(Next::<S, E>::Take(step)),
        fact is Failed ==> waits::<T, S, E>(fact, step) == Some(Next::<S, E>::Failed(step)),
        tries::<T, S, E>(fact, step) is None <==> fact !is NotYet,
        fact is NotYet ==> tries::<T, S, E>(fact, step) == Some(Next::<S, E>::Take(step)),
{
}

} // verus!
