//! What a scan finds out about a Steam library.

use vstd::prelude::*;

verus! {

/// A Steam library. Paths are kept as text.
#[derive(Debug)]
pub struct Library {
    pub id: String,
    pub path: String,
    /// The name it is shown under.
    pub name: String,
    /// The kind of Steam it belongs to.
    pub steam: String,
    /// Whether that Steam is a Flatpak.
    pub flatpak: bool,
    pub steamapps: String,
    pub compatdata: String,
    /// Where its Proton data would go.
    pub target: String,
    /// Where it goes, given what is there already.
    pub effective_target: String,
    pub connected: bool,
}

/// The state a library is in.
#[derive(Debug)]
pub enum State {
    NotRepaired { prefixes: usize },
    Repaired { target: String, prefixes: usize },
    InterruptedAwaitingLink { backup: String },
    Disconnected,
    NoCompatdata,
    DanglingLink { target: String },
    LinkedElsewhere { target: String },
    Unusable { detail: String },
}

/// What an inspection of a library found.
#[derive(Debug)]
pub struct Report {
    pub state: State,
    /// The state in one word, for machines.
    pub code: String,
    /// The state in one line, for people.
    pub headline: String,
    /// Originals that repairs have kept beside the library.
    pub backups: Vec<String>,
    /// Data that is already where a repair would put it.
    pub existing_destination: Option<String>,
    /// A copy back to the drive that stopped part way.
    pub interrupted_restore: Option<String>,
    /// A copy away from the drive that stopped part way.
    pub abandoned_copy: Option<String>,
}

/// What a filesystem can do for Proton.
#[derive(Debug, Clone, Copy, PartialEq, Eq, Structural)]
pub enum Capability {
    NeedsRepair,
    NoSymlinks,
    Native,
    Unknown,
}

/// A mounted filesystem.
#[derive(Debug)]
pub struct Mount {
    pub mount_point: String,
    pub fs_type: String,
    /// The filesystem as it is shown to people.
    pub described: String,
    pub capability: Capability,
    pub read_only: bool,
}

/// A number of bytes, and how it is shown to people.
#[derive(Debug)]
pub struct Size {
    pub bytes: u64,
    pub shown: String,
}

/// What is at a path, and how large it is.
#[derive(Debug)]
pub struct Held {
    pub path: String,
    pub size: Size,
}

/// What the filesystem under a library can do, where there is one to ask.
pub open spec fn capability_of(mount: Option<Mount>) -> Option<Capability> {
    match mount {
        Some(m) => Some(m.capability),
        None => None,
    }
}

pub fn capability(mount: &Option<Mount>) -> (c: Option<Capability>)
    ensures
        c == capability_of(*mount),
{
    match mount {
        Some(m) => Some(m.capability),
        None => None,
    }
}

/// What commands are told.
#[derive(Debug)]
pub struct Options {
    pub steam_root: Option<String>,
    /// Where relocated compatdata should live instead of the default data
    /// home. Must be a Linux filesystem for the same reason the moved data
    /// cannot stay where it was.
    pub data_dir: Option<String>,
    pub json: bool,
    pub dry_run: bool,
    pub force: bool,
    pub assume_yes: bool,
    /// Folders the user explicitly chose to scan. Nothing is scanned without
    /// being named here or being a known Steam library.
    pub roots: Vec<String>,
    pub candidates: Vec<String>,
    pub output: Option<String>,
    pub plan: Option<String>,
    pub entry: Option<String>,
    pub all: bool,
    /// The plan identity the caller reviewed. If it no longer matches, the
    /// operation is refused rather than applied to something else.
    pub expect: Option<String>,
    /// One `field=answer` pair for the evidence command.
    pub record: Option<String>,
    /// Resolve a destination conflict by keeping what is already at the
    /// destination and setting the library's current compatdata aside.
    pub keep_destination: bool,
    /// Resolve it the other way: set the destination aside and copy the
    /// library's current compatdata over.
    pub replace_destination: bool,
    /// `lutris covers`: a file holding the SteamGridDB API key.
    pub apikey: Option<String>,
    /// `lutris covers`: the one game to work on, when it is not all of them.
    pub game: Option<String>,
    /// `lutris covers`: search text to use instead of the game's name.
    pub query: Option<String>,
    /// `lutris covers`: a SteamGridDB id to use instead of the best match.
    pub cover_match: Option<String>,
    /// `lutris covers --list`: report what has no cover art and stop.
    pub list_covers: bool,
    /// `lutris covers --matches`: list candidates instead of fetching one.
    pub matches: bool,
    /// `lutris covers --overwrite`: replace a cover that is already there.
    pub overwrite: bool,
}

} // verus!
