//! Keeps Windows game libraries usable from Linux: the decisions behind moving
//! Proton data off a game drive, importing games into Lutris and fetching
//! cover art, with their contracts proved.

pub mod backup;
pub mod cover_run;
pub mod covers;
pub mod digits;
pub mod document;
pub mod double;
pub mod evidence;
pub mod fix;
pub mod fix_text;
pub mod forget;
pub mod import;
pub mod json;
pub mod library;
pub mod lutris;
pub mod lutris_cmd;
pub mod number;
pub mod ordered;
pub mod path;
pub mod protocol;
pub mod recovery;
pub mod scan;
pub mod sorting;
pub mod storage;
pub mod text;
pub mod undo;
pub mod unicode;
pub mod written;
