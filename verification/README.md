# LibraryBridge

LibraryBridge keeps Windows game files on the drive they are on while their
Proton data lives on a Linux filesystem. It also adds GOG and standalone games
to Lutris and fetches cover art for them.

What the tool decides and what it says is a library whose contracts Verus
proves. Everything that touches the disk, the network, other programs or the
terminal is ordinary Rust around it.

## How a command runs

A command that changes something is run by asking what comes next, given what
is known so far. The answer is a step to take or the end of the run. The
outcome of the step is added to what is known, and the question is asked again.
So the order of the steps, and what has to hold before each of them, is a
function of plain values, and statements about whole runs are statements about
that function. For example:

- a dry run takes no step that changes anything,
- the library is touched only once the copy has been checked and is on disk,
- no repair and no undo deletes data; one command does, and only after somebody
  said that the game works and the copy was shown to carry the original.

## Layout

- `src/` is the library.
  - `text`, `unicode`, `ordered`, `sorting`, `path`: texts, and the order and
    the parts of them.
  - `digits`, `double`, `number`, `json`: reading JSON, with numbers as doubles
    round them.
  - `document`, `written`: writing JSON, and what the reader makes of it.
  - `library`, `protocol`: what the commands share.
  - `scan`, `evidence`, `storage`: what the Steam commands that only read report.
  - `fix`, `fix_text`, `recovery`, `undo`, `backup`: the Steam commands that
    change a library.
  - `lutris`, `lutris_cmd`, `import`, `forget`: games and Lutris.
  - `covers`, `cover_run`: cover art.
- `tests/` runs the library.
- `app/` performs the steps.
