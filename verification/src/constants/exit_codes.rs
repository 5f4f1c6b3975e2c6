//! Process exit codes, one per kind of failure.

use vstd::prelude::*;

verus! {

/// Bad sub-command or missing file argument.
pub const COMMAND_LINE_USAGE: i32 = 64;

/// A scanner, parser or resolver error.
pub const SYNTAX_ERROR: i32 = 65;

/// The input file cannot be opened.
pub const CANNOT_OPEN_INPUT: i32 = 66;

/// An error while the program runs.
pub const RUNTIME_ERROR: i32 = 70;

} // verus!
