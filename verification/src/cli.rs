//! The command line: which command to run.

use vstd::prelude::*;

verus! {

/// The command to run.
#[derive(Clone, Copy, Debug, PartialEq, Eq, Structural)]
pub enum Mode {
    /// Find and report untracked todos
    Snitch,
    /// List existing todos
    Peek,
    /// Remove the todos whose issues are closed
    Audit,
}

/// The parsed command line.
#[derive(Clone, Copy, Debug, PartialEq, Eq, Structural)]
pub struct Cli {
    pub mode: Mode,
}

} // verus!
