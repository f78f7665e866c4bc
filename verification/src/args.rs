//! The command line, as plain values.

use vstd::prelude::*;

verus! {

/// The parsed command line: an optional subcommand and the remaining arguments.
#[derive(Debug)]
pub struct Cli {
    pub command: Option<Commands>,
    pub remaining: Remaining,
}

/// The subcommands.
#[derive(Debug)]
pub enum Commands {
    /// Forward all following arguments directly to Typst
    Defer(Remaining),
    /// Preview a specified file. Runs `watch`, writing output to `/tmp/` and opening it in the default viewer
    Preview(Remaining),
    /// (Re-) Discover installed Typst binaries
    Discover,
    /// Information on previously discovered binaries
    List,
}

/// Arguments passed on: the first may name a version (i.e. `0.15`, or `0.13.1`), the
/// others go to Typst.
#[derive(Debug)]
pub struct Remaining {
    pub remaining: Vec<String>,
}

} // verus!
