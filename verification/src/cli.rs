//! The command-line options the shell accepts, as plain values.  The
//! surrounding program parses the actual arguments and hands them in.

use vstd::prelude::*;

verus! {

/// The start-up options.
#[derive(Clone)]
pub struct Args {
    /// Show version information and exit.
    pub version: bool,
    /// With `version`: also query for an available update.
    pub check_updates: bool,
    /// With `version`: show build details too.
    pub verbose: bool,
    /// Load the configuration from this path instead of the default.
    pub config_path: Option<String>,
    /// Neither load nor save command history.
    pub no_history: bool,
}

} // verus!
