//! The command line: flags, subcommands, and what they decide.

use vstd::prelude::*;

verus! {

/// The parsed command line.
pub struct Cli {
    /// Launch the graphical interface.
    pub gui: bool,
    /// Log more.
    pub verbose: bool,
    /// Log less.
    pub quiet: bool,
    /// The subcommand, if one was given.
    pub command: Option<Commands>,
}

/// The subcommands.
pub enum Commands {
    /// Search file names or contents.
    Search {
        path: Option<String>,
        pattern: Option<String>,
        content: Option<String>,
        regex: bool,
        glob: bool,
        case_sensitive: bool,
        context: usize,
        limit: usize,
    },
    /// Build the index of a directory.
    Index { path: Option<String>, rebuild: bool },
    /// Fetch and show skill insights.
    Heartbeat { fetch: bool, trends: bool, insights: bool, status: bool },
}

/// The log level the flags select: quiet wins over verbose.
pub open spec fn level_for(quiet: bool, verbose: bool) -> Seq<char> {
    if quiet {
        "warn"@
    } else if verbose {
        "debug"@
    } else {
        "info"@
    }
}

impl Cli {
    /// The log level: `warn` when quiet, `debug` when verbose, `info` otherwise.
    pub fn log_level(&self) -> (r: &str)
        ensures
            r@ == level_for(self.quiet, self.verbose),
    {
        if self.quiet {
            "warn"
        } else if self.verbose {
            "debug"
        } else {
            "info"
        }
    }

    /// Whether to launch the graphical interface: when asked for, or when no
    /// subcommand was given.
    pub fn should_launch_gui(&self) -> (r: bool)
        ensures
            r == (self.gui || self.command is None),
    {
        self.gui || self.command.is_none()
    }
}

} // verus!
