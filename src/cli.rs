//! The commands the tool offers, as plain values.

use vstd::prelude::*;

verus! {

/// How a port listing is printed.
#[derive(PartialEq, Eq, Structural, Clone, Copy, Debug)]
pub enum OutputFormat {
    Table,
    Json,
    Csv,
}

/// A command and its arguments.
#[derive(Clone, Debug)]
#[allow(inconsistent_fields)]
pub enum Commands {
    /// List occupied ports, optionally within `range` (`START-END`), for
    /// processes matching `filter`, or on common development ports only.
    List { range: Option<String>, filter: Option<String>, common: bool, format: OutputFormat },
    /// Terminate the processes on these ports; `force` skips confirmation.
    Kill { ports: Vec<u16>, force: bool },
    /// Check whether ports (numbers or `START-END` ranges) are free.
    Check { ports: Vec<String> },
    /// Watch the ports of a configuration file.
    Watch { config: Option<String> },
    /// Terminate the processes on common development ports.
    Free { common: bool, force: bool },
    /// Write a configuration file in the current directory.
    Init { force: bool },
    /// Show recent actions (not recorded yet).
    History { limit: usize },
}

/// A parsed command line.
#[derive(Clone, Debug)]
pub struct Cli {
    pub command: Commands,
}

} // verus!
