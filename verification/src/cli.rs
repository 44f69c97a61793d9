//! The command line: the commands and options that the tool accepts.

use vstd::prelude::*;

verus! {

/// The parsed command line.
#[derive(Debug)]
pub struct Cli {
    /// Config path given with `--config`.
    pub config: Option<String>,
    /// `--json`: machine-readable output.
    pub json: bool,
    /// `--no-color`.
    pub no_color: bool,
    pub command: Option<Commands>,
}

/// The commands.
#[derive(Debug)]
pub enum Commands {
    Scan,
    List,
    Tui,
    Kill { port: u16, hard: bool, timeout_ms: u64 },
    Start { service: String },
    Doctor,
    Urls { host: Option<String> },
    Open { name: String },
    Config { command: ConfigCommands },
}

/// The `config` subcommands.
#[derive(Debug)]
pub enum ConfigCommands {
    Path,
    Init { force: bool },
    Add { name: String, repo: String, port: u16, start: Option<String> },
}

} // verus!
