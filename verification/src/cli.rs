//! The command surface, as plain data: what a front end asks the library to
//! do. Argument parsing itself lives outside the library.

use vstd::prelude::*;

verus! {

/// A parsed invocation: one command.
pub struct Cli {
    pub command: Cmd,
}

/// Every top-level command.
pub enum Cmd {
    List { tag: Vec<String> },
    New,
    Get { id: String },
    Edit { id: String },
    Delete { id: String },
    Rename { id: String, title: String },
    Search { query: String, tag: Option<String>, content: bool },
    Tag { id: String, changes: Vec<String> },
    Copy { id: String },
    Run { id: String, backend: String, vars: Vec<String> },
    Render { id: String, vars: Vec<String> },
    Export { ids: Option<String>, out: String },
    Import { file: String },
    History { id: String },
    Revert { id: String, timestamp: Option<String> },
    RotateKey { password: bool },
    Chain(ChainCmd),
    Pack(PackCmd),
    Deploy { repo_url: String, alias: Option<String>, password: Option<String> },
    Update { alias: Option<String> },
    Stats,
    Interactive,
}

/// Chain management commands.
pub enum ChainCmd {
    New,
    Import { file: String, id: String },
    Run { id: String, vars: Vec<String> },
    Edit { id: String },
    AddStep { id: String },
    RmStep { step_id: String },
}

/// Pack management commands.
pub enum PackCmd {
    Export { workspace: Option<String> },
}

} // verus!
