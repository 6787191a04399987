//! The commands of the command line tool, as plain values.
use vstd::prelude::*;

verus! {

#[verifier::external_type_specification]
#[verifier::external_body]
pub struct ExPathBuf(std::path::PathBuf);

/// A parsed command line.
pub struct Cli {
    pub command: Commands,
}

/// The top-level commands.
pub enum Commands {
    /// Create a new project.
    New {
        name: String,
        program: Option<String>,
        path: Option<std::path::PathBuf>,
        force: bool,
        typhoon_path: Option<std::path::PathBuf>,
    },
    /// Add a program to a workspace or a handler to a program.
    Add { subcommand: AddSubcommand },
}

/// What `add` adds.
pub enum AddSubcommand {
    Program { path: Option<std::path::PathBuf>, name: String },
    Handler { path: Option<std::path::PathBuf>, program: String, name: String },
}

} // verus!
