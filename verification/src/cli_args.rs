//! Command line subcommands and options
//!
//! Options:
//! - level: Select the log level
//!
//! Subcommands:
//! - manual: Use the manual parser
//! - generated: Use the grammar-driven parser
//!
use std::path::PathBuf;
use vstd::prelude::*;

verus! {

/// The verbosity levels of the `log` crate, carried through as they are.
#[verifier::external_type_specification]
#[verifier::external_body]
pub struct ExLevelFilter(log::LevelFilter);

/// A path of the file system, carried through as it is.
#[verifier::external_type_specification]
#[verifier::external_body]
pub struct ExPathBuf(std::path::PathBuf);

/// What the command line asked for.
pub struct CliArgs {
    /// Verbosity level
    pub level: log::LevelFilter,
    /// Which reader to run, and on what
    pub command: Command,
}

/// The reader to run.
pub enum Command {
    /// Use manual parser
    Manual {
        /// Path to dump-ast file
        filename: Option<PathBuf>,
    },
    /// Use generated parser
    Generated {
        /// Path to dump-ast file
        filename: Option<PathBuf>,
    },
}

impl Command {
    /// The file to read; `None` stands for the standard input.
    pub open spec fn spec_filename(&self) -> Option<PathBuf> {
        match self {
            Command::Manual { filename } => *filename,
            Command::Generated { filename } => *filename,
        }
    }

    /// The file to read; `None` stands for the standard input.
    pub fn filename(&self) -> (f: &Option<PathBuf>)
        ensures
            *f == self.spec_filename(),
    {
        match self {
            Command::Manual { filename } => filename,
            Command::Generated { filename } => filename,
        }
    }

    /// Whether the grammar-driven reader was asked for.
    pub fn is_generated(&self) -> (g: bool)
        ensures
            g == (*self is Generated),
    {
        match self {
            Command::Manual { .. } => false,
            Command::Generated { .. } => true,
        }
    }
}

} // verus!
