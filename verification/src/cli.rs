//! The commands a user can ask for, as plain data.

use vstd::prelude::*;

verus! {

/// A parsed command line.
#[derive(Debug)]
pub struct Cli {
    pub domain: Domain,
}

/// The area a command belongs to.
#[derive(Debug)]
pub enum Domain {
    /// TypeScript related commands.
    Typescript { command: TypescriptCommand },
}

/// A command on TypeScript sources.
#[derive(Debug)]
pub enum TypescriptCommand {
    /// Remove unused declarations in the files that `pattern` matches.
    RemoveUnusedDeclarations { pattern: String },
}

} // verus!
