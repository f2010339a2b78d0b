use vstd::prelude::*;

verus! {

/// The operations the command-line tool offers. Argument parsing itself is
/// outside the library; a front end maps parsed arguments into this model.
#[derive(Debug, PartialEq, Eq)]
pub enum Command {
    /// Create in-database fixtures; truncates existing data. `subdivide`
    /// asks for one generated office to be split.
    CreateFixtures { subdivide: bool },
    /// View one or multiple entities, optionally narrowed by a filter word
    /// (an identifier prefix such as `usr`, or a table name such as
    /// `users`).
    Show { filter: Option<String> },
    /// Simulate an office rental over a fixed horizon.
    Simulate {},
}

/// The whole parsed command line.
#[derive(Debug)]
pub struct CliArguments {
    pub subcommand: Command,
}

} // verus!
