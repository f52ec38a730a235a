//! The commands of the program, and what each of them runs.

use vstd::prelude::*;

verus! {

/// What the program was asked to do.
#[derive(Debug)]
pub struct Cli {
    pub command: Commands,
}

/// The commands.
#[derive(Debug, Clone, Copy, PartialEq, Eq, Structural)]
pub enum Commands {
    /// Test the connections.
    Test,
    /// Migrate the authors.
    Authors,
    /// Migrate the tags.
    Tags,
    /// Migrate the posts.
    Posts,
    /// Migrate the pages.
    Pages,
}

/// One thing that a command runs.
#[derive(Debug, Clone, Copy, PartialEq, Eq, Structural)]
pub enum Step {
    /// Check the configuration and the connection to the data source.
    CheckSource,
    /// Ask the destination whether it is there.
    CheckDestination,
    MigrateAuthors,
    MigrateTags,
    MigratePosts,
}

/// What `command` runs, in order: every command checks the data source
/// first; the pages have no migration, so `Pages` does nothing more.
pub open spec fn steps_of(command: Commands) -> Seq<Step> {
    match command {
        Commands::Test => seq![Step::CheckSource, Step::CheckDestination],
        Commands::Authors => seq![Step::CheckSource, Step::MigrateAuthors],
        Commands::Tags => seq![Step::CheckSource, Step::MigrateTags],
        Commands::Posts => seq![Step::CheckSource, Step::MigratePosts],
        Commands::Pages => seq![Step::CheckSource],
    }
}

impl Commands {
    /// What this command runs, in order.
    pub fn steps(&self) -> (out: Vec<Step>)
        ensures
            out@ == steps_of(*self),
    {
        let mut out: Vec<Step> = Vec::new();
        out.push(Step::CheckSource);
        match self {
            Commands::Test => out.push(Step::CheckDestination),
            Commands::Authors => out.push(Step::MigrateAuthors),
            Commands::Tags => out.push(Step::MigrateTags),
            Commands::Posts => out.push(Step::MigratePosts),
            Commands::Pages => {},
        }
        assert(out@ == steps_of(*self));
        out
    }
}

impl Cli {
    /// What the program runs, in order.
    pub fn steps(&self) -> (out: Vec<Step>)
        ensures
            out@ == steps_of(self.command),
    {
        self.command.steps()
    }
}

} // verus!
