//! The command line of the tool, as plain data.
use vstd::prelude::*;
use crate::commands::TestArgs;
use crate::targets::BuildArgs;

verus! {

/// The command line, as Cargo hands it to a subcommand.
pub struct Cli {
    pub command: Commands,
}

/// The Cargo subcommands that the tool provides.
pub enum Commands {
    Buckal(BuckalArgs),
}

/// The arguments of `cargo buckal`.
pub struct BuckalArgs {
    pub subcommands: Option<BuckalSubCommands>,
    /// Print the version.
    pub version: bool,
}

/// The subcommands of `cargo buckal`.
pub enum BuckalSubCommands {
    Add(AddArgs),
    Build(BuildArgs),
    Init(InitArgs),
    Migrate(MigrateArgs),
    New(NewArgs),
    Patch(PatchArgs),
    Remove(RemoveArgs),
    Test(Box<TestArgs>),
    Update(UpdateArgs),
}

/// Adds a dependency to a manifest.
pub struct AddArgs {
    pub package: String,
    pub workspace: bool,
    pub features: Option<String>,
    pub rename: Option<String>,
    pub dev: bool,
    pub build: bool,
}

/// Creates a package in an existing directory.
pub struct InitArgs {
    pub bin: bool,
    pub lib: bool,
    pub edition: Option<String>,
    pub name: Option<String>,
    pub repo: bool,
    pub lite: bool,
}

/// Moves existing Cargo packages to Buck2.
pub struct MigrateArgs {
    pub no_cache: bool,
    pub merge: bool,
    pub buck2: bool,
    pub fetch: bool,
    pub separate: bool,
}

/// Creates a package.
pub struct NewArgs {
    pub path: String,
    pub bin: bool,
    pub lib: bool,
    pub edition: Option<String>,
    pub name: Option<String>,
    pub repo: bool,
    pub lite: bool,
}

/// Replaces a version of a dependency.
pub struct PatchArgs {
    pub spec: String,
}

/// Removes dependencies from a manifest.
pub struct RemoveArgs {
    pub packages: Vec<String>,
    pub workspace: bool,
    pub dev: bool,
    pub build: bool,
}

/// Updates dependencies.
pub struct UpdateArgs {
    pub packages: Vec<String>,
    pub workspace: bool,
    pub dry_run: bool,
}

} // verus!
