//! The command-line surface as plain data: the option tree, the execution
//! context's data, and the dispatch from the option tree to the flat
//! command it selects. Argument parsing itself and all I/O stay with the
//! caller; what is verified here is that dispatch is exact.

use vstd::prelude::*;

verus! {

/// How output colouring was requested.
#[derive(Debug, Clone, Copy, PartialEq, Eq, Structural)]
pub enum AnsiColorChoice {
    /// Colour when the output is a terminal.
    Auto,
    /// Always colour.
    Always,
    /// Never colour.
    Never,
}

impl AnsiColorChoice {
    /// The choice a command-line word names, if any.
    pub fn parse_choice(s: &str) -> (r: Option<AnsiColorChoice>)
        ensures
            (s@ == "auto"@) == (r == Some(AnsiColorChoice::Auto)),
            (s@ == "always"@) == (r == Some(AnsiColorChoice::Always)),
            (s@ == "never"@) == (r == Some(AnsiColorChoice::Never)),
            r is None ==> s@ != "auto"@ && s@ != "always"@ && s@ != "never"@,
    {
        proof {
            reveal_strlit("auto");
            reveal_strlit("always");
            reveal_strlit("never");
            assert("auto"@.len() == 4);
            assert("always"@.len() == 6);
            assert("never"@.len() == 5);
        }
        if crate::paths::str_eq(s, "auto") {
            Some(AnsiColorChoice::Auto)
        } else if crate::paths::str_eq(s, "always") {
            Some(AnsiColorChoice::Always)
        } else if crate::paths::str_eq(s, "never") {
            Some(AnsiColorChoice::Never)
        } else {
            None
        }
    }

    /// The command-line word for the choice.
    pub fn choice_name(&self) -> (r: &'static str)
        ensures
            *self == AnsiColorChoice::Auto ==> r@ == "auto"@,
            *self == AnsiColorChoice::Always ==> r@ == "always"@,
            *self == AnsiColorChoice::Never ==> r@ == "never"@,
    {
        match self {
            AnsiColorChoice::Auto => "auto",
            AnsiColorChoice::Always => "always",
            AnsiColorChoice::Never => "never",
        }
    }
}

/// What the process needs to know about its surroundings: everything else
/// (streams, prompts, logging) stays with the caller.
pub struct Context {
    /// The current working directory.
    pub cwd: String,
    /// The user's home directory, when one is known.
    pub home_dir: Option<String>,
}

/// Creating a new workspace in an existing directory.
pub struct OptScriptsInitWorkspace {
    /// Output colouring.
    pub color: AnsiColorChoice,
    /// Plan only; write nothing.
    pub dry_run: bool,
    /// The directory to initialise.
    pub path: String,
}

/// Creating a new workspace member from the template.
pub struct OptScriptsNew {
    /// An explicit manifest path for the metadata query.
    pub manifest_path: Option<String>,
    /// The new package's name; the directory name when absent.
    pub name: Option<String>,
    /// Output colouring.
    pub color: AnsiColorChoice,
    /// Plan only; write nothing.
    pub dry_run: bool,
    /// The directory to create.
    pub path: String,
}

/// Removing a workspace member.
pub struct OptScriptsRm {
    /// An explicit manifest path for the metadata query.
    pub manifest_path: Option<String>,
    /// Output colouring.
    pub color: AnsiColorChoice,
    /// Plan only; write nothing.
    pub dry_run: bool,
    /// The name of the package to remove.
    pub package: String,
}

/// Including a package in the workspace lists.
pub struct OptScriptsInclude {
    /// An explicit manifest path for the metadata query.
    pub manifest_path: Option<String>,
    /// Output colouring.
    pub color: AnsiColorChoice,
    /// Plan only; write nothing.
    pub dry_run: bool,
    /// Path of the package to include.
    pub path: String,
}

/// Excluding a package from the workspace lists.
pub struct OptScriptsExclude {
    /// An explicit manifest path for the metadata query.
    pub manifest_path: Option<String>,
    /// Output colouring.
    pub color: AnsiColorChoice,
    /// Plan only; write nothing.
    pub dry_run: bool,
    /// Path of the package to exclude.
    pub path: String,
}

/// Importing a script as a package.
pub struct OptScriptsImport {
    /// An explicit manifest path for the metadata query.
    pub manifest_path: Option<String>,
    /// Output colouring.
    pub color: AnsiColorChoice,
    /// Plan only; write nothing.
    pub dry_run: bool,
    /// Where to create the package; the workspace root plus the package
    /// name when absent.
    pub path: Option<String>,
    /// The script file to read; standard input when absent.
    pub file: Option<String>,
}

/// Exporting a package as a script.
pub struct OptScriptsExport {
    /// An explicit manifest path for the metadata query.
    pub manifest_path: Option<String>,
    /// Output colouring.
    pub color: AnsiColorChoice,
    /// The name of the package to export.
    pub package: String,
}

/// Cloning a script from the remote snippet store.
pub struct OptScriptsGistClone {
    /// An explicit manifest path for the metadata query.
    pub manifest_path: Option<String>,
    /// Output colouring.
    pub color: AnsiColorChoice,
    /// Plan only; write nothing.
    pub dry_run: bool,
    /// Where to create the package; the workspace root plus the package
    /// name when absent.
    pub path: Option<String>,
    /// The snippet to clone.
    pub gist_id: String,
}

/// Pulling a script's remote state into its package.
pub struct OptScriptsGistPull {
    /// An explicit manifest path for the metadata query.
    pub manifest_path: Option<String>,
    /// Output colouring.
    pub color: AnsiColorChoice,
    /// Plan only; write nothing.
    pub dry_run: bool,
    /// The name of the package to pull.
    pub package: String,
}

/// Pushing a package's script to the remote snippet store.
pub struct OptScriptsGistPush {
    /// An explicit manifest path for the metadata query.
    pub manifest_path: Option<String>,
    /// Output colouring.
    pub color: AnsiColorChoice,
    /// Plan only; write nothing.
    pub dry_run: bool,
    /// Create a new snippet when none is recorded for the package.
    pub set_upstream: bool,
    /// Make a newly created snippet private.
    pub private: bool,
    /// The description to set.
    pub description: Option<String>,
    /// The name of the package to push.
    pub package: String,
}

/// Setting the configuration's template base path.
pub struct OptScriptsConfigSetBase {
    /// An explicit manifest path for the metadata query.
    pub manifest_path: Option<String>,
    /// Output colouring.
    pub color: AnsiColorChoice,
    /// Plan only; write nothing.
    pub dry_run: bool,
    /// The new base path.
    pub path: String,
}

/// Recording a snippet id for a package.
pub struct OptScriptsConfigSetGistId {
    /// An explicit manifest path for the metadata query.
    pub manifest_path: Option<String>,
    /// Output colouring.
    pub color: AnsiColorChoice,
    /// Plan only; write nothing.
    pub dry_run: bool,
    /// The package the id is recorded for.
    pub package: String,
    /// The id to record.
    pub gist_id: String,
}

/// Dropping the recorded snippet id of a package.
pub struct OptScriptsConfigRmGistId {
    /// An explicit manifest path for the metadata query.
    pub manifest_path: Option<String>,
    /// Output colouring.
    pub color: AnsiColorChoice,
    /// Plan only; write nothing.
    pub dry_run: bool,
    /// The package whose record is dropped.
    pub package: String,
}

/// The snippet-store subcommands.
pub enum OptScriptsGist {
    /// Clone a script from the store.
    Clone(OptScriptsGistClone),
    /// Pull a script's remote state.
    Pull(OptScriptsGistPull),
    /// Push a script to the store.
    Push(OptScriptsGistPush),
}

/// The configuration-setting subcommands.
pub enum OptScriptsConfigSet {
    /// Set the template base path.
    Base(OptScriptsConfigSetBase),
    /// Record a snippet id.
    GistId(OptScriptsConfigSetGistId),
}

/// The configuration-removal subcommands.
pub enum OptScriptsConfigRemove {
    /// Drop a recorded snippet id.
    GistId(OptScriptsConfigRmGistId),
}

/// The configuration subcommands.
pub enum OptScriptsConfig {
    /// Set a configuration value.
    SetVar(OptScriptsConfigSet),
    /// Remove a configuration value.
    Remove(OptScriptsConfigRemove),
}

/// The tool's subcommands.
pub enum OptScripts {
    /// Create a new workspace in an existing directory.
    InitWorkspace(OptScriptsInitWorkspace),
    /// Create a new workspace member from the template.
    New(OptScriptsNew),
    /// Remove a workspace member.
    Rm(OptScriptsRm),
    /// Include a package in the workspace.
    Include(OptScriptsInclude),
    /// Exclude a package from the workspace.
    Exclude(OptScriptsExclude),
    /// Import a script as a package.
    Import(OptScriptsImport),
    /// Export a package as a script.
    Export(OptScriptsExport),
    /// Talk to the remote snippet store.
    Gist(OptScriptsGist),
    /// Modify the tool's configuration file.
    Config(OptScriptsConfig),
}

/// The whole option tree, as the host invocation nests it.
pub enum Opt {
    /// The one top-level subcommand.
    Scripts(OptScripts),
}

/// A command with the nesting flattened away: what one invocation does.
pub enum Command {
    /// Create a new workspace.
    InitWorkspace(OptScriptsInitWorkspace),
    /// Create a new member from the template.
    New(OptScriptsNew),
    /// Remove a member.
    Rm(OptScriptsRm),
    /// Include a package.
    Include(OptScriptsInclude),
    /// Exclude a package.
    Exclude(OptScriptsExclude),
    /// Import a script.
    Import(OptScriptsImport),
    /// Export a package.
    Export(OptScriptsExport),
    /// Clone a snippet.
    GistClone(OptScriptsGistClone),
    /// Pull a snippet.
    GistPull(OptScriptsGistPull),
    /// Push a snippet.
    GistPush(OptScriptsGistPush),
    /// Set the template base path.
    ConfigSetBase(OptScriptsConfigSetBase),
    /// Record a snippet id.
    ConfigSetGistId(OptScriptsConfigSetGistId),
    /// Drop a recorded snippet id.
    ConfigRemoveGistId(OptScriptsConfigRmGistId),
}

/// The command an option tree selects.
pub open spec fn dispatch_spec(opt: Opt) -> Command {
    match opt {
        Opt::Scripts(OptScripts::InitWorkspace(o)) => Command::InitWorkspace(o),
        Opt::Scripts(OptScripts::New(o)) => Command::New(o),
        Opt::Scripts(OptScripts::Rm(o)) => Command::Rm(o),
        Opt::Scripts(OptScripts::Include(o)) => Command::Include(o),
        Opt::Scripts(OptScripts::Exclude(o)) => Command::Exclude(o),
        Opt::Scripts(OptScripts::Import(o)) => Command::Import(o),
        Opt::Scripts(OptScripts::Export(o)) => Command::Export(o),
        Opt::Scripts(OptScripts::Gist(OptScriptsGist::Clone(o))) => Command::GistClone(o),
        Opt::Scripts(OptScripts::Gist(OptScriptsGist::Pull(o))) => Command::GistPull(o),
        Opt::Scripts(OptScripts::Gist(OptScriptsGist::Push(o))) => Command::GistPush(o),
        Opt::Scripts(OptScripts::Config(OptScriptsConfig::SetVar(OptScriptsConfigSet::Base(o)))) => {
            Command::ConfigSetBase(o)
        },
        Opt::Scripts(
            OptScripts::Config(OptScriptsConfig::SetVar(OptScriptsConfigSet::GistId(o))),
        ) => Command::ConfigSetGistId(o),
        Opt::Scripts(
            OptScripts::Config(OptScriptsConfig::Remove(OptScriptsConfigRemove::GistId(o))),
        ) => Command::ConfigRemoveGistId(o),
    }
}

/// Resolves the option tree to the command it selects. The caller runs
/// the command: every step of it that computes or decides is a function
/// of this library, and what reads or writes the world stays outside.
pub fn run(opt: Opt) -> (c: Command)
    ensures
        c == dispatch_spec(opt),
{
    match opt {
        Opt::Scripts(OptScripts::InitWorkspace(o)) => Command::InitWorkspace(o),
        Opt::Scripts(OptScripts::New(o)) => Command::New(o),
        Opt::Scripts(OptScripts::Rm(o)) => Command::Rm(o),
        Opt::Scripts(OptScripts::Include(o)) => Command::Include(o),
        Opt::Scripts(OptScripts::Exclude(o)) => Command::Exclude(o),
        Opt::Scripts(OptScripts::Import(o)) => Command::Import(o),
        Opt::Scripts(OptScripts::Export(o)) => Command::Export(o),
        Opt::Scripts(OptScripts::Gist(OptScriptsGist::Clone(o))) => Command::GistClone(o),
        Opt::Scripts(OptScripts::Gist(OptScriptsGist::Pull(o))) => Command::GistPull(o),
        Opt::Scripts(OptScripts::Gist(OptScriptsGist::Push(o))) => Command::GistPush(o),
        Opt::Scripts(OptScripts::Config(OptScriptsConfig::SetVar(OptScriptsConfigSet::Base(o)))) => {
            Command::ConfigSetBase(o)
        },
        Opt::Scripts(
            OptScripts::Config(OptScriptsConfig::SetVar(OptScriptsConfigSet::GistId(o))),
        ) => Command::ConfigSetGistId(o),
        Opt::Scripts(
            OptScripts::Config(OptScriptsConfig::Remove(OptScriptsConfigRemove::GistId(o))),
        ) => Command::ConfigRemoveGistId(o),
    }
}

} // verus!
