//! The command line as the library sees it: the global options and the
//! subcommands, as plain values. Parsing arguments is left to the caller.

use vstd::prelude::*;
use crate::fspath::FsPath;

verus! {

/// Default side to keep when a conflict is found.
#[derive(Clone, Copy, Debug, PartialEq, Eq, Structural)]
pub enum Prefer {
    /// Keep the editor's value on conflict.
    Editor,
    /// Keep the config's value on conflict.
    Repo,
}

/// Options shared by every command.
pub struct GlobalArgs {
    /// Select an editor by name (`nameShort`/`applicationName`) or launcher path.
    pub editor: Option<String>,
    /// Path to the config file (defaults to one derived from the editor name).
    pub config: Option<FsPath>,
    /// Application state directory (defaults to the platform app config dir).
    pub app_dir: Option<FsPath>,
    /// Limit the operation to the named profile(s); repeatable.
    pub profile: Vec<String>,
    /// Show what would change without writing anything.
    pub dry_run: bool,
    /// Assume yes for confirmation prompts.
    pub yes: bool,
    /// Proceed even if the editor appears to be running.
    pub force: bool,
    /// Never prompt; fail instead of asking.
    pub non_interactive: bool,
    /// Default side to keep when a conflict is found.
    pub prefer: Option<Prefer>,
}

/// The action to perform.
#[derive(Clone, Copy, Debug, PartialEq, Eq, Structural)]
pub enum Command {
    /// List editors discovered on this machine.
    Detect,
    /// List the selected editor's profiles.
    ListProfiles,
    /// Show drift between the config and the editor without writing.
    Status,
    /// Create a config from the editor's current profiles.
    Init,
    /// Apply the config to the editor.
    Push,
    /// Update the config from the editor.
    Pull,
    /// Reconcile both directions with conflict resolution.
    Sync,
}

/// A parsed command line: the global options and the action (with no
/// subcommand, the interactive flow runs).
pub struct Cli {
    pub global: GlobalArgs,
    pub command: Option<Command>,
}

}
