//! A diff detection, parsing, and application engine for free-form text.
//!
//! The library scans natural-language text for candidate edit blocks,
//! decides which blocks are genuine file edits, resolves and sanitizes
//! target paths, reconstructs the resulting file content, and renders a
//! human-readable preview of the change. File system access is left to
//! the surrounding application: the engine works on plain strings and on
//! snapshots of file contents handed to it.

use vstd::prelude::*;

pub mod binary;
pub mod classify;
pub mod config;
pub mod diff;
pub mod extract;
pub mod hunks;
pub mod path;
pub mod render;
pub mod synth;
pub mod text;

pub use config::Config;
pub use config::build_prompt;
pub use config::default_system_prompt;
pub use config::get_config_path;
pub use config::get_history_file_path;
pub use diff::DiffError;
pub use diff::DiffGenerator;
pub use diff::DirView;
pub use diff::FileDiff;
pub use render::DiffAction;

verus! {

/// The subcommands of the command line.
pub enum Commands {
    /// Initialize a new project context.
    Init,
    /// Inspect or edit the configuration.
    Config { path: bool, edit: bool },
}

/// The parsed command line: an optional subcommand, the model to use for
/// code suggestions, and the API endpoint URL.
pub struct Cli {
    pub command: Option<Commands>,
    pub model: Option<String>,
    pub api_url: String,
}

/// The endpoint URL used when none is given on the command line.
pub fn default_api_url() -> (r: String)
    ensures
        r@ == "http://localhost:11434"@,
{
    "http://localhost:11434".to_owned()
}

} // verus!
