//! Tools for moving a small program between two shapes: a single script file
//! whose leading doc comment embeds a dependency manifest inside a fenced
//! code block, and a split package (manifest file plus source file) inside a
//! multi-package workspace.
//!
//! The core is the transcoder: locating the unique reserved fence in the
//! rendered doc comment, cutting the manifest text out while reproducing
//! every other byte of the file, and the inverse splice. A second piece is
//! the membership editor for the workspace configuration, which adds or
//! removes a path from a list while leaving all unrelated formatting alone.

mod bytes_util;
pub mod config;
pub mod fence;
pub mod meta;
pub mod ops;
pub mod opts;
pub mod paths;
pub mod script;
pub mod splice;
pub mod workspace;

pub use opts::{
    run, AnsiColorChoice, Command, Context, Opt, OptScripts, OptScriptsConfig,
    OptScriptsConfigRemove, OptScriptsConfigRmGistId, OptScriptsConfigSet,
    OptScriptsConfigSetBase, OptScriptsConfigSetGistId, OptScriptsExclude, OptScriptsExport,
    OptScriptsGist, OptScriptsGistClone, OptScriptsGistPull, OptScriptsGistPush,
    OptScriptsImport, OptScriptsInclude, OptScriptsInitWorkspace, OptScriptsNew, OptScriptsRm,
};

