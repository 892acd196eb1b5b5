use vstd::prelude::*;

pub mod change;
pub mod cli;
pub mod init;
pub mod migrate;
pub mod new;
pub mod tree;
pub mod utils;

verus! {

/// Directory-name suffix that marks a directory as a project node.
pub const PROJECT_EXTENSION: &'static str = "p";

/// Directory-name suffix that marks a directory inside a project as a
/// linkable folder.
pub const WECHSEL_FOLDER_EXTENSION: &'static str = "w";

/// Name of the well-known symlink in the home directory that points at the
/// active project.
pub const CURRENT_PROJECT_FOLDER: &'static str = "Project";

/// Name the root of the project tree always carries, whatever the home
/// directory is called on disk.
pub const DEFAULT_ROOT_PRJ: &'static str = "home";

} // verus!
