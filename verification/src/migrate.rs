use vstd::prelude::*;

use crate::utils::{path_push, spec_push};

verus! {

// Before the tree lived in the filesystem, a configuration file described
// it. Migration — moving the described directories into the on-disk tree —
// is one-time interactive work left to the caller; here live the file's
// shape and its well-known location, which resolution probes to tell a
// pre-migration setup from a never-initialized one.

/// The legacy configuration: the active project's name and the whole
/// project tree.
#[derive(Debug)]
pub struct OldConfig {
    pub active: String,
    pub all_prjs: OldProject,
}

/// One project of the legacy configuration: its name, its directory
/// relative to its parent's, its folders, and its child projects.
#[derive(Debug)]
pub struct OldProject {
    pub name: String,
    pub path: String,
    pub folder: Vec<String>,
    pub children: Vec<OldProject>,
}

/// Where the legacy configuration file would lie, whether or not it exists.
pub fn get_old_config_file_path_unchecked(config_dir: &String) -> (r: String)
    ensures
        r@ == spec_push(config_dir@, "wechsel_projects.json"@),
{
    path_push(config_dir.as_str(), "wechsel_projects.json")
}

/// The legacy configuration file's path, when the caller's probe found one
/// there.
pub fn get_old_config_file_path(config_dir: &String, probe_exists: bool) -> (r: Option<String>)
    ensures
        match r {
            Some(p) => probe_exists && p@ == spec_push(config_dir@, "wechsel_projects.json"@),
            None => !probe_exists,
        },
{
    if probe_exists {
        Some(get_old_config_file_path_unchecked(config_dir))
    } else {
        None
    }
}

} // verus!
