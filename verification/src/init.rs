use vstd::prelude::*;

use crate::tree::FsEntry;
use crate::utils::{ends_with, path_push, spec_ends_with, spec_push};

verus! {

// Initialization turns a plain home directory into a project tree: it
// picks (or creates) a root project directory and moves the user folders
// into it. The interactive steps live with the caller; what is decided
// here is where the root project lies, given the home listing.

/// Where the bash startup file lies under the home directory.
pub fn bashrc_path(home_path: &String) -> (r: String)
    ensures
        r@ == spec_push(home_path@, ".bashrc"@),
{
    path_push(home_path.as_str(), ".bashrc")
}

/// Where the fish configuration file lies under the configuration
/// directory.
pub fn fish_config_path(config_dir: &String) -> (r: String)
    ensures
        r@ == spec_push(config_dir@, "fish/config.fish"@),
{
    path_push(config_dir.as_str(), "fish/config.fish")
}

/// Where the hook run after every switch lies under the configuration
/// directory.
pub fn on_prj_change_path(config_dir: &String) -> (r: String)
    ensures
        r@ == spec_push(config_dir@, "on-prj-change"@),
{
    path_push(config_dir.as_str(), "on-prj-change")
}

/// A directory entry whose name ends in the given suffix. Initialization
/// scans by name suffix, so a directory called just `.p` counts here even
/// though it carries no extension.
pub open spec fn is_dir_with_suffix(e: FsEntry, suffix: Seq<char>) -> bool {
    e.is_dir && spec_ends_with(e.name@, suffix)
}

/// How many of the first `i` entries are directories with the suffix.
pub open spec fn count_suffix_upto(entries: Seq<FsEntry>, suffix: Seq<char>, i: int) -> int
    decreases i,
{
    if i <= 0 {
        0
    } else {
        count_suffix_upto(entries, suffix, i - 1) + if is_dir_with_suffix(
            entries[i - 1],
            suffix,
        ) {
            1int
        } else {
            0int
        }
    }
}

pub proof fn lemma_count_suffix_monotonic(entries: Seq<FsEntry>, suffix: Seq<char>, a: int, b: int)
    requires
        a <= b,
    ensures
        count_suffix_upto(entries, suffix, a) <= count_suffix_upto(entries, suffix, b),
    decreases b - a,
{
    if a < b {
        lemma_count_suffix_monotonic(entries, suffix, a, b - 1);
    }
}

/// Two distinct suffix-matching entries force a count of at least two.
pub proof fn lemma_two_suffix(entries: Seq<FsEntry>, suffix: Seq<char>, i: int, j: int)
    requires
        0 <= i < j < entries.len(),
        is_dir_with_suffix(entries[i], suffix),
        is_dir_with_suffix(entries[j], suffix),
    ensures
        count_suffix_upto(entries, suffix, entries.len() as int) >= 2,
{
    lemma_count_suffix_monotonic(entries, suffix, 0, i);
    assert(count_suffix_upto(entries, suffix, i + 1) >= 1);
    lemma_count_suffix_monotonic(entries, suffix, i + 1, j);
    assert(count_suffix_upto(entries, suffix, j + 1) >= 2);
    lemma_count_suffix_monotonic(entries, suffix, j + 1, entries.len() as int);
}

/// The number of project-suffixed directory entries in the home listing.
pub open spec fn init_project_count(entries: Seq<FsEntry>) -> int {
    count_suffix_upto(entries, ".p"@, entries.len() as int)
}

/// The number of folder-suffixed directory entries in the home listing.
pub open spec fn init_wechsel_count(entries: Seq<FsEntry>) -> int {
    count_suffix_upto(entries, ".w"@, entries.len() as int)
}

/// Which directory initialization takes for the root project, given the
/// home listing: a sole project directory in an otherwise plain home is
/// kept as the root; any richer existing layout makes the home directory
/// itself the root; a plain home gets a fresh root directory.
pub fn init_root_project_path(entries: &Vec<FsEntry>, home_path: &String) -> (r: String)
    ensures
        init_project_count(entries@) == 1 && init_wechsel_count(entries@) == 0 ==> forall|k: int|
            0 <= k < entries@.len() && is_dir_with_suffix(entries@[k], ".p"@) ==> r@ == spec_push(
                home_path@,
                entries@[k].name@,
            ),
        init_project_count(entries@) >= 1 && !(init_project_count(entries@) == 1
            && init_wechsel_count(entries@) == 0) ==> r@ == home_path@,
        init_project_count(entries@) == 0 ==> r@ == spec_push(home_path@, "home.p"@),
{
    let mut project_count: usize = 0;
    let mut wechsel_count: usize = 0;
    let mut found: usize = 0;
    let mut i: usize = 0;
    while i < entries.len()
        invariant
            i <= entries@.len(),
            project_count == count_suffix_upto(entries@, ".p"@, i as int),
            wechsel_count == count_suffix_upto(entries@, ".w"@, i as int),
            project_count <= i,
            wechsel_count <= i,
            project_count > 0 ==> {
                &&& (found as int) < i
                &&& is_dir_with_suffix(entries@[found as int], ".p"@)
            },
        decreases entries@.len() - i,
    {
        let e = &entries[i];
        if e.is_dir && ends_with(e.name.as_str(), ".p") {
            if project_count == 0 {
                found = i;
            }
            project_count = project_count + 1;
        }
        if e.is_dir && ends_with(e.name.as_str(), ".w") {
            wechsel_count = wechsel_count + 1;
        }
        i = i + 1;
    }
    if project_count == 1 && wechsel_count == 0 {
        let r = path_push(home_path.as_str(), entries[found].name.as_str());
        proof {
            assert forall|k: int|
                0 <= k < entries@.len() && is_dir_with_suffix(entries@[k], ".p"@) implies r@
                == spec_push(home_path@, entries@[k].name@) by {
                if k != found as int {
                    if k < found as int {
                        lemma_two_suffix(entries@, ".p"@, k, found as int);
                    } else {
                        lemma_two_suffix(entries@, ".p"@, found as int, k);
                    }
                }
            }
        }
        r
    } else if project_count >= 1 {
        home_path.clone()
    } else {
        path_push(home_path.as_str(), "home.p")
    }
}

} // verus!
