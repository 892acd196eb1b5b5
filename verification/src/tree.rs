use vstd::prelude::*;

use crate::utils::{
    file_stem, is_entry_folder_with_extension, path_push, spec_extension, spec_file_stem,
    spec_push,
};
use crate::{DEFAULT_ROOT_PRJ, PROJECT_EXTENSION, WECHSEL_FOLDER_EXTENSION};

verus! {

// The project tree is encoded on disk: a directory whose name carries the
// project extension is a project node, one carrying the linkable-folder
// extension is a linkable folder of the project that contains it. The
// resolver works on a snapshot of those listings, taken by the caller, so
// that every rule below is checked against plain values.

/// One directory entry of a snapshot: its name, whether it is a directory
/// (after following symlinks), and — when the entry is itself a directory
/// that was listed — its own entries. An unreadable directory has no
/// entries and so degrades to a leaf.
#[derive(Debug)]
pub struct FsEntry {
    pub name: String,
    pub is_dir: bool,
    pub entries: Vec<FsEntry>,
}

/// A node of the logical project tree.
#[derive(Debug)]
pub struct ProjectTreeNode {
    pub prj_name: String,
    pub children: Vec<ProjectTreeNode>,
    pub path: String,
    pub folders: Option<Vec<String>>,
}

/// The tree together with the active project's name, as the tree command
/// reports them.
#[derive(Debug)]
pub struct TreeOutput {
    pub tree: ProjectTreeNode,
    pub active: String,
}

/// Why a resolution refused the home directory's layout.
#[derive(Clone, Copy, Debug, PartialEq, Eq, Structural)]
pub enum ResolveError {
    /// No projects and no linkable folders: nothing was ever initialized.
    Uninitialized,
    /// Same layout, but the legacy configuration file exists: the setup
    /// predates the on-disk tree and must be migrated.
    NeedsMigration,
}

/// An entry counts for an extension when it is a directory and its name
/// carries that extension.
pub open spec fn entry_has_ext(e: FsEntry, ext: Seq<char>) -> bool {
    e.is_dir && spec_extension(e.name@) == Some(ext)
}

/// A project child: a directory entry with the project extension.
pub open spec fn is_project_entry(e: FsEntry) -> bool {
    entry_has_ext(e, PROJECT_EXTENSION@)
}

/// A linkable folder: a directory entry with the linkable-folder extension.
pub open spec fn is_wechsel_entry(e: FsEntry) -> bool {
    entry_has_ext(e, WECHSEL_FOLDER_EXTENSION@)
}

/// How many of the first `i` entries are project children.
pub open spec fn count_projects_upto(entries: Seq<FsEntry>, i: int) -> int
    decreases i,
{
    if i <= 0 {
        0
    } else {
        count_projects_upto(entries, i - 1) + if is_project_entry(entries[i - 1]) {
            1int
        } else {
            0int
        }
    }
}

/// Whether one of the first `i` entries is a linkable folder.
pub open spec fn has_wechsel_upto(entries: Seq<FsEntry>, i: int) -> bool {
    exists|k: int| 0 <= k < i && is_wechsel_entry(entries[k])
}

/// Whether the listing holds a linkable folder at all.
pub open spec fn has_wechsel_folder(entries: Seq<FsEntry>) -> bool {
    has_wechsel_upto(entries, entries.len() as int)
}

/// The names (extension included) of the linkable folders among the first
/// `i` entries, in listing order.
pub open spec fn folder_names_upto(entries: Seq<FsEntry>, i: int) -> Seq<Seq<char>>
    decreases i,
{
    if i <= 0 {
        Seq::empty()
    } else {
        let rest = folder_names_upto(entries, i - 1);
        if is_wechsel_entry(entries[i - 1]) {
            rest.push(entries[i - 1].name@)
        } else {
            rest
        }
    }
}

/// The stripped names of the linkable folders among the first `i` entries.
pub open spec fn folder_stems_upto(entries: Seq<FsEntry>, i: int) -> Seq<Seq<char>>
    decreases i,
{
    if i <= 0 {
        Seq::empty()
    } else {
        let rest = folder_stems_upto(entries, i - 1);
        if is_wechsel_entry(entries[i - 1]) {
            rest.push(spec_file_stem(entries[i - 1].name@))
        } else {
            rest
        }
    }
}

/// The full paths of the linkable folders among the first `i` entries of a
/// directory at `path`.
pub open spec fn folder_paths_upto(entries: Seq<FsEntry>, path: Seq<char>, i: int) -> Seq<
    Seq<char>,
>
    decreases i,
{
    if i <= 0 {
        Seq::empty()
    } else {
        let rest = folder_paths_upto(entries, path, i - 1);
        if is_wechsel_entry(entries[i - 1]) {
            rest.push(spec_push(path, entries[i - 1].name@))
        } else {
            rest
        }
    }
}

/// Counting is monotonic in the prefix length.
pub proof fn lemma_count_projects_monotonic(entries: Seq<FsEntry>, a: int, b: int)
    requires
        a <= b,
    ensures
        count_projects_upto(entries, a) <= count_projects_upto(entries, b),
    decreases b - a,
{
    if a < b {
        lemma_count_projects_monotonic(entries, a, b - 1);
    }
}

/// Two distinct project children force a count of at least two.
pub proof fn lemma_two_projects(entries: Seq<FsEntry>, i: int, j: int)
    requires
        0 <= i < j < entries.len(),
        is_project_entry(entries[i]),
        is_project_entry(entries[j]),
    ensures
        count_projects_upto(entries, entries.len() as int) >= 2,
{
    lemma_count_projects_monotonic(entries, 0, i);
    assert(count_projects_upto(entries, i + 1) >= 1);
    lemma_count_projects_monotonic(entries, i + 1, j);
    assert(count_projects_upto(entries, j + 1) >= 2);
    lemma_count_projects_monotonic(entries, j + 1, entries.len() as int);
}

/// What the logical tree node for a directory must look like: its name and
/// path are the given ones, its children mirror the project entries in
/// listing order, and its folder list carries the stripped linkable-folder
/// names exactly when folders were requested and at least one is present.
pub open spec fn tree_matches(
    entries: Seq<FsEntry>,
    name: Seq<char>,
    path: Seq<char>,
    collect: bool,
    node: ProjectTreeNode,
) -> bool
    decreases entries,
{
    &&& node.prj_name@ == name
    &&& node.path@ == path
    &&& node.children@.len() == count_projects_upto(entries, entries.len() as int)
    &&& forall|i: int|
        0 <= i < entries.len() && is_project_entry(entries[i]) ==> tree_matches(
            entries[i].entries@,
            spec_file_stem(entries[i].name@),
            spec_push(path, entries[i].name@),
            collect,
            node.children@[count_projects_upto(entries, i)],
        )
    &&& folders_match(entries, collect, node.folders)
}

/// The folder list a logical node carries: the stripped linkable-folder
/// names when they were requested and at least one is present, nothing
/// otherwise.
pub open spec fn folders_match(
    entries: Seq<FsEntry>,
    collect: bool,
    folders: Option<Vec<String>>,
) -> bool {
    let stems = folder_stems_upto(entries, entries.len() as int);
    match folders {
        Some(v) => collect && stems.len() > 0 && v.deep_view() == stems,
        None => !(collect && stems.len() > 0),
    }
}

/// The home directory holds neither a project nor a linkable folder:
/// resolution must fail rather than produce an empty tree.
pub open spec fn spec_empty_layout(entries: Seq<FsEntry>) -> bool {
    !has_wechsel_folder(entries) && count_projects_upto(entries, entries.len() as int) == 0
}

/// The root is elided: it has no linkable folders of its own and exactly one
/// project child, so that child stands in for the whole tree.
pub open spec fn spec_elides_root(entries: Seq<FsEntry>) -> bool {
    !has_wechsel_folder(entries) && count_projects_upto(entries, entries.len() as int) == 1
}

/// Which diagnosis an empty layout gets: a legacy configuration file means
/// the setup needs migration, otherwise it was never initialized.
pub open spec fn spec_root_error(legacy_config_exists: bool) -> ResolveError {
    if legacy_config_exists {
        ResolveError::NeedsMigration
    } else {
        ResolveError::Uninitialized
    }
}

/// Index of the first project entry at or after `i`; the length when there
/// is none.
pub open spec fn first_project_at(entries: Seq<FsEntry>, i: int) -> int
    decreases entries.len() - i,
{
    if i < 0 || i >= entries.len() {
        entries.len() as int
    } else if is_project_entry(entries[i]) {
        i
    } else {
        first_project_at(entries, i + 1)
    }
}

/// A project entry with none before it is the first one.
pub proof fn lemma_first_project_at_found(entries: Seq<FsEntry>, i: int, f: int)
    requires
        0 <= i <= f < entries.len(),
        is_project_entry(entries[f]),
        forall|k: int| i <= k < f ==> !is_project_entry(entries[k]),
    ensures
        first_project_at(entries, i) == f,
    decreases f - i,
{
    if i < f {
        lemma_first_project_at_found(entries, i + 1, f);
    }
}

/// What the logical tree for the whole home directory must look like, the
/// root-elision rule applied.
pub open spec fn spec_root_tree_matches(
    root: Seq<FsEntry>,
    home: Seq<char>,
    collect: bool,
    t: ProjectTreeNode,
) -> bool {
    if spec_elides_root(root) {
        let f = first_project_at(root, 0);
        tree_matches(
            root[f].entries@,
            spec_file_stem(root[f].name@),
            spec_push(home, root[f].name@),
            collect,
            t,
        )
    } else {
        tree_matches(root, DEFAULT_ROOT_PRJ@, home, collect, t)
    }
}

/// Law (root elision): when the home directory holds no linkable folder and
/// exactly one project, the resolved tree is that project's own subtree —
/// its name and path are the project's, with no wrapper level above it.
pub proof fn lemma_root_elision(
    root: Seq<FsEntry>,
    home: Seq<char>,
    collect: bool,
    t: ProjectTreeNode,
    f: int,
)
    requires
        spec_elides_root(root),
        0 <= f < root.len(),
        is_project_entry(root[f]),
        spec_root_tree_matches(root, home, collect, t),
    ensures
        tree_matches(
            root[f].entries@,
            spec_file_stem(root[f].name@),
            spec_push(home, root[f].name@),
            collect,
            t,
        ),
        t.prj_name@ == spec_file_stem(root[f].name@),
        t.path@ == spec_push(home, root[f].name@),
{
    assert forall|k: int| 0 <= k < f implies !is_project_entry(root[k]) by {
        if is_project_entry(root[k]) {
            lemma_two_projects(root, k, f);
        }
    }
    lemma_first_project_at_found(root, 0, f);
}

/// Build the logical node for one directory: children for the project
/// entries in listing order, the stripped folder names when asked for.
fn build_node(entries: &Vec<FsEntry>, prj_name: String, path: String, collect: bool) -> (node:
    ProjectTreeNode)
    ensures
        tree_matches(entries@, prj_name@, path@, collect, node),
    decreases entries@,
{
    let mut children: Vec<ProjectTreeNode> = Vec::new();
    let mut folders: Vec<String> = Vec::new();
    let mut i: usize = 0;
    while i < entries.len()
        invariant
            i <= entries@.len(),
            children@.len() == count_projects_upto(entries@, i as int),
            forall|k: int|
                0 <= k < i && is_project_entry(entries@[k]) ==> tree_matches(
                    entries@[k].entries@,
                    spec_file_stem(entries@[k].name@),
                    spec_push(path@, entries@[k].name@),
                    collect,
                    children@[count_projects_upto(entries@, k)],
                ),
            collect ==> folders.deep_view() == folder_stems_upto(entries@, i as int),
            !collect ==> folders@.len() == 0,
        decreases entries@.len() - i,
    {
        let e = &entries[i];
        if is_entry_folder_with_extension(e.name.as_str(), e.is_dir, PROJECT_EXTENSION) {
            let child_name = file_stem(e.name.as_str());
            let child_path = path_push(path.as_str(), e.name.as_str());
            let child = build_node(&e.entries, child_name, child_path, collect);
            let ghost snap_child = child;
            let ghost prev_children = children@;
            children.push(child);
            proof {
                assert forall|k: int|
                    0 <= k <= i && is_project_entry(entries@[k]) implies tree_matches(
                    entries@[k].entries@,
                    spec_file_stem(entries@[k].name@),
                    spec_push(path@, entries@[k].name@),
                    collect,
                    children@[count_projects_upto(entries@, k)],
                ) by {
                    if k < i {
                        lemma_count_projects_monotonic(entries@, 0, k);
                        lemma_count_projects_monotonic(entries@, k + 1, i as int);
                        assert(children@[count_projects_upto(entries@, k)]
                            == prev_children[count_projects_upto(entries@, k)]);
                    } else {
                        assert(children@[count_projects_upto(entries@, k)] == snap_child);
                    }
                }
            }
        }
        if collect && is_entry_folder_with_extension(
            e.name.as_str(),
            e.is_dir,
            WECHSEL_FOLDER_EXTENSION,
        ) {
            folders.push(file_stem(e.name.as_str()));
        }
        proof {
            if collect {
                assert(folders.deep_view() =~= folder_stems_upto(entries@, i + 1));
            }
        }
        i = i + 1;
    }
    let folders_opt = if collect && folders.len() > 0 {
        Some(folders)
    } else {
        None
    };
    ProjectTreeNode { prj_name, children, path, folders: folders_opt }
}

/// Resolve the whole logical project tree below the home directory, whose
/// snapshot is `root` and whose path is `home_path`. An empty layout is
/// refused; a single folder-less root project is elided.
pub fn get_project_tree(
    root: &Vec<FsEntry>,
    home_path: &String,
    collect_folders: bool,
    legacy_config_exists: bool,
) -> (r: Result<ProjectTreeNode, ResolveError>)
    ensures
        r is Err <==> spec_empty_layout(root@),
        r matches Err(e) ==> e == spec_root_error(legacy_config_exists),
        r matches Ok(t) ==> spec_root_tree_matches(root@, home_path@, collect_folders, t),
{
    let scan = scan_root(root);
    if !scan.has_wechsel && scan.project_count == 0 {
        return Err(
            if legacy_config_exists {
                ResolveError::NeedsMigration
            } else {
                ResolveError::Uninitialized
            },
        );
    }
    if !scan.has_wechsel && scan.project_count == 1 {
        let f = scan.first_project;
        let e = &root[f];
        let child_name = file_stem(e.name.as_str());
        let child_path = path_push(home_path.as_str(), e.name.as_str());
        return Ok(build_node(&e.entries, child_name, child_path, collect_folders));
    }
    let name: String = DEFAULT_ROOT_PRJ.to_owned();
    Ok(build_node(root, name, home_path.clone(), collect_folders))
}

/// What one pass over the home listing finds: whether a linkable folder is
/// present, how many project entries there are (counted up to two), and the
/// first project entry's index.
struct RootScan {
    has_wechsel: bool,
    project_count: usize,
    first_project: usize,
}

/// One pass over the root listing, counting project entries and probing for
/// linkable folders.
fn scan_root(root: &Vec<FsEntry>) -> (scan: RootScan)
    ensures
        scan.has_wechsel == has_wechsel_folder(root@),
        scan.project_count == count_projects_upto(root@, root@.len() as int),
        count_projects_upto(root@, root@.len() as int) > 0 ==> {
            &&& (scan.first_project as int) == first_project_at(root@, 0)
            &&& (scan.first_project as int) < root@.len()
            &&& is_project_entry(root@[scan.first_project as int])
        },
{
    let mut has_wechsel = false;
    let mut project_count: usize = 0;
    let mut first_project: usize = 0;
    let mut i: usize = 0;
    while i < root.len()
        invariant
            i <= root@.len(),
            has_wechsel == has_wechsel_upto(root@, i as int),
            project_count == count_projects_upto(root@, i as int),
            project_count <= i,
            project_count > 0 ==> {
                &&& (first_project as int) < i
                &&& is_project_entry(root@[first_project as int])
                &&& forall|k: int| 0 <= k < first_project ==> !is_project_entry(root@[k])
            },
        decreases root@.len() - i,
    {
        let e = &root[i];
        if is_entry_folder_with_extension(e.name.as_str(), e.is_dir, PROJECT_EXTENSION) {
            if project_count == 0 {
                first_project = i;
                proof {
                    assert forall|k: int| 0 <= k < i implies !is_project_entry(root@[k]) by {
                        if is_project_entry(root@[k]) {
                            lemma_count_projects_monotonic(root@, 0, k);
                            lemma_count_projects_monotonic(root@, k + 1, i as int);
                        }
                    }
                }
            }
            project_count = project_count + 1;
        }
        if is_entry_folder_with_extension(e.name.as_str(), e.is_dir, WECHSEL_FOLDER_EXTENSION) {
            has_wechsel = true;
            proof {
                assert(is_wechsel_entry(root@[i as int]));
                assert(has_wechsel_upto(root@, i + 1));
            }
        } else {
            proof {
                assert(has_wechsel_upto(root@, i + 1) == has_wechsel_upto(root@, i as int));
            }
        }
        i = i + 1;
    }
    proof {
        if project_count > 0 {
            lemma_first_project_at_found(root@, 0, first_project as int);
        }
    }
    RootScan { has_wechsel, project_count, first_project }
}

// --- locating projects by name -------------------------------------------
//
// A name search walks the same tree once and, for each requested name,
// reports the project found last in a bottom-up, listing-order pass — a
// parent thus wins over any equally named descendant. Each found project
// comes with its whole ancestor chain, down which the switch later collects
// linkable folders. The chain is represented as an arena: every visited
// directory gets a slot, children point at their parent's slot.

/// One visited directory in a search: its absolute path, the names of its
/// linkable-folder entries, and its parent's arena index.
#[derive(Debug)]
pub struct FoundProject {
    pub parent: Option<usize>,
    pub path: String,
    pub folder_names: Vec<String>,
}

/// What a search hands back: the arena of visited directories and, per
/// requested name, the found project's arena index.
#[derive(Debug)]
pub struct SearchOutcome {
    pub arena: Vec<FoundProject>,
    pub found: Vec<Option<usize>>,
}

/// The mathematical image of one ancestor: its path and its linkable-folder
/// entry names, in listing order.
pub struct AncestorLink {
    pub path: Seq<char>,
    pub folders: Seq<Seq<char>>,
}

/// The ancestor link a directory snapshot gives rise to.
pub open spec fn spec_node_link(entries: Seq<FsEntry>, path: Seq<char>) -> AncestorLink {
    AncestorLink { path, folders: folder_names_upto(entries, entries.len() as int) }
}

/// Search the project entries among the first `i` entries, in order; a find
/// in a later entry supersedes one in an earlier entry. The chain returned
/// runs from the found project (first) up to the child of the node whose
/// entries these are.
pub open spec fn search_children(
    entries: Seq<FsEntry>,
    i: int,
    path: Seq<char>,
    target: Seq<char>,
) -> Option<Seq<AncestorLink>>
    decreases entries, i,
{
    if i <= 0 || i > entries.len() {
        None
    } else {
        let prev = search_children(entries, i - 1, path, target);
        if is_project_entry(entries[i - 1]) {
            match spec_search(
                entries[i - 1].entries@,
                spec_file_stem(entries[i - 1].name@),
                spec_push(path, entries[i - 1].name@),
                target,
            ) {
                Some(chain) => Some(chain),
                None => prev,
            }
        } else {
            prev
        }
    }
}

/// Search the subtree of a node with the given logical name, path and
/// entries. The node's own name wins over any find among its children. The
/// chain returned runs from the found project (first) up to this node
/// (last).
pub open spec fn spec_search(
    entries: Seq<FsEntry>,
    name: Seq<char>,
    path: Seq<char>,
    target: Seq<char>,
) -> Option<Seq<AncestorLink>>
    decreases entries, entries.len() + 1,
{
    let here = spec_node_link(entries, path);
    if name == target {
        Some(seq![here])
    } else {
        match search_children(entries, entries.len() as int, path, target) {
            Some(chain) => Some(chain.push(here)),
            None => None,
        }
    }
}

/// Search the whole home directory, the root-elision rule applied: under an
/// elided root only the single child project's subtree is searched, but the
/// root still ends every ancestor chain.
pub open spec fn spec_root_search(
    root: Seq<FsEntry>,
    home: Seq<char>,
    target: Seq<char>,
) -> Option<Seq<AncestorLink>> {
    if spec_elides_root(root) {
        let f = first_project_at(root, 0);
        match spec_search(
            root[f].entries@,
            spec_file_stem(root[f].name@),
            spec_push(home, root[f].name@),
            target,
        ) {
            Some(chain) => Some(chain.push(spec_node_link(root, home))),
            None => None,
        }
    } else {
        spec_search(root, DEFAULT_ROOT_PRJ@, home, target)
    }
}

/// Every parent index points at an earlier slot.
pub open spec fn wf_arena(arena: Seq<FoundProject>) -> bool {
    forall|i: int|
        0 <= i < arena.len() ==> (match (#[trigger] arena[i]).parent {
            Some(p) => (p as int) < i,
            None => true,
        })
}

/// The ancestor link an arena slot records.
pub open spec fn found_link(fp: FoundProject) -> AncestorLink {
    AncestorLink { path: fp.path@, folders: fp.folder_names.deep_view() }
}

/// The chain from slot `j` up to its root, slot `j` first.
pub open spec fn arena_chain(arena: Seq<FoundProject>, j: int) -> Seq<AncestorLink>
    decreases j,
{
    if 0 <= j < arena.len() {
        match arena[j].parent {
            Some(p) => if (p as int) < j {
                seq![found_link(arena[j])] + arena_chain(arena, p as int)
            } else {
                seq![found_link(arena[j])]
            },
            None => seq![found_link(arena[j])],
        }
    } else {
        Seq::empty()
    }
}

/// Extending the arena does not change the chains of existing slots.
pub proof fn lemma_arena_chain_extend(a: Seq<FoundProject>, b: Seq<FoundProject>, j: int)
    requires
        a.is_prefix_of(b),
        wf_arena(a),
        0 <= j < a.len(),
    ensures
        arena_chain(b, j) == arena_chain(a, j),
    decreases j,
{
    assert(b[j] == a[j]);
    match a[j].parent {
        Some(p) => {
            if (p as int) < j {
                lemma_arena_chain_extend(a, b, p as int);
            }
        },
        None => {},
    }
}

/// The names (extension included) of the linkable-folder entries of one
/// directory, in listing order.
fn folder_entry_names(entries: &Vec<FsEntry>) -> (r: Vec<String>)
    ensures
        r.deep_view() == folder_names_upto(entries@, entries@.len() as int),
{
    let mut r: Vec<String> = Vec::new();
    let mut i: usize = 0;
    while i < entries.len()
        invariant
            i <= entries@.len(),
            r.deep_view() == folder_names_upto(entries@, i as int),
        decreases entries@.len() - i,
    {
        let e = &entries[i];
        if is_entry_folder_with_extension(e.name.as_str(), e.is_dir, WECHSEL_FOLDER_EXTENSION) {
            r.push(e.name.clone());
        }
        proof {
            assert(r.deep_view() =~= folder_names_upto(entries@, i + 1));
        }
        i = i + 1;
    }
    r
}

/// Search one node's subtree for every target at once. The node itself is
/// recorded in the arena; per target, the returned slot's chain equals the
/// specified search chain followed by this node's own ancestor chain.
fn search_node(
    entries: &Vec<FsEntry>,
    name: &String,
    path: String,
    targets: &Vec<String>,
    parent: Option<usize>,
    arena: &mut Vec<FoundProject>,
    Ghost(parent_chain): Ghost<Seq<AncestorLink>>,
) -> (found: Vec<Option<usize>>)
    requires
        wf_arena(old(arena)@),
        match parent {
            Some(p) => (p as int) < old(arena)@.len() && arena_chain(old(arena)@, p as int)
                == parent_chain,
            None => parent_chain == Seq::<AncestorLink>::empty(),
        },
    ensures
        wf_arena(final(arena)@),
        old(arena)@.is_prefix_of(final(arena)@),
        final(arena)@.len() > old(arena)@.len(),
        found@.len() == targets@.len(),
        forall|t: int|
            0 <= t < targets@.len() ==> (match (#[trigger] found@[t]) {
                Some(j) => (j as int) < final(arena)@.len() && (match spec_search(
                    entries@,
                    name@,
                    path@,
                    targets.deep_view()[t],
                ) {
                    Some(chain) => arena_chain(final(arena)@, j as int) == chain + parent_chain,
                    None => false,
                }),
                None => spec_search(entries@, name@, path@, targets.deep_view()[t]) is None,
            }),
    decreases entries@,
{
    let me = arena.len();
    let folder_names = folder_entry_names(entries);
    arena.push(FoundProject { parent, path: path.clone(), folder_names });
    let ghost arena_after_me = arena@;
    proof {
        assert(arena@[me as int].parent == parent);
        assert(found_link(arena@[me as int]) == spec_node_link(entries@, path@));
        if parent is Some {
            lemma_arena_chain_extend(old(arena)@, arena@, parent->Some_0 as int);
        }
        assert(arena_chain(arena@, me as int) == seq![spec_node_link(entries@, path@)]
            + parent_chain);
    }
    let ghost me_chain = arena_chain(arena@, me as int);

    let mut found: Vec<Option<usize>> = Vec::new();
    let mut t: usize = 0;
    while t < targets.len()
        invariant
            t <= targets@.len(),
            found@.len() == t as int,
            forall|k: int| 0 <= k < t ==> found@[k] is None,
        decreases targets@.len() - t,
    {
        found.push(None);
        t = t + 1;
    }

    let mut i: usize = 0;
    while i < entries.len()
        invariant
            i <= entries@.len(),
            wf_arena(arena@),
            arena_after_me.is_prefix_of(arena@),
            old(arena)@.is_prefix_of(arena@),
            (me as int) < arena_after_me.len(),
            arena@.len() >= arena_after_me.len(),
            arena_chain(arena@, me as int) == me_chain,
            me_chain == seq![spec_node_link(entries@, path@)] + parent_chain,
            found@.len() == targets@.len(),
            forall|k: int|
                0 <= k < targets@.len() ==> (match (#[trigger] found@[k]) {
                    Some(j) => (j as int) < arena@.len() && (match search_children(
                        entries@,
                        i as int,
                        path@,
                        targets.deep_view()[k],
                    ) {
                        Some(chain) => arena_chain(arena@, j as int) == chain + me_chain,
                        None => false,
                    }),
                    None => search_children(entries@, i as int, path@, targets.deep_view()[k])
                        is None,
                }),
        decreases entries@.len() - i,
    {
        let e = &entries[i];
        if is_entry_folder_with_extension(e.name.as_str(), e.is_dir, PROJECT_EXTENSION) {
            let child_name = file_stem(e.name.as_str());
            let child_path = path_push(path.as_str(), e.name.as_str());
            let ghost arena_before = arena@;
            let child_found = search_node(
                &e.entries,
                &child_name,
                child_path,
                targets,
                Some(me),
                arena,
                Ghost(me_chain),
            );
            proof {
                lemma_arena_chain_extend(arena_before, arena@, me as int);
                assert forall|k: int|
                    0 <= k < targets@.len() && found@[k] is Some implies {
                    &&& (found@[k]->Some_0 as int) < arena@.len()
                    &&& arena_chain(arena@, found@[k]->Some_0 as int) == arena_chain(
                        arena_before,
                        found@[k]->Some_0 as int,
                    )
                } by {
                    lemma_arena_chain_extend(arena_before, arena@, found@[k]->Some_0 as int);
                }
            }
            let mut k: usize = 0;
            let ghost found_before = found@;
            while k < targets.len()
                invariant
                    k <= targets@.len(),
                    found@.len() == targets@.len(),
                    child_found@.len() == targets@.len(),
                    forall|m: int| k <= m < targets@.len() ==> found@[m] == found_before[m],
                    forall|m: int|
                        0 <= m < k ==> found@[m] == (if child_found@[m] is Some {
                            child_found@[m]
                        } else {
                            found_before[m]
                        }),
                decreases targets@.len() - k,
            {
                if child_found[k].is_some() {
                    let j = child_found[k].unwrap();
                    found.set(k, Some(j));
                }
                k = k + 1;
            }
        }
        i = i + 1;
    }

    // the node's own name claims every matching slot, superseding children
    let mut k: usize = 0;
    let ghost found_children = found@;
    while k < targets.len()
        invariant
            k <= targets@.len(),
            found@.len() == targets@.len(),
            forall|m: int| k <= m < targets@.len() ==> found@[m] == found_children[m],
            forall|m: int|
                0 <= m < k ==> found@[m] == (if name@ == targets.deep_view()[m] {
                    Some(me)
                } else {
                    found_children[m]
                }),
        decreases targets@.len() - k,
    {
        if crate::utils::str_eq(name.as_str(), targets[k].as_str()) {
            found.set(k, Some(me));
        }
        proof {
            assert(targets.deep_view()[k as int] == targets@[k as int]@);
        }
        k = k + 1;
    }
    proof {
        assert forall|t2: int| 0 <= t2 < targets@.len() implies (match (#[trigger] found@[t2]) {
            Some(j) => (j as int) < arena@.len() && (match spec_search(
                entries@,
                name@,
                path@,
                targets.deep_view()[t2],
            ) {
                Some(chain) => arena_chain(arena@, j as int) == chain + parent_chain,
                None => false,
            }),
            None => spec_search(entries@, name@, path@, targets.deep_view()[t2]) is None,
        }) by {
            let tgt = targets.deep_view()[t2];
            let here = spec_node_link(entries@, path@);
            if name@ == tgt {
                assert(found@[t2] == Some(me));
                assert(arena_chain(arena@, me as int) == seq![here] + parent_chain);
                assert(seq![here] + parent_chain == seq![here].push(here).drop_last()
                    + parent_chain);
                assert(spec_search(entries@, name@, path@, tgt) == Some(seq![here]));
                assert(seq![here] + parent_chain =~= seq![here] + parent_chain);
            } else {
                assert(found@[t2] == found_children[t2]);
                match search_children(entries@, entries@.len() as int, path@, tgt) {
                    Some(chain) => {
                        assert(spec_search(entries@, name@, path@, tgt) == Some(chain.push(here)));
                        assert(chain.push(here) + parent_chain =~= chain + (seq![here]
                            + parent_chain));
                    },
                    None => {
                        assert(spec_search(entries@, name@, path@, tgt) is None);
                    },
                }
            }
        }
    }
    found
}

/// Locate every target name in one pass over the home directory's snapshot.
/// Per target, the outcome holds the found project's arena slot, whose chain
/// is exactly the specified search chain; an empty layout is refused before
/// anything else happens.
pub fn search_for_projects(
    root: &Vec<FsEntry>,
    home_path: &String,
    targets: &Vec<String>,
    legacy_config_exists: bool,
) -> (r: Result<SearchOutcome, ResolveError>)
    ensures
        r is Err <==> spec_empty_layout(root@),
        r matches Err(e) ==> e == spec_root_error(legacy_config_exists),
        r matches Ok(out) ==> {
            &&& wf_arena(out.arena@)
            &&& out.found@.len() == targets@.len()
            &&& forall|t: int|
                0 <= t < targets@.len() ==> (match (#[trigger] out.found@[t]) {
                    Some(j) => (j as int) < out.arena@.len() && spec_root_search(
                        root@,
                        home_path@,
                        targets.deep_view()[t],
                    ) == Some(arena_chain(out.arena@, j as int)),
                    None => spec_root_search(root@, home_path@, targets.deep_view()[t]) is None,
                })
        },
{
    let scan = scan_root(root);
    if !scan.has_wechsel && scan.project_count == 0 {
        return Err(
            if legacy_config_exists {
                ResolveError::NeedsMigration
            } else {
                ResolveError::Uninitialized
            },
        );
    }
    let mut arena: Vec<FoundProject> = Vec::new();
    if !scan.has_wechsel && scan.project_count == 1 {
        // elided root: search only the single child project's subtree, with
        // the root as the final link of every chain
        let root_folders = folder_entry_names(root);
        arena.push(
            FoundProject { parent: None, path: home_path.clone(), folder_names: root_folders },
        );
        proof {
            assert(arena_chain(arena@, 0) =~= seq![spec_node_link(root@, home_path@)]);
        }
        let f = scan.first_project;
        let e = &root[f];
        let child_name = file_stem(e.name.as_str());
        let child_path = path_push(home_path.as_str(), e.name.as_str());
        let ghost root_chain = arena_chain(arena@, 0);
        let found = search_node(
            &e.entries,
            &child_name,
            child_path,
            targets,
            Some(0),
            &mut arena,
            Ghost(root_chain),
        );
        proof {
            let here = spec_node_link(root@, home_path@);
            assert forall|t: int| 0 <= t < targets@.len() implies (match (#[trigger] found@[t]) {
                Some(j) => (j as int) < arena@.len() && spec_root_search(
                    root@,
                    home_path@,
                    targets.deep_view()[t],
                ) == Some(arena_chain(arena@, j as int)),
                None => spec_root_search(root@, home_path@, targets.deep_view()[t]) is None,
            }) by {
                let tgt = targets.deep_view()[t];
                match spec_search(
                    root@[f as int].entries@,
                    spec_file_stem(root@[f as int].name@),
                    spec_push(home_path@, root@[f as int].name@),
                    tgt,
                ) {
                    Some(chain) => {
                        assert(chain.push(here) =~= chain + seq![here]);
                    },
                    None => {},
                }
            }
        }
        return Ok(SearchOutcome { arena, found });
    }
    let name: String = DEFAULT_ROOT_PRJ.to_owned();
    let found = search_node(
        root,
        &name,
        home_path.clone(),
        targets,
        None,
        &mut arena,
        Ghost(Seq::<AncestorLink>::empty()),
    );
    proof {
        assert forall|t: int| 0 <= t < targets@.len() implies (match (#[trigger] found@[t]) {
            Some(j) => (j as int) < arena@.len() && spec_root_search(
                root@,
                home_path@,
                targets.deep_view()[t],
            ) == Some(arena_chain(arena@, j as int)),
            None => spec_root_search(root@, home_path@, targets.deep_view()[t]) is None,
        }) by {
            let tgt = targets.deep_view()[t];
            match spec_search(root@, DEFAULT_ROOT_PRJ@, home_path@, tgt) {
                Some(chain) => {
                    assert(chain + Seq::<AncestorLink>::empty() =~= chain);
                },
                None => {},
            }
        }
    }
    Ok(SearchOutcome { arena, found })
}

/// The full paths of the linkable folders directly inside a directory whose
/// snapshot is `entries` and whose path is `path`, in listing order.
pub fn get_folders(entries: &Vec<FsEntry>, path: &String) -> (r: Vec<String>)
    ensures
        r.deep_view() == folder_paths_upto(entries@, path@, entries@.len() as int),
{
    let mut r: Vec<String> = Vec::new();
    let mut i: usize = 0;
    while i < entries.len()
        invariant
            i <= entries@.len(),
            r.deep_view() == folder_paths_upto(entries@, path@, i as int),
        decreases entries@.len() - i,
    {
        let e = &entries[i];
        if is_entry_folder_with_extension(e.name.as_str(), e.is_dir, WECHSEL_FOLDER_EXTENSION) {
            r.push(path_push(path.as_str(), e.name.as_str()));
        }
        proof {
            assert(r.deep_view() =~= folder_paths_upto(entries@, path@, i + 1));
        }
        i = i + 1;
    }
    r
}

/// Where the legacy configuration file would lie inside the configuration
/// directory; the caller reports whether a file exists there.
pub fn get_old_config_file_path(config_dir: &String, probe_exists: bool) -> (r: Option<String>)
    ensures
        match r {
            Some(p) => probe_exists && p@ == spec_push(config_dir@, "wechsel_projects.json"@),
            None => !probe_exists,
        },
{
    if probe_exists {
        Some(path_push(config_dir.as_str(), "wechsel_projects.json"))
    } else {
        None
    }
}

} // verus!
