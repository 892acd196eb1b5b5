use vstd::prelude::*;

use crate::tree::{
    arena_chain, found_link, search_for_projects, spec_empty_layout, spec_root_error,
    spec_root_search, FsEntry, ProjectTreeNode, ResolveError,
};
use crate::utils::{
    extension_of, last_component, path_push, spec_extension, spec_last_component, spec_push,
    spec_with_extension, str_eq, with_extension,
};
use crate::{PROJECT_EXTENSION, WECHSEL_FOLDER_EXTENSION};

verus! {

// A new project is a fresh directory with the project extension under an
// existing parent project, holding one directory with the linkable-folder
// extension per requested folder. Only the paths are decided here; creating
// the directories — idempotently, leaving whatever already exists — is
// plain filesystem work left to the caller.

/// Why a new project cannot be planned.
#[derive(Clone, Copy, Debug, PartialEq, Eq, Structural)]
pub enum NewProjectError {
    /// The home directory's layout was refused before anything was looked
    /// up.
    Layout(ResolveError),
    /// The requested parent project is nowhere in the tree.
    ParentNotFound,
}

/// Everything creating a project will do: the project directory, its
/// linkable-folder directories in request order, and the creation hook with
/// its environment.
#[derive(Debug)]
pub struct NewProjectPlan {
    pub prj_path: String,
    pub subfolders: Vec<String>,
    pub hook_path: String,
    pub hook_env: Vec<(String, String)>,
}

/// What a well-planned project creation looks like: the project directory
/// lies under the parent and carries the project extension; each requested
/// folder becomes a directory under it with the linkable-folder extension.
pub open spec fn new_plan_ok(
    root: Seq<FsEntry>,
    home: Seq<char>,
    config: Seq<char>,
    prj: Seq<char>,
    folders: Seq<Seq<char>>,
    parent: Seq<char>,
    plan: NewProjectPlan,
) -> bool {
    let chain = spec_root_search(root, home, parent)->Some_0;
    let prj_path = spec_push(chain[0].path, spec_with_extension(prj, PROJECT_EXTENSION@));
    &&& plan.prj_path@ == prj_path
    &&& plan.subfolders.deep_view() == folders.map_values(
        |f: Seq<char>| spec_push(prj_path, spec_with_extension(f, WECHSEL_FOLDER_EXTENSION@)),
    )
    &&& plan.hook_path@ == spec_push(config, "on-prj-create"@)
    &&& plan.hook_env@.len() == 2
    &&& plan.hook_env@[0].0@ == "PRJ"@ && plan.hook_env@[0].1@ == prj
    &&& plan.hook_env@[1].0@ == "PRJ_PATH"@ && plan.hook_env@[1].1@ == prj_path
}

/// Plan a new project named `prj_name` with the requested folders under the
/// parent project named `parent`. The parent must already stand in the
/// tree, or nothing is planned.
pub fn create_new_prj(
    prj_name: &String,
    folders: &Vec<String>,
    parent: &String,
    root: &Vec<FsEntry>,
    home_path: &String,
    config_dir: &String,
    legacy_config_exists: bool,
) -> (r: Result<NewProjectPlan, NewProjectError>)
    ensures
        spec_empty_layout(root@) ==> r == Err::<NewProjectPlan, NewProjectError>(
            NewProjectError::Layout(spec_root_error(legacy_config_exists)),
        ),
        !spec_empty_layout(root@) && spec_root_search(root@, home_path@, parent@) is None ==> r
            == Err::<NewProjectPlan, NewProjectError>(NewProjectError::ParentNotFound),
        !spec_empty_layout(root@) && spec_root_search(root@, home_path@, parent@) is Some ==> (
        r matches Ok(plan) && new_plan_ok(
            root@,
            home_path@,
            config_dir@,
            prj_name@,
            folders.deep_view(),
            parent@,
            plan,
        )),
{
    let mut targets: Vec<String> = Vec::new();
    targets.push(parent.clone());
    proof {
        assert(targets.deep_view() =~= seq![parent@]);
    }
    let outcome = match search_for_projects(root, home_path, &targets, legacy_config_exists) {
        Ok(o) => o,
        Err(e) => {
            return Err(NewProjectError::Layout(e));
        },
    };
    let parent_idx: usize = match outcome.found[0] {
        Some(j) => j,
        None => {
            return Err(NewProjectError::ParentNotFound);
        },
    };
    proof {
        assert(arena_chain(outcome.arena@, parent_idx as int)[0] == found_link(
            outcome.arena@[parent_idx as int],
        ));
    }
    let parent_path = &outcome.arena[parent_idx].path;
    let prj_path = path_push(
        parent_path.as_str(),
        with_extension(prj_name.as_str(), PROJECT_EXTENSION).as_str(),
    );
    let mut subfolders: Vec<String> = Vec::new();
    let mut i: usize = 0;
    while i < folders.len()
        invariant
            i <= folders@.len(),
            subfolders.deep_view().len() == i as int,
            forall|k: int|
                0 <= k < i ==> subfolders.deep_view()[k] == spec_push(
                    prj_path@,
                    spec_with_extension(folders.deep_view()[k], WECHSEL_FOLDER_EXTENSION@),
                ),
        decreases folders@.len() - i,
    {
        let sub = path_push(
            prj_path.as_str(),
            with_extension(folders[i].as_str(), WECHSEL_FOLDER_EXTENSION).as_str(),
        );
        let ghost sub_chars = sub@;
        let ghost prev = subfolders.deep_view();
        subfolders.push(sub);
        proof {
            assert(folders.deep_view()[i as int] == folders@[i as int]@);
            assert(subfolders.deep_view() =~= prev.push(sub_chars));
        }
        i = i + 1;
    }
    proof {
        assert(subfolders.deep_view() =~= folders.deep_view().map_values(
            |f: Seq<char>| spec_push(
                prj_path@,
                spec_with_extension(f, WECHSEL_FOLDER_EXTENSION@),
            ),
        ));
    }
    let hook_path = path_push(config_dir.as_str(), "on-prj-create");
    let mut hook_env: Vec<(String, String)> = Vec::new();
    hook_env.push(("PRJ".to_owned(), prj_name.clone()));
    hook_env.push(("PRJ_PATH".to_owned(), prj_path.clone()));
    Ok(NewProjectPlan { prj_path, subfolders, hook_path, hook_env })
}

/// The name a project directory gives the project it would parent: the
/// working directory's full name, when it carries the project extension.
pub fn parent_from_pwd(pwd: &String) -> (r: Option<String>)
    ensures
        match r {
            Some(n) => spec_extension(spec_last_component(pwd@)) == Some(PROJECT_EXTENSION@) && n@
                == spec_last_component(pwd@),
            None => spec_extension(spec_last_component(pwd@)) != Some(PROJECT_EXTENSION@),
        },
{
    let name = last_component(pwd.as_str());
    match extension_of(name.as_str()) {
        Some(e) => {
            if str_eq(e.as_str(), PROJECT_EXTENSION) {
                Some(name)
            } else {
                None
            }
        },
        None => None,
    }
}

/// Every folder name the tree mentions, first mention kept, in a pre-order
/// walk: a node's own folders first, then its children's in order.
pub open spec fn preorder_folders(node: ProjectTreeNode) -> Seq<Seq<char>>
    decreases node, node.children@.len() + 1,
{
    let own = match node.folders {
        Some(v) => v.deep_view(),
        None => Seq::empty(),
    };
    own + preorder_children(node.children@, node.children@.len() as int)
}

/// The folder names of the first `i` children, concatenated in order.
pub open spec fn preorder_children(children: Seq<ProjectTreeNode>, i: int) -> Seq<Seq<char>>
    decreases children, i,
{
    if i <= 0 || i > children.len() {
        Seq::empty()
    } else {
        preorder_children(children, i - 1) + preorder_folders(children[i - 1])
    }
}

/// Whether some name in the list equals `n`.
pub open spec fn has_name(names: Seq<Seq<char>>, n: Seq<char>) -> bool {
    exists|i: int| 0 <= i < names.len() && names[i] == n
}

/// Append each new name to the accumulator, keeping first mentions only.
pub open spec fn add_names(acc: Seq<Seq<char>>, names: Seq<Seq<char>>) -> Seq<Seq<char>>
    decreases names.len(),
{
    if names.len() == 0 {
        acc
    } else {
        let acc2 = if has_name(acc, names[0]) {
            acc
        } else {
            acc.push(names[0])
        };
        add_names(acc2, names.drop_first())
    }
}

/// Adding a concatenation adds its halves in turn.
proof fn lemma_add_names_concat(acc: Seq<Seq<char>>, x: Seq<Seq<char>>, y: Seq<Seq<char>>)
    ensures
        add_names(acc, x + y) == add_names(add_names(acc, x), y),
    decreases x.len(),
{
    if x.len() == 0 {
        assert(x + y =~= y);
    } else {
        let acc2 = if has_name(acc, x[0]) {
            acc
        } else {
            acc.push(x[0])
        };
        assert((x + y)[0] == x[0]);
        assert((x + y).drop_first() =~= x.drop_first() + y);
        lemma_add_names_concat(acc2, x.drop_first(), y);
    }
}

/// Whether one of the collected names equals `n`.
fn names_contain(names: &Vec<String>, n: &str) -> (r: bool)
    ensures
        r == has_name(names.deep_view(), n@),
{
    let mut i: usize = 0;
    while i < names.len()
        invariant
            i <= names@.len(),
            forall|k: int| 0 <= k < i ==> names.deep_view()[k] != n@,
        decreases names@.len() - i,
    {
        if str_eq(names[i].as_str(), n) {
            proof {
                assert(names.deep_view()[i as int] == n@);
            }
            return true;
        }
        i = i + 1;
    }
    false
}

/// Collect every folder name the tree mentions into `folders`, keeping the
/// first mention of each name: a node's own folders first, then its
/// children's, depth first.
pub fn collect_folders(folders: &mut Vec<String>, node: &ProjectTreeNode)
    ensures
        final(folders).deep_view() == add_names(old(folders).deep_view(), preorder_folders(*node)),
    decreases *node,
{
    let ghost own = match &node.folders {
        Some(v) => v.deep_view(),
        None => Seq::<Seq<char>>::empty(),
    };
    match &node.folders {
        Some(current) => {
            let mut i: usize = 0;
            while i < current.len()
                invariant
                    i <= current@.len(),
                    own == current.deep_view(),
                    folders.deep_view() == add_names(
                        old(folders).deep_view(),
                        own.take(i as int),
                    ),
                decreases current@.len() - i,
            {
                let ghost prev = folders.deep_view();
                let ghost e = own[i as int];
                proof {
                    assert(current.deep_view()[i as int] == current@[i as int]@);
                    lemma_add_names_concat(
                        old(folders).deep_view(),
                        own.take(i as int),
                        seq![e],
                    );
                    assert(own.take(i as int) + seq![e] =~= own.take(i + 1));
                    assert(seq![e].drop_first() =~= Seq::<Seq<char>>::empty());
                    assert(seq![e][0] == e);
                }
                if !names_contain(folders, current[i].as_str()) {
                    folders.push(current[i].clone());
                    proof {
                        assert(folders.deep_view() =~= prev.push(e));
                    }
                }
                proof {
                    let acc2 = if has_name(prev, e) {
                        prev
                    } else {
                        prev.push(e)
                    };
                    assert(add_names(prev, seq![e]) == add_names(acc2, seq![e].drop_first()));
                    assert(add_names(acc2, Seq::<Seq<char>>::empty()) == acc2);
                    assert(folders.deep_view() == add_names(
                        old(folders).deep_view(),
                        own.take(i + 1),
                    ));
                }
                i = i + 1;
            }
            proof {
                assert(own.take(own.len() as int) =~= own);
            }
        },
        None => {},
    }
    let ghost after_own = folders.deep_view();
    proof {
        assert(after_own == add_names(old(folders).deep_view(), own));
    }
    let mut c: usize = 0;
    while c < node.children.len()
        invariant
            c <= node.children@.len(),
            folders.deep_view() == add_names(
                after_own,
                preorder_children(node.children@, c as int),
            ),
            after_own == add_names(old(folders).deep_view(), own),
            own == (match node.folders {
                Some(v) => v.deep_view(),
                None => Seq::<Seq<char>>::empty(),
            }),
        decreases node.children@.len() - c,
    {
        collect_folders(folders, &node.children[c]);
        proof {
            lemma_add_names_concat(
                after_own,
                preorder_children(node.children@, c as int),
                preorder_folders(node.children@[c as int]),
            );
        }
        c = c + 1;
    }
    proof {
        lemma_add_names_concat(
            old(folders).deep_view(),
            own,
            preorder_children(node.children@, node.children@.len() as int),
        );
    }
}

} // verus!
