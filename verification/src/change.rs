use vstd::prelude::*;

use crate::init::on_prj_change_path;
use crate::tree::{
    arena_chain, found_link, search_for_projects, spec_empty_layout, spec_root_error,
    spec_root_search, wf_arena, AncestorLink, FoundProject, FsEntry, ResolveError,
};
use crate::utils::{
    file_stem, path_push, query_active_project, spec_file_stem, spec_last_component, spec_push,
    str_eq,
};
use crate::CURRENT_PROJECT_FOLDER;

verus! {

// Switching makes a named project the active one. Nothing is moved or
// copied: a fixed set of symlinks in the home directory is repointed, two
// environment files are rewritten, and a hook may run. This module only
// decides what to do — the plan below — over a snapshot of the home
// directory; carrying the plan out is plain filesystem work left to the
// caller, one relink decision (`relink_action`) at a time.

/// One symlink the switch manages: the entry `link_name` in the home
/// directory shall point at the path `source`.
#[derive(Debug)]
pub struct LinkOp {
    pub link_name: String,
    pub source: String,
}

/// What to do at one link slot, given what occupies it.
#[derive(Clone, Copy, Debug, PartialEq, Eq, Structural)]
pub enum RelinkAction {
    /// Leave the slot alone: the source is missing, or the slot holds real
    /// data that must not be clobbered.
    Skip,
    /// The slot holds a symlink: remove it, then create the new link.
    RemoveThenLink,
    /// The slot is empty: create the link.
    CreateLink,
}

/// The relink policy: only ever replace a symlink. A slot occupied by a
/// real file or directory is skipped, as is a link whose source does not
/// exist. `target_exists` follows symlinks, so a dangling symlink in the
/// slot reports `false` there and `true` for `target_is_symlink`, and is
/// replaced.
pub fn relink_action(source_exists: bool, target_exists: bool, target_is_symlink: bool) -> (r:
    RelinkAction)
    ensures
        r == (if !source_exists || (target_exists && !target_is_symlink) {
            RelinkAction::Skip
        } else if target_is_symlink {
            RelinkAction::RemoveThenLink
        } else {
            RelinkAction::CreateLink
        }),
{
    if !source_exists || (target_exists && !target_is_symlink) {
        RelinkAction::Skip
    } else if target_is_symlink {
        RelinkAction::RemoveThenLink
    } else {
        RelinkAction::CreateLink
    }
}

/// Why a switch cannot be planned.
#[derive(Clone, Copy, Debug, PartialEq, Eq, Structural)]
pub enum ChangeError {
    /// The home directory's layout was refused before anything was looked
    /// up.
    Layout(ResolveError),
    /// The target project is nowhere in the tree; nothing may be mutated.
    NotFound,
}

/// Everything a switch will do, decided up front: the well-known link, the
/// folder links in the order they are laid down, the two environment
/// files, and the hook with its environment.
#[derive(Debug)]
pub struct ChangePlan {
    pub project_link: LinkOp,
    pub folder_links: Vec<LinkOp>,
    pub fish_env_path: String,
    pub fish_env: String,
    pub bash_env_path: String,
    pub bash_env: String,
    pub hook_path: String,
    pub hook_env: Vec<(String, String)>,
}

/// Where the bash environment file lies under the configuration directory.
pub fn get_enviroment_vars_path(config_dir: &String) -> (r: String)
    ensures
        r@ == spec_push(config_dir@, "environment_variables.sh"@),
{
    path_push(config_dir.as_str(), "environment_variables.sh")
}

/// Where the fish environment file lies under the configuration directory.
pub fn get_enviroment_vars_fish_path(config_dir: &String) -> (r: String)
    ensures
        r@ == spec_push(config_dir@, "environment_variables.fish"@),
{
    path_push(config_dir.as_str(), "environment_variables.fish")
}

/// The name the previous active project goes by: the one the well-known
/// symlink's target yields, or the empty name when there is none.
pub open spec fn spec_active_name(link_target: Option<String>) -> Seq<char> {
    match link_target {
        Some(t) => spec_file_stem(spec_last_component(t@)),
        None => Seq::empty(),
    }
}

/// The fish environment file's content for a project name and path.
pub open spec fn fish_env_content(prj: Seq<char>, path: Seq<char>) -> Seq<char> {
    "set -x PRJ "@ + prj + "\nset -x PRJ_PATH "@ + path
}

/// The bash environment file's content for a project name and path.
pub open spec fn bash_env_content(prj: Seq<char>, path: Seq<char>) -> Seq<char> {
    "export PRJ="@ + prj + "\nexport PRJ_PATH="@ + path
}

fn build_fish_env(prj: &str, path: &str) -> (r: String)
    ensures
        r@ == fish_env_content(prj@, path@),
{
    let mut s: String = "set -x PRJ ".to_owned();
    s.append(prj);
    s.append("\nset -x PRJ_PATH ");
    s.append(path);
    s
}

fn build_bash_env(prj: &str, path: &str) -> (r: String)
    ensures
        r@ == bash_env_content(prj@, path@),
{
    let mut s: String = "export PRJ=".to_owned();
    s.append(prj);
    s.append("\nexport PRJ_PATH=");
    s.append(path);
    s
}

/// The links one ancestor contributes, in its listing order: each linkable
/// folder's stripped name, pointing at the folder's path inside that
/// ancestor.
pub open spec fn link_pairs(anc: AncestorLink) -> Seq<(Seq<char>, Seq<char>)> {
    anc.folders.map_values(|f: Seq<char>| (spec_file_stem(f), spec_push(anc.path, f)))
}

/// All links an ancestor chain contributes, closest ancestor first, before
/// names are de-duplicated.
pub open spec fn flatten_pairs(chain: Seq<AncestorLink>) -> Seq<(Seq<char>, Seq<char>)>
    decreases chain.len(),
{
    if chain.len() == 0 {
        Seq::empty()
    } else {
        link_pairs(chain[0]) + flatten_pairs(chain.drop_first())
    }
}

/// Whether some pair carries this link name.
pub open spec fn has_pair_name(pairs: Seq<(Seq<char>, Seq<char>)>, name: Seq<char>) -> bool {
    exists|i: int| 0 <= i < pairs.len() && pairs[i].0 == name
}

/// Keep, for every link name, only its first pair.
pub open spec fn dedup_first(pairs: Seq<(Seq<char>, Seq<char>)>) -> Seq<(Seq<char>, Seq<char>)>
    decreases pairs.len(),
{
    if pairs.len() == 0 {
        Seq::empty()
    } else {
        let rest = dedup_first(pairs.drop_last());
        if has_pair_name(rest, pairs.last().0) {
            rest
        } else {
            rest.push(pairs.last())
        }
    }
}

/// The links a switch to a project with this ancestor chain lays down:
/// every linkable folder along the chain, the closest definition of each
/// name winning.
pub open spec fn chain_links(chain: Seq<AncestorLink>) -> Seq<(Seq<char>, Seq<char>)> {
    dedup_first(flatten_pairs(chain))
}

/// The name/source pairs of a list of link operations.
pub open spec fn ops_pairs(ops: Seq<LinkOp>) -> Seq<(Seq<char>, Seq<char>)> {
    ops.map_values(|op: LinkOp| (op.link_name@, op.source@))
}

/// Appending an ancestor at the far end appends its pairs.
pub proof fn lemma_flatten_pairs_push(chain: Seq<AncestorLink>, anc: AncestorLink)
    ensures
        flatten_pairs(chain.push(anc)) == flatten_pairs(chain) + link_pairs(anc),
    decreases chain.len(),
{
    if chain.len() == 0 {
        assert(chain.push(anc)[0] == anc);
        assert(chain.push(anc).drop_first() =~= Seq::<AncestorLink>::empty());
        assert(flatten_pairs(chain.push(anc)) == link_pairs(anc) + flatten_pairs(
            Seq::<AncestorLink>::empty(),
        ));
        assert(link_pairs(anc) + Seq::<(Seq<char>, Seq<char>)>::empty() =~= link_pairs(anc));
        assert(flatten_pairs(chain) + link_pairs(anc) =~= link_pairs(anc));
    } else {
        assert(chain.push(anc)[0] == chain[0]);
        assert(chain.push(anc).drop_first() =~= chain.drop_first().push(anc));
        lemma_flatten_pairs_push(chain.drop_first(), anc);
        assert(link_pairs(chain[0]) + (flatten_pairs(chain.drop_first()) + link_pairs(anc)) =~= (
        link_pairs(chain[0]) + flatten_pairs(chain.drop_first())) + link_pairs(anc));
    }
}

/// Whether one of the collected links already carries this name.
fn ops_contain_name(ops: &Vec<LinkOp>, name: &str) -> (r: bool)
    ensures
        r == has_pair_name(ops_pairs(ops@), name@),
{
    let mut i: usize = 0;
    while i < ops.len()
        invariant
            i <= ops@.len(),
            forall|k: int| 0 <= k < i ==> ops@[k].link_name@ != name@,
        decreases ops@.len() - i,
    {
        if str_eq(ops[i].link_name.as_str(), name) {
            proof {
                assert(ops_pairs(ops@)[i as int].0 == name@);
            }
            return true;
        }
        i = i + 1;
    }
    proof {
        assert forall|k: int| 0 <= k < ops_pairs(ops@).len() implies ops_pairs(ops@)[k].0
            != name@ by {
            assert(ops_pairs(ops@)[k].0 == ops@[k].link_name@);
        }
    }
    false
}

/// Collect the folder links for the project at arena slot `start`: walk its
/// ancestor chain from the project upward and lay down each linkable
/// folder's link, skipping any name a closer ancestor already claimed.
fn collect_folder_links(arena: &Vec<FoundProject>, start: usize) -> (links: Vec<LinkOp>)
    requires
        wf_arena(arena@),
        (start as int) < arena@.len(),
    ensures
        ops_pairs(links@) == chain_links(arena_chain(arena@, start as int)),
{
    let ghost full_chain = arena_chain(arena@, start as int);
    let mut links: Vec<LinkOp> = Vec::new();
    let ghost done = Seq::<AncestorLink>::empty();
    let mut cur: usize = start;
    loop
        invariant
            wf_arena(arena@),
            (cur as int) < arena@.len(),
            full_chain == arena_chain(arena@, start as int),
            full_chain == done + arena_chain(arena@, cur as int),
            ops_pairs(links@) == dedup_first(flatten_pairs(done)),
        decreases cur,
    {
        let fp = &arena[cur];
        let ghost anc = found_link(arena@[cur as int]);
        proof {
            assert(arena_chain(arena@, cur as int).len() >= 1);
        }
        let mut m: usize = 0;
        while m < fp.folder_names.len()
            invariant
                m <= fp.folder_names@.len(),
                anc == found_link(arena@[cur as int]),
                (cur as int) < arena@.len(),
                fp == arena@[cur as int],
                ops_pairs(links@) == dedup_first(
                    flatten_pairs(done) + link_pairs(anc).take(m as int),
                ),
            decreases fp.folder_names@.len() - m,
        {
            let folder_name = &fp.folder_names[m];
            let stem = file_stem(folder_name.as_str());
            let source = path_push(fp.path.as_str(), folder_name.as_str());
            let ghost pair = link_pairs(anc)[m as int];
            proof {
                assert(anc.folders[m as int] == fp.folder_names@[m as int]@);
                assert(pair == (spec_file_stem(anc.folders[m as int]), spec_push(
                    anc.path,
                    anc.folders[m as int],
                )));
                assert(link_pairs(anc).take(m + 1) =~= link_pairs(anc).take(m as int).push(pair));
                assert((flatten_pairs(done) + link_pairs(anc).take(m + 1)) =~= (flatten_pairs(done)
                    + link_pairs(anc).take(m as int)).push(pair));
                assert((flatten_pairs(done) + link_pairs(anc).take(m + 1)).drop_last() =~= (
                flatten_pairs(done) + link_pairs(anc).take(m as int)));
            }
            if !ops_contain_name(&links, stem.as_str()) {
                links.push(LinkOp { link_name: stem, source });
                proof {
                    assert(ops_pairs(links@) =~= dedup_first(
                        flatten_pairs(done) + link_pairs(anc).take(m as int),
                    ).push(pair));
                }
            }
            m = m + 1;
        }
        proof {
            assert(link_pairs(anc).take(fp.folder_names@.len() as int) =~= link_pairs(anc));
        }
        let parent = fp.parent;
        proof {
            lemma_flatten_pairs_push(done, anc);
            match arena@[cur as int].parent {
                Some(p) => {
                    assert(arena_chain(arena@, cur as int) == seq![anc] + arena_chain(
                        arena@,
                        p as int,
                    ));
                    assert(done + (seq![anc] + arena_chain(arena@, p as int)) =~= done.push(anc)
                        + arena_chain(arena@, p as int));
                },
                None => {
                    assert(arena_chain(arena@, cur as int) == seq![anc]);
                    assert(done + seq![anc] =~= done.push(anc));
                },
            }
        }
        let ghost done_next = done.push(anc);
        proof {
            done = done_next;
        }
        match parent {
            Some(p) => {
                cur = p;
            },
            None => {
                proof {
                    assert(full_chain == done);
                }
                return links;
            },
        }
    }
}

/// Plan a switch to the project named `prj_name`. The home directory's
/// snapshot is `root` at path `home_path`; `active_link_target` is what the
/// well-known symlink currently points at, if anything. Nothing is planned
/// — and so nothing would be mutated — unless the target is found.
pub fn change_prj(
    prj_name: &String,
    root: &Vec<FsEntry>,
    home_path: &String,
    config_dir: &String,
    active_link_target: Option<String>,
    legacy_config_exists: bool,
) -> (r: Result<ChangePlan, ChangeError>)
    ensures
        spec_empty_layout(root@) ==> r == Err::<ChangePlan, ChangeError>(
            ChangeError::Layout(spec_root_error(legacy_config_exists)),
        ),
        !spec_empty_layout(root@) && spec_root_search(root@, home_path@, prj_name@) is None ==> r
            == Err::<ChangePlan, ChangeError>(ChangeError::NotFound),
        !spec_empty_layout(root@) && spec_root_search(root@, home_path@, prj_name@) is Some ==> (
        r matches Ok(plan) && change_plan_ok(
            root@,
            home_path@,
            config_dir@,
            prj_name@,
            spec_active_name(active_link_target),
            plan,
        )),
{
    let active = match query_active_project(active_link_target) {
        Some(a) => a,
        None => String::new(),
    };
    let mut targets: Vec<String> = Vec::new();
    targets.push(prj_name.clone());
    targets.push(active.clone());
    proof {
        assert(targets.deep_view() =~= seq![prj_name@, active@]);
    }
    let outcome = match search_for_projects(root, home_path, &targets, legacy_config_exists) {
        Ok(o) => o,
        Err(e) => {
            return Err(ChangeError::Layout(e));
        },
    };
    let prj_idx: usize = match outcome.found[0] {
        Some(j) => j,
        None => {
            return Err(ChangeError::NotFound);
        },
    };
    let ghost chain = arena_chain(outcome.arena@, prj_idx as int);
    proof {
        assert(spec_root_search(root@, home_path@, prj_name@) == Some(chain));
        assert(chain[0] == found_link(outcome.arena@[prj_idx as int]));
    }
    let prj_fp = &outcome.arena[prj_idx];
    let prj_path_string = prj_fp.path.clone();
    let project_link = LinkOp {
        link_name: CURRENT_PROJECT_FOLDER.to_owned(),
        source: prj_path_string.clone(),
    };
    let folder_links = collect_folder_links(&outcome.arena, prj_idx);
    let fish_env_path = get_enviroment_vars_fish_path(config_dir);
    let fish_env = build_fish_env(prj_name.as_str(), prj_path_string.as_str());
    let bash_env_path = get_enviroment_vars_path(config_dir);
    let bash_env = build_bash_env(prj_name.as_str(), prj_path_string.as_str());
    let hook_path = on_prj_change_path(config_dir);
    let mut hook_env: Vec<(String, String)> = Vec::new();
    hook_env.push(("PRJ".to_owned(), prj_name.clone()));
    hook_env.push(("PRJ_PATH".to_owned(), prj_path_string.clone()));
    hook_env.push(("OLD_PRJ".to_owned(), active.clone()));
    match outcome.found[1] {
        Some(oj) => {
            let old_fp = &outcome.arena[oj];
            proof {
                assert(spec_root_search(root@, home_path@, active@) == Some(
                    arena_chain(outcome.arena@, oj as int),
                ));
                assert(arena_chain(outcome.arena@, oj as int)[0] == found_link(
                    outcome.arena@[oj as int],
                ));
            }
            hook_env.push(("OLD_PRJ_PATH".to_owned(), old_fp.path.clone()));
        },
        None => {},
    }
    Ok(
        ChangePlan {
            project_link,
            folder_links,
            fish_env_path,
            fish_env,
            bash_env_path,
            bash_env,
            hook_path,
            hook_env,
        },
    )
}

/// What a well-planned switch looks like, stated over the specified search:
/// with `chain` the target's ancestor chain, the well-known link points at
/// the target, the folder links are the chain's links with the closest
/// definition of each name winning, the environment files carry the target,
/// and the hook environment names the new and old projects.
pub open spec fn change_plan_ok(
    root: Seq<FsEntry>,
    home: Seq<char>,
    config: Seq<char>,
    prj: Seq<char>,
    active: Seq<char>,
    plan: ChangePlan,
) -> bool {
    let chain = spec_root_search(root, home, prj)->Some_0;
    &&& plan.project_link.link_name@ == CURRENT_PROJECT_FOLDER@
    &&& plan.project_link.source@ == chain[0].path
    &&& ops_pairs(plan.folder_links@) == chain_links(chain)
    &&& plan.fish_env_path@ == spec_push(config, "environment_variables.fish"@)
    &&& plan.fish_env@ == fish_env_content(prj, chain[0].path)
    &&& plan.bash_env_path@ == spec_push(config, "environment_variables.sh"@)
    &&& plan.bash_env@ == bash_env_content(prj, chain[0].path)
    &&& plan.hook_path@ == spec_push(config, "on-prj-change"@)
    &&& hook_env_ok(plan.hook_env@, prj, chain[0].path, active, spec_root_search(
        root,
        home,
        active,
    ))
}

/// The hook's environment: the new project's name and path, the previous
/// name, and the previous path when the previous project could still be
/// found.
pub open spec fn hook_env_ok(
    env: Seq<(String, String)>,
    prj: Seq<char>,
    prj_path: Seq<char>,
    active: Seq<char>,
    old_search: Option<Seq<AncestorLink>>,
) -> bool {
    &&& env.len() == (if old_search is Some {
        4int
    } else {
        3int
    })
    &&& env[0].0@ == "PRJ"@ && env[0].1@ == prj
    &&& env[1].0@ == "PRJ_PATH"@ && env[1].1@ == prj_path
    &&& env[2].0@ == "OLD_PRJ"@ && env[2].1@ == active
    &&& (old_search matches Some(oc) ==> env[3].0@ == "OLD_PRJ_PATH"@ && env[3].1@ == oc[0].path)
}

/// Law (idempotence of switching): everything a switch writes to disk — the
/// well-known link, the folder links and the two environment files — is a
/// function of the target project alone, never of which project was active
/// before. Switching to the already active project therefore lays down the
/// identical links and rewrites the environment files with identical
/// content.
pub proof fn lemma_switch_ignores_previous_active(
    root: Seq<FsEntry>,
    home: Seq<char>,
    config: Seq<char>,
    prj: Seq<char>,
    active1: Seq<char>,
    active2: Seq<char>,
    plan1: ChangePlan,
    plan2: ChangePlan,
)
    requires
        spec_root_search(root, home, prj) is Some,
        change_plan_ok(root, home, config, prj, active1, plan1),
        change_plan_ok(root, home, config, prj, active2, plan2),
    ensures
        plan1.project_link.link_name@ == plan2.project_link.link_name@,
        plan1.project_link.source@ == plan2.project_link.source@,
        ops_pairs(plan1.folder_links@) == ops_pairs(plan2.folder_links@),
        plan1.fish_env_path@ == plan2.fish_env_path@,
        plan1.fish_env@ == plan2.fish_env@,
        plan1.bash_env_path@ == plan2.bash_env_path@,
        plan1.bash_env@ == plan2.bash_env@,
        plan1.hook_path@ == plan2.hook_path@,
{
}

proof fn lemma_has_name_push(pairs: Seq<(Seq<char>, Seq<char>)>, p: (Seq<char>, Seq<char>), n: Seq<char>)
    ensures
        has_pair_name(pairs.push(p), n) == (has_pair_name(pairs, n) || p.0 == n),
{
    if has_pair_name(pairs, n) {
        let i = choose|i: int| 0 <= i < pairs.len() && pairs[i].0 == n;
        assert(pairs.push(p)[i].0 == n);
    }
    if p.0 == n {
        assert(pairs.push(p)[pairs.len() as int].0 == n);
    }
    if has_pair_name(pairs.push(p), n) && p.0 != n {
        let i = choose|i: int| 0 <= i < pairs.push(p).len() && pairs.push(p)[i].0 == n;
        if i < pairs.len() {
            assert(pairs[i].0 == n);
        }
    }
}

proof fn lemma_has_name_add(x: Seq<(Seq<char>, Seq<char>)>, y: Seq<(Seq<char>, Seq<char>)>, n: Seq<char>)
    ensures
        has_pair_name(x + y, n) == (has_pair_name(x, n) || has_pair_name(y, n)),
{
    if has_pair_name(x, n) {
        let i = choose|i: int| 0 <= i < x.len() && x[i].0 == n;
        assert((x + y)[i].0 == n);
    }
    if has_pair_name(y, n) {
        let i = choose|i: int| 0 <= i < y.len() && y[i].0 == n;
        assert((x + y)[x.len() + i].0 == n);
    }
    if has_pair_name(x + y, n) {
        let i = choose|i: int| 0 <= i < (x + y).len() && (x + y)[i].0 == n;
        if i < x.len() {
            assert(x[i].0 == n);
        } else {
            assert(y[i - x.len()].0 == n);
        }
    }
}

/// De-duplication keeps exactly the names that were there.
proof fn lemma_dedup_has_name(pairs: Seq<(Seq<char>, Seq<char>)>, n: Seq<char>)
    ensures
        has_pair_name(dedup_first(pairs), n) == has_pair_name(pairs, n),
    decreases pairs.len(),
{
    if pairs.len() == 0 {
    } else {
        lemma_dedup_has_name(pairs.drop_last(), n);
        let rest = dedup_first(pairs.drop_last());
        let p = pairs.last();
        assert(pairs.drop_last().push(p) =~= pairs);
        lemma_has_name_push(pairs.drop_last(), p, n);
        if has_pair_name(rest, p.0) {
            lemma_dedup_has_name(pairs.drop_last(), p.0);
        } else {
            lemma_has_name_push(rest, p, n);
        }
    }
}

/// Appending pairs cannot displace a name's established first pair.
proof fn lemma_dedup_append_named(
    x: Seq<(Seq<char>, Seq<char>)>,
    y: Seq<(Seq<char>, Seq<char>)>,
    n: Seq<char>,
    p: (Seq<char>, Seq<char>),
)
    requires
        has_pair_name(dedup_first(x), n),
        forall|i: int|
            0 <= i < dedup_first(x).len() && dedup_first(x)[i].0 == n ==> dedup_first(x)[i] == p,
    ensures
        has_pair_name(dedup_first(x + y), n),
        forall|i: int|
            0 <= i < dedup_first(x + y).len() && dedup_first(x + y)[i].0 == n ==> dedup_first(
                x + y,
            )[i] == p,
    decreases y.len(),
{
    if y.len() == 0 {
        assert(x + y =~= x);
    } else {
        lemma_dedup_append_named(x, y.drop_last(), n, p);
        assert((x + y).drop_last() =~= x + y.drop_last());
        let rest = dedup_first(x + y.drop_last());
        let q = (x + y).last();
        assert(q == y.last());
        if !has_pair_name(rest, q.0) {
            assert(q.0 != n);
            lemma_has_name_push(rest, q, n);
            assert forall|i: int|
                0 <= i < rest.push(q).len() && rest.push(q)[i].0 == n implies rest.push(q)[i]
                == p by {
                if i < rest.len() {
                    assert(rest.push(q)[i] == rest[i]);
                } else {
                    assert(rest.push(q)[i] == q);
                }
            }
        }
    }
}

/// The first pair of a name that the existing pairs do not carry becomes
/// that name's one surviving pair.
proof fn lemma_dedup_append_first(
    x: Seq<(Seq<char>, Seq<char>)>,
    y: Seq<(Seq<char>, Seq<char>)>,
    k: int,
)
    requires
        0 <= k < y.len(),
        !has_pair_name(x, y[k].0),
        forall|j: int| 0 <= j < k ==> y[j].0 != y[k].0,
    ensures
        has_pair_name(dedup_first(x + y), y[k].0),
        forall|i: int|
            0 <= i < dedup_first(x + y).len() && dedup_first(x + y)[i].0 == y[k].0 ==> dedup_first(
                x + y,
            )[i] == y[k],
    decreases y.len(),
{
    let n = y[k].0;
    let rest = dedup_first(x + y.drop_last());
    let q = y.last();
    assert((x + y).drop_last() =~= x + y.drop_last());
    assert((x + y).last() == q);
    if k == y.len() - 1 {
        assert(!has_pair_name(y.drop_last(), n)) by {
            if has_pair_name(y.drop_last(), n) {
                let j = choose|j: int|
                    0 <= j < y.drop_last().len() && y.drop_last()[j].0 == n;
                assert(y[j].0 == n);
            }
        }
        lemma_has_name_add(x, y.drop_last(), n);
        lemma_dedup_has_name(x + y.drop_last(), n);
        assert(!has_pair_name(rest, n));
        assert(dedup_first(x + y) == rest.push(q));
        lemma_has_name_push(rest, q, n);
        assert forall|i: int|
            0 <= i < rest.push(q).len() && rest.push(q)[i].0 == n implies rest.push(q)[i]
            == y[k] by {
            if i < rest.len() {
                assert(rest[i].0 == n);
            } else {
                assert(rest.push(q)[i] == q);
            }
        }
    } else {
        assert(y.drop_last()[k] == y[k]);
        lemma_dedup_append_first(x, y.drop_last(), k);
        if has_pair_name(rest, q.0) {
            assert(dedup_first(x + y) == rest);
        } else {
            assert(q.0 != n);
            assert(dedup_first(x + y) == rest.push(q));
            lemma_has_name_push(rest, q, n);
            assert forall|i: int|
                0 <= i < rest.push(q).len() && rest.push(q)[i].0 == n implies rest.push(q)[i]
                == y[k] by {
                if i < rest.len() {
                    assert(rest.push(q)[i] == rest[i]);
                } else {
                    assert(rest.push(q)[i] == q);
                }
            }
        }
    }
}

/// A chain none of whose folders bears the name contributes no pair with
/// the name.
proof fn lemma_flatten_no_name(chain: Seq<AncestorLink>, n: Seq<char>)
    requires
        forall|b: int, f: int|
            0 <= b < chain.len() && 0 <= f < chain[b].folders.len() ==> spec_file_stem(
                chain[b].folders[f],
            ) != n,
    ensures
        !has_pair_name(flatten_pairs(chain), n),
    decreases chain.len(),
{
    if chain.len() == 0 {
    } else {
        assert(!has_pair_name(link_pairs(chain[0]), n)) by {
            if has_pair_name(link_pairs(chain[0]), n) {
                let i = choose|i: int|
                    0 <= i < link_pairs(chain[0]).len() && link_pairs(chain[0])[i].0 == n;
                assert(spec_file_stem(chain[0].folders[i]) == n);
            }
        }
        assert forall|b: int, f: int|
            0 <= b < chain.drop_first().len() && 0 <= f
                < chain.drop_first()[b].folders.len() implies spec_file_stem(
            chain.drop_first()[b].folders[f],
        ) != n by {
            assert(chain.drop_first()[b] == chain[b + 1]);
        }
        lemma_flatten_no_name(chain.drop_first(), n);
        lemma_has_name_add(link_pairs(chain[0]), flatten_pairs(chain.drop_first()), n);
    }
}

/// Law (ancestor-folder union, closest definition wins): take a project
/// whose ancestor chain is `chain` (the project itself first, the root
/// last), and a linkable folder — the `m`-th of ancestor `a` — whose
/// stripped name no closer ancestor defines, nor an earlier folder of the
/// same ancestor. Then the switch lays down a link for that name, and every
/// link with that name points into ancestor `a`'s folder — never into a
/// farther ancestor's equally named one.
pub proof fn lemma_closest_ancestor_wins(chain: Seq<AncestorLink>, a: int, m: int)
    requires
        0 <= a < chain.len(),
        0 <= m < chain[a].folders.len(),
        forall|b: int, f: int|
            0 <= b < a && 0 <= f < chain[b].folders.len() ==> spec_file_stem(chain[b].folders[f])
                != spec_file_stem(chain[a].folders[m]),
        forall|f: int|
            0 <= f < m ==> spec_file_stem(chain[a].folders[f]) != spec_file_stem(
                chain[a].folders[m],
            ),
    ensures
        has_pair_name(chain_links(chain), spec_file_stem(chain[a].folders[m])),
        forall|i: int|
            0 <= i < chain_links(chain).len() && chain_links(chain)[i].0 == spec_file_stem(
                chain[a].folders[m],
            ) ==> chain_links(chain)[i] == (
                spec_file_stem(chain[a].folders[m]),
                spec_push(chain[a].path, chain[a].folders[m]),
            ),
    decreases chain.len(),
{
    let n = spec_file_stem(chain[a].folders[m]);
    let p = (n, spec_push(chain[a].path, chain[a].folders[m]));
    let x = flatten_pairs(chain.drop_last());
    let y = link_pairs(chain.last());
    assert(chain.drop_last().push(chain.last()) =~= chain);
    lemma_flatten_pairs_push(chain.drop_last(), chain.last());
    assert(flatten_pairs(chain) == x + y);
    if a == chain.len() - 1 {
        assert(chain.last() == chain[a]);
        assert forall|b: int, f: int|
            0 <= b < chain.drop_last().len() && 0 <= f
                < chain.drop_last()[b].folders.len() implies spec_file_stem(
            chain.drop_last()[b].folders[f],
        ) != n by {
            assert(chain.drop_last()[b] == chain[b]);
        }
        lemma_flatten_no_name(chain.drop_last(), n);
        assert(y[m] == p);
        assert forall|j: int| 0 <= j < m implies y[j].0 != n by {
            assert(y[j].0 == spec_file_stem(chain[a].folders[j]));
        }
        lemma_dedup_append_first(x, y, m);
    } else {
        assert(chain.drop_last()[a] == chain[a]);
        lemma_closest_ancestor_wins(chain.drop_last(), a, m);
        lemma_dedup_append_named(x, y, n, p);
    }
}

} // verus!
