use wechsel::change::{change_prj, relink_action, ChangeError, RelinkAction};
use wechsel::tree::{FsEntry, ResolveError};

fn dir(name: &str, entries: Vec<FsEntry>) -> FsEntry {
    FsEntry { name: name.to_string(), is_dir: true, entries }
}

fn home() -> String {
    "/home/u".to_string()
}

fn config() -> String {
    "/home/u/.config/wechsel".to_string()
}

fn scenario_home() -> Vec<FsEntry> {
    // home contains home.p, which holds Desktop.w and the child work.p with
    // its own Code.w
    vec![dir(
        "home.p",
        vec![dir("Desktop.w", vec![]), dir("work.p", vec![dir("Code.w", vec![])])],
    )]
}

#[test]
fn switching_to_a_child_links_inherited_and_own_folders() {
    let root = scenario_home();
    let plan = change_prj(
        &"work".to_string(),
        &root,
        &home(),
        &config(),
        Some("/home/u/home.p".to_string()),
        false,
    )
    .unwrap();
    // the well-known link points at the target's absolute path
    assert_eq!(plan.project_link.link_name, "Project");
    assert_eq!(plan.project_link.source, "/home/u/home.p/work.p");
    // its own folder first, then the inherited one
    assert_eq!(plan.folder_links.len(), 2);
    assert_eq!(plan.folder_links[0].link_name, "Code");
    assert_eq!(plan.folder_links[0].source, "/home/u/home.p/work.p/Code.w");
    assert_eq!(plan.folder_links[1].link_name, "Desktop");
    assert_eq!(plan.folder_links[1].source, "/home/u/home.p/Desktop.w");
    // environment files
    assert_eq!(plan.fish_env_path, "/home/u/.config/wechsel/environment_variables.fish");
    assert_eq!(plan.fish_env, "set -x PRJ work\nset -x PRJ_PATH /home/u/home.p/work.p");
    assert_eq!(plan.bash_env_path, "/home/u/.config/wechsel/environment_variables.sh");
    assert_eq!(plan.bash_env, "export PRJ=work\nexport PRJ_PATH=/home/u/home.p/work.p");
    // hook and its environment, the old project resolved
    assert_eq!(plan.hook_path, "/home/u/.config/wechsel/on-prj-change");
    assert_eq!(plan.hook_env.len(), 4);
    assert_eq!(plan.hook_env[0], ("PRJ".to_string(), "work".to_string()));
    assert_eq!(plan.hook_env[1], ("PRJ_PATH".to_string(), "/home/u/home.p/work.p".to_string()));
    assert_eq!(plan.hook_env[2], ("OLD_PRJ".to_string(), "home".to_string()));
    assert_eq!(
        plan.hook_env[3],
        ("OLD_PRJ_PATH".to_string(), "/home/u/home.p".to_string())
    );
}

#[test]
fn switching_back_does_not_touch_the_childs_folder() {
    // after switching back to home, no link for Code is laid down: the old
    // link goes stale rather than being removed
    let root = scenario_home();
    let plan = change_prj(
        &"home".to_string(),
        &root,
        &home(),
        &config(),
        Some("/home/u/home.p/work.p".to_string()),
        false,
    )
    .unwrap();
    assert_eq!(plan.project_link.source, "/home/u/home.p");
    assert_eq!(plan.folder_links.len(), 1);
    assert_eq!(plan.folder_links[0].link_name, "Desktop");
    assert_eq!(plan.folder_links[0].source, "/home/u/home.p/Desktop.w");
    assert!(!plan.folder_links.iter().any(|op| op.link_name == "Code"));
}

#[test]
fn the_closest_ancestors_folder_wins_a_name_collision() {
    // Data.w exists at three levels; the switch target's own definition wins
    let root = vec![dir(
        "home.p",
        vec![
            dir("Data.w", vec![]),
            dir(
                "mid.p",
                vec![
                    dir("Data.w", vec![]),
                    dir("leaf.p", vec![dir("Data.w", vec![]), dir("Extra.w", vec![])]),
                ],
            ),
        ],
    )];
    let plan = change_prj(&"leaf".to_string(), &root, &home(), &config(), None, false).unwrap();
    let data: Vec<_> = plan.folder_links.iter().filter(|op| op.link_name == "Data").collect();
    assert_eq!(data.len(), 1);
    assert_eq!(data[0].source, "/home/u/home.p/mid.p/leaf.p/Data.w");
    assert_eq!(plan.folder_links.len(), 2);
    assert_eq!(plan.folder_links[1].link_name, "Extra");
    // switching to the middle project takes its own definition instead
    let plan_mid = change_prj(&"mid".to_string(), &root, &home(), &config(), None, false).unwrap();
    let data_mid: Vec<_> = plan_mid.folder_links.iter().filter(|op| op.link_name == "Data").collect();
    assert_eq!(data_mid.len(), 1);
    assert_eq!(data_mid[0].source, "/home/u/home.p/mid.p/Data.w");
}

#[test]
fn what_a_switch_writes_ignores_the_previous_active_project() {
    // switching to the already active project lays down the identical links
    // and identical file contents
    let root = scenario_home();
    let from_home = change_prj(
        &"work".to_string(),
        &root,
        &home(),
        &config(),
        Some("/home/u/home.p".to_string()),
        false,
    )
    .unwrap();
    let from_work = change_prj(
        &"work".to_string(),
        &root,
        &home(),
        &config(),
        Some("/home/u/home.p/work.p".to_string()),
        false,
    )
    .unwrap();
    let from_nothing = change_prj(&"work".to_string(), &root, &home(), &config(), None, false)
        .unwrap();
    for other in [&from_work, &from_nothing] {
        assert_eq!(from_home.project_link.link_name, other.project_link.link_name);
        assert_eq!(from_home.project_link.source, other.project_link.source);
        assert_eq!(from_home.folder_links.len(), other.folder_links.len());
        for (a, b) in from_home.folder_links.iter().zip(other.folder_links.iter()) {
            assert_eq!(a.link_name, b.link_name);
            assert_eq!(a.source, b.source);
        }
        assert_eq!(from_home.fish_env, other.fish_env);
        assert_eq!(from_home.bash_env, other.bash_env);
        assert_eq!(from_home.fish_env_path, other.fish_env_path);
        assert_eq!(from_home.bash_env_path, other.bash_env_path);
        assert_eq!(from_home.hook_path, other.hook_path);
    }
    // only the hook's view of the previous project differs
    assert_eq!(from_work.hook_env[2], ("OLD_PRJ".to_string(), "work".to_string()));
    assert_eq!(from_nothing.hook_env.len(), 3);
    assert_eq!(from_nothing.hook_env[2], ("OLD_PRJ".to_string(), "".to_string()));
}

#[test]
fn sibling_projects_never_reach_each_others_folders() {
    // two sibling projects share a folder name; siblings are not ancestors
    // of one another, so only the switch target's own folder is linked —
    // there is no collision to resolve across siblings
    let root = vec![dir(
        "home.p",
        vec![
            dir("left.p", vec![dir("Data.w", vec![])]),
            dir("right.p", vec![dir("Data.w", vec![])]),
        ],
    )];
    let plan = change_prj(&"left".to_string(), &root, &home(), &config(), None, false).unwrap();
    assert_eq!(plan.folder_links.len(), 1);
    assert_eq!(plan.folder_links[0].link_name, "Data");
    assert_eq!(plan.folder_links[0].source, "/home/u/home.p/left.p/Data.w");
}

#[test]
fn a_missing_target_fails_before_anything_is_planned() {
    let root = scenario_home();
    let r = change_prj(&"absent".to_string(), &root, &home(), &config(), None, false);
    assert_eq!(r.unwrap_err(), ChangeError::NotFound);
}

#[test]
fn an_empty_home_fails_the_switch() {
    let root: Vec<FsEntry> = vec![];
    let r = change_prj(&"work".to_string(), &root, &home(), &config(), None, false);
    assert_eq!(r.unwrap_err(), ChangeError::Layout(ResolveError::Uninitialized));
    let r2 = change_prj(&"work".to_string(), &root, &home(), &config(), None, true);
    assert_eq!(r2.unwrap_err(), ChangeError::Layout(ResolveError::NeedsMigration));
}

#[test]
fn relinking_never_clobbers_real_data() {
    // a real (non-symlink) occupant always means skip, whatever else holds
    assert_eq!(relink_action(true, true, false), RelinkAction::Skip);
    assert_eq!(relink_action(false, true, false), RelinkAction::Skip);
    // a missing source means skip
    assert_eq!(relink_action(false, false, false), RelinkAction::Skip);
    assert_eq!(relink_action(false, true, true), RelinkAction::Skip);
    assert_eq!(relink_action(false, false, true), RelinkAction::Skip);
    // a symlink in the slot is replaced, even a dangling one
    assert_eq!(relink_action(true, true, true), RelinkAction::RemoveThenLink);
    assert_eq!(relink_action(true, false, true), RelinkAction::RemoveThenLink);
    // an empty slot is filled
    assert_eq!(relink_action(true, false, false), RelinkAction::CreateLink);
}
