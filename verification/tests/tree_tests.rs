use wechsel::tree::{
    get_folders, get_old_config_file_path, get_project_tree, search_for_projects, FsEntry,
    ResolveError,
};

fn dir(name: &str, entries: Vec<FsEntry>) -> FsEntry {
    FsEntry { name: name.to_string(), is_dir: true, entries }
}

fn file(name: &str) -> FsEntry {
    FsEntry { name: name.to_string(), is_dir: false, entries: vec![] }
}

fn home() -> String {
    "/home/u".to_string()
}

#[test]
fn empty_home_is_refused_as_uninitialized() {
    let root: Vec<FsEntry> = vec![file("notes.txt"), dir("plain", vec![])];
    let r = get_project_tree(&root, &home(), false, false);
    assert_eq!(r.unwrap_err(), ResolveError::Uninitialized);
}

#[test]
fn empty_home_with_legacy_config_asks_for_migration() {
    let root: Vec<FsEntry> = vec![];
    let r = get_project_tree(&root, &home(), false, true);
    assert_eq!(r.unwrap_err(), ResolveError::NeedsMigration);
    let targets = vec!["work".to_string()];
    let s = search_for_projects(&root, &home(), &targets, true);
    assert_eq!(s.unwrap_err(), ResolveError::NeedsMigration);
}

#[test]
fn a_single_folderless_root_project_is_elided() {
    // the home directory holds exactly one project and no linkable folder:
    // the tree reports that project as its top, with no wrapper above it
    let root = vec![dir(
        "home.p",
        vec![dir("Desktop.w", vec![]), dir("work.p", vec![dir("Code.w", vec![])])],
    )];
    let tree = get_project_tree(&root, &home(), false, false).unwrap();
    assert_eq!(tree.prj_name, "home");
    assert_eq!(tree.path, "/home/u/home.p");
    assert_eq!(tree.children.len(), 1);
    assert_eq!(tree.children[0].prj_name, "work");
    assert_eq!(tree.children[0].path, "/home/u/home.p/work.p");
    assert!(tree.folders.is_none());
}

#[test]
fn a_root_with_its_own_folder_is_not_elided() {
    let root = vec![dir("Desktop.w", vec![]), dir("solo.p", vec![])];
    let tree = get_project_tree(&root, &home(), false, false).unwrap();
    assert_eq!(tree.prj_name, "home");
    assert_eq!(tree.path, "/home/u");
    assert_eq!(tree.children.len(), 1);
    assert_eq!(tree.children[0].prj_name, "solo");
}

#[test]
fn two_root_projects_are_not_elided() {
    let root = vec![dir("a.p", vec![]), dir("b.p", vec![])];
    let tree = get_project_tree(&root, &home(), false, false).unwrap();
    assert_eq!(tree.prj_name, "home");
    assert_eq!(tree.children.len(), 2);
    assert_eq!(tree.children[0].prj_name, "a");
    assert_eq!(tree.children[1].prj_name, "b");
}

#[test]
fn folders_are_collected_only_on_request() {
    let root = vec![dir(
        "home.p",
        vec![
            dir("Desktop.w", vec![]),
            dir("Music.w", vec![]),
            file("stray.w"),
            dir("work.p", vec![]),
        ],
    )];
    let plainly = get_project_tree(&root, &home(), false, false).unwrap();
    assert!(plainly.folders.is_none());
    let with_folders = get_project_tree(&root, &home(), true, false).unwrap();
    assert_eq!(with_folders.folders, Some(vec!["Desktop".to_string(), "Music".to_string()]));
    assert!(with_folders.children[0].folders.is_none());
}

#[test]
fn non_directories_and_other_extensions_are_ignored() {
    let root = vec![
        file("fake.p"),
        dir("Desktop.w", vec![]),
        dir("noext", vec![]),
        dir("real.p", vec![dir("wrong.x", vec![])]),
    ];
    let tree = get_project_tree(&root, &home(), true, false).unwrap();
    assert_eq!(tree.children.len(), 1);
    assert_eq!(tree.children[0].prj_name, "real");
    assert_eq!(tree.children[0].children.len(), 0);
    assert_eq!(tree.folders, Some(vec!["Desktop".to_string()]));
}

#[test]
fn search_finds_nested_projects_with_their_paths() {
    let root = vec![dir(
        "home.p",
        vec![dir("Desktop.w", vec![]), dir("work.p", vec![dir("Code.w", vec![])])],
    )];
    let targets = vec!["work".to_string(), "home".to_string(), "absent".to_string()];
    let out = search_for_projects(&root, &home(), &targets, false).unwrap();
    assert_eq!(out.found.len(), 3);
    let work = out.found[0].expect("work not found");
    assert_eq!(out.arena[work].path, "/home/u/home.p/work.p");
    // the chain from work leads through home.p to the elided root
    let parent = out.arena[work].parent.expect("work has a parent");
    assert_eq!(out.arena[parent].path, "/home/u/home.p");
    let grand = out.arena[parent].parent.expect("home.p has the root as parent");
    assert_eq!(out.arena[grand].path, "/home/u");
    assert!(out.arena[grand].parent.is_none());
    let home_hit = out.found[1].expect("home not found");
    assert_eq!(out.arena[home_hit].path, "/home/u/home.p");
    assert!(out.found[2].is_none());
    // the folder entry names were recorded along the way
    assert_eq!(out.arena[work].folder_names, vec!["Code.w".to_string()]);
    assert_eq!(out.arena[parent].folder_names, vec!["Desktop.w".to_string()]);
}

#[test]
fn a_parent_outranks_an_equally_named_descendant() {
    let root = vec![
        dir("Desktop.w", vec![]),
        dir("alpha.p", vec![dir("alpha.p", vec![])]),
    ];
    let targets = vec!["alpha".to_string()];
    let out = search_for_projects(&root, &home(), &targets, false).unwrap();
    let hit = out.found[0].expect("alpha not found");
    assert_eq!(out.arena[hit].path, "/home/u/alpha.p");
}

#[test]
fn get_folders_lists_full_paths_in_order() {
    let entries = vec![
        dir("Desktop.w", vec![]),
        file("stray.w"),
        dir("sub.p", vec![]),
        dir("Music.w", vec![]),
    ];
    let r = get_folders(&entries, &"/home/u/home.p".to_string());
    assert_eq!(r, vec!["/home/u/home.p/Desktop.w".to_string(), "/home/u/home.p/Music.w".to_string()]);
}

#[test]
fn old_config_path_follows_the_probe() {
    let config = "/home/u/.config/wechsel".to_string();
    assert_eq!(
        get_old_config_file_path(&config, true),
        Some("/home/u/.config/wechsel/wechsel_projects.json".to_string())
    );
    assert_eq!(get_old_config_file_path(&config, false), None);
}
