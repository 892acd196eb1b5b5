use wechsel::cli::{main_with_args, Args, CliPlan, Command};
use wechsel::init::{bashrc_path, fish_config_path, init_root_project_path, on_prj_change_path};
use wechsel::migrate::{get_old_config_file_path, get_old_config_file_path_unchecked, OldConfig, OldProject};
use wechsel::new::{collect_folders, create_new_prj, parent_from_pwd, NewProjectError};
use wechsel::tree::{get_project_tree, FsEntry, ResolveError};

fn dir(name: &str, entries: Vec<FsEntry>) -> FsEntry {
    FsEntry { name: name.to_string(), is_dir: true, entries }
}

fn file(name: &str) -> FsEntry {
    FsEntry { name: name.to_string(), is_dir: false, entries: vec![] }
}

fn home() -> String {
    "/home/u".to_string()
}

fn config() -> String {
    "/home/u/.config/wechsel".to_string()
}

#[test]
fn a_new_project_lies_under_its_parent() {
    let root = vec![dir("home.p", vec![dir("Desktop.w", vec![]), dir("work.p", vec![])])];
    let folders = vec!["Desktop".to_string(), "Downloads".to_string()];
    let plan = create_new_prj(
        &"fresh".to_string(),
        &folders,
        &"work".to_string(),
        &root,
        &home(),
        &config(),
        false,
    )
    .unwrap();
    assert_eq!(plan.prj_path, "/home/u/home.p/work.p/fresh.p");
    assert_eq!(
        plan.subfolders,
        vec![
            "/home/u/home.p/work.p/fresh.p/Desktop.w".to_string(),
            "/home/u/home.p/work.p/fresh.p/Downloads.w".to_string(),
        ]
    );
    assert_eq!(plan.hook_path, "/home/u/.config/wechsel/on-prj-create");
    assert_eq!(plan.hook_env.len(), 2);
    assert_eq!(plan.hook_env[0], ("PRJ".to_string(), "fresh".to_string()));
    assert_eq!(
        plan.hook_env[1],
        ("PRJ_PATH".to_string(), "/home/u/home.p/work.p/fresh.p".to_string())
    );
}

#[test]
fn a_dotted_project_name_loses_its_extension() {
    let root = vec![dir("home.p", vec![dir("Desktop.w", vec![])])];
    let none: Vec<String> = vec![];
    let plan = create_new_prj(
        &"fresh.old".to_string(),
        &none,
        &"home".to_string(),
        &root,
        &home(),
        &config(),
        false,
    )
    .unwrap();
    assert_eq!(plan.prj_path, "/home/u/home.p/fresh.p");
    assert!(plan.subfolders.is_empty());
}

#[test]
fn a_missing_parent_fails_the_creation() {
    let root = vec![dir("home.p", vec![dir("Desktop.w", vec![])])];
    let none: Vec<String> = vec![];
    let r = create_new_prj(
        &"fresh".to_string(),
        &none,
        &"absent".to_string(),
        &root,
        &home(),
        &config(),
        false,
    );
    assert_eq!(r.unwrap_err(), NewProjectError::ParentNotFound);
    let empty: Vec<FsEntry> = vec![];
    let r2 = create_new_prj(
        &"fresh".to_string(),
        &none,
        &"home".to_string(),
        &empty,
        &home(),
        &config(),
        false,
    );
    assert_eq!(r2.unwrap_err(), NewProjectError::Layout(ResolveError::Uninitialized));
}

#[test]
fn parent_detection_looks_at_the_working_directory_name() {
    assert_eq!(parent_from_pwd(&"/home/u/home.p/work.p".to_string()), Some("work.p".to_string()));
    assert_eq!(parent_from_pwd(&"/home/u/plain".to_string()), None);
    assert_eq!(parent_from_pwd(&"/home/u/notes.w".to_string()), None);
}

#[test]
fn collected_folder_names_keep_first_mentions_only() {
    let root = vec![dir(
        "home.p",
        vec![
            dir("Desktop.w", vec![]),
            dir("Music.w", vec![]),
            dir(
                "work.p",
                vec![dir("Desktop.w", vec![]), dir("Code.w", vec![])],
            ),
        ],
    )];
    let tree = get_project_tree(&root, &home(), true, false).unwrap();
    let mut names: Vec<String> = Vec::new();
    collect_folders(&mut names, &tree);
    assert_eq!(
        names,
        vec!["Desktop".to_string(), "Music".to_string(), "Code".to_string()]
    );
}

#[test]
fn initialization_paths() {
    assert_eq!(bashrc_path(&home()), "/home/u/.bashrc");
    assert_eq!(fish_config_path(&config()), "/home/u/.config/wechsel/fish/config.fish");
    assert_eq!(on_prj_change_path(&config()), "/home/u/.config/wechsel/on-prj-change");
}

#[test]
fn the_sole_project_directory_becomes_the_root_project() {
    let entries = vec![file("notes.p"), dir("old.p", vec![])];
    assert_eq!(init_root_project_path(&entries, &home()), "/home/u/old.p");
}

#[test]
fn a_richer_layout_makes_home_itself_the_root() {
    let two = vec![dir("a.p", vec![]), dir("b.p", vec![])];
    assert_eq!(init_root_project_path(&two, &home()), "/home/u");
    let with_folder = vec![dir("a.p", vec![]), dir("Desktop.w", vec![])];
    assert_eq!(init_root_project_path(&with_folder, &home()), "/home/u");
}

#[test]
fn a_plain_home_gets_a_fresh_root_directory() {
    let entries = vec![file("notes.txt"), dir("plain", vec![])];
    assert_eq!(init_root_project_path(&entries, &home()), "/home/u/home.p");
    // the suffix scan is by name ending, so a directory named just ".p"
    // counts as a project here
    let dotted = vec![dir(".p", vec![])];
    assert_eq!(init_root_project_path(&dotted, &home()), "/home/u/.p");
}

#[test]
fn legacy_config_paths() {
    assert_eq!(
        get_old_config_file_path_unchecked(&config()),
        "/home/u/.config/wechsel/wechsel_projects.json"
    );
    assert_eq!(
        get_old_config_file_path(&config(), true),
        Some("/home/u/.config/wechsel/wechsel_projects.json".to_string())
    );
    assert_eq!(get_old_config_file_path(&config(), false), None);
}

#[test]
fn legacy_config_values_carry_over() {
    let old = OldConfig {
        active: "home".to_string(),
        all_prjs: OldProject {
            name: "home".to_string(),
            path: "projects".to_string(),
            folder: vec!["Desktop".to_string()],
            children: vec![OldProject {
                name: "work".to_string(),
                path: "work".to_string(),
                folder: vec![],
                children: vec![],
            }],
        },
    };
    assert_eq!(old.active, "home");
    assert_eq!(old.all_prjs.children.len(), 1);
    assert_eq!(old.all_prjs.children[0].name, "work");
}

#[test]
fn the_command_line_dispatch() {
    let r = main_with_args(Args { command: None, project_name: Some("work".to_string()) });
    assert!(matches!(r, CliPlan::Change { project_name } if project_name == "work"));

    let r = main_with_args(Args { command: None, project_name: None });
    assert!(matches!(r, CliPlan::Usage));

    let r = main_with_args(Args {
        command: Some(Command::Change { project_name: "home".to_string() }),
        project_name: None,
    });
    assert!(matches!(r, CliPlan::Change { project_name } if project_name == "home"));

    let r = main_with_args(Args {
        command: Some(Command::Tree { folders: true }),
        project_name: None,
    });
    assert!(matches!(r, CliPlan::Tree { folders: true, then_change: None }));

    let r = main_with_args(Args {
        command: Some(Command::Init { yes: true }),
        project_name: None,
    });
    assert!(matches!(r, CliPlan::Init { yes: true }));

    let r = main_with_args(Args {
        command: Some(Command::New {
            project_name: "fresh".to_string(),
            parent: Some("home".to_string()),
            folders: None,
        }),
        project_name: None,
    });
    assert!(
        matches!(r, CliPlan::New { project_name, parent: Some(p), folders: None }
            if project_name == "fresh" && p == "home")
    );
}
