use wechsel::utils::{
    ends_with, extension_of, file_stem, get_config_dir, get_home_folder_paths,
    is_entry_folder_with_extension, last_component, path_from_iter, path_push,
    query_active_project, str_eq, with_extension,
};

#[test]
fn file_stem_strips_the_last_extension() {
    assert_eq!(file_stem("work.p"), "work");
    assert_eq!(file_stem("archive.tar.gz"), "archive.tar");
    assert_eq!(file_stem("plain"), "plain");
    assert_eq!(file_stem(".hidden"), ".hidden");
    assert_eq!(file_stem("trailing."), "trailing");
    assert_eq!(file_stem(""), "");
}

#[test]
fn extension_of_names() {
    assert_eq!(extension_of("work.p"), Some("p".to_string()));
    assert_eq!(extension_of("archive.tar.gz"), Some("gz".to_string()));
    assert_eq!(extension_of("plain"), None);
    assert_eq!(extension_of(".hidden"), None);
    assert_eq!(extension_of("trailing."), Some("".to_string()));
}

#[test]
fn with_extension_replaces_the_extension() {
    assert_eq!(with_extension("work", "p"), "work.p");
    assert_eq!(with_extension("work.old", "p"), "work.p");
    assert_eq!(with_extension("Desktop", "w"), "Desktop.w");
    assert_eq!(with_extension(".hidden", "w"), ".hidden.w");
}

#[test]
fn path_push_attaches_components() {
    assert_eq!(path_push("/home/u", "work.p"), "/home/u/work.p");
    assert_eq!(path_push("/", "work.p"), "/work.p");
    assert_eq!(path_push("", "work.p"), "work.p");
    assert_eq!(path_push("/home/u", "/abs"), "/abs");
    assert_eq!(path_push("/home/u", "a/b"), "/home/u/a/b");
}

#[test]
fn path_from_iter_folds_parts() {
    let parts = vec!["/home/u".to_string(), "home.p".to_string(), "work.p".to_string()];
    assert_eq!(path_from_iter(&parts), "/home/u/home.p/work.p");
    let empty: Vec<String> = vec![];
    assert_eq!(path_from_iter(&empty), "");
}

#[test]
fn last_component_of_paths() {
    assert_eq!(last_component("/home/u/work.p"), "work.p");
    assert_eq!(last_component("work.p"), "work.p");
    assert_eq!(last_component("/"), "");
}

#[test]
fn string_helpers() {
    assert!(str_eq("abc", "abc"));
    assert!(!str_eq("abc", "abd"));
    assert!(!str_eq("abc", "ab"));
    assert!(ends_with("home.p", ".p"));
    assert!(!ends_with("home.w", ".p"));
    assert!(!ends_with("p", ".p"));
}

#[test]
fn entry_classification_needs_directory_and_extension() {
    assert!(is_entry_folder_with_extension("work.p", true, "p"));
    assert!(!is_entry_folder_with_extension("work.p", false, "p"));
    assert!(!is_entry_folder_with_extension("work.w", true, "p"));
    assert!(!is_entry_folder_with_extension("work", true, "p"));
    assert!(!is_entry_folder_with_extension(".p", true, "p"));
}

#[test]
fn active_project_comes_from_the_link_target() {
    assert_eq!(
        query_active_project(Some("/home/u/home.p/work.p".to_string())),
        Some("work".to_string())
    );
    assert_eq!(query_active_project(Some("home.p".to_string())), Some("home".to_string()));
    assert_eq!(query_active_project(None), None);
}

#[test]
fn config_dir_ends_in_the_tool_directory() {
    if let Some(p) = get_config_dir() {
        assert!(p.ends_with("wechsel"));
    }
}

#[test]
fn home_folder_paths_keep_the_fixed_name_order() {
    let known = ["Desktop", "Downloads", "Documents", "Pictures", "Videos", "Music"];
    let pairs = get_home_folder_paths();
    assert!(pairs.len() <= 6);
    let mut last_rank = None;
    for (name, _) in &pairs {
        let rank = known.iter().position(|k| k == name).expect("unknown folder name");
        if let Some(prev) = last_rank {
            assert!(prev < rank);
        }
        last_rank = Some(rank);
    }
}
