use std::collections::BTreeSet;

use p_versions::config::UserConfigSchema;
use p_versions::repositories::{
    add_repository_url_to_config, catalog_files, get_mirror_name, get_mirror_versions_directory,
    get_repositories_configs, get_repositories_directory, is_definition_file_name,
    plan_repository_sync, remove_repository_url_from_config, MirrorListing, SyncStep,
};

fn strings(xs: &[&str]) -> Vec<String> {
    xs.iter().map(|s| s.to_string()).collect()
}

fn apply(mirrors: &mut BTreeSet<String>, steps: &[SyncStep]) {
    for s in steps {
        match s {
            SyncStep::CloneMirror { name, .. } => {
                mirrors.insert(name.clone());
            }
            SyncStep::RefreshMirror { .. } => {}
            SyncStep::RemoveMirror { name } => {
                mirrors.remove(name);
            }
        }
    }
}

fn config(repos: Option<Vec<String>>) -> UserConfigSchema {
    UserConfigSchema {
        projects_dir: "~/Projects".to_string(),
        project_management_tool: "./project".to_string(),
        version_repositories: repos,
        editor: Some("vim".to_string()),
    }
}

#[test]
fn mirror_name_strips_git_suffix() {
    assert_eq!(get_mirror_name("https://github.com/user/defs.git"), "defs");
    assert_eq!(get_mirror_name("https://github.com/user/defs"), "defs");
    assert_eq!(get_mirror_name("git@github.com:user/more.git"), "more");
    assert_eq!(get_mirror_name("plain"), "plain");
    assert_eq!(get_mirror_name("https://host/x.git.git"), "x.git");
    assert_eq!(get_mirror_name("https://host/a.gitx"), "a.gitx");
    assert_eq!(get_mirror_name("https://host/dir/"), "");
    assert_eq!(get_mirror_name(".git"), "");
}

#[test]
fn first_sync_clones_each_source() {
    let urls = strings(&["https://h/a.git", "https://h/b"]);
    let steps = plan_repository_sync(&urls, &vec![]);
    assert_eq!(steps.len(), 2);
    match &steps[0] {
        SyncStep::CloneMirror { url, name } => {
            assert_eq!(url, "https://h/a.git");
            assert_eq!(name, "a");
        }
        _ => panic!("expected a clone"),
    }
    match &steps[1] {
        SyncStep::CloneMirror { url, name } => {
            assert_eq!(url, "https://h/b");
            assert_eq!(name, "b");
        }
        _ => panic!("expected a clone"),
    }
}

#[test]
fn second_sync_refreshes_only() {
    let urls = strings(&["https://h/a.git", "https://h/b.git"]);
    let mut mirrors = BTreeSet::new();
    mirrors.insert("stale".to_string());
    let first = plan_repository_sync(&urls, &mirrors.iter().cloned().collect());
    apply(&mut mirrors, &first);
    assert_eq!(mirrors.iter().cloned().collect::<Vec<_>>(), strings(&["a", "b"]));
    let second = plan_repository_sync(&urls, &mirrors.iter().cloned().collect());
    assert_eq!(second.len(), 2);
    for (step, expected) in second.iter().zip(["a", "b"]) {
        match step {
            SyncStep::RefreshMirror { name } => assert_eq!(name, expected),
            _ => panic!("expected a refresh"),
        }
    }
    apply(&mut mirrors, &second);
    assert_eq!(mirrors.iter().cloned().collect::<Vec<_>>(), strings(&["a", "b"]));
}

#[test]
fn sync_without_sources_removes_every_mirror() {
    let existing = strings(&["x", "y", "z"]);
    let steps = plan_repository_sync(&vec![], &existing);
    assert_eq!(steps.len(), 3);
    let mut mirrors: BTreeSet<String> = existing.iter().cloned().collect();
    apply(&mut mirrors, &steps);
    assert!(mirrors.is_empty());
}

#[test]
fn dropped_source_is_removed() {
    let mut mirrors = BTreeSet::new();
    let first = plan_repository_sync(&strings(&["https://h/a.git"]), &vec![]);
    apply(&mut mirrors, &first);
    assert!(mirrors.contains("a"));
    let second = plan_repository_sync(&vec![], &mirrors.iter().cloned().collect());
    match &second[..] {
        [SyncStep::RemoveMirror { name }] => assert_eq!(name, "a"),
        _ => panic!("expected one removal"),
    }
    apply(&mut mirrors, &second);
    assert!(!mirrors.contains("a"));
}

#[test]
fn two_sources_with_one_name_clone_once() {
    let urls = strings(&["https://h/a.git", "https://other/a"]);
    let steps = plan_repository_sync(&urls, &vec![]);
    assert!(matches!(&steps[0], SyncStep::CloneMirror { .. }));
    assert!(matches!(&steps[1], SyncStep::RefreshMirror { name } if name == "a"));
}

#[test]
fn unlisted_entries_removed_after_sources() {
    let urls = strings(&["https://h/keep.git"]);
    let steps = plan_repository_sync(&urls, &strings(&["old", "keep"]));
    assert_eq!(steps.len(), 2);
    assert!(matches!(&steps[0], SyncStep::RefreshMirror { name } if name == "keep"));
    assert!(matches!(&steps[1], SyncStep::RemoveMirror { name } if name == "old"));
}

#[test]
fn add_url_starts_and_extends_list() {
    let mut c = config(None);
    add_repository_url_to_config(&mut c, "https://h/a.git");
    assert_eq!(c.version_repositories, Some(strings(&["https://h/a.git"])));
    add_repository_url_to_config(&mut c, "https://h/b.git");
    assert_eq!(c.version_repositories, Some(strings(&["https://h/a.git", "https://h/b.git"])));
    assert_eq!(c.projects_dir, "~/Projects");
    assert_eq!(c.editor, Some("vim".to_string()));
}

#[test]
fn remove_url_takes_every_occurrence() {
    let mut c = config(Some(strings(&["u1", "u2", "u1", "u3"])));
    remove_repository_url_from_config(&mut c, "u1");
    assert_eq!(c.version_repositories, Some(strings(&["u2", "u3"])));
    remove_repository_url_from_config(&mut c, "absent");
    assert_eq!(c.version_repositories, Some(strings(&["u2", "u3"])));
    let mut none = config(None);
    remove_repository_url_from_config(&mut none, "u1");
    assert_eq!(none.version_repositories, None);
}

#[test]
fn definition_file_names() {
    assert!(is_definition_file_name("rust.toml"));
    assert!(!is_definition_file_name(".toml"));
    assert!(!is_definition_file_name("rust.tom"));
    assert!(!is_definition_file_name("README"));
    assert!(!is_definition_file_name("rust.toml.bak"));
}

#[test]
fn repository_paths() {
    assert_eq!(get_repositories_directory("/h/.p"), "/h/.p/external_versions");
    assert_eq!(get_mirror_versions_directory("/h/.p/external_versions", "a"), "/h/.p/external_versions/a/versions");
}

#[test]
fn mirror_without_definitions_contributes_none() {
    let listings = vec![
        MirrorListing { name: "a".to_string(), files: None },
        MirrorListing { name: "b".to_string(), files: Some(strings(&["x.toml", "notes.md"])) },
    ];
    assert_eq!(get_repositories_configs("/r", &listings), strings(&["/r/b/versions/x.toml"]));
}

#[test]
fn catalog_files_local_first_then_sources_in_order() {
    let listings = vec![
        MirrorListing { name: "z".to_string(), files: Some(strings(&["z1.toml"])) },
        MirrorListing { name: "a".to_string(), files: Some(strings(&["a1.toml", "a2.toml"])) },
    ];
    let r = catalog_files("/c/versions", &strings(&["local.toml", "skip.txt"]), "/c/ext", &listings);
    assert_eq!(
        r,
        strings(&["/c/versions/local.toml", "/c/ext/z/versions/z1.toml", "/c/ext/a/versions/a1.toml", "/c/ext/a/versions/a2.toml"])
    );
}
