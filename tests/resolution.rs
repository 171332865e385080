use p_versions::versions::{
    get_directory_versions, get_versions_directory, required_paths, sample_version,
    sort_versions_by_specificity, unknown_version_config, DirectoryEntry, DirectorySnapshot,
    VersionConfigSchema,
};

fn definition(version: &str, files: &[&str], dirs: &[&str], specificity: u8) -> VersionConfigSchema {
    VersionConfigSchema {
        version: version.to_string(),
        description: format!("{} project", version),
        files_needed: files.iter().map(|s| s.to_string()).collect(),
        directories_needed: dirs.iter().map(|s| s.to_string()).collect(),
        specificity,
        project_management_tool: None,
    }
}

fn snapshot(entries: &[(&str, bool)]) -> DirectorySnapshot {
    DirectorySnapshot {
        entries: entries
            .iter()
            .map(|(p, d)| DirectoryEntry { path: p.to_string(), is_dir: *d })
            .collect(),
    }
}

fn names(vs: &[VersionConfigSchema]) -> Vec<String> {
    vs.iter().map(|v| v.version.clone()).collect()
}

#[test]
fn rust_definition_matches_cargo_and_src() {
    let catalog = vec![definition("Rust", &["Cargo.toml"], &["src"], 1)];
    let d = snapshot(&[("Cargo.toml", false), ("src", true)]);
    let r = get_directory_versions(&d, &catalog);
    assert_eq!(names(&r), vec!["Rust"]);
    assert_eq!(r[0].specificity, 1);
}

#[test]
fn rust_definition_without_src_is_unknown() {
    let catalog = vec![definition("Rust", &["Cargo.toml"], &["src"], 1)];
    let d = snapshot(&[("Cargo.toml", false)]);
    let r = get_directory_versions(&d, &catalog);
    assert_eq!(names(&r), vec!["Unknown"]);
    assert_eq!(r[0].description, "Unknown version");
    assert_eq!(r[0].specificity, 0);
    assert!(r[0].files_needed.is_empty());
    assert!(r[0].directories_needed.is_empty());
    assert_eq!(r[0].project_management_tool, None);
}

#[test]
fn needed_directory_that_is_a_file_does_not_match() {
    let catalog = vec![definition("Rust", &["Cargo.toml"], &["src"], 1)];
    let d = snapshot(&[("Cargo.toml", false), ("src", false)]);
    assert_eq!(names(&get_directory_versions(&d, &catalog)), vec!["Unknown"]);
}

#[test]
fn needed_file_may_be_a_directory() {
    let catalog = vec![definition("Dotted", &[".git"], &[], 3)];
    let d = snapshot(&[(".git", true)]);
    assert_eq!(names(&get_directory_versions(&d, &catalog)), vec!["Dotted"]);
}

#[test]
fn empty_catalog_resolves_to_unknown() {
    let d = snapshot(&[("Cargo.toml", false)]);
    let r = get_directory_versions(&d, &vec![]);
    assert_eq!(r.len(), 1);
    assert_eq!(r[0].version, "Unknown");
}

#[test]
fn resolution_is_never_empty() {
    let catalog = vec![
        definition("A", &["a"], &[], 2),
        definition("B", &[], &["b"], 7),
    ];
    for d in [snapshot(&[]), snapshot(&[("a", false)]), snapshot(&[("b", true)])] {
        assert!(!get_directory_versions(&d, &catalog).is_empty());
    }
}

#[test]
fn higher_specificity_comes_first() {
    let catalog = vec![
        definition("Generic", &[], &["src"], 2),
        definition("Narrow", &["Cargo.toml"], &["src"], 5),
    ];
    let d = snapshot(&[("Cargo.toml", false), ("src", true)]);
    assert_eq!(names(&get_directory_versions(&d, &catalog)), vec!["Narrow", "Generic"]);
}

#[test]
fn equal_specificity_keeps_catalog_order() {
    let catalog = vec![
        definition("First", &[], &[], 3),
        definition("Low", &[], &[], 1),
        definition("Second", &["x"], &[], 3),
        definition("Missing", &["y"], &[], 9),
    ];
    let d = snapshot(&[("x", false)]);
    assert_eq!(names(&get_directory_versions(&d, &catalog)), vec!["First", "Second", "Low"]);
}

#[test]
fn empty_requirements_match_everything() {
    let catalog = vec![definition("Any", &[], &[], 0)];
    assert_eq!(names(&get_directory_versions(&snapshot(&[]), &catalog)), vec!["Any"]);
}

#[test]
fn resolution_twice_gives_the_same() {
    let catalog = vec![
        definition("A", &["a"], &[], 4),
        definition("B", &[], &[], 4),
        definition("C", &[], &["c"], 200),
    ];
    let d = snapshot(&[("a", false), ("c", true)]);
    let r1 = names(&get_directory_versions(&d, &catalog));
    let r2 = names(&get_directory_versions(&d, &catalog));
    assert_eq!(r1, r2);
    assert_eq!(r1, vec!["C", "A", "B"]);
}

#[test]
fn sort_is_stable_and_descending() {
    let vs = vec![
        definition("a", &[], &[], 0),
        definition("b", &[], &[], 255),
        definition("c", &[], &[], 0),
        definition("d", &[], &[], 255),
        definition("e", &[], &[], 10),
    ];
    assert_eq!(names(&sort_versions_by_specificity(vs)), vec!["b", "d", "e", "a", "c"]);
    assert!(sort_versions_by_specificity(vec![]).is_empty());
}

#[test]
fn required_paths_lists_files_then_directories() {
    let catalog = vec![
        definition("A", &["f1", "f2"], &["d1"], 1),
        definition("B", &[], &["d2"], 1),
    ];
    assert_eq!(required_paths(&catalog), vec!["f1", "f2", "d1", "d2"]);
}

#[test]
fn sample_version_is_rust() {
    let s = sample_version();
    assert_eq!(s.version, "Rust");
    assert_eq!(s.description, "A Rust project");
    assert_eq!(s.files_needed, vec!["Cargo.toml"]);
    assert_eq!(s.directories_needed, vec!["src"]);
    assert_eq!(s.specificity, 1);
    assert_eq!(s.project_management_tool, Some("./project".to_string()));
}

#[test]
fn unknown_config_fields() {
    let u = unknown_version_config();
    assert_eq!(u.version, "Unknown");
    assert_eq!(u.specificity, 0);
}

#[test]
fn clone_keeps_every_field() {
    let mut v = definition("A", &["f"], &["d"], 9);
    v.project_management_tool = Some("make".to_string());
    let c = v.clone();
    assert_eq!(c.version, "A");
    assert_eq!(c.files_needed, vec!["f"]);
    assert_eq!(c.directories_needed, vec!["d"]);
    assert_eq!(c.specificity, 9);
    assert_eq!(c.project_management_tool, Some("make".to_string()));
}

#[test]
fn versions_directory_path() {
    assert_eq!(get_versions_directory("/home/u/.p"), "/home/u/.p/versions");
}
