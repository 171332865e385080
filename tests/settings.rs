use p_versions::args::{CompletionsArgs, EditArgs, ExecuteArgs, FindArgs, GoArgs, Shell};
use p_versions::config::{default_config, get_config_directory, get_config_path, join_path, UserConfigSchema};
use p_versions::projects::{
    editor_command, execution_command, expanded_projects_dir, find_project_in_projects_directory,
    get_project_path, get_project_root, path_components, project_name_for_directory,
    select_search_results, Project,
};
use p_versions::shell::get_shell_aliases;
use p_versions::versions::VersionConfigSchema;

fn strings(xs: &[&str]) -> Vec<String> {
    xs.iter().map(|s| s.to_string()).collect()
}

fn config(projects_dir: &str, editor: Option<&str>) -> UserConfigSchema {
    UserConfigSchema {
        projects_dir: projects_dir.to_string(),
        project_management_tool: "./project".to_string(),
        version_repositories: None,
        editor: editor.map(|s| s.to_string()),
    }
}

#[test]
fn default_settings() {
    let c = default_config();
    assert_eq!(c.projects_dir, "~/Projects");
    assert_eq!(c.project_management_tool, "./project");
    assert_eq!(c.version_repositories, None);
    assert_eq!(c.editor, None);
}

#[test]
fn config_paths() {
    assert_eq!(get_config_directory("/home/u"), "/home/u/.p");
    assert_eq!(get_config_path("/home/u/.p"), "/home/u/.p/config.toml");
    assert_eq!(join_path("/a/", "b"), "/a/b");
    assert_eq!(join_path("", "b"), "b");
}

#[test]
fn tilde_expansion() {
    assert_eq!(expanded_projects_dir(&config("~/Projects", None), "/home/u"), "/home/u/Projects");
    assert_eq!(expanded_projects_dir(&config("~", None), "/home/u"), "/home/u");
    assert_eq!(expanded_projects_dir(&config("~other/x", None), "/home/u"), "~other/x");
    assert_eq!(expanded_projects_dir(&config("/srv/p", None), "/home/u"), "/srv/p");
}

#[test]
fn components_skip_empty_and_dot() {
    assert_eq!(path_components("/a//b/./c/"), strings(&["a", "b", "c"]));
    assert_eq!(path_components(""), Vec::<String>::new());
    assert_eq!(path_components("x/../y"), strings(&["x", "..", "y"]));
}

#[test]
fn project_name_under_root() {
    assert_eq!(project_name_for_directory("/home/u/Projects", "/home/u/Projects/app/src"), Some("app".to_string()));
    assert_eq!(project_name_for_directory("/home/u/Projects/", "/home/u/Projects/app"), Some("app".to_string()));
    assert_eq!(project_name_for_directory("/home/u/Projects", "/home/u/Projects"), None);
    assert_eq!(project_name_for_directory("/home/u/Projects", "/home/u/Other/app"), None);
    assert_eq!(project_name_for_directory("/home/u/Projects", "/home/u/ProjectsX/app"), None);
    assert_eq!(project_name_for_directory("/home/u/Projects", "home/u/Projects/app"), None);
}

#[test]
fn project_paths() {
    assert_eq!(get_project_root("/p", "app"), "/p/app");
    assert_eq!(get_project_path("/p", &GoArgs { project: "web".to_string() }), "/p/web");
}

#[test]
fn editor_choice() {
    let with = config("~", Some("code ."));
    let without = config("~", None);
    let args = |e: Option<&str>| EditArgs { editor: e.map(|s| s.to_string()), detach: false };
    assert_eq!(editor_command(&with, &args(Some("vim"))), Some("vim".to_string()));
    assert_eq!(editor_command(&with, &args(None)), Some("code .".to_string()));
    assert_eq!(editor_command(&without, &args(None)), None);
}

fn version(tool: Option<&str>) -> VersionConfigSchema {
    VersionConfigSchema {
        version: "V".to_string(),
        description: String::new(),
        files_needed: vec![],
        directories_needed: vec![],
        specificity: 0,
        project_management_tool: tool.map(|s| s.to_string()),
    }
}

#[test]
fn execution_uses_first_version_tool() {
    let c = config("~", None);
    let args = ExecuteArgs { arguments: strings(&["build", "--release"]) };
    let p = Project { versions: vec![version(Some("cargo")), version(Some("make"))], root: "/p/app".to_string(), name: "app".to_string() };
    let cmd = execution_command(&c, &p, &args);
    assert_eq!(cmd.program, "cargo");
    assert_eq!(cmd.arguments, strings(&["build", "--release"]));
    assert_eq!(cmd.directory, "/p/app");
    let q = Project { versions: vec![version(None), version(Some("make"))], root: "/p/b".to_string(), name: "b".to_string() };
    assert_eq!(execution_command(&c, &q, &args).program, "./project");
}

#[test]
fn search_results_are_cut_to_amount() {
    let names = strings(&["alpha", "beta", "gamma"]);
    assert_eq!(select_search_results(&names, &vec![2, 0, 1], 2), strings(&["gamma", "alpha"]));
    assert_eq!(select_search_results(&names, &vec![1], 5), strings(&["beta"]));
    assert!(select_search_results(&names, &vec![], 5).is_empty());
}

#[test]
fn find_projects_by_name() {
    let names = strings(&["website", "backend", "web-tools", "notes"]);
    let args = FindArgs { project: "website".to_string(), compact: false, amount: None };
    let r = find_project_in_projects_directory(&names, &args);
    assert_eq!(r.first().map(|s| s.as_str()), Some("website"));
    assert!(r.len() <= 5);
    let one = FindArgs { project: "web".to_string(), compact: true, amount: Some(1) };
    assert!(find_project_in_projects_directory(&names, &one).len() <= 1);
    let none = FindArgs { project: "zzzzqqq".to_string(), compact: false, amount: None };
    assert!(find_project_in_projects_directory(&names, &none).is_empty());
}

#[test]
fn aliases_per_shell() {
    let bash = get_shell_aliases(&CompletionsArgs { shell: Some(Shell::Bash) }).unwrap();
    assert!(bash.contains("pg() {"));
    assert!(bash.contains("p  execute \"$@\""));
    let fish = get_shell_aliases(&CompletionsArgs { shell: Some(Shell::Fish) }).unwrap();
    assert!(fish.contains("function pg"));
    let ps = get_shell_aliases(&CompletionsArgs { shell: Some(Shell::Powershell) }).unwrap();
    assert!(ps.contains("Set-Location"));
    let elvish = get_shell_aliases(&CompletionsArgs { shell: Some(Shell::Elvish) }).unwrap();
    assert!(elvish.contains("fn pg {"));
    let zsh = get_shell_aliases(&CompletionsArgs { shell: Some(Shell::Zsh) }).unwrap();
    assert!(zsh.contains("p execute \"$@\""));
    assert_eq!(get_shell_aliases(&CompletionsArgs { shell: None }), None);
}
