//! The user's settings and the paths of the configuration tree.

use vstd::prelude::*;

verus! {

/// The user's settings: where projects live, the default command that
/// manages a project, the external catalogs to mirror, and an editor.
pub struct UserConfigSchema {
    pub projects_dir: String,
    pub project_management_tool: String,
    pub version_repositories: Option<Vec<String>>,
    pub editor: Option<String>,
}

/// The settings written when none exist yet.
pub fn default_config() -> (r: UserConfigSchema)
    ensures
        r.projects_dir@ == "~/Projects"@,
        r.project_management_tool@ == "./project"@,
        r.version_repositories is None,
        r.editor is None,
{
    UserConfigSchema {
        projects_dir: String::from_str("~/Projects"),
        project_management_tool: String::from_str("./project"),
        version_repositories: None,
        editor: None,
    }
}

/// `name` under the directory `dir`: separated by one `/`, unless `dir`
/// already ends with one or is empty.
pub open spec fn joined(dir: Seq<char>, name: Seq<char>) -> Seq<char> {
    if dir.len() == 0 {
        name
    } else if dir.last() == '/' {
        dir + name
    } else {
        dir + seq!['/'] + name
    }
}

pub fn join_path(dir: &str, name: &str) -> (r: String)
    ensures
        r@ == joined(dir@, name@),
{
    let n = dir.unicode_len();
    if n == 0 {
        return String::from_str(name);
    }
    let mut r = String::from_str(dir);
    if dir.get_char(n - 1) != '/' {
        r.append("/");
        proof {
            reveal_strlit("/");
        }
        assert("/"@ =~= seq!['/']);
    }
    r.append(name);
    r
}

/// The configuration directory, `.p` in the user's home directory.
pub fn get_config_directory(home: &str) -> (r: String)
    ensures
        r@ == joined(home@, ".p"@),
{
    join_path(home, ".p")
}

/// The settings file in the configuration directory.
pub fn get_config_path(config_directory: &str) -> (r: String)
    ensures
        r@ == joined(config_directory@, "config.toml"@),
{
    join_path(config_directory, "config.toml")
}

} // verus!
