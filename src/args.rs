//! The arguments of the commands whose decisions the library makes.

use vstd::prelude::*;

verus! {

/// A shell that the library writes aliases for.
#[derive(Clone, Copy, PartialEq, Eq, Structural, Debug)]
pub enum Shell {
    Bash,
    Zsh,
    Fish,
    Powershell,
    Elvish,
}

/// The arguments of a command run in the current project.
pub struct ExecuteArgs {
    pub arguments: Vec<String>,
}

/// The project whose path is asked for.
pub struct GoArgs {
    pub project: String,
}

/// A search among the projects.
pub struct FindArgs {
    pub project: String,
    pub compact: bool,
    pub amount: Option<usize>,
}

/// How to open an editor in the current project.
pub struct EditArgs {
    pub editor: Option<String>,
    pub detach: bool,
}

/// The shell to write completions or aliases for.
pub struct CompletionsArgs {
    pub shell: Option<Shell>,
}

} // verus!
