//! Shell functions that shorten the common commands.

use vstd::prelude::*;

use crate::args::{CompletionsArgs, Shell};

verus! {

pub const BASH_ALIASES: &'static str = r#"
pg() {
    cd $(p go $1)
}
px() {
    p  execute "$@"
}
pl() {
    p list
}
pc() {
    cd ~/.p/
}
pi() {
    p info
}
pf() {
    p find "$@"
}
pfg() {
    pg "$(p find -c -a 1 "$@")"
}
"#;

pub const ZSH_ALIASES: &'static str = r#"
pg() {
    cd $(p go $1)
}
px() {
    p execute "$@"
}
pl() {
    p list
}
pc() {
    cd ~/.p/
}
pi() {
    p info
}
pf() {
    p find "$@"
}
pfg() {
    pg "$(p find -c -a 1 "$@")"
}
    "#;

pub const FISH_ALIASES: &'static str = r#"
function pg
    cd (p go $argv[1])
end

function px
    p execute $argv
end

function pl
    p list
end

function pc
    cd ~/.p/
end

function pi
    p info
end

function pf
    p find $argv
end

function pfg
    pg (p find -c -a 1 $argv)
end
    "#;

pub const POWERSHELL_ALIASES: &'static str = r#"
function pg {
    Set-Location (p go $args[0])
}

function px {
    p execute @args
}

function pl {
    p list
}

function pc {
    Set-Location ~/.p/
}

function pi {
    p info
}

function pf {
    p find @args
}

function pfg {
    pg (p find -c -a 1 @args)
}
    "#;

pub const ELVISH_ALIASES: &'static str = r#"
fn pg {
    cd (p go $args[0])
}

fn px {
    p execute $args
}

fn pl {
    p list
}

fn pc {
    cd ~/.p/
}

fn pi {
    p info
}

fn pf {
    p find $args
}

fn pfg {
    pg (p find -c -a 1 $args)
}
    "#;

/// The alias script for `shell`.
pub open spec fn aliases_for(shell: Shell) -> Seq<char> {
    match shell {
        Shell::Bash => BASH_ALIASES@,
        Shell::Zsh => ZSH_ALIASES@,
        Shell::Fish => FISH_ALIASES@,
        Shell::Powershell => POWERSHELL_ALIASES@,
        Shell::Elvish => ELVISH_ALIASES@,
    }
}

/// The alias script for the shell that `alias_args` names; none where it
/// names no shell.
pub fn get_shell_aliases(alias_args: &CompletionsArgs) -> (r: Option<String>)
    ensures
        r is Some <==> alias_args.shell is Some,
        r is Some ==> r->0@ == aliases_for(alias_args.shell->0),
{
    match alias_args.shell {
        Some(Shell::Bash) => Some(String::from_str(BASH_ALIASES)),
        Some(Shell::Zsh) => Some(String::from_str(ZSH_ALIASES)),
        Some(Shell::Fish) => Some(String::from_str(FISH_ALIASES)),
        Some(Shell::Powershell) => Some(String::from_str(POWERSHELL_ALIASES)),
        Some(Shell::Elvish) => Some(String::from_str(ELVISH_ALIASES)),
        None => None,
    }
}

} // verus!
