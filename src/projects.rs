//! Projects: where a directory stands under the projects root, what runs in
//! a project, and the search among projects.

use vstd::prelude::*;

use crate::args::{EditArgs, ExecuteArgs, FindArgs, GoArgs};
use crate::config::{joined, join_path, UserConfigSchema};
use crate::versions::{strings_view, versions_view, VersionConfigSchema, VersionView};

verus! {

#[verifier::external_type_specification]
#[verifier::external_body]
#[verifier::reject_recursive_types(Id)]
pub struct ExSimSearch<Id>(simsearch::SimSearch<Id>) where
    Id: Eq + PartialEq + Clone + std::hash::Hash + Ord;

/// The ids that the search engine holds an entry for.
pub uninterp spec fn engine_ids(e: simsearch::SimSearch<usize>) -> Set<usize>;

/// Relies on simsearch::SimSearch::new: an engine with no entries.
#[verifier::external_body]
fn new_engine() -> (e: simsearch::SimSearch<usize>)
    ensures
        engine_ids(e) == Set::<usize>::empty(),
{
    simsearch::SimSearch::new()
}

/// Relies on simsearch::SimSearch::insert: afterwards the engine holds an
/// entry for `id`, and for every id it held before.
#[verifier::external_body]
fn engine_insert(e: &mut simsearch::SimSearch<usize>, id: usize, content: &str)
    ensures
        engine_ids(*final(e)) == engine_ids(*old(e)).insert(id),
{
    e.insert(id, content)
}

/// Relies on simsearch::SimSearch::search: the ids of matching entries, best
/// first, each once.
#[verifier::external_body]
fn engine_search(e: &simsearch::SimSearch<usize>, pattern: &str) -> (r: Vec<usize>)
    ensures
        r@.no_duplicates(),
        forall|i: int| 0 <= i < r@.len() ==> engine_ids(*e).contains(#[trigger] r@[i]),
{
    e.search(pattern)
}

/// `path` with a leading `~` replaced by `home`, where the `~` stands alone
/// or before a `/`.
pub open spec fn tilde_expanded(path: Seq<char>, home: Seq<char>) -> Seq<char> {
    if path.len() > 0 && path[0] == '~' && (path.len() == 1 || path[1] == '/') {
        home + path.drop_first()
    } else {
        path
    }
}

/// What the expansion of `path` against `home` may give: `tilde_expanded`,
/// or on targets where `\` separates paths, also the expansion of a `~`
/// before a `\`.
pub open spec fn is_home_expansion(path: Seq<char>, home: Seq<char>, r: Seq<char>) -> bool {
    r == tilde_expanded(path, home) || (path.len() > 1 && path[0] == '~' && path[1] == '\\' && r
        == home + path.drop_first())
}

/// Relies on shellexpand::tilde_with_context: a leading `~` followed by
/// nothing or by a separator is replaced by the home directory given; any
/// other input comes back unchanged.
#[verifier::external_body]
fn expand_home(path: &str, home: &str) -> (r: String)
    ensures
        is_home_expansion(path@, home@, r@),
{
    shellexpand::tilde_with_context(path, move || Some(home)).into_owned()
}

/// The projects root of `config` with its leading `~` expanded against
/// `home`.
pub fn expanded_projects_dir(config: &UserConfigSchema, home: &str) -> (r: String)
    ensures
        is_home_expansion(config.projects_dir@, home@, r@),
{
    expand_home(config.projects_dir.as_str(), home)
}

/// The pieces of `p` between its `/` separators, empty ones included:
/// `"a//b"` gives `"a"`, `""` and `"b"`.
pub open spec fn pieces(p: Seq<char>) -> Seq<Seq<char>>
    decreases p.len(),
{
    if p.len() == 0 {
        seq![seq![]]
    } else {
        let front = pieces(p.drop_last());
        if p.last() == '/' {
            front.push(seq![])
        } else {
            front.update(front.len() - 1, front.last().push(p.last()))
        }
    }
}

/// A piece that names a step of a path: neither empty nor `.`.
pub open spec fn is_component(s: Seq<char>) -> bool {
    s.len() > 0 && s != seq!['.']
}

pub open spec fn components_of(ps: Seq<Seq<char>>) -> Seq<Seq<char>>
    decreases ps.len(),
{
    if ps.len() == 0 {
        seq![]
    } else {
        let front = components_of(ps.drop_last());
        if is_component(ps.last()) {
            front.push(ps.last())
        } else {
            front
        }
    }
}

/// The steps of the path `p`, in order.
pub open spec fn components(p: Seq<char>) -> Seq<Seq<char>> {
    components_of(pieces(p))
}

pub open spec fn is_absolute(p: Seq<char>) -> bool {
    p.len() > 0 && p[0] == '/'
}

/// The project that `dir` lies in under the projects root `root`: the first
/// step of `dir` below `root`. None where `dir` is not below `root`, or is
/// `root` itself.
pub open spec fn project_name(root: Seq<char>, dir: Seq<char>) -> Option<Seq<char>> {
    let rc = components(root);
    let dc = components(dir);
    if is_absolute(root) == is_absolute(dir) && rc.len() < dc.len() && dc.take(rc.len() as int) == rc {
        Some(dc[rc.len() as int])
    } else {
        None
    }
}

fn is_component_str(s: &str) -> (r: bool)
    ensures
        r == is_component(s@),
{
    let n = s.unicode_len();
    if n == 0 {
        return false;
    }
    if n == 1 && s.get_char(0) == '.' {
        assert(s@ =~= seq!['.']);
        return false;
    }
    assert(s@ != seq!['.']) by {
        if n == 1 {
            assert(s@[0] != seq!['.'][0]);
        }
    }
    true
}

/// The steps of the path `p`, in order.
pub fn path_components(p: &str) -> (r: Vec<String>)
    ensures
        strings_view(r@) == components(p@),
{
    let n = p.unicode_len();
    let mut out: Vec<String> = Vec::new();
    let mut start: usize = 0;
    let mut i: usize = 0;
    proof {
        assert(p@.take(0) =~= Seq::<char>::empty());
        assert(pieces(p@.take(0)).drop_last() =~= Seq::<Seq<char>>::empty());
        assert(p@.subrange(0, 0) =~= Seq::<char>::empty());
    }
    while i < n
        invariant
            n == p@.len(),
            start <= i <= n,
            pieces(p@.take(i as int)).len() >= 1,
            pieces(p@.take(i as int)).last() == p@.subrange(start as int, i as int),
            strings_view(out@) == components_of(pieces(p@.take(i as int)).drop_last()),
        decreases n - i,
    {
        let ghost prev = pieces(p@.take(i as int));
        assert(p@.take(i + 1).drop_last() =~= p@.take(i as int));
        assert(p@.take(i + 1).last() == p@[i as int]);
        if p.get_char(i) == '/' {
            let piece = p.substring_char(start, i);
            assert(pieces(p@.take(i + 1)) == prev.push(seq![]));
            assert(pieces(p@.take(i + 1)).drop_last() =~= prev);
            if is_component_str(piece) {
                let ghost before = out@;
                out.push(String::from_str(piece));
                assert(strings_view(out@) =~= strings_view(before).push(piece@));
            }
            start = i + 1;
            assert(p@.subrange(start as int, i + 1) =~= Seq::<char>::empty());
        } else {
            assert(pieces(p@.take(i + 1)).drop_last() =~= prev.drop_last());
            assert(p@.subrange(start as int, i + 1) =~= p@.subrange(start as int, i as int).push(p@[i as int]));
        }
        i += 1;
    }
    assert(p@.take(n as int) =~= p@);
    let piece = p.substring_char(start, n);
    let ghost all = pieces(p@);
    assert(all == all.drop_last().push(all.last()));
    if is_component_str(piece) {
        let ghost before = out@;
        out.push(String::from_str(piece));
        assert(strings_view(out@) =~= strings_view(before).push(piece@));
    }
    out
}

fn strings_equal_prefix(a: &Vec<String>, b: &Vec<String>) -> (r: bool)
    requires
        a@.len() <= b@.len(),
    ensures
        r == (strings_view(b@).take(a@.len() as int) == strings_view(a@)),
{
    let mut i: usize = 0;
    while i < a.len()
        invariant
            i <= a@.len() <= b@.len(),
            forall|j: int| 0 <= j < i ==> (#[trigger] a@[j])@ == b@[j]@,
        decreases a@.len() - i,
    {
        if !(a[i] == b[i]) {
            assert(strings_view(b@).take(a@.len() as int)[i as int] != strings_view(a@)[i as int]);
            return false;
        }
        i += 1;
    }
    assert(strings_view(b@).take(a@.len() as int) =~= strings_view(a@));
    true
}

fn starts_with_slash(p: &str) -> (r: bool)
    ensures
        r == is_absolute(p@),
{
    p.unicode_len() > 0 && p.get_char(0) == '/'
}

/// The project that `directory` lies in, under the expanded projects root
/// `projects_dir`.
pub fn project_name_for_directory(projects_dir: &str, directory: &str) -> (r: Option<String>)
    ensures
        r is Some <==> project_name(projects_dir@, directory@) is Some,
        r is Some ==> r->0@ == project_name(projects_dir@, directory@)->0,
{
    let rc = path_components(projects_dir);
    let dc = path_components(directory);
    if starts_with_slash(projects_dir) != starts_with_slash(directory) || rc.len() >= dc.len() {
        return None;
    }
    if !strings_equal_prefix(&rc, &dc) {
        return None;
    }
    Some(dc[rc.len()].clone())
}

/// The directory of the project `name` under the expanded projects root.
pub fn get_project_root(projects_dir: &str, name: &str) -> (r: String)
    ensures
        r@ == joined(projects_dir@, name@),
{
    join_path(projects_dir, name)
}

/// The path of the project that `go_args` names, under the expanded
/// projects root; whether it exists is for the caller to find out.
pub fn get_project_path(projects_dir: &str, go_args: &GoArgs) -> (r: String)
    ensures
        r@ == joined(projects_dir@, go_args.project@),
{
    join_path(projects_dir, go_args.project.as_str())
}

/// A project: its directory, its name, and how that directory resolved.
pub struct Project {
    pub versions: Vec<VersionConfigSchema>,
    pub root: String,
    pub name: String,
}

/// The command that manages a project whose resolution is `versions`: that
/// of the first version where it names one, else `default`.
pub open spec fn management_tool(versions: Seq<VersionView>, default: Seq<char>) -> Seq<char> {
    if versions.len() > 0 && versions[0].project_management_tool is Some {
        versions[0].project_management_tool->0
    } else {
        default
    }
}

/// A command to run: the program, its arguments, and the directory it runs
/// in.
pub struct ProjectCommand {
    pub program: String,
    pub arguments: Vec<String>,
    pub directory: String,
}

/// The command that `execute_args` asks to run in `project`: the project's
/// management tool, in the project's directory.
pub fn execution_command(config: &UserConfigSchema, project: &Project, execute_args: &ExecuteArgs) -> (r: ProjectCommand)
    ensures
        r.program@ == management_tool(versions_view(project.versions@), config.project_management_tool@),
        strings_view(r.arguments@) == strings_view(execute_args.arguments@),
        r.directory@ == project.root@,
{
    let ghost vs = versions_view(project.versions@);
    let program = if project.versions.len() > 0 {
        assert(vs[0] == project.versions@[0]@);
        match &project.versions[0].project_management_tool {
            Some(tool) => tool.clone(),
            None => config.project_management_tool.clone(),
        }
    } else {
        config.project_management_tool.clone()
    };
    let arguments = execute_args.arguments.clone();
    assert(arguments@ =~= execute_args.arguments@);
    ProjectCommand { program, arguments, directory: project.root.clone() }
}

/// The editor to open: the one `edit_args` names, else that of the
/// settings; none where neither names one.
pub fn editor_command(config: &UserConfigSchema, edit_args: &EditArgs) -> (r: Option<String>)
    ensures
        r is Some <==> (edit_args.editor is Some || config.editor is Some),
        edit_args.editor is Some ==> r == edit_args.editor,
        edit_args.editor is None ==> r == config.editor,
{
    match &edit_args.editor {
        Some(e) => Some(e.clone()),
        None => match &config.editor {
            Some(e) => Some(e.clone()),
            None => None,
        },
    }
}

/// How many results a search shows where `amount` does not say.
pub const DEFAULT_FIND_AMOUNT: usize = 5;

pub open spec fn find_amount(args: FindArgs) -> nat {
    match args.amount {
        Some(a) => a as nat,
        None => DEFAULT_FIND_AMOUNT as nat,
    }
}

/// The names that the search hits `hits` point at, best first, at most
/// `amount` of them.
pub open spec fn hit_names(names: Seq<Seq<char>>, hits: Seq<usize>, amount: nat) -> Seq<Seq<char>> {
    let shown = if amount < hits.len() { amount as int } else { hits.len() as int };
    hits.take(shown).map_values(|i: usize| names[i as int])
}

/// The names that the search hits `hits` point at, best first, at most
/// `amount` of them.
pub fn select_search_results(names: &Vec<String>, hits: &Vec<usize>, amount: usize) -> (r: Vec<String>)
    requires
        forall|i: int| 0 <= i < hits@.len() ==> #[trigger] hits@[i] < names@.len(),
    ensures
        strings_view(r@) == hit_names(strings_view(names@), hits@, amount as nat),
{
    let shown = if amount < hits.len() { amount } else { hits.len() };
    let mut out: Vec<String> = Vec::new();
    let mut i: usize = 0;
    while i < shown
        invariant
            shown <= hits@.len(),
            i <= shown,
            forall|k: int| 0 <= k < hits@.len() ==> #[trigger] hits@[k] < names@.len(),
            strings_view(out@) == hits@.take(i as int).map_values(|k: usize| strings_view(names@)[k as int]),
        decreases shown - i,
    {
        let ghost before = out@;
        out.push(names[hits[i]].clone());
        assert(strings_view(out@) =~= strings_view(before).push(names@[hits@[i as int] as int]@));
        assert(hits@.take(i + 1).map_values(|k: usize| strings_view(names@)[k as int])
            =~= hits@.take(i as int).map_values(|k: usize| strings_view(names@)[k as int]).push(names@[hits@[i as int] as int]@));
        i += 1;
    }
    out
}

/// The projects among `project_names` that the search for
/// `command_config.project` finds, best first, at most the amount asked
/// for: the names behind some list of distinct search hits.
pub fn find_project_in_projects_directory(project_names: &Vec<String>, command_config: &FindArgs) -> (r: Vec<String>)
    ensures
        exists|hits: Seq<usize>|
            #![trigger hit_names(strings_view(project_names@), hits, find_amount(*command_config))]
            hits.no_duplicates() && (forall|i: int| 0 <= i < hits.len() ==> #[trigger] hits[i] < project_names@.len())
                && strings_view(r@) == hit_names(strings_view(project_names@), hits, find_amount(*command_config)),
{
    let mut engine = new_engine();
    let mut i: usize = 0;
    while i < project_names.len()
        invariant
            i <= project_names@.len(),
            engine_ids(engine) == Set::new(|k: usize| k < i),
        decreases project_names@.len() - i,
    {
        engine_insert(&mut engine, i, project_names[i].as_str());
        assert(Set::new(|k: usize| k < i).insert(i) =~= Set::new(|k: usize| k < i + 1));
        i += 1;
    }
    let hits = engine_search(&engine, command_config.project.as_str());
    let amount = match command_config.amount {
        Some(a) => a,
        None => DEFAULT_FIND_AMOUNT,
    };
    assert forall|k: int| 0 <= k < hits@.len() implies #[trigger] hits@[k] < project_names@.len() by {
        assert(engine_ids(engine).contains(hits@[k]));
    }
    let r = select_search_results(project_names, &hits, amount);
    assert(amount as nat == find_amount(*command_config));
    assert(strings_view(r@) == hit_names(strings_view(project_names@), hits@, find_amount(*command_config)));
    r
}

} // verus!
