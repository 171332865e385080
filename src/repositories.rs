//! External catalogs: the local mirror of each configured source, and the
//! plan that brings the set of mirrors into agreement with the configuration.

use vstd::prelude::*;

use crate::config::{joined, join_path, UserConfigSchema};
use crate::versions::{clone_strings, strings_view};

verus! {

/// What follows the last `/` of `url`: all of it where it has none.
pub open spec fn last_segment(url: Seq<char>) -> Seq<char>
    decreases url.len(),
{
    if url.len() == 0 {
        seq![]
    } else if url.last() == '/' {
        seq![]
    } else {
        last_segment(url.drop_last()).push(url.last())
    }
}

pub open spec fn git_suffix() -> Seq<char> {
    seq!['.', 'g', 'i', 't']
}

/// `s` without a trailing `.git`.
pub open spec fn without_git_suffix(s: Seq<char>) -> Seq<char> {
    if s.len() >= 4 && s.subrange(s.len() - 4, s.len() as int) == git_suffix() {
        s.subrange(0, s.len() - 4)
    } else {
        s
    }
}

/// The name of the local mirror of the catalog at `url`: the last segment
/// of the URL, without a trailing `.git`.
pub open spec fn mirror_name(url: Seq<char>) -> Seq<char> {
    without_git_suffix(last_segment(url))
}

pub fn get_mirror_name(url: &str) -> (r: String)
    ensures
        r@ == mirror_name(url@),
{
    let n = url.unicode_len();
    let mut start: usize = 0;
    let mut i: usize = 0;
    while i < n
        invariant
            n == url@.len(),
            start <= i <= n,
            url@.subrange(start as int, i as int) == last_segment(url@.take(i as int)),
        decreases n - i,
    {
        assert(url@.take(i + 1).drop_last() =~= url@.take(i as int));
        if url.get_char(i) == '/' {
            start = i + 1;
            assert(url@.subrange(start as int, i + 1) =~= seq![]);
        } else {
            assert(url@.subrange(start as int, i + 1) =~= url@.subrange(start as int, i as int).push(url@[i as int]));
        }
        i += 1;
    }
    assert(url@.take(n as int) =~= url@);
    let ghost seg = url@.subrange(start as int, n as int);
    if n - start >= 4 && url.get_char(n - 4) == '.' && url.get_char(n - 3) == 'g'
        && url.get_char(n - 2) == 'i' && url.get_char(n - 1) == 't' {
        assert(seg.subrange(seg.len() - 4, seg.len() as int) =~= git_suffix());
        assert(seg.subrange(0, seg.len() - 4) =~= url@.subrange(start as int, n - 4));
        String::from_str(url.substring_char(start, n - 4))
    } else {
        assert(!(seg.len() >= 4 && seg.subrange(seg.len() - 4, seg.len() as int) == git_suffix())) by {
            if seg.len() >= 4 && seg.subrange(seg.len() - 4, seg.len() as int) == git_suffix() {
                assert(seg.subrange(seg.len() - 4, seg.len() as int)[0] == url@[n - 4]);
                assert(seg.subrange(seg.len() - 4, seg.len() as int)[1] == url@[n - 3]);
                assert(seg.subrange(seg.len() - 4, seg.len() as int)[2] == url@[n - 2]);
                assert(seg.subrange(seg.len() - 4, seg.len() as int)[3] == url@[n - 1]);
            }
        }
        String::from_str(url.substring_char(start, n))
    }
}

/// One step of a sync pass over the mirror root.
pub enum SyncStep {
    /// Clone the catalog at `url` into a new mirror named `name`.
    CloneMirror { url: String, name: String },
    /// Discard local changes in the mirror, pull, and hard-reset it.
    RefreshMirror { name: String },
    /// Delete the mirror recursively.
    RemoveMirror { name: String },
}

pub enum StepView {
    CloneMirror { url: Seq<char>, name: Seq<char> },
    RefreshMirror { name: Seq<char> },
    RemoveMirror { name: Seq<char> },
}

impl View for SyncStep {
    type V = StepView;

    open spec fn view(&self) -> StepView {
        match self {
            SyncStep::CloneMirror { url, name } => StepView::CloneMirror { url: url@, name: name@ },
            SyncStep::RefreshMirror { name } => StepView::RefreshMirror { name: name@ },
            SyncStep::RemoveMirror { name } => StepView::RemoveMirror { name: name@ },
        }
    }
}

pub open spec fn steps_view(s: Seq<SyncStep>) -> Seq<StepView> {
    s.map_values(|x: SyncStep| x@)
}

/// The mirror name of each source, in order.
pub open spec fn mirror_names(urls: Seq<Seq<char>>) -> Seq<Seq<char>> {
    urls.map_values(|u: Seq<char>| mirror_name(u))
}

/// The steps for the sources `urls`, taken in order, where the mirrors
/// `present` exist before the first: a source whose mirror exists by then
/// is refreshed, any other is cloned.
pub open spec fn source_steps(urls: Seq<Seq<char>>, present: Set<Seq<char>>) -> Seq<StepView>
    decreases urls.len(),
{
    if urls.len() == 0 {
        seq![]
    } else {
        let prior = urls.drop_last();
        let name = mirror_name(urls.last());
        let step = if present.union(mirror_names(prior).to_set()).contains(name) {
            StepView::RefreshMirror { name }
        } else {
            StepView::CloneMirror { url: urls.last(), name }
        };
        source_steps(prior, present).push(step)
    }
}

/// A removal of each entry of `existing` that `keep` does not hold, in
/// listing order.
pub open spec fn removal_steps(existing: Seq<Seq<char>>, keep: Set<Seq<char>>) -> Seq<StepView>
    decreases existing.len(),
{
    if existing.len() == 0 {
        seq![]
    } else {
        let front = removal_steps(existing.drop_last(), keep);
        if keep.contains(existing.last()) {
            front
        } else {
            front.push(StepView::RemoveMirror { name: existing.last() })
        }
    }
}

/// A sync pass over a mirror root that lists `existing`: each source in
/// order, then the removal of every entry that no source names.
pub open spec fn sync_plan(urls: Seq<Seq<char>>, existing: Seq<Seq<char>>) -> Seq<StepView> {
    source_steps(urls, existing.to_set()) + removal_steps(existing, mirror_names(urls).to_set())
}

/// The mirrors that exist after `step`, where `mirrors` existed before it.
pub open spec fn after_step(mirrors: Set<Seq<char>>, step: StepView) -> Set<Seq<char>> {
    match step {
        StepView::CloneMirror { url, name } => mirrors.insert(name),
        StepView::RefreshMirror { name } => mirrors,
        StepView::RemoveMirror { name } => mirrors.remove(name),
    }
}

/// The mirrors that exist after `steps` have all been carried out.
pub open spec fn after_steps(mirrors: Set<Seq<char>>, steps: Seq<StepView>) -> Set<Seq<char>>
    decreases steps.len(),
{
    if steps.len() == 0 {
        mirrors
    } else {
        after_step(after_steps(mirrors, steps.drop_last()), steps.last())
    }
}

fn contains_string(v: &Vec<String>, s: &String) -> (r: bool)
    ensures
        r == strings_view(v@).contains(s@),
{
    let mut i: usize = 0;
    while i < v.len()
        invariant
            i <= v@.len(),
            forall|j: int| 0 <= j < i ==> (#[trigger] v@[j])@ != s@,
        decreases v@.len() - i,
    {
        if v[i] == *s {
            assert(strings_view(v@)[i as int] == s@);
            return true;
        }
        i += 1;
    }
    assert forall|j: int| 0 <= j < strings_view(v@).len() implies strings_view(v@)[j] != s@ by {
        assert(strings_view(v@)[j] == v@[j]@);
    }
    false
}

/// The steps of a sync pass over a mirror root whose entries are
/// `existing`, for the configured sources `urls`: clone or refresh each
/// source in order, then remove every entry that no source names.
pub fn plan_repository_sync(urls: &Vec<String>, existing: &Vec<String>) -> (r: Vec<SyncStep>)
    ensures
        steps_view(r@) == sync_plan(strings_view(urls@), strings_view(existing@)),
{
    let ghost us = strings_view(urls@);
    let ghost ex = strings_view(existing@);
    let mut steps: Vec<SyncStep> = Vec::new();
    let mut names: Vec<String> = Vec::new();
    let mut i: usize = 0;
    while i < urls.len()
        invariant
            i <= urls@.len(),
            us == strings_view(urls@),
            ex == strings_view(existing@),
            strings_view(names@) == mirror_names(us.take(i as int)),
            steps_view(steps@) == source_steps(us.take(i as int), ex.to_set()),
        decreases urls@.len() - i,
    {
        assert(us.take(i + 1).drop_last() =~= us.take(i as int));
        assert(us.take(i + 1).last() == urls@[i as int]@);
        let name = get_mirror_name(urls[i].as_str());
        let seen = contains_string(existing, &name) || contains_string(&names, &name);
        let ghost before = steps@;
        let ghost present = ex.to_set().union(mirror_names(us.take(i as int)).to_set());
        assert(present.contains(name@) == seen);
        let step = if seen {
            SyncStep::RefreshMirror { name: name.clone() }
        } else {
            SyncStep::CloneMirror { url: urls[i].clone(), name: name.clone() }
        };
        steps.push(step);
        assert(steps_view(steps@) =~= steps_view(before).push(step@));
        let ghost names_before = names@;
        names.push(name);
        assert(strings_view(names@) =~= strings_view(names_before).push(mirror_name(us[i as int])));
        assert(mirror_names(us.take(i + 1)) =~= mirror_names(us.take(i as int)).push(mirror_name(us[i as int])));
        i += 1;
    }
    assert(us.take(urls@.len() as int) =~= us);
    let ghost sources = steps@;
    let mut j: usize = 0;
    while j < existing.len()
        invariant
            j <= existing@.len(),
            ex == strings_view(existing@),
            strings_view(names@) == mirror_names(us),
            steps_view(steps@) == steps_view(sources) + removal_steps(ex.take(j as int), mirror_names(us).to_set()),
        decreases existing@.len() - j,
    {
        assert(ex.take(j + 1).drop_last() =~= ex.take(j as int));
        if !contains_string(&names, &existing[j]) {
            let ghost before = steps@;
            let step = SyncStep::RemoveMirror { name: existing[j].clone() };
            steps.push(step);
            assert(steps_view(steps@) =~= steps_view(before).push(step@));
        }
        j += 1;
    }
    assert(ex.take(existing@.len() as int) =~= ex);
    steps
}

proof fn after_steps_push(mirrors: Set<Seq<char>>, steps: Seq<StepView>, step: StepView)
    ensures
        after_steps(mirrors, steps.push(step)) == after_step(after_steps(mirrors, steps), step),
{
    assert(steps.push(step).drop_last() =~= steps);
}

proof fn after_steps_concat(mirrors: Set<Seq<char>>, a: Seq<StepView>, b: Seq<StepView>)
    ensures
        after_steps(mirrors, a + b) == after_steps(after_steps(mirrors, a), b),
    decreases b.len(),
{
    if b.len() == 0 {
        assert(a + b =~= a);
    } else {
        assert((a + b).drop_last() =~= a + b.drop_last());
        after_steps_concat(mirrors, a, b.drop_last());
    }
}

proof fn mirror_names_push(urls: Seq<Seq<char>>)
    requires
        urls.len() > 0,
    ensures
        mirror_names(urls) == mirror_names(urls.drop_last()).push(mirror_name(urls.last())),
        mirror_names(urls).to_set() == mirror_names(urls.drop_last()).to_set().insert(mirror_name(urls.last())),
{
    assert(mirror_names(urls) =~= mirror_names(urls.drop_last()).push(mirror_name(urls.last())));
    let front = mirror_names(urls.drop_last());
    assert(front.push(mirror_name(urls.last())).to_set() =~= front.to_set().insert(mirror_name(urls.last()))) by {
        assert forall|x: Seq<char>| front.push(mirror_name(urls.last())).contains(x) implies front.contains(x) || x == mirror_name(urls.last()) by {
            let k = choose|k: int| 0 <= k < front.len() + 1 && front.push(mirror_name(urls.last()))[k] == x;
            if k < front.len() {
                assert(front[k] == x);
            }
        }
        assert forall|x: Seq<char>| front.contains(x) implies front.push(mirror_name(urls.last())).contains(x) by {
            let k = choose|k: int| 0 <= k < front.len() && front[k] == x;
            assert(front.push(mirror_name(urls.last()))[k] == x);
        }
        assert(front.push(mirror_name(urls.last()))[front.len() as int] == mirror_name(urls.last()));
    }
}

/// Cloning and refreshing the sources adds their mirrors to those present.
proof fn source_steps_effect(urls: Seq<Seq<char>>, present: Set<Seq<char>>)
    ensures
        after_steps(present, source_steps(urls, present)) == present.union(mirror_names(urls).to_set()),
    decreases urls.len(),
{
    if urls.len() == 0 {
        assert(present.union(mirror_names(urls).to_set()) =~= present);
    } else {
        let prior = urls.drop_last();
        source_steps_effect(prior, present);
        mirror_names_push(urls);
        let name = mirror_name(urls.last());
        let step = source_steps(urls, present).last();
        assert(source_steps(urls, present) == source_steps(prior, present).push(step));
        after_steps_push(present, source_steps(prior, present), step);
        assert(present.union(mirror_names(urls).to_set()) =~= present.union(mirror_names(prior).to_set()).insert(name));
    }
}

/// Removing what `keep` does not hold takes exactly those entries of
/// `existing` away.
proof fn removal_steps_effect(mirrors: Set<Seq<char>>, existing: Seq<Seq<char>>, keep: Set<Seq<char>>)
    ensures
        after_steps(mirrors, removal_steps(existing, keep)) == mirrors.difference(existing.to_set().difference(keep)),
    decreases existing.len(),
{
    if existing.len() == 0 {
        assert(mirrors.difference(existing.to_set().difference(keep)) =~= mirrors);
    } else {
        let front = existing.drop_last();
        removal_steps_effect(mirrors, front, keep);
        assert(existing.to_set() =~= front.to_set().insert(existing.last())) by {
            assert forall|x: Seq<char>| existing.contains(x) implies front.contains(x) || x == existing.last() by {
                let k = choose|k: int| 0 <= k < existing.len() && existing[k] == x;
                if k < front.len() {
                    assert(front[k] == x);
                }
            }
            assert forall|x: Seq<char>| front.contains(x) implies existing.contains(x) by {
                let k = choose|k: int| 0 <= k < front.len() && front[k] == x;
                assert(existing[k] == x);
            }
            assert(existing[existing.len() - 1] == existing.last());
        }
        if !keep.contains(existing.last()) {
            let step = StepView::RemoveMirror { name: existing.last() };
            after_steps_push(mirrors, removal_steps(front, keep), step);
        }
        assert(mirrors.difference(existing.to_set().difference(keep)) =~= if keep.contains(existing.last()) {
            mirrors.difference(front.to_set().difference(keep))
        } else {
            mirrors.difference(front.to_set().difference(keep)).remove(existing.last())
        });
    }
}

/// After a sync pass the mirrors are exactly those of the configured
/// sources, whatever the mirror root held before.
pub proof fn lemma_sync_matches_configuration(urls: Seq<Seq<char>>, existing: Seq<Seq<char>>)
    ensures
        after_steps(existing.to_set(), sync_plan(urls, existing)) == mirror_names(urls).to_set(),
{
    let e = existing.to_set();
    let n = mirror_names(urls).to_set();
    after_steps_concat(e, source_steps(urls, e), removal_steps(existing, n));
    source_steps_effect(urls, e);
    removal_steps_effect(e.union(n), existing, n);
    assert(e.union(n).difference(e.difference(n)) =~= n);
}

/// A sync pass with no sources leaves no mirror, whatever the mirror root
/// held before.
pub proof fn lemma_sync_without_sources_removes_all(existing: Seq<Seq<char>>)
    ensures
        after_steps(existing.to_set(), sync_plan(seq![], existing)) == Set::<Seq<char>>::empty(),
{
    lemma_sync_matches_configuration(seq![], existing);
    assert(mirror_names(seq![]).to_set() =~= Set::<Seq<char>>::empty());
}

proof fn source_steps_all_present(urls: Seq<Seq<char>>, present: Set<Seq<char>>)
    requires
        mirror_names(urls).to_set().subset_of(present),
    ensures
        source_steps(urls, present) == urls.map_values(|u: Seq<char>| StepView::RefreshMirror { name: mirror_name(u) }),
    decreases urls.len(),
{
    let refreshes = urls.map_values(|u: Seq<char>| StepView::RefreshMirror { name: mirror_name(u) });
    if urls.len() == 0 {
        assert(source_steps(urls, present) =~= refreshes);
    } else {
        let prior = urls.drop_last();
        mirror_names_push(urls);
        assert(mirror_names(prior).to_set().subset_of(present));
        source_steps_all_present(prior, present);
        assert(present.union(mirror_names(prior).to_set()).contains(mirror_name(urls.last())));
        assert(source_steps(urls, present) =~= refreshes);
    }
}

proof fn removal_steps_all_kept(existing: Seq<Seq<char>>, keep: Set<Seq<char>>)
    requires
        existing.to_set().subset_of(keep),
    ensures
        removal_steps(existing, keep) == Seq::<StepView>::empty(),
    decreases existing.len(),
{
    if existing.len() > 0 {
        let front = existing.drop_last();
        assert(front.to_set().subset_of(keep)) by {
            assert forall|x: Seq<char>| front.to_set().contains(x) implies keep.contains(x) by {
                let k = choose|k: int| 0 <= k < front.len() && front[k] == x;
                assert(existing[k] == x);
            }
        }
        removal_steps_all_kept(front, keep);
        assert(existing.contains(existing[existing.len() - 1]));
    }
}

/// Run again with the same sources, a sync pass refreshes each source in
/// order, clones and removes nothing, and leaves exactly their mirrors.
pub proof fn lemma_second_sync_only_refreshes(urls: Seq<Seq<char>>, first: Seq<Seq<char>>, second: Seq<Seq<char>>)
    requires
        second.to_set() == after_steps(first.to_set(), sync_plan(urls, first)),
    ensures
        sync_plan(urls, second) == urls.map_values(|u: Seq<char>| StepView::RefreshMirror { name: mirror_name(u) }),
        after_steps(second.to_set(), sync_plan(urls, second)) == mirror_names(urls).to_set(),
{
    lemma_sync_matches_configuration(urls, first);
    lemma_sync_matches_configuration(urls, second);
    let n = mirror_names(urls).to_set();
    assert(n.subset_of(second.to_set()));
    source_steps_all_present(urls, second.to_set());
    removal_steps_all_kept(second, n);
    assert(sync_plan(urls, second) =~= source_steps(urls, second.to_set()));
}

/// Once a source is taken out of the configuration, the next sync pass
/// removes its mirror.
pub proof fn lemma_dropped_source_is_removed(url: Seq<char>, first: Seq<Seq<char>>, second: Seq<Seq<char>>)
    requires
        second.to_set() == after_steps(first.to_set(), sync_plan(seq![url], first)),
    ensures
        second.to_set().contains(mirror_name(url)),
        sync_plan(seq![], second).contains(StepView::RemoveMirror { name: mirror_name(url) }),
        !after_steps(second.to_set(), sync_plan(seq![], second)).contains(mirror_name(url)),
{
    lemma_sync_matches_configuration(seq![url], first);
    lemma_sync_without_sources_removes_all(second);
    assert(mirror_names(seq![url]) =~= seq![mirror_name(url)]);
    assert(mirror_names(seq![url]).contains(mirror_name(url))) by {
        assert(mirror_names(seq![url])[0] == mirror_name(url));
    }
    assert(mirror_names(seq![url]).to_set().contains(mirror_name(url)));
    assert(second.to_set().contains(mirror_name(url)));
    assert(second.contains(mirror_name(url)));
    assert(mirror_names(Seq::<Seq<char>>::empty()) =~= Seq::<Seq<char>>::empty());
    assert(!mirror_names(Seq::<Seq<char>>::empty()).to_set().contains(mirror_name(url)));
    let k = choose|k: int| 0 <= k < second.len() && second[k] == mirror_name(url);
    removal_step_present(second, mirror_names(seq![]).to_set(), k);
    assert(sync_plan(seq![], second) =~= source_steps(seq![], second.to_set()) + removal_steps(second, mirror_names(seq![]).to_set()));
    let r = removal_steps(second, mirror_names(seq![]).to_set());
    let p = choose|p: int| 0 <= p < r.len() && r[p] == StepView::RemoveMirror { name: mirror_name(url) };
    assert(sync_plan(seq![], second)[p] == r[p]);
}

proof fn removal_step_present(existing: Seq<Seq<char>>, keep: Set<Seq<char>>, k: int)
    requires
        0 <= k < existing.len(),
        !keep.contains(existing[k]),
    ensures
        removal_steps(existing, keep).contains(StepView::RemoveMirror { name: existing[k] }),
    decreases existing.len(),
{
    let front = removal_steps(existing.drop_last(), keep);
    if k == existing.len() - 1 {
        assert(removal_steps(existing, keep)[front.len() as int] == StepView::RemoveMirror { name: existing[k] });
    } else {
        removal_step_present(existing.drop_last(), keep, k);
        let p = choose|p: int| 0 <= p < front.len() && front[p] == StepView::RemoveMirror { name: existing[k] };
        assert(removal_steps(existing, keep)[p] == front[p]);
    }
}

/// The configured sources, none where the list is absent.
pub open spec fn repository_list(o: Option<Vec<String>>) -> Seq<Seq<char>> {
    match o {
        Some(v) => strings_view(v@),
        None => seq![],
    }
}

/// `s` without every occurrence of `u`, keeping the order of the rest.
pub open spec fn without(s: Seq<Seq<char>>, u: Seq<char>) -> Seq<Seq<char>>
    decreases s.len(),
{
    if s.len() == 0 {
        seq![]
    } else {
        let front = without(s.drop_last(), u);
        if s.last() == u {
            front
        } else {
            front.push(s.last())
        }
    }
}

/// Appends `repository_url` to the configured sources, starting the list
/// where there is none.
pub fn add_repository_url_to_config(config: &mut UserConfigSchema, repository_url: &str)
    ensures
        final(config).version_repositories is Some,
        repository_list(final(config).version_repositories) == repository_list(
            old(config).version_repositories,
        ).push(repository_url@),
        final(config).projects_dir == old(config).projects_dir,
        final(config).project_management_tool == old(config).project_management_tool,
        final(config).editor == old(config).editor,
{
    let mut list = match &config.version_repositories {
        Some(v) => clone_strings(v),
        None => Vec::new(),
    };
    let ghost before = list@;
    list.push(String::from_str(repository_url));
    assert(strings_view(list@) =~= strings_view(before).push(repository_url@));
    config.version_repositories = Some(list);
}

/// Takes every occurrence of `repository_url` out of the configured sources;
/// an absent list stays absent.
pub fn remove_repository_url_from_config(config: &mut UserConfigSchema, repository_url: &str)
    ensures
        final(config).version_repositories is Some <==> old(config).version_repositories is Some,
        repository_list(final(config).version_repositories) == without(
            repository_list(old(config).version_repositories),
            repository_url@,
        ),
        final(config).projects_dir == old(config).projects_dir,
        final(config).project_management_tool == old(config).project_management_tool,
        final(config).editor == old(config).editor,
{
    let kept = match &config.version_repositories {
        Some(v) => {
            let ghost vs = strings_view(v@);
            let url = String::from_str(repository_url);
            let mut out: Vec<String> = Vec::new();
            let mut i: usize = 0;
            while i < v.len()
                invariant
                    i <= v@.len(),
                    vs == strings_view(v@),
                    url@ == repository_url@,
                    strings_view(out@) == without(vs.take(i as int), repository_url@),
                decreases v@.len() - i,
            {
                assert(vs.take(i + 1).drop_last() =~= vs.take(i as int));
                assert(vs.take(i + 1).last() == v@[i as int]@);
                if !(v[i] == url) {
                    let ghost before = out@;
                    out.push(v[i].clone());
                    assert(strings_view(out@) =~= strings_view(before).push(vs[i as int]));
                }
                i += 1;
            }
            assert(vs.take(v@.len() as int) =~= vs);
            Some(out)
        },
        None => None,
    };
    config.version_repositories = kept;
}

/// The directory that holds the mirrors, in the configuration directory.
pub fn get_repositories_directory(config_directory: &str) -> (r: String)
    ensures
        r@ == joined(config_directory@, "external_versions"@),
{
    join_path(config_directory, "external_versions")
}

/// The definitions directory of the mirror `name`.
pub fn get_mirror_versions_directory(repositories_directory: &str, name: &str) -> (r: String)
    ensures
        r@ == joined(joined(repositories_directory@, name@), "versions"@),
{
    let mirror = join_path(repositories_directory, name);
    join_path(mirror.as_str(), "versions")
}

/// A file name that marks a definition file: it has the extension `toml`.
pub open spec fn is_definition_file(name: Seq<char>) -> bool {
    name.len() > 5 && name.subrange(name.len() - 5, name.len() as int) == seq!['.', 't', 'o', 'm', 'l']
}

pub fn is_definition_file_name(name: &str) -> (r: bool)
    ensures
        r == is_definition_file(name@),
{
    let n = name.unicode_len();
    if n <= 5 {
        return false;
    }
    let r = name.get_char(n - 5) == '.' && name.get_char(n - 4) == 't' && name.get_char(n - 3) == 'o'
        && name.get_char(n - 2) == 'm' && name.get_char(n - 1) == 'l';
    let ghost tail = name@.subrange(n - 5, n as int);
    assert(tail[0] == name@[n - 5] && tail[1] == name@[n - 4] && tail[2] == name@[n - 3]
        && tail[3] == name@[n - 2] && tail[4] == name@[n - 1]);
    if r {
        assert(tail =~= seq!['.', 't', 'o', 'm', 'l']);
    }
    r
}

/// The paths of the definition files among `names`, listed in `dir`, in
/// listing order.
pub open spec fn definition_paths(dir: Seq<char>, names: Seq<Seq<char>>) -> Seq<Seq<char>>
    decreases names.len(),
{
    if names.len() == 0 {
        seq![]
    } else {
        let front = definition_paths(dir, names.drop_last());
        if is_definition_file(names.last()) {
            front.push(joined(dir, names.last()))
        } else {
            front
        }
    }
}

/// What the definitions directory of one configured source's mirror holds:
/// the names it lists, or none where the mirror has no such directory.
pub struct MirrorListing {
    pub name: String,
    pub files: Option<Vec<String>>,
}

/// The definition files of the mirrors, source by source in configuration
/// order; a mirror without a definitions directory contributes none.
pub open spec fn mirror_definition_paths(repositories_directory: Seq<char>, listings: Seq<MirrorListing>) -> Seq<Seq<char>>
    decreases listings.len(),
{
    if listings.len() == 0 {
        seq![]
    } else {
        let front = mirror_definition_paths(repositories_directory, listings.drop_last());
        let last = listings.last();
        match last.files {
            Some(files) => front + definition_paths(
                joined(joined(repositories_directory, last.name@), "versions"@),
                strings_view(files@),
            ),
            None => front,
        }
    }
}

/// Appends to `out` the paths of the definition files among `names`.
fn push_definition_paths(out: &mut Vec<String>, dir: &str, names: &Vec<String>)
    ensures
        strings_view(final(out)@) == strings_view(old(out)@) + definition_paths(dir@, strings_view(names@)),
{
    let ghost ns = strings_view(names@);
    let mut i: usize = 0;
    while i < names.len()
        invariant
            i <= names@.len(),
            ns == strings_view(names@),
            strings_view(out@) == strings_view(old(out)@) + definition_paths(dir@, ns.take(i as int)),
        decreases names@.len() - i,
    {
        assert(ns.take(i + 1).drop_last() =~= ns.take(i as int));
        if is_definition_file_name(names[i].as_str()) {
            let path = join_path(dir, names[i].as_str());
            let ghost before = out@;
            out.push(path);
            assert(strings_view(out@) =~= strings_view(before).push(path@));
        }
        i += 1;
    }
    assert(ns.take(names@.len() as int) =~= ns);
}

/// The definition files that the mirrors contribute, in configuration
/// order.
pub fn get_repositories_configs(repositories_directory: &str, listings: &Vec<MirrorListing>) -> (r: Vec<String>)
    ensures
        strings_view(r@) == mirror_definition_paths(repositories_directory@, listings@),
{
    let mut out: Vec<String> = Vec::new();
    let mut i: usize = 0;
    while i < listings.len()
        invariant
            i <= listings@.len(),
            strings_view(out@) == mirror_definition_paths(repositories_directory@, listings@.take(i as int)),
        decreases listings@.len() - i,
    {
        assert(listings@.take(i + 1).drop_last() =~= listings@.take(i as int));
        match &listings[i].files {
            Some(files) => {
                let dir = get_mirror_versions_directory(repositories_directory, listings[i].name.as_str());
                push_definition_paths(&mut out, dir.as_str(), files);
            },
            None => {},
        }
        i += 1;
    }
    assert(listings@.take(listings@.len() as int) =~= listings@);
    out
}

/// The catalog's definition files in catalog order: those of the local
/// definitions directory in listing order, then those of each mirror in
/// configuration order.
pub fn catalog_files(
    versions_directory: &str,
    local_names: &Vec<String>,
    repositories_directory: &str,
    listings: &Vec<MirrorListing>,
) -> (r: Vec<String>)
    ensures
        strings_view(r@) == definition_paths(versions_directory@, strings_view(local_names@))
            + mirror_definition_paths(repositories_directory@, listings@),
{
    let mut out: Vec<String> = Vec::new();
    push_definition_paths(&mut out, versions_directory, local_names);
    assert(strings_view(out@) =~= definition_paths(versions_directory@, strings_view(local_names@)));
    let external = get_repositories_configs(repositories_directory, listings);
    let ghost before = out@;
    let mut i: usize = 0;
    while i < external.len()
        invariant
            i <= external@.len(),
            strings_view(out@) == strings_view(before) + strings_view(external@).take(i as int),
        decreases external@.len() - i,
    {
        let ghost prev = out@;
        out.push(external[i].clone());
        assert(strings_view(out@) =~= strings_view(prev).push(external@[i as int]@));
        assert(strings_view(external@).take(i + 1) =~= strings_view(external@).take(i as int).push(external@[i as int]@));
        i += 1;
    }
    assert(strings_view(external@).take(external@.len() as int) =~= strings_view(external@));
    out
}

} // verus!
