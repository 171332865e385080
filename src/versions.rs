//! Version definitions and the resolution engine that matches a directory
//! against a catalog of them.

use vstd::prelude::*;

use crate::config::{joined, join_path};

verus! {

/// One named kind of project, with the files and directories that identify it.
pub struct VersionConfigSchema {
    pub version: String,
    pub description: String,
    pub files_needed: Vec<String>,
    pub directories_needed: Vec<String>,
    pub specificity: u8,
    pub project_management_tool: Option<String>,
}

/// The mathematical value of a [`VersionConfigSchema`].
pub struct VersionView {
    pub version: Seq<char>,
    pub description: Seq<char>,
    pub files_needed: Seq<Seq<char>>,
    pub directories_needed: Seq<Seq<char>>,
    pub specificity: u8,
    pub project_management_tool: Option<Seq<char>>,
}

/// The characters of each string, in order.
pub open spec fn strings_view(v: Seq<String>) -> Seq<Seq<char>> {
    v.map_values(|s: String| s@)
}

pub open spec fn optional_string_view(o: Option<String>) -> Option<Seq<char>> {
    match o {
        Some(s) => Some(s@),
        None => None,
    }
}

impl View for VersionConfigSchema {
    type V = VersionView;

    open spec fn view(&self) -> VersionView {
        VersionView {
            version: self.version@,
            description: self.description@,
            files_needed: strings_view(self.files_needed@),
            directories_needed: strings_view(self.directories_needed@),
            specificity: self.specificity,
            project_management_tool: optional_string_view(self.project_management_tool),
        }
    }
}

/// The value of each definition, in order.
pub open spec fn versions_view(v: Seq<VersionConfigSchema>) -> Seq<VersionView> {
    v.map_values(|d: VersionConfigSchema| d@)
}

pub(crate) fn clone_strings(v: &Vec<String>) -> (r: Vec<String>)
    ensures
        strings_view(r@) == strings_view(v@),
{
    let r = v.clone();
    assert(r@ =~= v@);
    r
}

fn clone_optional_string(o: &Option<String>) -> (r: Option<String>)
    ensures
        optional_string_view(r) == optional_string_view(*o),
{
    match o {
        Some(s) => Some(s.clone()),
        None => None,
    }
}

impl Clone for VersionConfigSchema {
    fn clone(&self) -> (r: Self)
        ensures
            r@ == self@,
    {
        VersionConfigSchema {
            version: self.version.clone(),
            description: self.description.clone(),
            files_needed: clone_strings(&self.files_needed),
            directories_needed: clone_strings(&self.directories_needed),
            specificity: self.specificity,
            project_management_tool: clone_optional_string(&self.project_management_tool),
        }
    }
}

/// A path under the directory being identified that exists there, and
/// whether it is a directory.
pub struct DirectoryEntry {
    pub path: String,
    pub is_dir: bool,
}

/// What resolution knows of a directory: the relative paths under it that
/// exist. A path that no entry names does not exist.
pub struct DirectorySnapshot {
    pub entries: Vec<DirectoryEntry>,
}

/// `p` exists under the directory, as a file or as a directory.
pub open spec fn path_exists(d: DirectorySnapshot, p: Seq<char>) -> bool {
    exists|i: int| 0 <= i < d.entries@.len() && (#[trigger] d.entries@[i]).path@ == p
}

/// `p` exists under the directory and is a directory.
pub open spec fn is_directory(d: DirectorySnapshot, p: Seq<char>) -> bool {
    exists|i: int|
        0 <= i < d.entries@.len() && (#[trigger] d.entries@[i]).path@ == p && d.entries@[i].is_dir
}

/// Every file the definition needs exists, and every directory it needs is
/// a directory.
pub open spec fn matches(d: DirectorySnapshot, v: VersionView) -> bool {
    &&& forall|i: int| 0 <= i < v.files_needed.len() ==> path_exists(d, #[trigger] v.files_needed[i])
    &&& forall|i: int|
        0 <= i < v.directories_needed.len() ==> is_directory(d, #[trigger] v.directories_needed[i])
}

/// The elements of `s` that satisfy `keep`, in their order in `s`.
pub open spec fn kept(s: Seq<VersionView>, keep: spec_fn(VersionView) -> bool) -> Seq<VersionView>
    decreases s.len(),
{
    if s.len() == 0 {
        seq![]
    } else {
        let front = kept(s.drop_last(), keep);
        if keep(s.last()) {
            front.push(s.last())
        } else {
            front
        }
    }
}

pub open spec fn matched_by(d: DirectorySnapshot) -> spec_fn(VersionView) -> bool {
    |v: VersionView| matches(d, v)
}

pub open spec fn has_specificity(k: int) -> spec_fn(VersionView) -> bool {
    |v: VersionView| v.specificity == k
}

/// The definitions of `catalog` that match `d`, in catalog order.
pub open spec fn matching(d: DirectorySnapshot, catalog: Seq<VersionView>) -> Seq<VersionView> {
    kept(catalog, matched_by(d))
}

/// The definitions of `s` whose specificity is `k`, in their order in `s`.
pub open spec fn with_specificity(s: Seq<VersionView>, k: int) -> Seq<VersionView> {
    kept(s, has_specificity(k))
}

/// The definitions of `s` whose specificity is at least `k`: highest
/// specificity first, and in their order in `s` where it is equal.
pub open spec fn ranked_from(s: Seq<VersionView>, k: int) -> Seq<VersionView>
    decreases 256 - k,
{
    if k > 255 {
        seq![]
    } else {
        ranked_from(s, k + 1) + with_specificity(s, k)
    }
}

/// `s` ordered by descending specificity, keeping the order of `s` among
/// definitions of equal specificity.
pub open spec fn ranked(s: Seq<VersionView>) -> Seq<VersionView> {
    ranked_from(s, 0)
}

/// The definition that stands for a directory that no definition matches.
pub open spec fn unknown_version() -> VersionView {
    VersionView {
        version: "Unknown"@,
        description: "Unknown version"@,
        files_needed: seq![],
        directories_needed: seq![],
        specificity: 0,
        project_management_tool: None,
    }
}

/// The outcome of resolving `d` against `catalog`: the matching definitions
/// ranked, or the unknown definition alone where none matches.
pub open spec fn resolved(d: DirectorySnapshot, catalog: Seq<VersionView>) -> Seq<VersionView> {
    let found = matching(d, catalog);
    if found.len() == 0 {
        seq![unknown_version()]
    } else {
        ranked(found)
    }
}

impl DirectorySnapshot {
    pub fn has_path(&self, p: &String) -> (r: bool)
        ensures
            r == path_exists(*self, p@),
    {
        let mut i: usize = 0;
        while i < self.entries.len()
            invariant
                i <= self.entries@.len(),
                forall|j: int| 0 <= j < i ==> (#[trigger] self.entries@[j]).path@ != p@,
            decreases self.entries@.len() - i,
        {
            if self.entries[i].path == *p {
                return true;
            }
            i += 1;
        }
        false
    }

    pub fn has_directory(&self, p: &String) -> (r: bool)
        ensures
            r == is_directory(*self, p@),
    {
        let mut i: usize = 0;
        while i < self.entries.len()
            invariant
                i <= self.entries@.len(),
                forall|j: int|
                    0 <= j < i ==> !((#[trigger] self.entries@[j]).path@ == p@
                        && self.entries@[j].is_dir),
            decreases self.entries@.len() - i,
        {
            if self.entries[i].is_dir && self.entries[i].path == *p {
                return true;
            }
            i += 1;
        }
        false
    }
}

impl VersionConfigSchema {
    /// Whether `directory` holds everything this definition needs.
    pub fn is_matched_by(&self, directory: &DirectorySnapshot) -> (r: bool)
        ensures
            r == matches(*directory, self@),
    {
        let mut i: usize = 0;
        while i < self.files_needed.len()
            invariant
                i <= self.files_needed@.len(),
                forall|j: int| 0 <= j < i ==> path_exists(*directory, #[trigger] self.files_needed@[j]@),
            decreases self.files_needed@.len() - i,
        {
            if !directory.has_path(&self.files_needed[i]) {
                assert(!path_exists(*directory, self@.files_needed[i as int]));
                return false;
            }
            i += 1;
        }
        let mut i: usize = 0;
        while i < self.directories_needed.len()
            invariant
                i <= self.directories_needed@.len(),
                forall|j: int| 0 <= j < self.files_needed@.len() ==> path_exists(*directory, #[trigger] self.files_needed@[j]@),
                forall|j: int| 0 <= j < i ==> is_directory(*directory, #[trigger] self.directories_needed@[j]@),
            decreases self.directories_needed@.len() - i,
        {
            if !directory.has_directory(&self.directories_needed[i]) {
                assert(!is_directory(*directory, self@.directories_needed[i as int]));
                return false;
            }
            i += 1;
        }
        assert forall|j: int| 0 <= j < self@.files_needed.len() implies path_exists(*directory, #[trigger] self@.files_needed[j]) by {
            assert(self@.files_needed[j] == self.files_needed@[j]@);
        }
        assert forall|j: int| 0 <= j < self@.directories_needed.len() implies is_directory(*directory, #[trigger] self@.directories_needed[j]) by {
            assert(self@.directories_needed[j] == self.directories_needed@[j]@);
        }
        true
    }
}

/// Orders `versions` by descending specificity; definitions of equal
/// specificity keep their order.
pub fn sort_versions_by_specificity(versions: Vec<VersionConfigSchema>) -> (r: Vec<VersionConfigSchema>)
    ensures
        versions_view(r@) == ranked(versions_view(versions@)),
{
    let ghost s = versions_view(versions@);
    let mut out: Vec<VersionConfigSchema> = Vec::new();
    let mut k: u16 = 256;
    while k > 0
        invariant
            k <= 256,
            s == versions_view(versions@),
            versions_view(out@) == ranked_from(s, k as int),
        decreases k,
    {
        k = k - 1;
        let mut i: usize = 0;
        while i < versions.len()
            invariant
                i <= versions@.len(),
                k < 256,
                s == versions_view(versions@),
                versions_view(out@) == ranked_from(s, k + 1) + with_specificity(s.take(i as int), k as int),
            decreases versions@.len() - i,
        {
            assert(s.take(i + 1).drop_last() =~= s.take(i as int));
            if versions[i].specificity as u16 == k {
                let v = versions[i].clone();
                let ghost before = out@;
                out.push(v);
                assert(versions_view(out@) =~= versions_view(before).push(v@));
            }
            i += 1;
        }
        assert(s.take(versions@.len() as int) =~= s);
    }
    out
}

/// The definition that stands for a directory that no definition matches.
pub fn unknown_version_config() -> (r: VersionConfigSchema)
    ensures
        r@ == unknown_version(),
{
    let r = VersionConfigSchema {
        version: String::from_str("Unknown"),
        description: String::from_str("Unknown version"),
        files_needed: Vec::new(),
        directories_needed: Vec::new(),
        specificity: 0,
        project_management_tool: None,
    };
    assert(r@.files_needed =~= seq![]);
    assert(r@.directories_needed =~= seq![]);
    r
}

/// Resolves `directory` against `catalog`: the definitions that match it,
/// highest specificity first and in catalog order where specificity is
/// equal; the unknown definition alone where none matches.
pub fn get_directory_versions(
    directory: &DirectorySnapshot,
    catalog: &Vec<VersionConfigSchema>,
) -> (r: Vec<VersionConfigSchema>)
    ensures
        versions_view(r@) == resolved(*directory, versions_view(catalog@)),
{
    let ghost cat = versions_view(catalog@);
    let mut found: Vec<VersionConfigSchema> = Vec::new();
    let mut i: usize = 0;
    while i < catalog.len()
        invariant
            i <= catalog@.len(),
            cat == versions_view(catalog@),
            versions_view(found@) == matching(*directory, cat.take(i as int)),
        decreases catalog@.len() - i,
    {
        assert(cat.take(i + 1).drop_last() =~= cat.take(i as int));
        if catalog[i].is_matched_by(directory) {
            let v = catalog[i].clone();
            let ghost before = found@;
            found.push(v);
            assert(versions_view(found@) =~= versions_view(before).push(v@));
        }
        i += 1;
    }
    assert(cat.take(catalog@.len() as int) =~= cat);
    if found.len() == 0 {
        let mut r: Vec<VersionConfigSchema> = Vec::new();
        let u = unknown_version_config();
        r.push(u);
        assert(versions_view(r@) =~= seq![unknown_version()]);
        r
    } else {
        sort_versions_by_specificity(found)
    }
}

/// The paths that `catalog` names: for each definition in order, the files
/// it needs and then the directories it needs.
pub open spec fn named_paths(catalog: Seq<VersionView>) -> Seq<Seq<char>>
    decreases catalog.len(),
{
    if catalog.len() == 0 {
        seq![]
    } else {
        named_paths(catalog.drop_last()) + catalog.last().files_needed
            + catalog.last().directories_needed
    }
}

fn append_strings(out: &mut Vec<String>, more: &Vec<String>)
    ensures
        strings_view(final(out)@) == strings_view(old(out)@) + strings_view(more@),
{
    let mut i: usize = 0;
    while i < more.len()
        invariant
            i <= more@.len(),
            strings_view(out@) == strings_view(old(out)@) + strings_view(more@).take(i as int),
        decreases more@.len() - i,
    {
        let ghost before = out@;
        out.push(more[i].clone());
        assert(strings_view(out@) =~= strings_view(before).push(more@[i as int]@));
        assert(strings_view(more@).take(i + 1) =~= strings_view(more@).take(i as int).push(more@[i as int]@));
        i += 1;
    }
    assert(strings_view(more@).take(more@.len() as int) =~= strings_view(more@));
}

/// The paths whose presence decides resolution against `catalog` (see
/// `lemma_resolution_depends_on_named_paths`).
pub fn required_paths(catalog: &Vec<VersionConfigSchema>) -> (r: Vec<String>)
    ensures
        strings_view(r@) == named_paths(versions_view(catalog@)),
{
    let ghost cat = versions_view(catalog@);
    let mut out: Vec<String> = Vec::new();
    let mut i: usize = 0;
    while i < catalog.len()
        invariant
            i <= catalog@.len(),
            cat == versions_view(catalog@),
            strings_view(out@) == named_paths(cat.take(i as int)),
        decreases catalog@.len() - i,
    {
        assert(cat.take(i + 1).drop_last() =~= cat.take(i as int));
        append_strings(&mut out, &catalog[i].files_needed);
        append_strings(&mut out, &catalog[i].directories_needed);
        i += 1;
    }
    assert(cat.take(catalog@.len() as int) =~= cat);
    out
}

/// The local definitions directory, in the configuration directory.
pub fn get_versions_directory(config_directory: &str) -> (r: String)
    ensures
        r@ == joined(config_directory@, "versions"@),
{
    join_path(config_directory, "versions")
}

/// The definition written into a new definitions directory, so that it is
/// not empty: a Rust project has a `Cargo.toml` and a `src` directory.
pub fn sample_version() -> (r: VersionConfigSchema)
    ensures
        r@.version == "Rust"@,
        r@.description == "A Rust project"@,
        r@.files_needed == seq!["Cargo.toml"@],
        r@.directories_needed == seq!["src"@],
        r@.specificity == 1,
        r@.project_management_tool == Some("./project"@),
{
    let mut files: Vec<String> = Vec::new();
    files.push(String::from_str("Cargo.toml"));
    let mut directories: Vec<String> = Vec::new();
    directories.push(String::from_str("src"));
    let r = VersionConfigSchema {
        version: String::from_str("Rust"),
        description: String::from_str("A Rust project"),
        files_needed: files,
        directories_needed: directories,
        specificity: 1,
        project_management_tool: Some(String::from_str("./project")),
    };
    assert(r@.files_needed =~= seq!["Cargo.toml"@]);
    assert(r@.directories_needed =~= seq!["src"@]);
    r
}

/// Where `s[i]` stands in what `keep` keeps of `s`.
proof fn kept_position(s: Seq<VersionView>, keep: spec_fn(VersionView) -> bool, i: int) -> (p: int)
    requires
        0 <= i < s.len(),
        keep(s[i]),
    ensures
        0 <= p < kept(s, keep).len(),
        kept(s, keep)[p] == s[i],
    decreases s.len(),
{
    let front = kept(s.drop_last(), keep);
    if i == s.len() - 1 {
        front.len() as int
    } else {
        kept_position(s.drop_last(), keep, i)
    }
}

/// Keeping elements does not reorder them.
proof fn kept_in_order(s: Seq<VersionView>, keep: spec_fn(VersionView) -> bool, i: int, j: int) -> (pq: (int, int))
    requires
        0 <= i < j < s.len(),
        keep(s[i]),
        keep(s[j]),
    ensures
        0 <= pq.0 < pq.1 < kept(s, keep).len(),
        kept(s, keep)[pq.0] == s[i],
        kept(s, keep)[pq.1] == s[j],
    decreases s.len(),
{
    let front = kept(s.drop_last(), keep);
    if j == s.len() - 1 {
        (kept_position(s.drop_last(), keep, i), front.len() as int)
    } else {
        kept_in_order(s.drop_last(), keep, i, j)
    }
}

proof fn kept_none(s: Seq<VersionView>, keep: spec_fn(VersionView) -> bool)
    requires
        forall|i: int| 0 <= i < s.len() ==> !keep(#[trigger] s[i]),
    ensures
        kept(s, keep).len() == 0,
    decreases s.len(),
{
    if s.len() > 0 {
        kept_none(s.drop_last(), keep);
    }
}

/// The ranking from a higher specificity is a prefix of the ranking from a
/// lower one.
proof fn ranked_prefix(s: Seq<VersionView>, k: int, k2: int)
    requires
        0 <= k <= k2 <= 256,
    ensures
        ranked_from(s, k2).len() <= ranked_from(s, k).len(),
        forall|p: int| 0 <= p < ranked_from(s, k2).len() ==> #[trigger] ranked_from(s, k)[p] == ranked_from(s, k2)[p],
    decreases k2 - k,
{
    if k < k2 {
        ranked_prefix(s, k + 1, k2);
    }
}

/// Where `s[i]` stands in the ranking of `s`: after everything of higher
/// specificity.
proof fn ranked_position(s: Seq<VersionView>, i: int) -> (p: int)
    requires
        0 <= i < s.len(),
    ensures
        ranked_from(s, s[i].specificity + 1).len() <= p < ranked_from(s, s[i].specificity as int).len(),
        p < ranked(s).len(),
        ranked(s)[p] == s[i],
{
    let k = s[i].specificity as int;
    let w = kept_position(s, has_specificity(k), i);
    let p = ranked_from(s, k + 1).len() + w;
    ranked_prefix(s, 0, k);
    p
}

/// Resolution never comes back empty.
pub proof fn lemma_resolution_never_empty(d: DirectorySnapshot, catalog: Seq<VersionView>)
    ensures
        resolved(d, catalog).len() > 0,
{
    let found = matching(d, catalog);
    if found.len() > 0 {
        ranked_position(found, 0);
        assert(resolved(d, catalog) == ranked(found));
    }
}

/// Where no definition of the catalog matches the directory, resolution
/// gives exactly the unknown definition.
pub proof fn lemma_no_match_is_unknown(d: DirectorySnapshot, catalog: Seq<VersionView>)
    requires
        forall|i: int| 0 <= i < catalog.len() ==> !matches(d, #[trigger] catalog[i]),
    ensures
        resolved(d, catalog) == seq![unknown_version()],
{
    kept_none(catalog, matched_by(d));
}

/// Of two matching definitions, the one of higher specificity comes first
/// in the resolution.
pub proof fn lemma_higher_specificity_first(d: DirectorySnapshot, catalog: Seq<VersionView>, i: int, j: int)
    requires
        0 <= i < catalog.len(),
        0 <= j < catalog.len(),
        matches(d, catalog[i]),
        matches(d, catalog[j]),
        catalog[i].specificity > catalog[j].specificity,
    ensures
        exists|p: int, q: int|
            0 <= p < q < resolved(d, catalog).len() && resolved(d, catalog)[p] == catalog[i]
                && resolved(d, catalog)[q] == catalog[j],
{
    let found = matching(d, catalog);
    let fi = kept_position(catalog, matched_by(d), i);
    let fj = kept_position(catalog, matched_by(d), j);
    let p = ranked_position(found, fi);
    let q = ranked_position(found, fj);
    ranked_prefix(found, catalog[j].specificity + 1, catalog[i].specificity as int);
    assert(resolved(d, catalog) == ranked(found));
    assert(resolved(d, catalog)[p] == catalog[i] && resolved(d, catalog)[q] == catalog[j]);
}

/// Of two matching definitions of equal specificity, the one earlier in the
/// catalog comes first in the resolution.
pub proof fn lemma_equal_specificity_keeps_catalog_order(
    d: DirectorySnapshot,
    catalog: Seq<VersionView>,
    i: int,
    j: int,
)
    requires
        0 <= i < j < catalog.len(),
        matches(d, catalog[i]),
        matches(d, catalog[j]),
        catalog[i].specificity == catalog[j].specificity,
    ensures
        exists|p: int, q: int|
            0 <= p < q < resolved(d, catalog).len() && resolved(d, catalog)[p] == catalog[i]
                && resolved(d, catalog)[q] == catalog[j],
{
    let found = matching(d, catalog);
    let k = catalog[i].specificity as int;
    let (fi, fj) = kept_in_order(catalog, matched_by(d), i, j);
    let (wi, wj) = kept_in_order(found, has_specificity(k), fi, fj);
    let ahead = ranked_from(found, k + 1);
    let p = ahead.len() + wi;
    let q = ahead.len() + wj;
    assert(ranked_from(found, k) == ahead + with_specificity(found, k));
    assert(ranked_from(found, k)[p] == catalog[i]);
    assert(ranked_from(found, k)[q] == catalog[j]);
    ranked_prefix(found, 0, k);
    assert(resolved(d, catalog) == ranked(found));
    assert(resolved(d, catalog)[p] == catalog[i] && resolved(d, catalog)[q] == catalog[j]);
}

/// Two snapshots agree on `p`: it exists in both or in neither, and is a
/// directory in both or in neither.
pub open spec fn agree_on(d1: DirectorySnapshot, d2: DirectorySnapshot, p: Seq<char>) -> bool {
    path_exists(d1, p) == path_exists(d2, p) && is_directory(d1, p) == is_directory(d2, p)
}

proof fn matching_agrees(d1: DirectorySnapshot, d2: DirectorySnapshot, catalog: Seq<VersionView>)
    requires
        forall|i: int| 0 <= i < named_paths(catalog).len() ==> agree_on(d1, d2, #[trigger] named_paths(catalog)[i]),
    ensures
        matching(d1, catalog) == matching(d2, catalog),
    decreases catalog.len(),
{
    if catalog.len() > 0 {
        let front = catalog.drop_last();
        let v = catalog.last();
        let before = named_paths(front);
        let all = named_paths(catalog);
        assert(all == before + v.files_needed + v.directories_needed);
        assert forall|i: int| 0 <= i < before.len() implies agree_on(d1, d2, #[trigger] before[i]) by {
            assert(all[i] == before[i]);
        }
        matching_agrees(d1, d2, front);
        assert forall|k: int| 0 <= k < v.files_needed.len() implies agree_on(d1, d2, #[trigger] v.files_needed[k]) by {
            assert(all[before.len() + k] == v.files_needed[k]);
        }
        assert forall|k: int| 0 <= k < v.directories_needed.len() implies agree_on(d1, d2, #[trigger] v.directories_needed[k]) by {
            assert(all[before.len() + v.files_needed.len() + k] == v.directories_needed[k]);
        }
        assert(matches(d1, v) == matches(d2, v));
    }
}

/// Resolution depends on the directory only through the paths that the
/// catalog names: two snapshots that agree on each of them resolve alike.
pub proof fn lemma_resolution_depends_on_named_paths(
    d1: DirectorySnapshot,
    d2: DirectorySnapshot,
    catalog: Seq<VersionView>,
)
    requires
        forall|i: int| 0 <= i < named_paths(catalog).len() ==> agree_on(d1, d2, #[trigger] named_paths(catalog)[i]),
    ensures
        resolved(d1, catalog) == resolved(d2, catalog),
{
    matching_agrees(d1, d2, catalog);
}

} // verus!
