//! Mod packages: archives that hold a `META-INF/mods.toml` manifest of mod
//! descriptors beside a `META-INF/MANIFEST.MF` attribute manifest.
//!
//! Reading the archive and parsing TOML text are left to the caller; this
//! module decides which entries to read, and turns the parsed `mods.toml`
//! (through [`crate::decode`]) and the attribute text into the final
//! descriptors.
use vstd::prelude::*;
use vstd::string::StrSliceExecFns;
use crate::decode::{decode_manifest, manifest_decoded, manifest_ok, DecodeError, TomlValue};
use crate::manifest::{manifest_of, parse as parse_attributes};
use crate::table::assoc_map;
use crate::text::str_eq;

verus! {

#[derive(Debug, Clone, Copy, PartialEq, Eq)]
pub enum DependencyOrdering {
    Unordered,
    Before,
    After,
}

#[derive(Debug, Clone, Copy, PartialEq, Eq)]
pub enum DependencySide {
    Client,
    Server,
    Both,
}

#[derive(Debug, Clone, Copy, PartialEq, Eq)]
pub enum ModDisplayTest {
    NoTest,
    MatchVersion,
    IgnoreServerVersion,
    IgnoreAllVersion,
}

#[derive(Debug, Clone, PartialEq, Eq)]
pub struct ModFeatures {
    pub java_version: Option<String>,
}

#[derive(Debug, Clone, PartialEq, Eq)]
pub struct ModDependency {
    pub mod_id: String,
    pub mandatory: bool,
    pub version_range: String,
    pub ordering: DependencyOrdering,
    pub side: DependencySide,
    pub referral_url: Option<String>,
}

/// One mod that a package declares.
#[derive(Debug)]
pub struct Mod {
    pub mod_id: String,
    pub namespace: Option<String>,
    pub version: String,
    pub display_name: Option<String>,
    pub description: String,
    pub logo_file: Option<String>,
    pub logo_blur: bool,
    pub update_json_url: Option<String>,
    pub features: ModFeatures,
    pub modproperties: Vec<(String, TomlValue)>,
    pub mod_url: Option<String>,
    pub credits: Option<String>,
    pub authors: Option<String>,
    pub display_url: Option<String>,
    pub display_test: ModDisplayTest,
    pub dependencies: Option<Vec<ModDependency>>,
}

/// The decoded `mods.toml` of a package.
#[derive(Debug)]
pub struct ModManifest {
    pub mod_loader: String,
    pub loader_version: String,
    pub license: String,
    pub show_as_resource_pack: Option<bool>,
    pub services: Option<Vec<String>>,
    pub properties: Option<Vec<(String, TomlValue)>>,
    pub issue_tracker_url: Option<String>,
    pub mods: Vec<Mod>,
    pub dependencies: Option<Vec<(String, Vec<ModDependency>)>>,
}

pub fn default_side() -> (r: DependencySide)
    ensures
        r == DependencySide::Both,
{
    DependencySide::Both
}

pub fn default_ordering() -> (r: DependencyOrdering)
    ensures
        r == DependencyOrdering::Unordered,
{
    DependencyOrdering::Unordered
}

pub fn default_version_range() -> (r: String)
    ensures
        r@ == Seq::<char>::empty(),
{
    String::new()
}

pub fn default_display_test() -> (r: ModDisplayTest)
    ensures
        r == ModDisplayTest::MatchVersion,
{
    ModDisplayTest::MatchVersion
}

pub fn default_modproperties() -> (r: Vec<(String, TomlValue)>)
    ensures
        r@.len() == 0,
{
    Vec::new()
}

pub fn default_features() -> (r: ModFeatures)
    ensures
        r.java_version is None,
{
    ModFeatures { java_version: None }
}

pub fn default_logo_blur() -> (r: bool)
    ensures
        r,
{
    true
}

pub fn default_description() -> (r: String)
    ensures
        r@ == "MISSING DESCRIPTION"@,
{
    String::from_str("MISSING DESCRIPTION")
}

pub fn default_version() -> (r: String)
    ensures
        r@ == "1"@,
{
    String::from_str("1")
}

// ---------------------------------------------------------------------------
// Archive entries

/// The path suffix of a package's attribute manifest.
pub open spec fn attributes_suffix() -> Seq<char> {
    "META-INF/MANIFEST.MF"@
}

/// The path suffix of a package's mod manifest.
pub open spec fn mods_toml_suffix() -> Seq<char> {
    "META-INF/mods.toml"@
}

pub open spec fn ends_with(s: Seq<char>, suffix: Seq<char>) -> bool {
    suffix.len() <= s.len() && s.subrange(s.len() - suffix.len(), s.len() as int) == suffix
}

/// Whether an entry's name (`None` where it is not valid UTF-8) ends with
/// `suffix`.
pub open spec fn name_matches(name: Option<String>, suffix: Seq<char>) -> bool {
    name matches Some(n) && ends_with(n@, suffix)
}

/// The first entry at or after `start` whose name ends with `suffix`.
pub open spec fn first_match_from(names: Seq<Option<String>>, start: nat, suffix: Seq<char>) -> Option<nat>
    decreases names.len() - start,
{
    if start >= names.len() {
        None
    } else if name_matches(names[start as int], suffix) {
        Some(start)
    } else {
        first_match_from(names, start + 1, suffix)
    }
}

/// An assignment of the suffixes `files` to entries: entry `f[k]` ends with
/// `files[k]`, and no entry serves two suffixes.
pub open spec fn is_assignment(names: Seq<Option<String>>, files: Seq<Seq<char>>, f: Seq<usize>) -> bool {
    &&& f.len() == files.len()
    &&& forall|k: int|
        0 <= k < f.len() ==> (#[trigger] f[k]) < names.len() && name_matches(names[f[k] as int], files[k])
    &&& forall|a: int, b: int| 0 <= a < b < f.len() ==> f[a] != f[b]
}

/// Whether every suffix of `files` ends the name of an entry of its own.
pub open spec fn has_assignment(names: Seq<Option<String>>, files: Seq<Seq<char>>) -> bool {
    exists|f: Seq<usize>| is_assignment(names, files, f)
}

/// Whether the suffixes `files` can be given entries of their own among
/// those not in `used`.
pub open spec fn assignable(names: Seq<Option<String>>, files: Seq<Seq<char>>, used: Seq<usize>) -> bool
    decreases files.len(),
{
    if files.len() == 0 {
        true
    } else {
        exists|j: usize|
            j < names.len() && !used.contains(j) && name_matches(#[trigger] names[j as int], files[0])
                && assignable(names, files.drop_first(), used.push(j))
    }
}

pub open spec fn avoids(f: Seq<usize>, used: Seq<usize>) -> bool {
    forall|k: int| 0 <= k < f.len() ==> !used.contains(#[trigger] f[k])
}

proof fn lemma_assignable(names: Seq<Option<String>>, files: Seq<Seq<char>>, used: Seq<usize>)
    ensures
        assignable(names, files, used) <==> exists|f: Seq<usize>|
            is_assignment(names, files, f) && avoids(f, used),
    decreases files.len(),
{
    if files.len() == 0 {
        let f = Seq::<usize>::empty();
        assert(is_assignment(names, files, f) && avoids(f, used));
    } else {
        let rest = files.drop_first();
        if assignable(names, files, used) {
            let j = choose|j: usize|
                j < names.len() && !used.contains(j) && name_matches(#[trigger] names[j as int], files[0])
                    && assignable(names, rest, used.push(j));
            lemma_assignable(names, rest, used.push(j));
            let g = choose|g: Seq<usize>| is_assignment(names, rest, g) && avoids(g, used.push(j));
            let f = seq![j] + g;
            assert forall|k: int| 0 <= k < f.len() implies (#[trigger] f[k]) < names.len()
                && name_matches(names[f[k] as int], files[k]) by {
                if k > 0 {
                    assert(f[k] == g[k - 1]);
                    assert(files[k] == rest[k - 1]);
                }
            }
            assert forall|a: int, b: int| 0 <= a < b < f.len() implies f[a] != f[b] by {
                if a == 0 {
                    assert(f[b] == g[b - 1]);
                    assert(!used.push(j).contains(g[b - 1]));
                    assert(used.push(j)[used.len() as int] == j);
                } else {
                    assert(f[a] == g[a - 1]);
                    assert(f[b] == g[b - 1]);
                }
            }
            assert forall|k: int| 0 <= k < f.len() implies !used.contains(#[trigger] f[k]) by {
                if k > 0 {
                    assert(f[k] == g[k - 1]);
                    assert(!used.push(j).contains(g[k - 1]));
                    if used.contains(g[k - 1]) {
                        let x = choose|x: int| 0 <= x < used.len() && used[x] == g[k - 1];
                        assert(used.push(j)[x] == g[k - 1]);
                    }
                }
            }
            assert(is_assignment(names, files, f) && avoids(f, used));
        }
        if exists|f: Seq<usize>| is_assignment(names, files, f) && avoids(f, used) {
            let f = choose|f: Seq<usize>| is_assignment(names, files, f) && avoids(f, used);
            let j = f[0];
            let g = f.drop_first();
            assert forall|k: int| 0 <= k < g.len() implies (#[trigger] g[k]) < names.len()
                && name_matches(names[g[k] as int], rest[k]) by {
                assert(g[k] == f[k + 1]);
            }
            assert forall|a: int, b: int| 0 <= a < b < g.len() implies g[a] != g[b] by {
                assert(g[a] == f[a + 1]);
                assert(g[b] == f[b + 1]);
            }
            assert forall|k: int| 0 <= k < g.len() implies !used.push(j).contains(#[trigger] g[k]) by {
                assert(g[k] == f[k + 1]);
                assert(f[0] != f[k + 1]);
                assert(!used.contains(f[k + 1]));
                if used.push(j).contains(g[k]) {
                    let x = choose|x: int| 0 <= x < used.push(j).len() && used.push(j)[x] == g[k];
                    if x < used.len() {
                        assert(used[x] == g[k]);
                    }
                }
            }
            assert(is_assignment(names, rest, g) && avoids(g, used.push(j)));
            lemma_assignable(names, rest, used.push(j));
            assert(name_matches(names[j as int], files[0]));
            assert(!used.contains(f[0]));
        }
    }
}

/// Whether the entries make a mod package: one ending with the attribute
/// manifest's suffix and one ending with the mod manifest's, in any order.
pub open spec fn is_mod_package(names: Seq<Option<String>>) -> bool {
    &&& exists|i: int| 0 <= i < names.len() && name_matches(#[trigger] names[i], attributes_suffix())
    &&& exists|j: int| 0 <= j < names.len() && name_matches(#[trigger] names[j], mods_toml_suffix())
}

/// Whether `s` ends with `suffix`.
fn str_ends_with(s: &str, suffix: &str) -> (r: bool)
    ensures
        r == ends_with(s@, suffix@),
{
    let n = s.unicode_len();
    let m = suffix.unicode_len();
    if m > n {
        return false;
    }
    let off = n - m;
    let mut i: usize = 0;
    while i < m
        invariant
            n == s@.len(),
            m == suffix@.len(),
            off + m == n,
            i <= m,
            forall|j: int| 0 <= j < i ==> s@[off + j] == suffix@[j],
        decreases m - i,
    {
        if s.get_char(off + i) != suffix.get_char(i) {
            assert(s@.subrange(off as int, n as int)[i as int] != suffix@[i as int]);
            return false;
        }
        i = i + 1;
    }
    assert(s@.subrange(off as int, n as int) =~= suffix@);
    true
}

fn entry_matches(name: &Option<String>, suffix: &str) -> (r: bool)
    ensures
        r == name_matches(*name, suffix@),
{
    match name {
        Some(n) => str_ends_with(n.as_str(), suffix),
        None => false,
    }
}

/// The first entry at or after `start` whose name ends with `suffix`.
fn find_from(names: &Vec<Option<String>>, start: usize, suffix: &str) -> (r: Option<usize>)
    ensures
        r is None <==> first_match_from(names@, start as nat, suffix@) is None,
        r matches Some(j) ==> j < names@.len() && first_match_from(names@, start as nat, suffix@)
            == Some(j as nat),
{
    let mut j: usize = start;
    while j < names.len() && !entry_matches(&names[j], suffix)
        invariant
            start <= j,
            first_match_from(names@, start as nat, suffix@) == first_match_from(
                names@,
                j as nat,
                suffix@,
            ),
        decreases names@.len() - j,
    {
        j = j + 1;
    }
    if j < names.len() {
        Some(j)
    } else {
        None
    }
}

/// The first entry whose name ends with `suffix`.
pub fn find_entry(names: &Vec<Option<String>>, suffix: &str) -> (r: Option<usize>)
    ensures
        r is None <==> first_match_from(names@, 0, suffix@) is None,
        r matches Some(j) ==> j < names@.len() && first_match_from(names@, 0, suffix@) == Some(
            j as nat,
        ),
{
    find_from(names, 0, suffix)
}

fn holds(v: &Vec<usize>, x: usize) -> (r: bool)
    ensures
        r == v@.contains(x),
{
    let mut i: usize = 0;
    while i < v.len()
        invariant
            i <= v@.len(),
            forall|k: int| 0 <= k < i ==> v@[k] != x,
        decreases v@.len() - i,
    {
        if v[i] == x {
            return true;
        }
        i = i + 1;
    }
    false
}

/// Whether `files[k..]` can be given entries of their own outside `used`:
/// tries every free matching entry for `files[k]` in turn.
fn assign_from(names: &Vec<Option<String>>, files: &Vec<&str>, k: usize, used: &mut Vec<usize>) -> (r: bool)
    requires
        k <= files@.len(),
    ensures
        final(used)@ == old(used)@,
        r == assignable(
            names@,
            files@.map_values(|f: &str| f@).subrange(k as int, files@.len() as int),
            old(used)@,
        ),
    decreases files@.len() - k,
{
    let ghost all = files@.map_values(|f: &str| f@);
    let ghost rest = all.subrange(k as int, all.len() as int);
    let ghost u0 = used@;
    if k == files.len() {
        assert(rest.len() == 0);
        return true;
    }
    assert(rest[0] == files@[k as int]@);
    assert(rest.drop_first() =~= all.subrange(k + 1, all.len() as int));
    let next = k + 1;
    let mut j: usize = 0;
    while j < names.len()
        invariant
            all == files@.map_values(|f: &str| f@),
            rest == all.subrange(k as int, all.len() as int),
            rest.len() > 0,
            rest[0] == files@[k as int]@,
            rest.drop_first() == all.subrange(k + 1, all.len() as int),
            k < files@.len(),
            next == k + 1,
            u0 == old(used)@,
            used@ == u0,
            j <= names@.len(),
            forall|x: usize|
                x < j ==> !(!u0.contains(x) && name_matches(#[trigger] names@[x as int], rest[0])
                    && assignable(names@, rest.drop_first(), u0.push(x))),
        decreases names@.len() - j,
    {
        if !holds(used, j) && entry_matches(&names[j], files[k]) {
            used.push(j);
            let ok = assign_from(names, files, next, used);
            used.pop();
            assert(used@ =~= u0);
            if ok {
                return true;
            }
        }
        j = j + 1;
    }
    false
}

/// Whether every one of `files` ends the name of an entry of its own: there
/// is a one-to-one assignment of the suffixes to entries, whatever the order
/// of either.
pub fn archive_contains(names: &Vec<Option<String>>, files: &Vec<&str>) -> (r: bool)
    ensures
        r == has_assignment(names@, files@.map_values(|f: &str| f@)),
{
    let ghost all = files@.map_values(|f: &str| f@);
    let mut used: Vec<usize> = Vec::new();
    let r = assign_from(names, files, 0, &mut used);
    proof {
        assert(all.subrange(0, all.len() as int) =~= all);
        lemma_assignable(names@, all, Seq::<usize>::empty());
        if has_assignment(names@, all) {
            let f = choose|f: Seq<usize>| is_assignment(names@, all, f);
            assert(avoids(f, Seq::<usize>::empty()));
        }
    }
    r
}

/// No name ends with both manifests' suffixes, so a mod package's two
/// entries are always distinct.
proof fn lemma_mod_package(names: Seq<Option<String>>)
    requires
        names.len() <= usize::MAX,
    ensures
        has_assignment(names, seq![attributes_suffix(), mods_toml_suffix()]) == is_mod_package(names),
{
    let files = seq![attributes_suffix(), mods_toml_suffix()];
    reveal_strlit("META-INF/MANIFEST.MF");
    reveal_strlit("META-INF/mods.toml");
    if has_assignment(names, files) {
        let f = choose|f: Seq<usize>| is_assignment(names, files, f);
        assert(f[0] < names.len() && name_matches(names[f[0] as int], attributes_suffix()));
        assert(f[1] < names.len() && name_matches(names[f[1] as int], mods_toml_suffix()));
    }
    if is_mod_package(names) {
        let i = choose|i: int| 0 <= i < names.len() && name_matches(#[trigger] names[i], attributes_suffix());
        let j = choose|j: int| 0 <= j < names.len() && name_matches(#[trigger] names[j], mods_toml_suffix());
        if i == j {
            let n = names[i]->Some_0@;
            let a = attributes_suffix();
            let b = mods_toml_suffix();
            assert(n.subrange(n.len() - a.len(), n.len() as int)[a.len() - 1] == n[n.len() - 1]);
            assert(n.subrange(n.len() - b.len(), n.len() as int)[b.len() - 1] == n[n.len() - 1]);
            assert(a[a.len() - 1] == 'F');
            assert(b[b.len() - 1] == 'l');
        }
        let f = seq![i as usize, j as usize];
        assert(f[0] as int == i && f[1] as int == j);
        assert(files[0] == attributes_suffix() && files[1] == mods_toml_suffix());
        assert(is_assignment(names, files, f));
    }
}

/// Whether an archive with these entry names is a mod package.
pub fn is_mod(names: &Vec<Option<String>>) -> (r: bool)
    ensures
        r == is_mod_package(names@),
        r == has_assignment(names@, seq![attributes_suffix(), mods_toml_suffix()]),
{
    let files: Vec<&str> = vec!["META-INF/MANIFEST.MF", "META-INF/mods.toml"];
    assert(files@.map_values(|f: &str| f@) =~= seq![attributes_suffix(), mods_toml_suffix()]);
    // a vector's length fits in `usize`, as the lemma asks of the names
    let count = names.len();
    assert(names@.len() == count);
    proof {
        lemma_mod_package(names@);
    }
    archive_contains(names, &files)
}

/// The entries of a package to read: its mod manifest and its attribute
/// manifest, each the first entry with that suffix.
pub struct ModEntries {
    pub mods_toml: Option<usize>,
    pub attributes: Option<usize>,
}

pub fn mod_entries(names: &Vec<Option<String>>) -> (r: ModEntries)
    ensures
        r.mods_toml is None <==> first_match_from(names@, 0, mods_toml_suffix()) is None,
        r.mods_toml matches Some(j) ==> first_match_from(names@, 0, mods_toml_suffix()) == Some(
            j as nat,
        ),
        r.attributes is None <==> first_match_from(names@, 0, attributes_suffix()) is None,
        r.attributes matches Some(j) ==> first_match_from(names@, 0, attributes_suffix()) == Some(
            j as nat,
        ),
{
    ModEntries {
        mods_toml: find_entry(names, "META-INF/mods.toml"),
        attributes: find_entry(names, "META-INF/MANIFEST.MF"),
    }
}

/// Whether a field of an upload form carries a mod archive.
pub fn is_mod_upload(name: &str, content_type: &str) -> (r: bool)
    ensures
        r == (name@ == "file"@ && content_type@ == "application/x-java-archive"@),
{
    str_eq(name, "file") && str_eq(content_type, "application/x-java-archive")
}

// ---------------------------------------------------------------------------
// Resolution

/// The version that a build fills in for the archive's own version.
pub open spec fn version_placeholder() -> Seq<char> {
    "${file.jarVersion}"@
}

/// The attribute that holds the archive's version.
pub open spec fn implementation_version() -> Seq<char> {
    "Implementation-Version"@
}

/// The dependency list that a table gives `id`: that of its first entry for
/// `id`.
pub open spec fn deps_for(table: Seq<(String, Vec<ModDependency>)>, id: Seq<char>) -> Option<Seq<ModDependency>>
    decreases table.len(),
{
    if table.len() == 0 {
        None
    } else if table[0].0@ == id {
        Some(table[0].1@)
    } else {
        deps_for(table.drop_first(), id)
    }
}

pub open spec fn deps_view(d: Option<Vec<ModDependency>>) -> Option<Seq<ModDependency>> {
    match d {
        Some(v) => Some(v@),
        None => None,
    }
}

/// The dependencies that a mod ends with: where the manifest has a table,
/// the table's list for the mod (or none), whatever the mod listed itself.
pub open spec fn resolved_deps(m: Mod, table: Option<Vec<(String, Vec<ModDependency>)>>) -> Option<Seq<ModDependency>> {
    match table {
        Some(t) => deps_for(t@, m.mod_id@),
        None => deps_view(m.dependencies),
    }
}

/// The version that a mod ends with: the archive's `Implementation-Version`
/// where the mod's version is the placeholder and the attributes have it;
/// else its own.
pub open spec fn resolved_version(version: Seq<char>, attributes: Option<Map<Seq<char>, Seq<char>>>) -> Seq<char> {
    match attributes {
        Some(a) => if version == version_placeholder() && a.contains_key(implementation_version()) {
            a[implementation_version()]
        } else {
            version
        },
        None => version,
    }
}

/// The attributes of the archive's attribute manifest, where it has one.
pub open spec fn attributes_of(text: Option<&str>) -> Option<Map<Seq<char>, Seq<char>>> {
    match text {
        Some(t) => Some(assoc_map(manifest_of(t@))),
        None => None,
    }
}

/// Two mods agree in everything but version and dependencies.
pub open spec fn same_metadata(a: Mod, b: Mod) -> bool {
    &&& a.mod_id == b.mod_id
    &&& a.namespace == b.namespace
    &&& a.display_name == b.display_name
    &&& a.description == b.description
    &&& a.logo_file == b.logo_file
    &&& a.logo_blur == b.logo_blur
    &&& a.update_json_url == b.update_json_url
    &&& a.features == b.features
    &&& a.modproperties == b.modproperties
    &&& a.mod_url == b.mod_url
    &&& a.credits == b.credits
    &&& a.authors == b.authors
    &&& a.display_url == b.display_url
    &&& a.display_test == b.display_test
}

/// What mod `m` of a manifest becomes.
pub open spec fn resolved(
    r: Mod,
    m: Mod,
    table: Option<Vec<(String, Vec<ModDependency>)>>,
    attributes: Option<Map<Seq<char>, Seq<char>>>,
) -> bool {
    &&& same_metadata(r, m)
    &&& r.version@ == resolved_version(m.version@, attributes)
    &&& deps_view(r.dependencies) == resolved_deps(m, table)
}

fn copy_text(s: &Option<String>) -> (r: Option<String>)
    ensures
        r == *s,
{
    match s {
        Some(t) => Some(t.clone()),
        None => None,
    }
}

fn copy_dependency(d: &ModDependency) -> (r: ModDependency)
    ensures
        r == *d,
{
    ModDependency {
        mod_id: d.mod_id.clone(),
        mandatory: d.mandatory,
        version_range: d.version_range.clone(),
        ordering: d.ordering,
        side: d.side,
        referral_url: copy_text(&d.referral_url),
    }
}

fn copy_dependencies(v: &Vec<ModDependency>) -> (r: Vec<ModDependency>)
    ensures
        r@ == v@,
{
    let mut r: Vec<ModDependency> = Vec::new();
    let mut i: usize = 0;
    while i < v.len()
        invariant
            i <= v@.len(),
            r@ == v@.subrange(0, i as int),
        decreases v@.len() - i,
    {
        r.push(copy_dependency(&v[i]));
        i = i + 1;
        assert(r@ =~= v@.subrange(0, i as int));
    }
    assert(v@.subrange(0, i as int) =~= v@);
    r
}

/// The dependency list that `table` gives the mod `id`.
pub fn dependencies_for(table: &Vec<(String, Vec<ModDependency>)>, id: &str) -> (r: Option<Vec<ModDependency>>)
    ensures
        deps_view(r) == deps_for(table@, id@),
{
    let mut i: usize = 0;
    assert(table@.subrange(0, table@.len() as int) =~= table@);
    while i < table.len()
        invariant
            i <= table@.len(),
            deps_for(table@, id@) == deps_for(table@.subrange(i as int, table@.len() as int), id@),
        decreases table@.len() - i,
    {
        let ghost rest = table@.subrange(i as int, table@.len() as int);
        assert(rest.drop_first() =~= table@.subrange(i + 1, table@.len() as int));
        if str_eq(table[i].0.as_str(), id) {
            return Some(copy_dependencies(&table[i].1));
        }
        i = i + 1;
    }
    None
}

/// The descriptors of a package from its decoded mod manifest (`None` where
/// the archive has none) and the text of its attribute manifest (`None` where
/// it has none), in the manifest's order: dependencies from the manifest's
/// table where it has one, and the placeholder version replaced by the
/// archive's `Implementation-Version` where both are there.
pub fn load_mod(toml_manifest: Option<ModManifest>, attribute_text: Option<&str>) -> (r: Vec<Mod>)
    ensures
        toml_manifest is None ==> r@.len() == 0,
        toml_manifest matches Some(m) ==> {
            &&& r@.len() == m.mods@.len()
            &&& forall|i: int|
                0 <= i < r@.len() ==> resolved(
                    #[trigger] r@[i],
                    m.mods@[i],
                    m.dependencies,
                    attributes_of(attribute_text),
                )
        },
{
    let manifest = match toml_manifest {
        Some(m) => m,
        None => {
            return Vec::new();
        },
    };
    let attributes = match attribute_text {
        Some(t) => Some(parse_attributes(t)),
        None => None,
    };
    let ghost orig = manifest.mods@;
    let table = manifest.dependencies;
    let mut mods = manifest.mods;
    let mut out: Vec<Mod> = Vec::new();
    while mods.len() > 0
        invariant
            out@.len() + mods@.len() == orig.len(),
            mods@ == orig.subrange(out@.len() as int, orig.len() as int),
            attributes matches Some(a) ==> a.wf() && attribute_text is Some && a.view()
                == assoc_map(manifest_of(attribute_text.unwrap()@)),
            attributes is None ==> attribute_text is None,
            forall|i: int|
                0 <= i < out@.len() ==> resolved(
                    #[trigger] out@[i],
                    orig[i],
                    table,
                    attributes_of(attribute_text),
                ),
        decreases mods@.len(),
    {
        let ghost k = out@.len() as int;
        let mut m = mods.remove(0);
        assert(m == orig[k]);
        assert(mods@ =~= orig.subrange(k + 1, orig.len() as int));
        match &table {
            Some(t) => {
                m.dependencies = dependencies_for(t, m.mod_id.as_str());
            },
            None => {},
        }
        match &attributes {
            Some(a) => {
                if str_eq(m.version.as_str(), "${file.jarVersion}") {
                    match a.get("Implementation-Version") {
                        Some(v) => {
                            m.version = v.clone();
                        },
                        None => {},
                    }
                }
            },
            None => {},
        }
        out.push(m);
    }
    out
}

/// The descriptors of a package from its parsed `mods.toml` document (`None`
/// where the archive has none) and the text of its attribute manifest: the
/// document is decoded, then resolved as [`load_mod`] does.
pub fn resolve(document: Option<Vec<(String, TomlValue)>>, attribute_text: Option<&str>) -> (r: Result<Vec<Mod>, DecodeError>)
    ensures
        document is None ==> (r matches Ok(v) && v@.len() == 0),
        document matches Some(t) ==> {
            &&& r is Ok <==> manifest_ok(t@)
            &&& r is Err ==> r == Err::<Vec<Mod>, DecodeError>(DecodeError::SchemaViolation)
            &&& r matches Ok(v) ==> exists|m: ModManifest|
                #[trigger] manifest_decoded(m, t@) && v@.len() == m.mods@.len() && forall|i: int|
                    0 <= i < v@.len() ==> resolved(
                        #[trigger] v@[i],
                        m.mods@[i],
                        m.dependencies,
                        attributes_of(attribute_text),
                    )
        },
{
    match document {
        None => Ok(Vec::new()),
        Some(t) => match decode_manifest(t) {
            Ok(m) => {
                let ghost gm = m;
                let v = load_mod(Some(m), attribute_text);
                assert(manifest_decoded(gm, t@));
                Ok(v)
            },
            Err(e) => Err(e),
        },
    }
}

/// Where the manifest has a dependency table, every mod with the id `id`
/// gets the table's list for `id`, whatever it listed itself.
pub proof fn law_table_dependencies_win(
    m: Mod,
    table: Vec<(String, Vec<ModDependency>)>,
    id: Seq<char>,
    list: Seq<ModDependency>,
)
    requires
        m.mod_id@ == id,
        deps_for(table@, id) == Some(list),
    ensures
        resolved_deps(m, Some(table)) == Some(list),
{
}

/// Without an attribute manifest, a mod keeps its version, the placeholder
/// included.
pub proof fn law_no_attributes_keeps_version(version: Seq<char>)
    ensures
        resolved_version(version, None) == version,
{
}

proof fn lemma_first_match_matches(names: Seq<Option<String>>, start: nat, suffix: Seq<char>)
    ensures
        first_match_from(names, start, suffix) matches Some(j) ==> j < names.len()
            && name_matches(names[j as int], suffix),
    decreases names.len() - start,
{
    if start < names.len() && !name_matches(names[start as int], suffix) {
        lemma_first_match_matches(names, start + 1, suffix);
    }
}

/// An archive with no entry ending in `META-INF/mods.toml` is no mod package,
/// and has no mod manifest to read (so it yields no descriptors).
pub proof fn law_no_mods_toml(names: Seq<Option<String>>)
    requires
        forall|j: int| 0 <= j < names.len() ==> !name_matches(#[trigger] names[j], mods_toml_suffix()),
    ensures
        !is_mod_package(names),
        first_match_from(names, 0, mods_toml_suffix()) is None,
{
    lemma_first_match_matches(names, 0, mods_toml_suffix());
}

} // verus!
