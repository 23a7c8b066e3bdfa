//! Writing a [`ModManifest`] back as a TOML document, every field spelled
//! out, and the law that decoding such a document gives the manifest back.
use vstd::prelude::*;
use crate::decode::{
    dep_array_ok, dep_entry_ok, dep_list_decoded, dep_list_ok, dep_table_decoded, dep_table_ok, dependency_decoded,
    dependency_ok, lookup, manifest_decoded, manifest_ok, mod_decoded, mod_list_decoded,
    mod_entry_ok, mod_list_ok, mod_ok, text_list_decoded, text_list_ok, TomlValue,
};
use crate::forge::{
    DependencyOrdering, DependencySide, Mod, ModDependency, ModDisplayTest,
    ModManifest,
};

verus! {

proof fn lemma_lookup_push_one(t: Seq<(String, TomlValue)>, e: (String, TomlValue), k: Seq<char>)
    ensures
        lookup(t.push(e), k) == (match lookup(t, k) {
            Some(v) => Some(v),
            None => if e.0@ == k {
                Some(e.1)
            } else {
                None
            },
        }),
    decreases t.len(),
{
    if t.len() > 0 {
        assert(t.push(e)[0] == t[0]);
        assert(t.push(e).drop_first() =~= t.drop_first().push(e));
        lemma_lookup_push_one(t.drop_first(), e, k);
        if t[0].0@ != k {
            assert(lookup(t.push(e), k) == lookup(t.drop_first().push(e), k));
            assert(lookup(t, k) == lookup(t.drop_first(), k));
        }
    } else {
        assert(t.push(e)[0] == e);
        assert(t.push(e).drop_first() =~= Seq::<(String, TomlValue)>::empty());
        assert(lookup(Seq::<(String, TomlValue)>::empty(), k) is None);
        assert(lookup(t, k) is None);
    }
}

proof fn lemma_lookup_push(t: Seq<(String, TomlValue)>, e: (String, TomlValue))
    ensures
        forall|k: Seq<char>|
            #[trigger] lookup(t.push(e), k) == (match lookup(t, k) {
                Some(v) => Some(v),
                None => if e.0@ == k {
                    Some(e.1)
                } else {
                    None
                },
            }),
{
    assert forall|k: Seq<char>|
        #[trigger] lookup(t.push(e), k) == (match lookup(t, k) {
            Some(v) => Some(v),
            None => if e.0@ == k {
                Some(e.1)
            } else {
                None
            },
        }) by {
        lemma_lookup_push_one(t, e, k);
    }
}

/// Appends an entry to a table.
fn put(t: &mut Vec<(String, TomlValue)>, key: &str, v: TomlValue)
    ensures
        final(t)@ == old(t)@.push((final(t)@.last().0, v)),
        final(t)@.last().0@ == key@,
        forall|k: Seq<char>|
            #[trigger] lookup(final(t)@, k) == (match lookup(old(t)@, k) {
                Some(x) => Some(x),
                None => if key@ == k {
                    Some(v)
                } else {
                    None
                },
            }),
{
    let ghost before = t@;
    let ghost gv = v;
    let k = String::from_str(key);
    proof {
        lemma_lookup_push(before, (k, gv));
    }
    t.push((k, v));
}

fn ordering_name(o: DependencyOrdering) -> (r: String)
    ensures
        r@ == (match o {
            DependencyOrdering::Unordered => "NONE"@,
            DependencyOrdering::Before => "BEFORE"@,
            DependencyOrdering::After => "AFTER"@,
        }),
{
    match o {
        DependencyOrdering::Unordered => String::from_str("NONE"),
        DependencyOrdering::Before => String::from_str("BEFORE"),
        DependencyOrdering::After => String::from_str("AFTER"),
    }
}

fn side_name(s: DependencySide) -> (r: String)
    ensures
        r@ == (match s {
            DependencySide::Client => "CLIENT"@,
            DependencySide::Server => "SERVER"@,
            DependencySide::Both => "BOTH"@,
        }),
{
    match s {
        DependencySide::Client => String::from_str("CLIENT"),
        DependencySide::Server => String::from_str("SERVER"),
        DependencySide::Both => String::from_str("BOTH"),
    }
}

fn display_test_name(d: ModDisplayTest) -> (r: String)
    ensures
        r@ == (match d {
            ModDisplayTest::NoTest => "NONE"@,
            ModDisplayTest::MatchVersion => "MATCH_VERSION"@,
            ModDisplayTest::IgnoreServerVersion => "IGNORE_SERVER_VERSION"@,
            ModDisplayTest::IgnoreAllVersion => "IGNORE_ALL_VERSION"@,
        }),
{
    match d {
        ModDisplayTest::NoTest => String::from_str("NONE"),
        ModDisplayTest::MatchVersion => String::from_str("MATCH_VERSION"),
        ModDisplayTest::IgnoreServerVersion => String::from_str("IGNORE_SERVER_VERSION"),
        ModDisplayTest::IgnoreAllVersion => String::from_str("IGNORE_ALL_VERSION"),
    }
}

pub open spec fn text_value(o: Option<String>) -> Option<TomlValue> {
    match o {
        Some(s) => Some(TomlValue::String(s)),
        None => None,
    }
}

/// Appends an entry for `key` where `o` holds text.
fn put_text(t: &mut Vec<(String, TomlValue)>, key: &str, o: Option<String>)
    ensures
        forall|k: Seq<char>|
            #[trigger] lookup(final(t)@, k) == (match lookup(old(t)@, k) {
                Some(x) => Some(x),
                None => if key@ == k {
                    text_value(o)
                } else {
                    None
                },
            }),
{
    match o {
        Some(v) => put(t, key, TomlValue::String(v)),
        None => {},
    }
}

/// Appends an entry for `key` where `o` holds a value.
fn put_value(t: &mut Vec<(String, TomlValue)>, key: &str, o: Option<TomlValue>)
    ensures
        forall|k: Seq<char>|
            #[trigger] lookup(final(t)@, k) == (match lookup(old(t)@, k) {
                Some(x) => Some(x),
                None => if key@ == k {
                    o
                } else {
                    None
                },
            }),
{
    match o {
        Some(v) => put(t, key, v),
        None => {},
    }
}

/// The TOML table of a dependency.
pub fn encode_dependency(d: ModDependency) -> (r: Vec<(String, TomlValue)>)
    ensures
        dependency_ok(r@),
        dependency_decoded(d, r@),
{
    proof {
        reveal_strlit("modId");
        reveal_strlit("mandatory");
        reveal_strlit("versionRange");
        reveal_strlit("ordering");
        reveal_strlit("side");
        reveal_strlit("referralUrl");
        reveal_strlit("NONE");
        reveal_strlit("BEFORE");
        reveal_strlit("AFTER");
        reveal_strlit("CLIENT");
        reveal_strlit("SERVER");
        reveal_strlit("BOTH");
    }
    assert("modId"@.len() == 5);
    assert("mandatory"@.len() == 9);
    assert("versionRange"@.len() == 12);
    assert("ordering"@.len() == 8);
    assert("side"@.len() == 4);
    assert("referralUrl"@.len() == 11);
    assert("NONE"@.len() == 4);
    assert("BEFORE"@.len() == 6);
    assert("AFTER"@.len() == 5);
    assert("CLIENT"@.len() == 6 && "CLIENT"@[0] == 'C');
    assert("SERVER"@.len() == 6 && "SERVER"@[0] == 'S');
    assert("BOTH"@.len() == 4);
    let ordering = ordering_name(d.ordering);
    let side = side_name(d.side);
    let mut t: Vec<(String, TomlValue)> = Vec::new();
    put(&mut t, "modId", TomlValue::String(d.mod_id));
    put(&mut t, "mandatory", TomlValue::Boolean(d.mandatory));
    put(&mut t, "versionRange", TomlValue::String(d.version_range));
    put(&mut t, "ordering", TomlValue::String(ordering));
    put(&mut t, "side", TomlValue::String(side));
    match d.referral_url {
        Some(u) => put(&mut t, "referralUrl", TomlValue::String(u)),
        None => {},
    }
    t
}

/// The TOML array of a dependency list.
pub fn encode_dependency_list(v: Vec<ModDependency>) -> (r: Vec<TomlValue>)
    ensures
        dep_list_ok(r@),
        dep_list_decoded(v@, r@),
{
    let ghost orig = v@;
    let mut rest = v;
    let mut out: Vec<TomlValue> = Vec::new();
    while rest.len() > 0
        invariant
            orig == v@,
            out@.len() + rest@.len() == orig.len(),
            rest@ == orig.subrange(out@.len() as int, orig.len() as int),
            forall|i: int| 0 <= i < out@.len() ==> dep_entry_ok(#[trigger] out@[i]),
            forall|i: int| 0 <= i < out@.len() ==> dependency_decoded(orig[i], (#[trigger] out@[i])->Table_0@),
        decreases rest@.len(),
    {
        let ghost k = out@.len() as int;
        let d = rest.remove(0);
        assert(d == orig[k]);
        assert(rest@ =~= orig.subrange(k + 1, orig.len() as int));
        out.push(TomlValue::Table(encode_dependency(d)));
    }
    out
}

/// The TOML table of a mod, with every field written out.
#[verifier::rlimit(100)]
pub fn encode_mod(m: Mod) -> (r: Vec<(String, TomlValue)>)
    ensures
        mod_ok(r@),
        mod_decoded(m, r@),
{
    proof {
        reveal_strlit("modId");
        reveal_strlit("namespace");
        reveal_strlit("version");
        reveal_strlit("displayName");
        reveal_strlit("description");
        reveal_strlit("logoFile");
        reveal_strlit("logoBlur");
        reveal_strlit("updateJSONURL");
        reveal_strlit("features");
        reveal_strlit("modproperties");
        reveal_strlit("modUrl");
        reveal_strlit("credits");
        reveal_strlit("authors");
        reveal_strlit("displayURL");
        reveal_strlit("display_test");
        reveal_strlit("dependencies");
        reveal_strlit("java_version");
        reveal_strlit("NONE");
        reveal_strlit("MATCH_VERSION");
        reveal_strlit("IGNORE_SERVER_VERSION");
        reveal_strlit("IGNORE_ALL_VERSION");
    }
    assert("modId"@.len() == 5);
    assert("namespace"@.len() == 9);
    assert("version"@.len() == 7 && "version"@[0] == 'v');
    assert("displayName"@.len() == 11 && "displayName"@[1] == 'i');
    assert("description"@.len() == 11 && "description"@[1] == 'e');
    assert("logoFile"@.len() == 8 && "logoFile"@[0] == 'l' && "logoFile"@[4] == 'F');
    assert("logoBlur"@.len() == 8 && "logoBlur"@[0] == 'l' && "logoBlur"@[4] == 'B');
    assert("updateJSONURL"@.len() == 13 && "updateJSONURL"@[0] == 'u');
    assert("features"@.len() == 8 && "features"@[0] == 'f');
    assert("modproperties"@.len() == 13 && "modproperties"@[0] == 'm');
    assert("modUrl"@.len() == 6);
    assert("credits"@.len() == 7 && "credits"@[0] == 'c');
    assert("authors"@.len() == 7 && "authors"@[0] == 'a');
    assert("displayURL"@.len() == 10);
    assert("display_test"@.len() == 12 && "display_test"@[1] == 'i');
    assert("dependencies"@.len() == 12 && "dependencies"@[1] == 'e');
    assert("NONE"@.len() == 4);
    assert("MATCH_VERSION"@.len() == 13);
    assert("IGNORE_SERVER_VERSION"@.len() == 21);
    assert("IGNORE_ALL_VERSION"@.len() == 18);
    let ghost g = m;
    let display_test = display_test_name(m.display_test);
    let mut features: Vec<(String, TomlValue)> = Vec::new();
    put_text(&mut features, "java_version", m.features.java_version);
    assert(lookup(Seq::<(String, TomlValue)>::empty(), "java_version"@) is None);
    let mut t: Vec<(String, TomlValue)> = Vec::new();
    put(&mut t, "modId", TomlValue::String(m.mod_id));
    put_text(&mut t, "namespace", m.namespace);
    put(&mut t, "version", TomlValue::String(m.version));
    put_text(&mut t, "displayName", m.display_name);
    put(&mut t, "description", TomlValue::String(m.description));
    put_text(&mut t, "logoFile", m.logo_file);
    put(&mut t, "logoBlur", TomlValue::Boolean(m.logo_blur));
    put_text(&mut t, "updateJSONURL", m.update_json_url);
    put(&mut t, "features", TomlValue::Table(features));
    put(&mut t, "modproperties", TomlValue::Table(m.modproperties));
    put_text(&mut t, "modUrl", m.mod_url);
    put_text(&mut t, "credits", m.credits);
    put_text(&mut t, "authors", m.authors);
    put_text(&mut t, "displayURL", m.display_url);
    put(&mut t, "display_test", TomlValue::String(display_test));
    match m.dependencies {
        Some(v) => put(&mut t, "dependencies", TomlValue::Array(encode_dependency_list(v))),
        None => {},
    }
    assert(lookup(Seq::<(String, TomlValue)>::empty(), "namespace"@) is None);
    t
}

/// The TOML array of a text list.
pub fn encode_text_list(v: Vec<String>) -> (r: Vec<TomlValue>)
    ensures
        text_list_ok(r@),
        text_list_decoded(v@, r@),
{
    let ghost orig = v@;
    let mut rest = v;
    let mut out: Vec<TomlValue> = Vec::new();
    while rest.len() > 0
        invariant
            orig == v@,
            out@.len() + rest@.len() == orig.len(),
            rest@ == orig.subrange(out@.len() as int, orig.len() as int),
            forall|i: int| 0 <= i < out@.len() ==> (#[trigger] out@[i]) == TomlValue::String(orig[i]),
        decreases rest@.len(),
    {
        let ghost k = out@.len() as int;
        let x = rest.remove(0);
        assert(x == orig[k]);
        assert(rest@ =~= orig.subrange(k + 1, orig.len() as int));
        out.push(TomlValue::String(x));
    }
    out
}

/// The TOML array of a mod list.
pub fn encode_mod_list(v: Vec<Mod>) -> (r: Vec<TomlValue>)
    ensures
        mod_list_ok(r@),
        mod_list_decoded(v@, r@),
{
    let ghost orig = v@;
    let mut rest = v;
    let mut out: Vec<TomlValue> = Vec::new();
    while rest.len() > 0
        invariant
            orig == v@,
            out@.len() + rest@.len() == orig.len(),
            rest@ == orig.subrange(out@.len() as int, orig.len() as int),
            forall|i: int| 0 <= i < out@.len() ==> mod_entry_ok(#[trigger] out@[i]),
            forall|i: int| 0 <= i < out@.len() ==> mod_decoded(orig[i], (#[trigger] out@[i])->Table_0@),
        decreases rest@.len(),
    {
        let ghost k = out@.len() as int;
        let x = rest.remove(0);
        assert(x == orig[k]);
        assert(rest@ =~= orig.subrange(k + 1, orig.len() as int));
        out.push(TomlValue::Table(encode_mod(x)));
    }
    out
}

/// The TOML table of a dependency table.
pub fn encode_dependency_table(v: Vec<(String, Vec<ModDependency>)>) -> (r: Vec<(String, TomlValue)>)
    ensures
        dep_table_ok(r@),
        dep_table_decoded(v@, r@),
{
    let ghost orig = v@;
    let mut rest = v;
    let mut out: Vec<(String, TomlValue)> = Vec::new();
    while rest.len() > 0
        invariant
            orig == v@,
            out@.len() + rest@.len() == orig.len(),
            rest@ == orig.subrange(out@.len() as int, orig.len() as int),
            forall|i: int| 0 <= i < out@.len() ==> dep_array_ok((#[trigger] out@[i]).1),
            forall|i: int|
                0 <= i < out@.len() ==> orig[i].0 == (#[trigger] out@[i]).0 && dep_list_decoded(
                    orig[i].1@,
                    out@[i].1->Array_0@,
                ),
        decreases rest@.len(),
    {
        let ghost k = out@.len() as int;
        let (key, list) = rest.remove(0);
        assert((key, list) == orig[k]);
        assert(rest@ =~= orig.subrange(k + 1, orig.len() as int));
        out.push((key, TomlValue::Array(encode_dependency_list(list))));
    }
    out
}

/// The TOML document of a manifest, with every field of every mod written
/// out.
#[verifier::rlimit(100)]
pub fn encode_manifest(m: ModManifest) -> (r: Vec<(String, TomlValue)>)
    ensures
        manifest_ok(r@),
        manifest_decoded(m, r@),
{
    proof {
        reveal_strlit("modLoader");
        reveal_strlit("loaderVersion");
        reveal_strlit("license");
        reveal_strlit("showAsResourcePack");
        reveal_strlit("services");
        reveal_strlit("properties");
        reveal_strlit("issueTrackerURL");
        reveal_strlit("mods");
        reveal_strlit("dependencies");
    }
    assert("modLoader"@.len() == 9);
    assert("loaderVersion"@.len() == 13);
    assert("license"@.len() == 7);
    assert("showAsResourcePack"@.len() == 18);
    assert("services"@.len() == 8);
    assert("properties"@.len() == 10);
    assert("issueTrackerURL"@.len() == 15);
    assert("mods"@.len() == 4);
    assert("dependencies"@.len() == 12);
    let show = match m.show_as_resource_pack {
        Some(b) => Some(TomlValue::Boolean(b)),
        None => None,
    };
    let services = match m.services {
        Some(v) => Some(TomlValue::Array(encode_text_list(v))),
        None => None,
    };
    let properties = match m.properties {
        Some(p) => Some(TomlValue::Table(p)),
        None => None,
    };
    let dependencies = match m.dependencies {
        Some(d) => Some(TomlValue::Table(encode_dependency_table(d))),
        None => None,
    };
    let mods = encode_mod_list(m.mods);
    let mut t: Vec<(String, TomlValue)> = Vec::new();
    put(&mut t, "modLoader", TomlValue::String(m.mod_loader));
    put(&mut t, "loaderVersion", TomlValue::String(m.loader_version));
    put(&mut t, "license", TomlValue::String(m.license));
    put_value(&mut t, "showAsResourcePack", show);
    put_value(&mut t, "services", services);
    put_value(&mut t, "properties", properties);
    put_text(&mut t, "issueTrackerURL", m.issue_tracker_url);
    put(&mut t, "mods", TomlValue::Array(mods));
    put_value(&mut t, "dependencies", dependencies);
    assert(lookup(Seq::<(String, TomlValue)>::empty(), "modLoader"@) is None);
    t
}

/// Two dependencies agree field for field.
pub open spec fn same_dependency(a: ModDependency, b: ModDependency) -> bool {
    &&& a.mod_id@ == b.mod_id@
    &&& a.mandatory == b.mandatory
    &&& a.version_range@ == b.version_range@
    &&& a.ordering == b.ordering
    &&& a.side == b.side
    &&& a.referral_url == b.referral_url
}

pub open spec fn same_dependency_list(a: Seq<ModDependency>, b: Seq<ModDependency>) -> bool {
    &&& a.len() == b.len()
    &&& forall|i: int| 0 <= i < a.len() ==> same_dependency(#[trigger] a[i], b[i])
}

pub open spec fn same_optional_list(a: Option<Vec<ModDependency>>, b: Option<Vec<ModDependency>>) -> bool {
    match (a, b) {
        (Some(x), Some(y)) => same_dependency_list(x@, y@),
        (None, None) => true,
        _ => false,
    }
}

/// Two mods agree field for field.
pub open spec fn same_mod(a: Mod, b: Mod) -> bool {
    &&& a.mod_id@ == b.mod_id@
    &&& a.namespace == b.namespace
    &&& a.version@ == b.version@
    &&& a.display_name == b.display_name
    &&& a.description@ == b.description@
    &&& a.logo_file == b.logo_file
    &&& a.logo_blur == b.logo_blur
    &&& a.update_json_url == b.update_json_url
    &&& a.features.java_version == b.features.java_version
    &&& a.modproperties@ == b.modproperties@
    &&& a.mod_url == b.mod_url
    &&& a.credits == b.credits
    &&& a.authors == b.authors
    &&& a.display_url == b.display_url
    &&& a.display_test == b.display_test
    &&& same_optional_list(a.dependencies, b.dependencies)
}

/// Two manifests agree field for field.
pub open spec fn same_manifest(a: ModManifest, b: ModManifest) -> bool {
    &&& a.mod_loader@ == b.mod_loader@
    &&& a.loader_version@ == b.loader_version@
    &&& a.license@ == b.license@
    &&& a.show_as_resource_pack == b.show_as_resource_pack
    &&& match (a.services, b.services) {
        (Some(x), Some(y)) => x@ == y@,
        (None, None) => true,
        _ => false,
    }
    &&& a.properties == b.properties
    &&& a.issue_tracker_url == b.issue_tracker_url
    &&& a.mods@.len() == b.mods@.len()
    &&& (forall|i: int| 0 <= i < a.mods@.len() ==> same_mod(#[trigger] a.mods@[i], b.mods@[i]))
    &&& match (a.dependencies, b.dependencies) {
        (Some(x), Some(y)) => {
            &&& x@.len() == y@.len()
            &&& forall|i: int|
                0 <= i < x@.len() ==> (#[trigger] x@[i]).0 == y@[i].0 && same_dependency_list(
                    x@[i].1@,
                    y@[i].1@,
                )
        },
        (None, None) => true,
        _ => false,
    }
}

proof fn lemma_dependency_list_unique(a: Seq<ModDependency>, b: Seq<ModDependency>, t: Seq<TomlValue>)
    requires
        dep_list_decoded(a, t),
        dep_list_decoded(b, t),
    ensures
        same_dependency_list(a, b),
{
    assert forall|i: int| 0 <= i < a.len() implies same_dependency(#[trigger] a[i], b[i]) by {
        assert(dependency_decoded(a[i], t[i]->Table_0@));
        assert(dependency_decoded(b[i], t[i]->Table_0@));
    }
}

proof fn lemma_mod_unique(a: Mod, b: Mod, t: Seq<(String, TomlValue)>)
    requires
        mod_decoded(a, t),
        mod_decoded(b, t),
    ensures
        same_mod(a, b),
{
    match lookup(t, "dependencies"@) {
        Some(TomlValue::Array(l)) => {
            lemma_dependency_list_unique(a.dependencies->Some_0@, b.dependencies->Some_0@, l@);
        },
        _ => {},
    }
}

/// Decoding a document gives one manifest at most, field for field. So,
/// since the manifest that `encode_manifest` is given is one that its
/// document decodes to, decoding that document gives the manifest back.
pub proof fn law_decode_encode(m: ModManifest, decoded: ModManifest, t: Seq<(String, TomlValue)>)
    requires
        manifest_decoded(m, t),
        manifest_decoded(decoded, t),
    ensures
        same_manifest(decoded, m),
{
    let a = lookup(t, "mods"@)->Some_0->Array_0@;
    assert forall|i: int| 0 <= i < decoded.mods@.len() implies same_mod(
        #[trigger] decoded.mods@[i],
        m.mods@[i],
    ) by {
        lemma_mod_unique(decoded.mods@[i], m.mods@[i], a[i]->Table_0@);
    }
    match lookup(t, "services"@) {
        Some(TomlValue::Array(l)) => {
            assert(decoded.services->Some_0@ =~= m.services->Some_0@);
        },
        _ => {},
    }
    match lookup(t, "dependencies"@) {
        Some(TomlValue::Table(d)) => {
            let x = decoded.dependencies->Some_0@;
            let y = m.dependencies->Some_0@;
            assert forall|i: int| 0 <= i < x.len() implies (#[trigger] x[i]).0 == y[i].0
                && same_dependency_list(x[i].1@, y[i].1@) by {
                lemma_dependency_list_unique(x[i].1@, y[i].1@, d@[i].1->Array_0@);
            }
        },
        _ => {},
    }
}

} // verus!
