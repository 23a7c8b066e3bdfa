//! The schema of `mods.toml`: from a parsed TOML document to a
//! [`ModManifest`].
//!
//! A field that the schema marks optional may be left out; where it is
//! there it must have the right type. Keys that the schema does not name are
//! ignored. A required field that is missing, or any field of the wrong type,
//! makes the whole manifest a schema violation.
use vstd::prelude::*;
use crate::forge::{
    DependencyOrdering, DependencySide, Mod, ModDependency, ModDisplayTest, ModFeatures,
    ModManifest,
};
use crate::text::str_eq;

verus! {

/// Declares `toml::Value`, held unread in [`TomlValue::Other`].
#[verifier::external_type_specification]
#[verifier::external_body]
pub struct ExTomlValue(toml::Value);

/// A parsed TOML value. Floats and dates, which the schema never reads as
/// such, stay as the TOML library gave them.
#[derive(Debug)]
pub enum TomlValue {
    String(String),
    Integer(i64),
    Boolean(bool),
    Array(Vec<TomlValue>),
    Table(Vec<(String, TomlValue)>),
    Other(toml::Value),
}

/// Why a manifest could not be decoded.
#[derive(Debug, Clone, PartialEq, Eq)]
pub enum DecodeError {
    /// The text is not TOML.
    InvalidSyntax(String),
    /// The document lacks a required field or has a field of the wrong type.
    SchemaViolation,
}

/// The value of `k` in a table: that of its first entry for `k`.
pub open spec fn lookup(t: Seq<(String, TomlValue)>, k: Seq<char>) -> Option<TomlValue>
    decreases t.len(),
{
    if t.len() == 0 {
        None
    } else if t[0].0@ == k {
        Some(t[0].1)
    } else {
        lookup(t.drop_first(), k)
    }
}

proof fn lemma_lookup_first(t: Seq<(String, TomlValue)>, i: int, k: Seq<char>)
    requires
        0 <= i < t.len(),
        t[i].0@ == k,
        forall|j: int| 0 <= j < i ==> t[j].0@ != k,
    ensures
        lookup(t, k) == Some(t[i].1),
    decreases i,
{
    if i > 0 {
        lemma_lookup_first(t.drop_first(), i - 1, k);
    }
}

proof fn lemma_lookup_absent(t: Seq<(String, TomlValue)>, k: Seq<char>)
    requires
        forall|j: int| 0 <= j < t.len() ==> t[j].0@ != k,
    ensures
        lookup(t, k) is None,
    decreases t.len(),
{
    if t.len() > 0 {
        lemma_lookup_absent(t.drop_first(), k);
    }
}

proof fn lemma_lookup_remove(t: Seq<(String, TomlValue)>, i: int, k0: Seq<char>, k: Seq<char>)
    requires
        0 <= i < t.len(),
        t[i].0@ == k0,
        forall|j: int| 0 <= j < i ==> t[j].0@ != k0,
        k != k0,
    ensures
        lookup(t.remove(i), k) == lookup(t, k),
    decreases i,
{
    if i == 0 {
        assert(t.remove(0) =~= t.drop_first());
    } else {
        assert(t.remove(i)[0] == t[0]);
        assert(t.remove(i).drop_first() =~= t.drop_first().remove(i - 1));
        if t[0].0@ != k {
            lemma_lookup_remove(t.drop_first(), i - 1, k0, k);
        }
    }
}

/// Takes the first entry for `key` out of the table.
fn take_field(t: &mut Vec<(String, TomlValue)>, key: &str) -> (r: Option<TomlValue>)
    ensures
        r == lookup(old(t)@, key@),
        forall|k: Seq<char>| k != key@ ==> #[trigger] lookup(final(t)@, k) == lookup(old(t)@, k),
{
    let mut i: usize = 0;
    while i < t.len()
        invariant
            *t == *old(t),
            i <= t@.len(),
            forall|j: int| 0 <= j < i ==> t@[j].0@ != key@,
        decreases t@.len() - i,
    {
        if str_eq(t[i].0.as_str(), key) {
            proof {
                lemma_lookup_first(t@, i as int, key@);
                assert forall|k: Seq<char>| k != key@ implies #[trigger] lookup(t@.remove(i as int), k)
                    == lookup(t@, k) by {
                    lemma_lookup_remove(t@, i as int, key@, k);
                }
            }
            let (_, v) = t.remove(i);
            return Some(v);
        }
        i = i + 1;
    }
    proof {
        lemma_lookup_absent(t@, key@);
    }
    None
}

// ---------------------------------------------------------------------------
// Fields

/// An optional text field: absent, or text.
pub open spec fn opt_text_ok(o: Option<TomlValue>) -> bool {
    o is None || o.unwrap() is String
}

pub open spec fn opt_text(o: Option<TomlValue>) -> Option<String> {
    match o {
        Some(TomlValue::String(s)) => Some(s),
        _ => None,
    }
}

pub open spec fn text_or(o: Option<TomlValue>, d: Seq<char>) -> Seq<char> {
    match o {
        Some(TomlValue::String(s)) => s@,
        _ => d,
    }
}

pub open spec fn opt_bool_ok(o: Option<TomlValue>) -> bool {
    o is None || o.unwrap() is Boolean
}

pub open spec fn opt_bool(o: Option<TomlValue>) -> Option<bool> {
    match o {
        Some(TomlValue::Boolean(b)) => Some(b),
        _ => None,
    }
}

pub open spec fn opt_table_ok(o: Option<TomlValue>) -> bool {
    o is None || o.unwrap() is Table
}

pub open spec fn opt_table(o: Option<TomlValue>) -> Option<Vec<(String, TomlValue)>> {
    match o {
        Some(TomlValue::Table(t)) => Some(t),
        _ => None,
    }
}

fn required_text(o: Option<TomlValue>) -> (r: Result<String, DecodeError>)
    ensures
        r is Ok <==> o matches Some(TomlValue::String(_)),
        r matches Ok(s) ==> o == Some(TomlValue::String(s)),
{
    match o {
        Some(TomlValue::String(s)) => Ok(s),
        _ => Err(DecodeError::SchemaViolation),
    }
}

fn optional_text(o: Option<TomlValue>) -> (r: Result<Option<String>, DecodeError>)
    ensures
        r is Ok <==> opt_text_ok(o),
        r matches Ok(s) ==> s == opt_text(o),
{
    match o {
        None => Ok(None),
        Some(TomlValue::String(s)) => Ok(Some(s)),
        _ => Err(DecodeError::SchemaViolation),
    }
}

fn text_or_default(o: Option<TomlValue>, default: String) -> (r: Result<String, DecodeError>)
    ensures
        r is Ok <==> opt_text_ok(o),
        r matches Ok(s) ==> s@ == text_or(o, default@),
{
    match o {
        None => Ok(default),
        Some(TomlValue::String(s)) => Ok(s),
        _ => Err(DecodeError::SchemaViolation),
    }
}

fn optional_bool(o: Option<TomlValue>) -> (r: Result<Option<bool>, DecodeError>)
    ensures
        r is Ok <==> opt_bool_ok(o),
        r matches Ok(b) ==> b == opt_bool(o),
{
    match o {
        None => Ok(None),
        Some(TomlValue::Boolean(b)) => Ok(Some(b)),
        _ => Err(DecodeError::SchemaViolation),
    }
}

fn optional_table(o: Option<TomlValue>) -> (r: Result<Option<Vec<(String, TomlValue)>>, DecodeError>)
    ensures
        r is Ok <==> opt_table_ok(o),
        r matches Ok(t) ==> t == opt_table(o),
{
    match o {
        None => Ok(None),
        Some(TomlValue::Table(t)) => Ok(Some(t)),
        _ => Err(DecodeError::SchemaViolation),
    }
}

// ---------------------------------------------------------------------------
// Enumerations, written in SCREAMING_SNAKE_CASE

pub open spec fn ordering_of(o: Option<TomlValue>) -> Option<DependencyOrdering> {
    match o {
        None => Some(DependencyOrdering::Unordered),
        Some(TomlValue::String(s)) => if s@ == "NONE"@ {
            Some(DependencyOrdering::Unordered)
        } else if s@ == "BEFORE"@ {
            Some(DependencyOrdering::Before)
        } else if s@ == "AFTER"@ {
            Some(DependencyOrdering::After)
        } else {
            None
        },
        _ => None,
    }
}

pub open spec fn side_of(o: Option<TomlValue>) -> Option<DependencySide> {
    match o {
        None => Some(DependencySide::Both),
        Some(TomlValue::String(s)) => if s@ == "CLIENT"@ {
            Some(DependencySide::Client)
        } else if s@ == "SERVER"@ {
            Some(DependencySide::Server)
        } else if s@ == "BOTH"@ {
            Some(DependencySide::Both)
        } else {
            None
        },
        _ => None,
    }
}

pub open spec fn display_test_of(o: Option<TomlValue>) -> Option<ModDisplayTest> {
    match o {
        None => Some(ModDisplayTest::MatchVersion),
        Some(TomlValue::String(s)) => if s@ == "NONE"@ {
            Some(ModDisplayTest::NoTest)
        } else if s@ == "MATCH_VERSION"@ {
            Some(ModDisplayTest::MatchVersion)
        } else if s@ == "IGNORE_SERVER_VERSION"@ {
            Some(ModDisplayTest::IgnoreServerVersion)
        } else if s@ == "IGNORE_ALL_VERSION"@ {
            Some(ModDisplayTest::IgnoreAllVersion)
        } else {
            None
        },
        _ => None,
    }
}

fn decode_ordering(o: Option<TomlValue>) -> (r: Result<DependencyOrdering, DecodeError>)
    ensures
        r is Ok <==> ordering_of(o) is Some,
        r matches Ok(v) ==> ordering_of(o) == Some(v),
{
    match o {
        None => Ok(DependencyOrdering::Unordered),
        Some(TomlValue::String(s)) => {
            if str_eq(s.as_str(), "NONE") {
                Ok(DependencyOrdering::Unordered)
            } else if str_eq(s.as_str(), "BEFORE") {
                Ok(DependencyOrdering::Before)
            } else if str_eq(s.as_str(), "AFTER") {
                Ok(DependencyOrdering::After)
            } else {
                Err(DecodeError::SchemaViolation)
            }
        },
        _ => Err(DecodeError::SchemaViolation),
    }
}

fn decode_side(o: Option<TomlValue>) -> (r: Result<DependencySide, DecodeError>)
    ensures
        r is Ok <==> side_of(o) is Some,
        r matches Ok(v) ==> side_of(o) == Some(v),
{
    match o {
        None => Ok(DependencySide::Both),
        Some(TomlValue::String(s)) => {
            if str_eq(s.as_str(), "CLIENT") {
                Ok(DependencySide::Client)
            } else if str_eq(s.as_str(), "SERVER") {
                Ok(DependencySide::Server)
            } else if str_eq(s.as_str(), "BOTH") {
                Ok(DependencySide::Both)
            } else {
                Err(DecodeError::SchemaViolation)
            }
        },
        _ => Err(DecodeError::SchemaViolation),
    }
}

fn decode_display_test(o: Option<TomlValue>) -> (r: Result<ModDisplayTest, DecodeError>)
    ensures
        r is Ok <==> display_test_of(o) is Some,
        r matches Ok(v) ==> display_test_of(o) == Some(v),
{
    match o {
        None => Ok(ModDisplayTest::MatchVersion),
        Some(TomlValue::String(s)) => {
            if str_eq(s.as_str(), "NONE") {
                Ok(ModDisplayTest::NoTest)
            } else if str_eq(s.as_str(), "MATCH_VERSION") {
                Ok(ModDisplayTest::MatchVersion)
            } else if str_eq(s.as_str(), "IGNORE_SERVER_VERSION") {
                Ok(ModDisplayTest::IgnoreServerVersion)
            } else if str_eq(s.as_str(), "IGNORE_ALL_VERSION") {
                Ok(ModDisplayTest::IgnoreAllVersion)
            } else {
                Err(DecodeError::SchemaViolation)
            }
        },
        _ => Err(DecodeError::SchemaViolation),
    }
}

// ---------------------------------------------------------------------------
// Dependencies

pub open spec fn dependency_ok(t: Seq<(String, TomlValue)>) -> bool {
    &&& lookup(t, "modId"@) matches Some(TomlValue::String(_))
    &&& lookup(t, "mandatory"@) matches Some(TomlValue::Boolean(_))
    &&& opt_text_ok(lookup(t, "versionRange"@))
    &&& ordering_of(lookup(t, "ordering"@)) is Some
    &&& side_of(lookup(t, "side"@)) is Some
    &&& opt_text_ok(lookup(t, "referralUrl"@))
}

pub open spec fn dependency_decoded(d: ModDependency, t: Seq<(String, TomlValue)>) -> bool {
    &&& lookup(t, "modId"@) == Some(TomlValue::String(d.mod_id))
    &&& lookup(t, "mandatory"@) == Some(TomlValue::Boolean(d.mandatory))
    &&& d.version_range@ == text_or(lookup(t, "versionRange"@), Seq::empty())
    &&& ordering_of(lookup(t, "ordering"@)) == Some(d.ordering)
    &&& side_of(lookup(t, "side"@)) == Some(d.side)
    &&& d.referral_url == opt_text(lookup(t, "referralUrl"@))
}

/// Decodes one dependency table.
pub fn decode_dependency(t: Vec<(String, TomlValue)>) -> (r: Result<ModDependency, DecodeError>)
    ensures
        r is Ok <==> dependency_ok(t@),
        r matches Ok(d) ==> dependency_decoded(d, t@),
{
    proof {
        reveal_strlit("modId");
        reveal_strlit("mandatory");
        reveal_strlit("versionRange");
        reveal_strlit("ordering");
        reveal_strlit("side");
        reveal_strlit("referralUrl");
    }
    assert("modId"@.len() == 5);
    assert("mandatory"@.len() == 9);
    assert("versionRange"@.len() == 12);
    assert("ordering"@.len() == 8);
    assert("side"@.len() == 4);
    assert("referralUrl"@.len() == 11);
    let mut t = t;
    let mod_id = take_field(&mut t, "modId");
    let mandatory = take_field(&mut t, "mandatory");
    let version_range = take_field(&mut t, "versionRange");
    let ordering = take_field(&mut t, "ordering");
    let side = take_field(&mut t, "side");
    let referral_url = take_field(&mut t, "referralUrl");
    let mod_id = match required_text(mod_id) {
        Ok(v) => v,
        Err(e) => return Err(e),
    };
    let mandatory = match mandatory {
        Some(TomlValue::Boolean(b)) => b,
        _ => return Err(DecodeError::SchemaViolation),
    };
    let version_range = match text_or_default(version_range, String::new()) {
        Ok(v) => v,
        Err(e) => return Err(e),
    };
    let ordering = match decode_ordering(ordering) {
        Ok(v) => v,
        Err(e) => return Err(e),
    };
    let side = match decode_side(side) {
        Ok(v) => v,
        Err(e) => return Err(e),
    };
    let referral_url = match optional_text(referral_url) {
        Ok(v) => v,
        Err(e) => return Err(e),
    };
    Ok(ModDependency { mod_id, mandatory, version_range, ordering, side, referral_url })
}

pub open spec fn dep_entry_ok(v: TomlValue) -> bool {
    v matches TomlValue::Table(e) && dependency_ok(e@)
}

pub open spec fn dep_list_ok(a: Seq<TomlValue>) -> bool {
    forall|i: int| 0 <= i < a.len() ==> dep_entry_ok(#[trigger] a[i])
}

pub open spec fn dep_list_decoded(r: Seq<ModDependency>, a: Seq<TomlValue>) -> bool {
    &&& r.len() == a.len()
    &&& forall|i: int| 0 <= i < r.len() ==> dependency_decoded(#[trigger] r[i], a[i]->Table_0@)
}

/// Decodes an array of dependency tables.
pub fn decode_dependency_list(a: Vec<TomlValue>) -> (r: Result<Vec<ModDependency>, DecodeError>)
    ensures
        r is Ok <==> dep_list_ok(a@),
        r matches Ok(v) ==> dep_list_decoded(v@, a@),
{
    let ghost orig = a@;
    let mut rest = a;
    let mut out: Vec<ModDependency> = Vec::new();
    while rest.len() > 0
        invariant
            orig == a@,
            out@.len() + rest@.len() == orig.len(),
            rest@ == orig.subrange(out@.len() as int, orig.len() as int),
            forall|i: int| 0 <= i < out@.len() ==> dep_entry_ok(#[trigger] orig[i]),
            forall|i: int|
                0 <= i < out@.len() ==> dependency_decoded(#[trigger] out@[i], orig[i]->Table_0@),
        decreases rest@.len(),
    {
        let ghost k = out@.len() as int;
        let v = rest.remove(0);
        assert(v == orig[k]);
        assert(rest@ =~= orig.subrange(k + 1, orig.len() as int));
        match v {
            TomlValue::Table(e) => match decode_dependency(e) {
                Ok(d) => out.push(d),
                Err(err) => {
                    assert(!dep_entry_ok(orig[k]));
                    return Err(err);
                },
            },
            _ => {
                assert(!dep_entry_ok(orig[k]));
                return Err(DecodeError::SchemaViolation);
            },
        }
    }
    Ok(out)
}

pub open spec fn opt_deps_ok(o: Option<TomlValue>) -> bool {
    o is None || (o matches Some(TomlValue::Array(a)) && dep_list_ok(a@))
}

pub open spec fn opt_deps_decoded(r: Option<Vec<ModDependency>>, o: Option<TomlValue>) -> bool {
    match o {
        Some(TomlValue::Array(a)) => r matches Some(v) && dep_list_decoded(v@, a@),
        _ => r is None,
    }
}

fn decode_optional_dependencies(o: Option<TomlValue>) -> (r: Result<Option<Vec<ModDependency>>, DecodeError>)
    ensures
        r is Ok <==> opt_deps_ok(o),
        r matches Ok(v) ==> opt_deps_decoded(v, o),
{
    match o {
        None => Ok(None),
        Some(TomlValue::Array(a)) => match decode_dependency_list(a) {
            Ok(v) => Ok(Some(v)),
            Err(e) => Err(e),
        },
        _ => Err(DecodeError::SchemaViolation),
    }
}

// ---------------------------------------------------------------------------
// Mods

pub open spec fn features_ok(o: Option<TomlValue>) -> bool {
    o is None || (o matches Some(TomlValue::Table(f)) && opt_text_ok(lookup(f@, "java_version"@)))
}

pub open spec fn java_version_of(o: Option<TomlValue>) -> Option<String> {
    match o {
        Some(TomlValue::Table(f)) => opt_text(lookup(f@, "java_version"@)),
        _ => None,
    }
}

fn decode_features(o: Option<TomlValue>) -> (r: Result<ModFeatures, DecodeError>)
    ensures
        r is Ok <==> features_ok(o),
        r matches Ok(f) ==> f.java_version == java_version_of(o),
{
    match o {
        None => Ok(ModFeatures { java_version: None }),
        Some(TomlValue::Table(f)) => {
            let mut f = f;
            match optional_text(take_field(&mut f, "java_version")) {
                Ok(v) => Ok(ModFeatures { java_version: v }),
                Err(e) => Err(e),
            }
        },
        _ => Err(DecodeError::SchemaViolation),
    }
}

pub open spec fn mod_ok(t: Seq<(String, TomlValue)>) -> bool {
    &&& lookup(t, "modId"@) matches Some(TomlValue::String(_))
    &&& opt_text_ok(lookup(t, "namespace"@))
    &&& opt_text_ok(lookup(t, "version"@))
    &&& opt_text_ok(lookup(t, "displayName"@))
    &&& opt_text_ok(lookup(t, "description"@))
    &&& opt_text_ok(lookup(t, "logoFile"@))
    &&& opt_bool_ok(lookup(t, "logoBlur"@))
    &&& opt_text_ok(lookup(t, "updateJSONURL"@))
    &&& features_ok(lookup(t, "features"@))
    &&& opt_table_ok(lookup(t, "modproperties"@))
    &&& opt_text_ok(lookup(t, "modUrl"@))
    &&& opt_text_ok(lookup(t, "credits"@))
    &&& opt_text_ok(lookup(t, "authors"@))
    &&& opt_text_ok(lookup(t, "displayURL"@))
    &&& display_test_of(lookup(t, "display_test"@)) is Some
    &&& opt_deps_ok(lookup(t, "dependencies"@))
}

pub open spec fn mod_decoded(m: Mod, t: Seq<(String, TomlValue)>) -> bool {
    &&& lookup(t, "modId"@) == Some(TomlValue::String(m.mod_id))
    &&& m.namespace == opt_text(lookup(t, "namespace"@))
    &&& m.version@ == text_or(lookup(t, "version"@), "1"@)
    &&& m.display_name == opt_text(lookup(t, "displayName"@))
    &&& m.description@ == text_or(lookup(t, "description"@), "MISSING DESCRIPTION"@)
    &&& m.logo_file == opt_text(lookup(t, "logoFile"@))
    &&& m.logo_blur == (match lookup(t, "logoBlur"@) {
        Some(TomlValue::Boolean(b)) => b,
        _ => true,
    })
    &&& m.update_json_url == opt_text(lookup(t, "updateJSONURL"@))
    &&& m.features.java_version == java_version_of(lookup(t, "features"@))
    &&& m.modproperties@ == (match lookup(t, "modproperties"@) {
        Some(TomlValue::Table(p)) => p@,
        _ => Seq::empty(),
    })
    &&& m.mod_url == opt_text(lookup(t, "modUrl"@))
    &&& m.credits == opt_text(lookup(t, "credits"@))
    &&& m.authors == opt_text(lookup(t, "authors"@))
    &&& m.display_url == opt_text(lookup(t, "displayURL"@))
    &&& display_test_of(lookup(t, "display_test"@)) == Some(m.display_test)
    &&& opt_deps_decoded(m.dependencies, lookup(t, "dependencies"@))
}

/// Decodes one `[[mods]]` table.
#[verifier::rlimit(50)]
pub fn decode_mod(t: Vec<(String, TomlValue)>) -> (r: Result<Mod, DecodeError>)
    ensures
        r is Ok <==> mod_ok(t@),
        r matches Ok(m) ==> mod_decoded(m, t@),
{
    proof {
        reveal_strlit("modId");
        reveal_strlit("namespace");
        reveal_strlit("version");
        reveal_strlit("displayName");
        reveal_strlit("description");
        reveal_strlit("logoFile");
        reveal_strlit("logoBlur");
        reveal_strlit("updateJSONURL");
        reveal_strlit("features");
        reveal_strlit("modproperties");
        reveal_strlit("modUrl");
        reveal_strlit("credits");
        reveal_strlit("authors");
        reveal_strlit("displayURL");
        reveal_strlit("display_test");
        reveal_strlit("dependencies");
    }
    assert("modId"@.len() == 5);
    assert("namespace"@.len() == 9);
    assert("version"@.len() == 7 && "version"@[0] == 'v');
    assert("displayName"@.len() == 11 && "displayName"@[1] == 'i');
    assert("description"@.len() == 11 && "description"@[1] == 'e');
    assert("logoFile"@.len() == 8 && "logoFile"@[0] == 'l' && "logoFile"@[4] == 'F');
    assert("logoBlur"@.len() == 8 && "logoBlur"@[0] == 'l' && "logoBlur"@[4] == 'B');
    assert("updateJSONURL"@.len() == 13 && "updateJSONURL"@[0] == 'u');
    assert("features"@.len() == 8 && "features"@[0] == 'f');
    assert("modproperties"@.len() == 13 && "modproperties"@[0] == 'm');
    assert("modUrl"@.len() == 6);
    assert("credits"@.len() == 7 && "credits"@[0] == 'c');
    assert("authors"@.len() == 7 && "authors"@[0] == 'a');
    assert("displayURL"@.len() == 10);
    assert("display_test"@.len() == 12 && "display_test"@[1] == 'i');
    assert("dependencies"@.len() == 12 && "dependencies"@[1] == 'e');
    let mut t = t;
    let mod_id = take_field(&mut t, "modId");
    let namespace = take_field(&mut t, "namespace");
    let version = take_field(&mut t, "version");
    let display_name = take_field(&mut t, "displayName");
    let description = take_field(&mut t, "description");
    let logo_file = take_field(&mut t, "logoFile");
    let logo_blur = take_field(&mut t, "logoBlur");
    let update_json_url = take_field(&mut t, "updateJSONURL");
    let features = take_field(&mut t, "features");
    let modproperties = take_field(&mut t, "modproperties");
    let mod_url = take_field(&mut t, "modUrl");
    let credits = take_field(&mut t, "credits");
    let authors = take_field(&mut t, "authors");
    let display_url = take_field(&mut t, "displayURL");
    let display_test = take_field(&mut t, "display_test");
    let dependencies = take_field(&mut t, "dependencies");
    let mod_id = match required_text(mod_id) {
        Ok(v) => v,
        Err(e) => return Err(e),
    };
    let namespace = match optional_text(namespace) {
        Ok(v) => v,
        Err(e) => return Err(e),
    };
    let version = match text_or_default(version, String::from_str("1")) {
        Ok(v) => v,
        Err(e) => return Err(e),
    };
    let display_name = match optional_text(display_name) {
        Ok(v) => v,
        Err(e) => return Err(e),
    };
    let description = match text_or_default(description, String::from_str("MISSING DESCRIPTION")) {
        Ok(v) => v,
        Err(e) => return Err(e),
    };
    let logo_file = match optional_text(logo_file) {
        Ok(v) => v,
        Err(e) => return Err(e),
    };
    let logo_blur = match optional_bool(logo_blur) {
        Ok(Some(b)) => b,
        Ok(None) => true,
        Err(e) => return Err(e),
    };
    let update_json_url = match optional_text(update_json_url) {
        Ok(v) => v,
        Err(e) => return Err(e),
    };
    let features = match decode_features(features) {
        Ok(v) => v,
        Err(e) => return Err(e),
    };
    let modproperties = match optional_table(modproperties) {
        Ok(Some(p)) => p,
        Ok(None) => Vec::new(),
        Err(e) => return Err(e),
    };
    let mod_url = match optional_text(mod_url) {
        Ok(v) => v,
        Err(e) => return Err(e),
    };
    let credits = match optional_text(credits) {
        Ok(v) => v,
        Err(e) => return Err(e),
    };
    let authors = match optional_text(authors) {
        Ok(v) => v,
        Err(e) => return Err(e),
    };
    let display_url = match optional_text(display_url) {
        Ok(v) => v,
        Err(e) => return Err(e),
    };
    let display_test = match decode_display_test(display_test) {
        Ok(v) => v,
        Err(e) => return Err(e),
    };
    let dependencies = match decode_optional_dependencies(dependencies) {
        Ok(v) => v,
        Err(e) => return Err(e),
    };
    Ok(
        Mod {
            mod_id,
            namespace,
            version,
            display_name,
            description,
            logo_file,
            logo_blur,
            update_json_url,
            features,
            modproperties,
            mod_url,
            credits,
            authors,
            display_url,
            display_test,
            dependencies,
        },
    )
}

pub open spec fn mod_entry_ok(v: TomlValue) -> bool {
    v matches TomlValue::Table(e) && mod_ok(e@)
}

pub open spec fn mod_list_ok(a: Seq<TomlValue>) -> bool {
    forall|i: int| 0 <= i < a.len() ==> mod_entry_ok(#[trigger] a[i])
}

pub open spec fn mod_list_decoded(r: Seq<Mod>, a: Seq<TomlValue>) -> bool {
    &&& r.len() == a.len()
    &&& forall|i: int| 0 <= i < r.len() ==> mod_decoded(#[trigger] r[i], a[i]->Table_0@)
}

/// Decodes the `[[mods]]` array.
pub fn decode_mod_list(a: Vec<TomlValue>) -> (r: Result<Vec<Mod>, DecodeError>)
    ensures
        r is Ok <==> mod_list_ok(a@),
        r matches Ok(v) ==> mod_list_decoded(v@, a@),
{
    let ghost orig = a@;
    let mut rest = a;
    let mut out: Vec<Mod> = Vec::new();
    while rest.len() > 0
        invariant
            orig == a@,
            out@.len() + rest@.len() == orig.len(),
            rest@ == orig.subrange(out@.len() as int, orig.len() as int),
            forall|i: int| 0 <= i < out@.len() ==> mod_entry_ok(#[trigger] orig[i]),
            forall|i: int| 0 <= i < out@.len() ==> mod_decoded(#[trigger] out@[i], orig[i]->Table_0@),
        decreases rest@.len(),
    {
        let ghost k = out@.len() as int;
        let v = rest.remove(0);
        assert(v == orig[k]);
        assert(rest@ =~= orig.subrange(k + 1, orig.len() as int));
        match v {
            TomlValue::Table(e) => match decode_mod(e) {
                Ok(m) => out.push(m),
                Err(err) => {
                    assert(!mod_entry_ok(orig[k]));
                    return Err(err);
                },
            },
            _ => {
                assert(!mod_entry_ok(orig[k]));
                return Err(DecodeError::SchemaViolation);
            },
        }
    }
    Ok(out)
}

pub open spec fn text_list_ok(a: Seq<TomlValue>) -> bool {
    forall|i: int| 0 <= i < a.len() ==> (#[trigger] a[i]) is String
}

pub open spec fn text_list_decoded(r: Seq<String>, a: Seq<TomlValue>) -> bool {
    &&& r.len() == a.len()
    &&& forall|i: int| 0 <= i < r.len() ==> a[i] == TomlValue::String(#[trigger] r[i])
}

/// Decodes an array of strings.
pub fn decode_text_list(a: Vec<TomlValue>) -> (r: Result<Vec<String>, DecodeError>)
    ensures
        r is Ok <==> text_list_ok(a@),
        r matches Ok(v) ==> text_list_decoded(v@, a@),
{
    let ghost orig = a@;
    let mut rest = a;
    let mut out: Vec<String> = Vec::new();
    while rest.len() > 0
        invariant
            orig == a@,
            out@.len() + rest@.len() == orig.len(),
            rest@ == orig.subrange(out@.len() as int, orig.len() as int),
            forall|i: int| 0 <= i < out@.len() ==> (#[trigger] orig[i]) is String,
            forall|i: int| 0 <= i < out@.len() ==> orig[i] == TomlValue::String(#[trigger] out@[i]),
        decreases rest@.len(),
    {
        let ghost k = out@.len() as int;
        let v = rest.remove(0);
        assert(v == orig[k]);
        assert(rest@ =~= orig.subrange(k + 1, orig.len() as int));
        match v {
            TomlValue::String(s) => out.push(s),
            _ => {
                assert(!(orig[k] is String));
                return Err(DecodeError::SchemaViolation);
            },
        }
    }
    Ok(out)
}

pub open spec fn dep_array_ok(v: TomlValue) -> bool {
    v matches TomlValue::Array(a) && dep_list_ok(a@)
}

pub open spec fn dep_table_ok(t: Seq<(String, TomlValue)>) -> bool {
    forall|i: int| 0 <= i < t.len() ==> dep_array_ok((#[trigger] t[i]).1)
}

pub open spec fn dep_table_decoded(r: Seq<(String, Vec<ModDependency>)>, t: Seq<(String, TomlValue)>) -> bool {
    &&& r.len() == t.len()
    &&& forall|i: int|
        0 <= i < r.len() ==> (#[trigger] r[i]).0 == t[i].0 && dep_list_decoded(
            r[i].1@,
            t[i].1->Array_0@,
        )
}

/// Decodes the top-level `[dependencies]` table: a dependency array for
/// each mod id.
pub fn decode_dependency_table(t: Vec<(String, TomlValue)>) -> (r: Result<Vec<(String, Vec<ModDependency>)>, DecodeError>)
    ensures
        r is Ok <==> dep_table_ok(t@),
        r matches Ok(v) ==> dep_table_decoded(v@, t@),
{
    let ghost orig = t@;
    let mut rest = t;
    let mut out: Vec<(String, Vec<ModDependency>)> = Vec::new();
    while rest.len() > 0
        invariant
            orig == t@,
            out@.len() + rest@.len() == orig.len(),
            rest@ == orig.subrange(out@.len() as int, orig.len() as int),
            forall|i: int|
                0 <= i < out@.len() ==> dep_array_ok((#[trigger] orig[i]).1),
            forall|i: int|
                0 <= i < out@.len() ==> (#[trigger] out@[i]).0 == orig[i].0 && dep_list_decoded(
                    out@[i].1@,
                    orig[i].1->Array_0@,
                ),
        decreases rest@.len(),
    {
        let ghost k = out@.len() as int;
        let (key, v) = rest.remove(0);
        assert((key, v) == orig[k]);
        assert(rest@ =~= orig.subrange(k + 1, orig.len() as int));
        match v {
            TomlValue::Array(a) => match decode_dependency_list(a) {
                Ok(d) => out.push((key, d)),
                Err(err) => {
                    assert(!dep_array_ok(orig[k].1));
                    return Err(err);
                },
            },
            _ => {
                assert(!dep_array_ok(orig[k].1));
                return Err(DecodeError::SchemaViolation);
            },
        }
    }
    Ok(out)
}

// ---------------------------------------------------------------------------
// The manifest

pub open spec fn manifest_ok(t: Seq<(String, TomlValue)>) -> bool {
    &&& lookup(t, "modLoader"@) matches Some(TomlValue::String(_))
    &&& lookup(t, "loaderVersion"@) matches Some(TomlValue::String(_))
    &&& lookup(t, "license"@) matches Some(TomlValue::String(_))
    &&& opt_bool_ok(lookup(t, "showAsResourcePack"@))
    &&& (lookup(t, "services"@) is None || (lookup(t, "services"@) matches Some(
        TomlValue::Array(a),
    ) && text_list_ok(a@)))
    &&& opt_table_ok(lookup(t, "properties"@))
    &&& opt_text_ok(lookup(t, "issueTrackerURL"@))
    &&& lookup(t, "mods"@) matches Some(TomlValue::Array(a)) && mod_list_ok(a@)
    &&& (lookup(t, "dependencies"@) is None || (lookup(t, "dependencies"@) matches Some(
        TomlValue::Table(d),
    ) && dep_table_ok(d@)))
}

pub open spec fn manifest_decoded(m: ModManifest, t: Seq<(String, TomlValue)>) -> bool {
    &&& lookup(t, "modLoader"@) == Some(TomlValue::String(m.mod_loader))
    &&& lookup(t, "loaderVersion"@) == Some(TomlValue::String(m.loader_version))
    &&& lookup(t, "license"@) == Some(TomlValue::String(m.license))
    &&& m.show_as_resource_pack == opt_bool(lookup(t, "showAsResourcePack"@))
    &&& (match lookup(t, "services"@) {
        Some(TomlValue::Array(a)) => m.services matches Some(v) && text_list_decoded(v@, a@),
        _ => m.services is None,
    })
    &&& m.properties == opt_table(lookup(t, "properties"@))
    &&& m.issue_tracker_url == opt_text(lookup(t, "issueTrackerURL"@))
    &&& mod_list_decoded(m.mods@, lookup(t, "mods"@)->Some_0->Array_0@)
    &&& (match lookup(t, "dependencies"@) {
        Some(TomlValue::Table(d)) => m.dependencies matches Some(v) && dep_table_decoded(v@, d@),
        _ => m.dependencies is None,
    })
}

/// Decodes a parsed `mods.toml` document (its top-level table).
#[verifier::rlimit(50)]
pub fn decode_manifest(root: Vec<(String, TomlValue)>) -> (r: Result<ModManifest, DecodeError>)
    ensures
        r is Ok <==> manifest_ok(root@),
        r is Err ==> r == Err::<ModManifest, DecodeError>(DecodeError::SchemaViolation),
        r matches Ok(m) ==> manifest_decoded(m, root@),
{
    proof {
        reveal_strlit("modLoader");
        reveal_strlit("loaderVersion");
        reveal_strlit("license");
        reveal_strlit("showAsResourcePack");
        reveal_strlit("services");
        reveal_strlit("properties");
        reveal_strlit("issueTrackerURL");
        reveal_strlit("mods");
        reveal_strlit("dependencies");
    }
    assert("modLoader"@.len() == 9);
    assert("loaderVersion"@.len() == 13);
    assert("license"@.len() == 7);
    assert("showAsResourcePack"@.len() == 18);
    assert("services"@.len() == 8);
    assert("properties"@.len() == 10);
    assert("issueTrackerURL"@.len() == 15);
    assert("mods"@.len() == 4);
    assert("dependencies"@.len() == 12);
    let mut t = root;
    let mod_loader = take_field(&mut t, "modLoader");
    let loader_version = take_field(&mut t, "loaderVersion");
    let license = take_field(&mut t, "license");
    let show_as_resource_pack = take_field(&mut t, "showAsResourcePack");
    let services = take_field(&mut t, "services");
    let properties = take_field(&mut t, "properties");
    let issue_tracker_url = take_field(&mut t, "issueTrackerURL");
    let mods = take_field(&mut t, "mods");
    let dependencies = take_field(&mut t, "dependencies");
    let mod_loader = match required_text(mod_loader) {
        Ok(v) => v,
        Err(_) => return Err(DecodeError::SchemaViolation),
    };
    let loader_version = match required_text(loader_version) {
        Ok(v) => v,
        Err(_) => return Err(DecodeError::SchemaViolation),
    };
    let license = match required_text(license) {
        Ok(v) => v,
        Err(_) => return Err(DecodeError::SchemaViolation),
    };
    let show_as_resource_pack = match optional_bool(show_as_resource_pack) {
        Ok(v) => v,
        Err(_) => return Err(DecodeError::SchemaViolation),
    };
    let services = match services {
        None => None,
        Some(TomlValue::Array(a)) => match decode_text_list(a) {
            Ok(v) => Some(v),
            Err(_) => return Err(DecodeError::SchemaViolation),
        },
        _ => return Err(DecodeError::SchemaViolation),
    };
    let properties = match optional_table(properties) {
        Ok(v) => v,
        Err(_) => return Err(DecodeError::SchemaViolation),
    };
    let issue_tracker_url = match optional_text(issue_tracker_url) {
        Ok(v) => v,
        Err(_) => return Err(DecodeError::SchemaViolation),
    };
    let mods = match mods {
        Some(TomlValue::Array(a)) => match decode_mod_list(a) {
            Ok(v) => v,
            Err(_) => return Err(DecodeError::SchemaViolation),
        },
        _ => return Err(DecodeError::SchemaViolation),
    };
    let dependencies = match dependencies {
        None => None,
        Some(TomlValue::Table(d)) => match decode_dependency_table(d) {
            Ok(v) => Some(v),
            Err(_) => return Err(DecodeError::SchemaViolation),
        },
        _ => return Err(DecodeError::SchemaViolation),
    };
    Ok(
        ModManifest {
            mod_loader,
            loader_version,
            license,
            show_as_resource_pack,
            services,
            properties,
            issue_tracker_url,
            mods,
            dependencies,
        },
    )
}

} // verus!
