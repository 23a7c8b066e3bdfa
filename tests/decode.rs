use mcpanel::decode::{
    decode_dependency, decode_manifest, decode_mod, DecodeError, TomlValue,
};
use mcpanel::encode::encode_manifest;
use mcpanel::forge::{
    load_mod, DependencyOrdering, DependencySide, Mod, ModDependency, ModDisplayTest, ModFeatures,
    ModManifest,
};

fn text(s: &str) -> TomlValue {
    TomlValue::String(s.to_string())
}

fn entry(k: &str, v: TomlValue) -> (String, TomlValue) {
    (k.to_string(), v)
}

fn dependency_table(id: &str) -> TomlValue {
    TomlValue::Table(vec![
        entry("modId", text(id)),
        entry("mandatory", TomlValue::Boolean(true)),
        entry("versionRange", text("[47,)")),
        entry("ordering", text("NONE")),
        entry("side", text("BOTH")),
    ])
}

fn mod_table(id: &str, version: Option<&str>) -> TomlValue {
    let mut t = vec![entry("modId", text(id)), entry("displayName", text("Example"))];
    if let Some(v) = version {
        t.push(entry("version", text(v)));
    }
    TomlValue::Table(t)
}

fn root(mods: Vec<TomlValue>) -> Vec<(String, TomlValue)> {
    vec![
        entry("modLoader", text("javafml")),
        entry("loaderVersion", text("[47,)")),
        entry("license", text("MIT")),
        entry("mods", TomlValue::Array(mods)),
    ]
}

#[test]
fn decodes_a_minimal_manifest_with_defaults() {
    let m = decode_manifest(root(vec![mod_table("examplemod", None)])).unwrap();
    assert_eq!(m.mod_loader, "javafml");
    assert_eq!(m.loader_version, "[47,)");
    assert_eq!(m.license, "MIT");
    assert_eq!(m.show_as_resource_pack, None);
    assert!(m.services.is_none());
    assert!(m.properties.is_none());
    assert!(m.dependencies.is_none());
    assert_eq!(m.mods.len(), 1);
    let md = &m.mods[0];
    assert_eq!(md.mod_id, "examplemod");
    assert_eq!(md.version, "1");
    assert_eq!(md.description, "MISSING DESCRIPTION");
    assert_eq!(md.display_name, Some("Example".to_string()));
    assert!(md.logo_blur);
    assert_eq!(md.features.java_version, None);
    assert!(md.modproperties.is_empty());
    assert_eq!(md.display_test, ModDisplayTest::MatchVersion);
    assert!(md.dependencies.is_none());
}

#[test]
fn missing_required_field_is_a_schema_violation() {
    let mut r = root(vec![]);
    r.remove(2);
    assert_eq!(decode_manifest(r).err(), Some(DecodeError::SchemaViolation));
    let mut r = root(vec![]);
    r.remove(3);
    assert_eq!(decode_manifest(r).err(), Some(DecodeError::SchemaViolation));
}

#[test]
fn field_of_the_wrong_type_is_a_schema_violation() {
    let mut r = root(vec![]);
    r.push(entry("showAsResourcePack", text("yes")));
    assert_eq!(decode_manifest(r).err(), Some(DecodeError::SchemaViolation));
    let mut r = root(vec![TomlValue::Integer(3)]);
    r.push(entry("issueTrackerURL", text("https://example.org")));
    assert_eq!(decode_manifest(r).err(), Some(DecodeError::SchemaViolation));
    assert_eq!(
        decode_mod(vec![entry("modId", TomlValue::Integer(7))]).err(),
        Some(DecodeError::SchemaViolation)
    );
}

#[test]
fn unknown_keys_are_ignored() {
    let mut r = root(vec![]);
    r.push(entry("somethingElse", TomlValue::Integer(1)));
    assert!(decode_manifest(r).is_ok());
}

#[test]
fn decodes_enumerations() {
    let d = decode_dependency(vec![
        entry("modId", text("forge")),
        entry("mandatory", TomlValue::Boolean(false)),
        entry("ordering", text("AFTER")),
        entry("side", text("CLIENT")),
        entry("referralUrl", text("https://example.org")),
    ])
    .unwrap();
    assert_eq!(d.mod_id, "forge");
    assert!(!d.mandatory);
    assert_eq!(d.version_range, "");
    assert_eq!(d.ordering, DependencyOrdering::After);
    assert_eq!(d.side, DependencySide::Client);
    assert_eq!(d.referral_url, Some("https://example.org".to_string()));
    let bad = decode_dependency(vec![
        entry("modId", text("forge")),
        entry("mandatory", TomlValue::Boolean(false)),
        entry("side", text("Client")),
    ]);
    assert_eq!(bad.err(), Some(DecodeError::SchemaViolation));
    let m = decode_mod(vec![entry("modId", text("a")), entry("display_test", text("IGNORE_ALL_VERSION"))])
        .unwrap();
    assert_eq!(m.display_test, ModDisplayTest::IgnoreAllVersion);
}

#[test]
fn dependency_without_mandatory_is_a_schema_violation() {
    let d = decode_dependency(vec![entry("modId", text("forge"))]);
    assert_eq!(d.err(), Some(DecodeError::SchemaViolation));
}

#[test]
fn decodes_services_properties_and_dependency_table() {
    let mut r = root(vec![mod_table("foo", Some("${file.jarVersion}"))]);
    r.push(entry("services", TomlValue::Array(vec![text("a.B"), text("c.D")])));
    r.push(entry("properties", TomlValue::Table(vec![entry("x", TomlValue::Integer(1))])));
    r.push(entry(
        "dependencies",
        TomlValue::Table(vec![entry("foo", TomlValue::Array(vec![dependency_table("forge")]))]),
    ));
    let m = decode_manifest(r).unwrap();
    assert_eq!(m.services, Some(vec!["a.B".to_string(), "c.D".to_string()]));
    assert_eq!(m.properties.as_ref().map(|p| p.len()), Some(1));
    let table = m.dependencies.as_ref().unwrap();
    assert_eq!(table.len(), 1);
    assert_eq!(table[0].0, "foo");
    assert_eq!(table[0].1[0].mod_id, "forge");
    assert_eq!(table[0].1[0].side, DependencySide::Both);

    let out = load_mod(Some(m), Some("Implementation-Version: 3.2.1"));
    assert_eq!(out.len(), 1);
    assert_eq!(out[0].version, "3.2.1");
    assert_eq!(out[0].dependencies.as_ref().map(|d| d.len()), Some(1));
}

#[test]
fn services_must_be_text() {
    let mut r = root(vec![]);
    r.push(entry("services", TomlValue::Array(vec![TomlValue::Boolean(true)])));
    assert_eq!(decode_manifest(r).err(), Some(DecodeError::SchemaViolation));
}

#[test]
fn first_entry_for_a_key_is_read() {
    let m = decode_mod(vec![entry("modId", text("first")), entry("modId", text("second"))]).unwrap();
    assert_eq!(m.mod_id, "first");
}

#[test]
fn resolve_without_a_document_gives_nothing() {
    let out = mcpanel::forge::resolve(None, Some("Implementation-Version: 3.2.1")).unwrap();
    assert!(out.is_empty());
}

#[test]
fn resolve_decodes_then_substitutes_the_version() {
    let doc = root(vec![mod_table("foo", Some("${file.jarVersion}")), mod_table("bar", Some("2"))]);
    let out = mcpanel::forge::resolve(Some(doc), Some("Implementation-Version: 3.2.1")).unwrap();
    assert_eq!(out.len(), 2);
    assert_eq!(out[0].version, "3.2.1");
    assert_eq!(out[1].version, "2");
    let no_attributes = root(vec![mod_table("foo", Some("${file.jarVersion}"))]);
    let out = mcpanel::forge::resolve(Some(no_attributes), None).unwrap();
    assert_eq!(out[0].version, "${file.jarVersion}");
}

#[test]
fn resolve_reports_a_schema_violation() {
    let mut doc = root(vec![]);
    doc.remove(0);
    assert_eq!(
        mcpanel::forge::resolve(Some(doc), None).err(),
        Some(DecodeError::SchemaViolation)
    );
}

#[test]
fn encoded_manifest_decodes_to_itself() {
    let dep = ModDependency {
        mod_id: "forge".to_string(),
        mandatory: true,
        version_range: "[47,)".to_string(),
        ordering: DependencyOrdering::Before,
        side: DependencySide::Server,
        referral_url: Some("https://example.org".to_string()),
    };
    let m = Mod {
        mod_id: "examplemod".to_string(),
        namespace: Some("ex".to_string()),
        version: "${file.jarVersion}".to_string(),
        display_name: None,
        description: "An example".to_string(),
        logo_file: None,
        logo_blur: false,
        update_json_url: None,
        features: ModFeatures { java_version: Some("[17,)".to_string()) },
        modproperties: vec![entry("k", TomlValue::Integer(3))],
        mod_url: None,
        credits: Some("all".to_string()),
        authors: None,
        display_url: None,
        display_test: ModDisplayTest::IgnoreServerVersion,
        dependencies: Some(vec![dep.clone()]),
    };
    let manifest = ModManifest {
        mod_loader: "javafml".to_string(),
        loader_version: "[47,)".to_string(),
        license: "MIT".to_string(),
        show_as_resource_pack: Some(false),
        services: Some(vec!["a.B".to_string()]),
        properties: None,
        issue_tracker_url: Some("https://example.org/issues".to_string()),
        mods: vec![m],
        dependencies: Some(vec![("examplemod".to_string(), vec![dep.clone()])]),
    };
    let back = decode_manifest(encode_manifest(manifest)).unwrap();
    assert_eq!(back.mod_loader, "javafml");
    assert_eq!(back.loader_version, "[47,)");
    assert_eq!(back.license, "MIT");
    assert_eq!(back.show_as_resource_pack, Some(false));
    assert_eq!(back.services, Some(vec!["a.B".to_string()]));
    assert!(back.properties.is_none());
    assert_eq!(back.issue_tracker_url, Some("https://example.org/issues".to_string()));
    let md = &back.mods[0];
    assert_eq!(md.mod_id, "examplemod");
    assert_eq!(md.namespace, Some("ex".to_string()));
    assert_eq!(md.version, "${file.jarVersion}");
    assert_eq!(md.display_name, None);
    assert_eq!(md.description, "An example");
    assert!(!md.logo_blur);
    assert_eq!(md.features.java_version, Some("[17,)".to_string()));
    assert_eq!(md.modproperties.len(), 1);
    assert_eq!(md.credits, Some("all".to_string()));
    assert_eq!(md.display_test, ModDisplayTest::IgnoreServerVersion);
    assert_eq!(md.dependencies, Some(vec![dep.clone()]));
    assert_eq!(back.dependencies, Some(vec![("examplemod".to_string(), vec![dep])]));
}
