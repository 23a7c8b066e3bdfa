use mcpanel::forge::{
    archive_contains, default_description, default_display_test, default_features,
    default_logo_blur, default_modproperties, default_ordering, default_side,
    default_version, default_version_range, dependencies_for, find_entry, is_mod, load_mod,
    mod_entries, DependencyOrdering, DependencySide, Mod, ModDependency, ModDisplayTest,
    ModManifest,
};

fn names(list: &[&str]) -> Vec<Option<String>> {
    list.iter().map(|n| Some(n.to_string())).collect()
}

fn dependency(id: &str) -> ModDependency {
    ModDependency {
        mod_id: id.to_string(),
        mandatory: true,
        version_range: "[1,)".to_string(),
        ordering: DependencyOrdering::After,
        side: DependencySide::Server,
        referral_url: None,
    }
}

fn a_mod(id: &str, version: &str) -> Mod {
    Mod {
        mod_id: id.to_string(),
        namespace: None,
        version: version.to_string(),
        display_name: Some("Display".to_string()),
        description: default_description(),
        logo_file: None,
        logo_blur: default_logo_blur(),
        update_json_url: None,
        features: default_features(),
        modproperties: default_modproperties(),
        mod_url: None,
        credits: None,
        authors: Some("someone".to_string()),
        display_url: None,
        display_test: default_display_test(),
        dependencies: Some(vec![dependency("inline")]),
    }
}

fn manifest(mods: Vec<Mod>, dependencies: Option<Vec<(String, Vec<ModDependency>)>>) -> ModManifest {
    ModManifest {
        mod_loader: "javafml".to_string(),
        loader_version: "[47,)".to_string(),
        license: "MIT".to_string(),
        show_as_resource_pack: None,
        services: None,
        properties: None,
        issue_tracker_url: None,
        mods,
        dependencies,
    }
}

#[test]
fn defaults() {
    assert_eq!(default_side(), DependencySide::Both);
    assert_eq!(default_ordering(), DependencyOrdering::Unordered);
    assert_eq!(default_version_range(), "");
    assert_eq!(default_display_test(), ModDisplayTest::MatchVersion);
    assert!(default_modproperties().is_empty());
    assert_eq!(default_features().java_version, None);
    assert!(default_logo_blur());
    assert_eq!(default_description(), "MISSING DESCRIPTION");
    assert_eq!(default_version(), "1");
}

#[test]
fn mod_package_has_both_manifests() {
    assert!(is_mod(&names(&["META-INF/MANIFEST.MF", "x.class", "META-INF/mods.toml"])));
    assert!(is_mod(&names(&["pre/META-INF/MANIFEST.MF", "pre/META-INF/mods.toml"])));
}

#[test]
fn archive_without_mods_toml_is_no_mod_package() {
    let n = names(&["META-INF/MANIFEST.MF", "a/b.class"]);
    assert!(!is_mod(&n));
    assert_eq!(mod_entries(&n).mods_toml, None);
    assert_eq!(load_mod(None, Some("Implementation-Version: 1")).len(), 0);
}

#[test]
fn entry_order_does_not_matter() {
    assert!(is_mod(&names(&["META-INF/mods.toml", "META-INF/MANIFEST.MF"])));
    let n = names(&["META-INF/mods.toml", "META-INF/MANIFEST.MF"]);
    assert!(archive_contains(&n, &vec!["META-INF/MANIFEST.MF", "META-INF/mods.toml"]));
    assert!(archive_contains(&n, &vec!["META-INF/mods.toml", "META-INF/MANIFEST.MF"]));
}

#[test]
fn each_entry_serves_one_suffix() {
    let files = vec!["a", "a"];
    assert!(!archive_contains(&names(&["xa"]), &files));
    assert!(archive_contains(&names(&["xa", "ya"]), &files));
    assert!(archive_contains(&names(&[]), &vec![]));
    assert!(!archive_contains(&names(&[]), &vec!["a"]));
}

#[test]
fn matching_looks_past_the_first_free_entry() {
    assert!(archive_contains(&names(&["xa", "ya"]), &vec!["a", "xa"]));
    assert!(archive_contains(&names(&["xa", "ya"]), &vec!["xa", "a"]));
    assert!(!archive_contains(&names(&["xa", "ya"]), &vec!["xa", "xa"]));
}

#[test]
fn undecodable_names_match_nothing() {
    let n = vec![None, Some("META-INF/MANIFEST.MF".to_string()), None, Some("META-INF/mods.toml".to_string())];
    assert!(is_mod(&n));
    assert_eq!(find_entry(&n, "mods.toml"), Some(3));
    assert_eq!(find_entry(&vec![None], "a"), None);
}

#[test]
fn entries_to_read() {
    let n = names(&["a", "META-INF/mods.toml", "META-INF/MANIFEST.MF", "b/META-INF/mods.toml"]);
    let e = mod_entries(&n);
    assert_eq!(e.mods_toml, Some(1));
    assert_eq!(e.attributes, Some(2));
}

#[test]
fn placeholder_takes_the_implementation_version() {
    let m = manifest(vec![a_mod("foo", "${file.jarVersion}")], None);
    let out = load_mod(Some(m), Some("Manifest-Version: 1.0\nImplementation-Version: 3.2.1\n"));
    assert_eq!(out.len(), 1);
    assert_eq!(out[0].version, "3.2.1");
    assert_eq!(out[0].mod_id, "foo");
    assert_eq!(out[0].dependencies, Some(vec![dependency("inline")]));
}

#[test]
fn placeholder_stays_without_attribute_manifest() {
    let m = manifest(vec![a_mod("foo", "${file.jarVersion}")], None);
    let out = load_mod(Some(m), None);
    assert_eq!(out[0].version, "${file.jarVersion}");
}

#[test]
fn placeholder_stays_without_implementation_version() {
    let m = manifest(vec![a_mod("foo", "${file.jarVersion}")], None);
    let out = load_mod(Some(m), Some("Manifest-Version: 1.0"));
    assert_eq!(out[0].version, "${file.jarVersion}");
}

#[test]
fn plain_version_is_kept() {
    let m = manifest(vec![a_mod("foo", "2.0")], None);
    let out = load_mod(Some(m), Some("Implementation-Version: 3.2.1"));
    assert_eq!(out[0].version, "2.0");
}

#[test]
fn dependency_table_overrides_inline_lists() {
    let table = vec![
        ("foo".to_string(), vec![dependency("forge"), dependency("minecraft")]),
        ("bar".to_string(), vec![]),
    ];
    let m = manifest(vec![a_mod("foo", "1"), a_mod("bar", "1"), a_mod("baz", "1"), a_mod("foo", "2")], Some(table));
    let out = load_mod(Some(m), None);
    assert_eq!(out.len(), 4);
    assert_eq!(out[0].dependencies, Some(vec![dependency("forge"), dependency("minecraft")]));
    assert_eq!(out[1].dependencies, Some(vec![]));
    assert_eq!(out[2].dependencies, None);
    assert_eq!(out[3].dependencies, Some(vec![dependency("forge"), dependency("minecraft")]));
    assert_eq!(out[3].version, "2");
}

#[test]
fn dependency_lookup() {
    let table = vec![("foo".to_string(), vec![dependency("x")])];
    assert_eq!(dependencies_for(&table, "foo"), Some(vec![dependency("x")]));
    assert_eq!(dependencies_for(&table, "fo"), None);
}

#[test]
fn upload_fields() {
    assert!(mcpanel::forge::is_mod_upload("file", "application/x-java-archive"));
    assert!(!mcpanel::forge::is_mod_upload("file", "application/zip"));
    assert!(!mcpanel::forge::is_mod_upload("other", "application/x-java-archive"));
}
