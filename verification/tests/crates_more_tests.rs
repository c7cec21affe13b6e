use debcargo::crates::{
    all_dependencies_and_features, check_features_resolvable, feature_entry, get_summary_description,
    needs_normalized_manifest, repack_action, set_includes_excludes, single_top_dir_error, ExtractScan,
    FeatureValue, RepackAction,
};
use debcargo::dependency::{DepKind, Dependency};

fn strings(v: &[&str]) -> Vec<String> {
    v.iter().map(|s| s.to_string()).collect()
}

fn dep(name: &str, kind: DepKind, optional: bool) -> Dependency {
    Dependency {
        package_name: name.to_string(),
        name_in_toml: name.to_string(),
        version_req: "^1".to_string(),
        uses_default_features: true,
        features: vec![],
        kind,
        optional,
    }
}

#[test]
fn summary_and_description_from_the_crate() {
    let (s, d) = get_summary_description(
        Some("This crate provides a fast thing. It is great.\n\nMore."),
        "foo",
    )
    .unwrap();
    assert_eq!(s, Some("Fast thing".to_string()));
    assert_eq!(d, Some("It is great.\nMore.".to_string()));
    let (s, d) = get_summary_description(Some("foo is the library for parsing\nthings."), "foo").unwrap();
    assert_eq!(s, Some("Parsing things".to_string()));
    assert_eq!(d, None);
    assert_eq!(get_summary_description(None, "foo"), Some((None, None)));
}

#[test]
fn excluded_and_suspicious_files() {
    let f = set_includes_excludes(Some(&strings(&["tests/*"])), Some(&strings(&["src/ok.c"]))).unwrap();
    assert_eq!(f.filter_path("foo-1.0/tests/data.bin", false), Ok(true));
    assert_eq!(f.filter_path("foo-1.0/src/lib.rs", false), Ok(false));
    assert_eq!(f.filter_path("foo-1.0/src/ok.c", false), Ok(false));
    assert_eq!(
        f.filter_path("foo-1.0/src/bad.c", false),
        Err("Suspicious file, should probably be excluded: \"foo-1.0/src/bad.c\"".to_string())
    );
    assert_eq!(f.filter_path("foo-1.0/libx.a", true), Ok(false));
    assert!(set_includes_excludes(Some(&strings(&["[oops"])), None).is_none());
}

#[test]
fn repacking_the_archive() {
    let f = set_includes_excludes(Some(&strings(&["benches/*"])), None).unwrap();
    assert_eq!(repack_action(&f, "foo-1.0/Cargo.toml", false), Ok(RepackAction::ReplaceManifest));
    assert_eq!(repack_action(&f, "foo-1.0/benches/b.rs", false), Ok(RepackAction::Drop));
    assert_eq!(repack_action(&f, "foo-1.0/src/Cargo.toml", false), Ok(RepackAction::Keep));
    assert!(repack_action(&f, "foo-1.0/x.c", false).is_err());
}

#[test]
fn scanning_an_archive() {
    let mut scan = ExtractScan::new();
    assert!(!scan.entry(Ok(true)));
    assert!(scan.entry(Ok(false)));
    scan.unpacked(Some(20));
    assert!(scan.entry(Err("bad".to_string())));
    scan.unpacked(Some(10));
    scan.unpacked(None);
    assert!(scan.source_modified);
    assert_eq!(scan.last_mtime, 20);
    assert_eq!(scan.errors, strings(&["bad"]));
    assert_eq!(
        scan.failure(),
        Some("Suspicious files detected, aborting. Ask on #debian-rust if you are stuck.".to_string())
    );
    assert_eq!(ExtractScan::new().failure(), None);
}

#[test]
fn one_top_level_directory() {
    assert_eq!(single_top_dir_error("foo", "1.0.0", 1, true), None);
    assert_eq!(
        single_top_dir_error("foo", "1.0.0", 2, true),
        Some("foo-1.0.0.crate did not unpack to a single top-level directory".to_string())
    );
    assert!(single_top_dir_error("foo", "1.0.0", 1, false).is_some());
}

#[test]
fn normalized_manifests() {
    assert!(!needs_normalized_manifest("# THIS FILE IS AUTOMATICALLY GENERATED BY CARGO\n[package]\n"));
    assert!(needs_normalized_manifest("[package]\nname = \"foo\"\n"));
}

#[test]
fn features_and_their_dependencies() {
    let deps = vec![
        dep("serde", DepKind::Normal, true),
        dep("libc", DepKind::Normal, false),
        dep("cc", DepKind::Build, false),
        dep("tempfile", DepKind::Development, false),
    ];
    let features = vec![
        ("std".to_string(), vec![FeatureValue::Dep("serde".to_string())]),
        (
            "derive".to_string(),
            vec![
                FeatureValue::Feature("std".to_string()),
                FeatureValue::DepFeature("serde".to_string(), "derive".to_string()),
            ],
        ),
    ];
    assert!(check_features_resolvable(&deps, &features));
    let info = all_dependencies_and_features(&deps, &features);
    let keys: Vec<&str> = info.iter().map(|(k, _)| k.as_str()).collect();
    assert_eq!(keys, vec!["", "default", "derive", "serde", "std"]);
    let bare = &info[0].1;
    assert!(bare.features.is_empty());
    let names: Vec<&str> = bare.deps.iter().map(|d| d.package_name.as_str()).collect();
    assert_eq!(names, vec!["cc", "libc"]);
    assert_eq!(info[1].1.features, strings(&[""]));
    assert!(info[1].1.deps.is_empty());
    let derive = &info[2].1;
    assert_eq!(derive.features, strings(&["std"]));
    assert_eq!(derive.deps.len(), 1);
    assert_eq!(derive.deps[0].features, strings(&["derive"]));
    assert!(!derive.deps[0].uses_default_features);
    assert_eq!(info[3].1.features, strings(&[""]));
    assert_eq!(info[3].1.deps[0].package_name, "serde");
    assert_eq!(info[4].1.features, strings(&[""]));
    let e = feature_entry(&deps, &vec![FeatureValue::Dep("serde".to_string())]);
    assert_eq!(e.features, strings(&[""]));
    assert_eq!(e.deps.len(), 1);
    let broken = vec![("x".to_string(), vec![FeatureValue::Dep("nope".to_string())])];
    assert!(!check_features_resolvable(&deps, &broken));
}
