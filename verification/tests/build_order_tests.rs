use debcargo::build_order::{
    config_candidates, copy_deps, dep_eq, dep_features, get_build_deps, transitive_deps,
    transitive_deps_within, ResolveType,
};
use debcargo::control::Version;
use debcargo::crates::FeatureDeps;
use debcargo::dependency::{DepKind, Dependency};

fn strings(v: &[&str]) -> Vec<String> {
    v.iter().map(|s| s.to_string()).collect()
}

fn dep(name: &str) -> Dependency {
    Dependency {
        package_name: name.to_string(),
        name_in_toml: name.to_string(),
        version_req: "^1".to_string(),
        uses_default_features: true,
        features: vec![],
        kind: DepKind::Normal,
        optional: false,
    }
}

fn entry(name: &str, features: &[&str], deps: &[&str]) -> (String, FeatureDeps) {
    (
        name.to_string(),
        FeatureDeps {
            features: strings(features),
            deps: deps.iter().map(|d| dep(d)).collect(),
        },
    )
}

fn info() -> Vec<(String, FeatureDeps)> {
    vec![
        entry("", &[], &["libc"]),
        entry("default", &["std"], &[]),
        entry("serde", &[""], &["serde"]),
        entry("std", &[""], &["memchr"]),
    ]
}

fn names(v: &[Dependency]) -> Vec<String> {
    let mut n: Vec<String> = v.iter().map(|d| d.package_name.clone()).collect();
    n.sort();
    n
}

#[test]
fn features_and_dependencies_in_depth() {
    let (fs, ds) = transitive_deps(&info(), "default");
    assert_eq!(fs, strings(&["std", ""]));
    assert_eq!(names(&ds), strings(&["libc", "memchr"]));
    let (fs, ds) = transitive_deps_within(&info(), "default", 3).unwrap();
    assert_eq!(fs, strings(&["std", ""]));
    assert_eq!(ds.len(), 2);
    assert!(transitive_deps_within(&info(), "default", 2).is_none());
    assert!(transitive_deps_within(&info(), "nope", 5).is_none());
}

#[test]
fn what_a_dependent_needs_built_first() {
    let (hard, soft) = get_build_deps(&info(), "serde", ResolveType::SourceForDebianUnstable, false);
    assert_eq!(names(&hard), strings(&["libc", "memchr", "serde"]));
    assert!(soft.is_empty());
    let (hard, soft) = get_build_deps(&info(), "", ResolveType::BinaryAllForDebianTesting, false);
    assert_eq!(names(&hard), strings(&["libc", "memchr"]));
    assert_eq!(names(&soft), strings(&["serde"]));
    let (hard, soft) = get_build_deps(&info(), "", ResolveType::BinaryAllForDebianTesting, true);
    assert_eq!(names(&hard), strings(&["libc", "memchr", "serde"]));
    assert!(soft.is_empty());
}

#[test]
fn features_a_dependency_asks_for() {
    let mut d = dep("foo");
    d.features = strings(&["std"]);
    assert_eq!(dep_features(&d), strings(&["std", "default", ""]));
    d.uses_default_features = false;
    assert_eq!(dep_features(&d), strings(&["std", ""]));
}

#[test]
fn where_configurations_are_looked_up() {
    let v = Version { major: 1, minor: 2, patch: 3, pre: String::new(), build: String::new() };
    assert_eq!(config_candidates("foo", &v), strings(&["foo-1.2.3", "foo-1.2", "foo-1", "foo"]));
}

#[test]
fn comparing_and_copying_dependencies() {
    let a = dep("foo");
    let mut b = dep("foo");
    assert!(dep_eq(&a, &b));
    b.optional = true;
    assert!(!dep_eq(&a, &b));
    let c = copy_deps(&vec![a, b]);
    assert_eq!(c.len(), 2);
    assert!(c[1].optional);
}
