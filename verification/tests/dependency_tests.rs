use debcargo::config::Config;
use debcargo::dependency::{deb_dep, deb_dep_add_nocheck, deb_deps, DepError, DepKind, Dependency};

fn dep(name: &str, req: &str, default: bool, features: &[&str]) -> Dependency {
    Dependency {
        package_name: name.to_string(),
        name_in_toml: name.to_string(),
        version_req: req.to_string(),
        uses_default_features: default,
        features: features.iter().map(|s| s.to_string()).collect(),
        kind: DepKind::Normal,
        optional: false,
    }
}

#[test]
fn caret_requirement() {
    let c = Config::default();
    assert_eq!(
        deb_dep(&c, &dep("serde_json", "^1.0.2", true, &[])).ok().unwrap(),
        vec!["librust-serde-json-1+default-dev (>= 1.0.2-~~)".to_string()]
    );
}

#[test]
fn exact_requirement() {
    let c = Config::default();
    assert_eq!(
        deb_dep(&c, &dep("foo", "=1.2.3", true, &[])).ok().unwrap(),
        vec!["librust-foo-1.2.3+default-dev".to_string()]
    );
}

#[test]
fn range_over_minor_versions() {
    let c = Config::default();
    assert_eq!(
        deb_dep(&c, &dep("foo", ">= 0.3, < 0.5", false, &[])).ok().unwrap(),
        vec!["librust-foo-0.4-dev | librust-foo-0.3-dev".to_string()]
    );
}

#[test]
fn features_and_no_defaults() {
    let c = Config::default();
    assert_eq!(
        deb_dep(&c, &dep("foo", "~1.2", false, &["a_b"])).ok().unwrap(),
        vec!["librust-foo-1.2+a-b-dev".to_string()]
    );
}

#[test]
fn prerelease_is_refused() {
    let c = Config::default();
    match deb_dep(&c, &dep("foo", "^1.0.0-alpha", true, &[])) {
        Err(DepError::Prerelease) => {}
        _ => panic!("expected a prerelease error"),
    }
}

#[test]
fn unparsable_requirement() {
    let c = Config::default();
    match deb_dep(&c, &dep("foo", "not a version", true, &[])) {
        Err(DepError::UnparsableRequirement) => {}
        _ => panic!("expected a parse error"),
    }
}

#[test]
fn deps_are_sorted_and_unique() {
    let c = Config::default();
    let ds = vec![
        dep("zed", "^1", true, &[]),
        dep("abc", "^2.1", true, &[]),
        dep("zed", "^1", true, &[]),
    ];
    assert_eq!(
        deb_deps(&c, &ds).ok().unwrap(),
        vec![
            "librust-abc-2+default-dev (>= 2.1-~~)".to_string(),
            "librust-zed-1+default-dev".to_string()
        ]
    );
}

#[test]
fn nocheck_marks_every_alternative() {
    assert_eq!(
        deb_dep_add_nocheck("a | b (>= 1)"),
        "a <!nocheck> | b (>= 1) <!nocheck>"
    );
}
