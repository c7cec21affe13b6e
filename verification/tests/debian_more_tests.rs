use debcargo::config::{Config, PackageOverride};
use debcargo::debian::{choose_description, is_test_broken, source_build_depends, traverse_depth_2_within};
use debcargo::dependency::{DepKind, Dependency};

fn strings(v: &[&str]) -> Vec<String> {
    v.iter().map(|s| s.to_string()).collect()
}

fn broken() -> PackageOverride {
    PackageOverride {
        section: None,
        summary: None,
        description: None,
        depends: None,
        recommends: None,
        suggests: None,
        provides: None,
        extra_lines: None,
        test_is_broken: Some(true),
        test_depends: None,
    }
}

#[test]
fn tests_marked_broken() {
    let mut c = Config::default();
    c.packages = Some(vec![("lib+std".to_string(), broken())]);
    assert!(is_test_broken(&c, "std"));
    assert!(!is_test_broken(&c, "alloc"));
    assert!(!is_test_broken(&c, ""));
}

#[test]
fn descriptions_configured_or_from_the_crate() {
    assert_eq!(choose_description(Some("mine"), Some("crate's")), Some("mine".to_string()));
    assert_eq!(choose_description(None, Some("crate's")), Some("crate's".to_string()));
    assert_eq!(choose_description(None, None), None);
}

#[test]
fn source_build_dependencies() {
    let c = Config::default();
    let d = Dependency {
        package_name: "libc".to_string(),
        name_in_toml: "libc".to_string(),
        version_req: "^0.2".to_string(),
        uses_default_features: true,
        features: vec![],
        kind: DepKind::Normal,
        optional: false,
    };
    let r = source_build_depends(&c, &["std"], &[d], true).ok().unwrap();
    assert_eq!(
        r,
        strings(&[
            "debhelper (>= 11)",
            "dh-cargo (>= 18)",
            "cargo:native",
            "rustc:native",
            "libstd-rust-dev",
            "librust-libc-0.2+default-dev",
        ])
    );
    let r = source_build_depends(&c, &[], &[], false).ok().unwrap();
    assert_eq!(
        r,
        strings(&[
            "debhelper (>= 11)",
            "dh-cargo (>= 18)",
            "cargo:native <!nocheck>",
            "rustc:native <!nocheck>",
            "libstd-rust-dev <!nocheck>",
        ])
    );
}

#[test]
fn features_needed_in_depth_within_a_bound() {
    let map = vec![
        ("default".to_string(), strings(&["std"])),
        ("std".to_string(), strings(&["alloc"])),
        ("alloc".to_string(), strings(&[])),
    ];
    assert_eq!(traverse_depth_2_within(&map, "default", 3), Some(strings(&["std", "alloc"])));
    assert_eq!(traverse_depth_2_within(&map, "default", 2), None);
    assert_eq!(traverse_depth_2_within(&map, "nothing", 0), Some(vec![]));
    let cycle = vec![("a".to_string(), strings(&["b"])), ("b".to_string(), strings(&["a"]))];
    assert_eq!(traverse_depth_2_within(&cycle, "a", 50), None);
}
