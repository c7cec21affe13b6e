use debcargo::crates::{
    dev_dependencies, get_binary_targets, is_lib, normalize_version_req, show_dep, Target,
    TargetKind,
};
use debcargo::dependency::{DepKind, Dependency};

fn target(kind: TargetKind, name: &str) -> Target {
    Target {
        kind,
        name: name.to_string(),
    }
}

#[test]
fn targets() {
    let ts = vec![
        target(TargetKind::Bin, "zz"),
        target(TargetKind::Lib, "foo"),
        target(TargetKind::Bin, "aa"),
        target(TargetKind::Other, "bench"),
    ];
    assert!(is_lib(&ts));
    assert_eq!(get_binary_targets(&ts), vec!["aa", "zz"]);
    let bins_only = vec![target(TargetKind::Bin, "zz"), target(TargetKind::Other, "x")];
    assert!(!is_lib(&bins_only));
}

#[test]
fn version_requirements() {
    assert_eq!(normalize_version_req(None), None);
    assert_eq!(normalize_version_req(Some("")), None);
    assert_eq!(normalize_version_req(Some("1.2")), Some("=1.2".to_string()));
    assert_eq!(normalize_version_req(Some("^1.2")), Some("^1.2".to_string()));
}

#[test]
fn dev_dependencies_are_picked() {
    let mk = |n: &str, kind: DepKind| Dependency {
        package_name: n.to_string(),
        name_in_toml: n.to_string(),
        version_req: "^1".to_string(),
        uses_default_features: true,
        features: vec![],
        kind,
        optional: false,
    };
    let ds = vec![
        mk("a", DepKind::Normal),
        mk("b", DepKind::Development),
        mk("c", DepKind::Build),
        mk("d", DepKind::Development),
    ];
    let devs = dev_dependencies(&ds);
    let names: Vec<&str> = devs.iter().map(|d| d.package_name.as_str()).collect();
    assert_eq!(names, vec!["b", "d"]);
    assert_eq!(show_dep(&ds[0]), "a ^1");
}
