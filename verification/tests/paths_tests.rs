use debcargo::paths::{hint_file_for, path_beside, rel_p, relevant_fixmes};
use debcargo::pattern::{Glob, RegexMatcher};

fn strings(v: &[&str]) -> Vec<String> {
    v.iter().map(|s| s.to_string()).collect()
}

#[test]
fn hint_files_and_their_partners() {
    assert_eq!(hint_file_for("debian/copyright.debcargo.hint"), Some("debian/copyright".to_string()));
    assert_eq!(hint_file_for("debian/copyright"), None);
    assert_eq!(hint_file_for(".debcargo.hint"), Some("".to_string()));
}

#[test]
fn relative_paths() {
    assert_eq!(rel_p("/a/b/c", "/a"), "b/c");
    assert_eq!(rel_p("/x/y", "/a"), "/x/y");
    assert_eq!(rel_p("/a", "/a"), "");
}

#[test]
fn paths_beside_a_directory() {
    assert_eq!(path_beside(Some("conf/foo/debian/debcargo.toml"), Some("overlay")), Some("conf/foo/debian/overlay".to_string()));
    assert_eq!(path_beside(Some("debcargo.toml"), Some("overlay")), Some("overlay".to_string()));
    assert_eq!(path_beside(None, Some("overlay")), None);
    assert_eq!(path_beside(Some("a/b"), None), None);
    assert_eq!(path_beside(Some("/"), Some("x")), None);
}

#[test]
fn fixmes_worth_reporting() {
    let fixmes = strings(&[
        "d/copyright",
        "d/copyright.debcargo.hint",
        "d/control.debcargo.hint",
        "d/rules.debcargo.hint",
        "d/watch",
    ]);
    // the partners of the hint files: copyright (has a FIXME), control
    // (exists, no FIXME), rules (missing)
    let exists = vec![false, true, true, false, false];
    assert_eq!(
        relevant_fixmes(&fixmes, &exists),
        strings(&["d/copyright", "d/copyright.debcargo.hint", "d/rules.debcargo.hint", "d/watch"])
    );
}

#[test]
fn glob_patterns() {
    let g = Glob::new("tests/**/*.rs").unwrap();
    assert!(g.matches_path("tests/a/b.rs"));
    assert!(!g.matches_path("src/b.rs"));
    assert!(Glob::new("a[").is_none());
}

#[test]
fn regular_expressions() {
    let r = RegexMatcher::new(r"\s*/\s*|\s+OR\s+").unwrap();
    assert_eq!(r.split("MIT OR Apache-2.0"), strings(&["MIT", "Apache-2.0"]));
    assert_eq!(r.split("MIT/Apache-2.0"), strings(&["MIT", "Apache-2.0"]));
    let c = RegexMatcher::new(r"(\d+)-(\d+)").unwrap();
    assert_eq!(c.capture("years 2017-2019", 2), Some("2019".to_string()));
    assert_eq!(c.capture("no years", 1), None);
    assert_eq!(c.replace_first("2017-2019 and 2020-2021", "X"), "X and 2020-2021");
    assert!(RegexMatcher::new("(").is_none());
}
