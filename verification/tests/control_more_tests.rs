use debcargo::config::{Config, PackageKey, PackageOverride, SourceOverride};
use debcargo::control::{get_deb_author, get_envs, Description, EnvVar, Package, Source};

fn var(name: &str, v: EnvVar) -> (String, EnvVar) {
    (name.to_string(), v)
}

fn desc(p: &str, s: &str) -> Description {
    Description { prefix: p.to_string(), suffix: s.to_string() }
}

fn source() -> Source {
    Source::new(
        "foo",
        Some("-1"),
        "foo",
        "https://example.org",
        true,
        "Debian Rust Maintainers".to_string(),
        vec!["Jane <jane@example.org>".to_string(), "Joe <joe@example.org>".to_string()],
        vec!["cargo".to_string(), "rustc".to_string()],
        "no".to_string(),
    )
    .unwrap()
}

#[test]
fn first_variable_that_is_set() {
    let vars = vec![
        var("DEBFULLNAME", EnvVar::NotPresent),
        var("NAME", EnvVar::Present("Jane".to_string())),
    ];
    assert_eq!(get_envs(&vars), Ok(Some("Jane".to_string())));
    assert_eq!(get_envs(&vec![var("A", EnvVar::NotPresent)]), Ok(None));
    assert_eq!(
        get_envs(&vec![var("A", EnvVar::NotUnicode), var("B", EnvVar::Present("x".to_string()))]),
        Err("Environment variable $A not valid UTF-8".to_string())
    );
}

#[test]
fn the_packager() {
    let names = vec![var("DEBFULLNAME", EnvVar::Present("Jane Doe".to_string()))];
    let emails = vec![
        var("DEBEMAIL", EnvVar::NotPresent),
        var("EMAIL", EnvVar::Present("jane@example.org".to_string())),
    ];
    assert_eq!(get_deb_author(&names, &emails), Ok("Jane Doe <jane@example.org>".to_string()));
    assert_eq!(
        get_deb_author(&vec![var("NAME", EnvVar::NotPresent)], &emails),
        Err("Unable to determine your name; please set $DEBFULLNAME or $NAME".to_string())
    );
    assert_eq!(
        get_deb_author(&names, &vec![]),
        Err("Unable to determine your email; please set $DEBEMAIL or $EMAIL".to_string())
    );
}

#[test]
fn source_paragraph_and_changelog_entry() {
    let s = source();
    assert_eq!(s.name(), "rust-foo-1");
    assert_eq!(s.section, "rust");
    assert_eq!(s.vcs_git, "https://salsa.debian.org/rust-team/debcargo-conf.git [src/foo-1]");
    assert_eq!(
        s.changelog_entry("1.2.3-1", "foo", "1.2.3", "unstable", "2.6.0", "Mon, 1 Jan 2024 00:00:00 +0000"),
        "rust-foo-1 (1.2.3-1) unstable; urgency=medium\n\n  * Package foo 1.2.3 from crates.io with debcargo 2.6.0\n\n -- Jane <jane@example.org>, Joe <joe@example.org>  Mon, 1 Jan 2024 00:00:00 +0000\n"
    );
}

#[test]
fn source_overrides_replace_and_filter() {
    let mut s = source();
    let mut c = Config::default();
    c.source = Some(SourceOverride {
        section: Some("devel".to_string()),
        policy: None,
        homepage: None,
        vcs_git: None,
        vcs_browser: None,
        build_depends: Some(vec!["pkg-config".to_string()]),
        build_depends_excludes: Some(vec!["rustc".to_string()]),
    });
    s.apply_overrides(&c);
    assert_eq!(s.section, "devel");
    assert_eq!(s.standards, "4.6.0");
    assert_eq!(s.build_deps, vec!["cargo".to_string(), "pkg-config".to_string()]);
}

#[test]
fn binary_package_and_its_overrides() {
    let mut p = Package::new_bin("foo", None, Some("utils"), desc("short", ""), desc("long", " text"));
    assert_eq!(p.name(), "foo");
    assert_eq!(p.provides, vec!["${cargo:Provides}".to_string()]);
    assert_eq!(p.arch, "any");
    assert!(p.summary_check_len().is_ok());
    let mut c = Config::default();
    let ov = PackageOverride {
        section: Some("devel".to_string()),
        summary: None,
        description: None,
        depends: Some(vec!["libc6".to_string()]),
        recommends: None,
        suggests: None,
        provides: None,
        extra_lines: None,
        test_is_broken: None,
        test_depends: None,
    };
    c.packages = Some(vec![("bin".to_string(), ov)]);
    p.apply_overrides(&c, PackageKey::Bin, vec![]);
    assert_eq!(p.section, Some("devel".to_string()));
    assert_eq!(p.depends.last(), Some(&"libc6".to_string()));
    let q = Package::new_bin("foo", Some("-1"), None, desc(&"x".repeat(81), ""), desc("", ""));
    assert_eq!(q.name(), "foo-1");
    assert_eq!(q.provides, vec!["foo (= ${binary:Version})".to_string(), "${cargo:Provides}".to_string()]);
    assert!(q.summary_check_len().is_err());
}

#[test]
fn description_overrides() {
    let mut d = desc("generated", " - tail");
    d.apply_overrides(&Some("global".to_string()), None);
    assert_eq!(d.to_string(), "global - tail");
    d.apply_overrides(&Some("global".to_string()), Some("mine"));
    assert_eq!(d.to_string(), "mine");
}
