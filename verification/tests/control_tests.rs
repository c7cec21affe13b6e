use debcargo::control::{
    base_deb_name, deb_feature_name, deb_name, deb_upstream_version, dsc_name, PkgTest, Version,
};

struct PkgTestFmtData<'a> {
    feature: &'a str,
    extra_test_args: Vec<&'a str>,
    depends: Vec<String>,
    extra_restricts: Vec<&'a str>,
}

#[test]
fn pkgtest_fmt_has_no_extra_whitespace() {
    let checks = vec![
        PkgTestFmtData {
            feature: "",
            extra_test_args: Vec::new(),
            depends: Vec::new(),
            extra_restricts: Vec::new(),
        },
        PkgTestFmtData {
            feature: "X",
            extra_test_args: vec!["--no-default-features", "--features X"],
            depends: vec!["libfoo-dev".into(), "bar".into()],
            extra_restricts: vec!["flaky"],
        },
    ];

    for check in checks {
        let pkgtest = PkgTest::new(
            "librust-crate-dev",
            "crate",
            check.feature,
            "1.0",
            check.extra_test_args,
            &check.depends,
            check.extra_restricts,
        )
        .unwrap();

        for ln in pkgtest.to_string().lines() {
            let trimmed = ln.trim_end();
            assert_eq!(trimmed, ln);
        }
    }
}

#[test]
fn pkgtest_text_exact() {
    let t = PkgTest::new(
        "librust-foo+bar-dev",
        "foo",
        "bar",
        "1.2.3",
        vec!["--features", "bar"],
        &["libbaz-dev".to_string()],
        vec!["flaky"],
    )
    .unwrap();
    assert_eq!(
        t.to_string(),
        "Test-Command: /usr/share/cargo/bin/cargo-auto-test foo 1.2.3 --all-targets --features bar\n\
         Features: test-name=librust-foo+bar-dev:bar\n\
         Depends: dh-cargo (>= 18), libbaz-dev, @\n\
         Restrictions: allow-stderr, skip-not-installable, flaky\n"
    );
}

#[test]
fn package_names() {
    assert_eq!(base_deb_name("Foo_Bar"), "foo-bar");
    assert_eq!(dsc_name("foo"), "rust-foo");
    assert_eq!(deb_name("foo_bar"), "librust-foo-bar-dev");
    assert_eq!(deb_feature_name("foo", "std_x"), "librust-foo+std-x-dev");
}

#[test]
fn upstream_version_marks_prerelease() {
    let v = Version {
        major: 1,
        minor: 2,
        patch: 3,
        pre: "alpha.1".to_string(),
        build: String::new(),
    };
    assert_eq!(deb_upstream_version(&v), "1.2.3~alpha.1");
    let w = Version {
        major: 0,
        minor: 4,
        patch: 0,
        pre: String::new(),
        build: "meta".to_string(),
    };
    assert_eq!(deb_upstream_version(&w), "0.4.0");
    assert_eq!(w.to_string(), "0.4.0+meta");
}

#[test]
fn base_deb_name_of_ascii_names() {
    let once = base_deb_name("Serde_JSON");
    assert_eq!(once, "serde-json");
    assert_eq!(base_deb_name(&once), once);
    assert!(!once.contains('_'));
    assert!(!once.chars().any(|c| c.is_ascii_uppercase()));
}
