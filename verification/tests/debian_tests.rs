use debcargo::config::Config;
use debcargo::control::Version;
use debcargo::debian::{
    bin_package_name, binaries_to_package, bins_boilerplate, broken_tests, checksum_json,
    choose_summary, copyright_years, feature_test_args, package_tests_broken,
    recommends_suggests, rules, semver, semver_uscan_pattern, traverse_depth_2, watch, BaseInfo,
};

fn version(major: u64, minor: u64, patch: u64) -> Version {
    Version {
        major,
        minor,
        patch,
        pre: String::new(),
        build: String::new(),
    }
}

#[test]
fn base_info_names() {
    let b = BaseInfo::new("Foo_Bar", &version(0, 3, 1), "2.6.0", false, "");
    assert_eq!(b.base_package_name(), "foo-bar");
    assert_eq!(b.package_name(), "foo-bar");
    assert_eq!(b.name_suffix(), None);
    assert_eq!(b.package_source_dir(), "rust-foo-bar-0.3.1");
    assert_eq!(b.orig_tarball_path(), "rust-foo-bar_0.3.1.orig.tar.gz");
    let s = BaseInfo::new("rand", &version(0, 7, 3), "2.6.0", true, "0.7.*");
    assert_eq!(s.name_suffix(), Some("-0.7"));
    assert_eq!(s.package_name(), "rand-0.7");
    assert_eq!(s.package_source_dir(), "rust-rand-0.7-0.7.3");
    assert_eq!(s.upstream_name(), "rand");
    assert_eq!(s.debian_version(), "0.7.3");
    assert_eq!(s.debcargo_version(), "2.6.0");
}

#[test]
fn semver_series() {
    assert_eq!(semver(&version(0, 7, 3)), "0.7");
    assert_eq!(semver(&version(2, 1, 0)), "2");
}

fn features() -> Vec<(String, Vec<String>)> {
    vec![
        ("".to_string(), vec![]),
        ("default".to_string(), vec!["std".to_string()]),
        ("std".to_string(), vec!["".to_string(), "alloc".to_string()]),
        ("alloc".to_string(), vec!["".to_string()]),
    ]
}

#[test]
fn traverse_depth_2_is_depth_first() {
    let m = features();
    assert_eq!(
        traverse_depth_2(&m, "default"),
        vec!["std", "", "alloc", ""]
    );
    assert_eq!(traverse_depth_2(&m, "nothing"), Vec::<String>::new());
}

#[test]
fn broken_tests_follow_needed_features() {
    let mut config = Config::default();
    let broken = debcargo::config::PackageOverride {
        section: None,
        summary: None,
        description: None,
        depends: None,
        recommends: None,
        suggests: None,
        provides: None,
        extra_lines: None,
        test_is_broken: Some(true),
        test_depends: None,
    };
    config.packages = Some(vec![("lib+alloc".to_string(), broken)]);
    let (all, table) = broken_tests(&config, &features());
    assert!(all);
    let t: Vec<(&str, bool)> = table.iter().map(|(f, b)| (f.as_str(), *b)).collect();
    assert_eq!(
        t,
        vec![("", false), ("default", true), ("std", true), ("alloc", true)]
    );
    assert!(package_tests_broken(&table, "", &vec!["std".to_string()]));
    assert!(!package_tests_broken(&table, "", &vec![]));
}

#[test]
fn small_debian_files() {
    assert_eq!(
        checksum_json(Some("abc")),
        "{\"package\":\"abc\",\"files\":{}}\n"
    );
    assert_eq!(
        checksum_json(None),
        "{\"package\":\"Could not get crate checksum\",\"files\":{}}\n"
    );
    assert_eq!(
        rules(true, false),
        "#!/usr/bin/make -f\n%:\n\tdh $@ --buildsystem cargo\n"
    );
    assert_eq!(
        rules(false, true),
        "#!/usr/bin/make -f\n%:\n\tdh $@ --buildsystem cargo\n\noverride_dh_auto_test:\n\tdh_auto_test -- test --all || true\n"
    );
    let w = watch("foo", None);
    assert_eq!(w.lines().count(), 4);
    assert!(w.ends_with(
        "https://qa.debian.org/cgi-bin/fakeupstream.cgi?upstream=crates.io/foo .*/crates/foo/@ANY_VERSION@/download\n"
    ));
    assert!(w.contains("/download/foo-$1\\.tar\\.gz/g,\\\n"));
}

#[test]
fn summary_and_binaries() {
    let long = "x".repeat(81);
    assert_eq!(choose_summary(None, Some(&long)), (Some(long.clone()), true));
    assert_eq!(
        choose_summary(Some("mine"), Some(&long)),
        (Some("mine".to_string()), false)
    );
    assert_eq!(choose_summary(None, Some("short")), (Some("short".to_string()), false));
    assert_eq!(
        binaries_to_package(true, vec!["a".to_string()], false),
        Vec::<String>::new()
    );
    assert_eq!(
        binaries_to_package(false, vec!["a".to_string()], false),
        vec!["a".to_string()]
    );
    assert_eq!(bin_package_name(&Config::default(), "foo_bar"), "foo-bar");
    assert_eq!(
        bins_boilerplate("foo", &vec!["a".to_string(), "b".to_string()]),
        "This package contains the following binaries built from the Rust crate\n\"foo\":\n - a\n - b"
    );
    assert_eq!(feature_test_args(""), vec!["--no-default-features"]);
    assert_eq!(feature_test_args("x"), vec!["--features", "x"]);
    assert_eq!(copyright_years(false, Some((2015, 2018)), 2020), Some((2015, 2020)));
    assert_eq!(copyright_years(false, None, 2020), Some((2020, 2020)));
    assert_eq!(copyright_years(true, None, 2020), None);
}

#[test]
fn recommended_and_suggested_features() {
    let provides = vec![
        ("".to_string(), vec![]),
        ("default".to_string(), vec![]),
        ("std".to_string(), vec!["default".to_string()]),
        ("serde".to_string(), vec![]),
    ];
    let (rec, sug) = recommends_suggests(&provides);
    assert_eq!(rec, vec!["default", "std"]);
    assert_eq!(sug, vec!["serde"]);
}

#[test]
fn uscan_pattern_of_a_series() {
    assert_eq!(semver_uscan_pattern(&version(0, 3, 1)), "[-_]?(0\\.3\\.\\d[\\-+\\.:\\~\\da-zA-Z]*)");
    assert_eq!(semver_uscan_pattern(&version(2, 7, 0)), "[-_]?(2\\.\\d[\\-+\\.:\\~\\da-zA-Z]*)");
}
