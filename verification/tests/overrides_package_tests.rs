use debcargo::overrides::{Copyright, Files, Overrides, Package, Source};
use debcargo::package::{
    fixme_report, orig_tarball_path, package_report, PackageExtractArgs, PackageFinishArgs, PackageInitArgs,
    PackageProgress,
};

fn strings(v: &[&str]) -> Vec<String> {
    v.iter().map(|s| s.to_string()).collect()
}

fn overrides() -> Overrides {
    let mut c = Copyright::default();
    c.ignore = Some(strings(&["tests/*"]));
    c.files = Some(vec![(
        "src/*".to_string(),
        Files { copyright: strings(&["2019 Jane", "2020 Joe"]), license: "MIT".to_string() },
    )]);
    Overrides {
        source: Some(Source {
            section: Some("devel".to_string()),
            policy: Some("4.6.0".to_string()),
            homepage: None,
            build_depends: Some(strings(&["pkg-config"])),
        }),
        packages: Some(vec![(
            "librust-foo-dev".to_string(),
            Package { summary: Some("Foo".to_string()), description: None, depends: None },
        )]),
        copyright: Some(c),
    }
}

#[test]
fn what_is_overridden() {
    let o = overrides();
    assert!(o.is_source_present());
    assert!(o.is_packages_present());
    assert!(o.is_copyright_present());
    assert!(o.is_files_present());
    assert_eq!(o.section(), Some("devel".to_string()));
    assert_eq!(o.policy_version(), Some("4.6.0".to_string()));
    assert_eq!(o.homepage(), None);
    assert_eq!(o.build_depends(), Some(strings(&["pkg-config"])));
    assert_eq!(o.copyright_ignores(), Some(strings(&["tests/*"])));
    let d = Overrides::default();
    assert!(!d.is_source_present() && !d.is_files_present());
    assert_eq!(d.section(), None);
}

#[test]
fn overridden_texts_and_files() {
    let o = overrides();
    assert_eq!(o.summary_description_for("librust-foo-dev"), Some(("Foo".to_string(), String::new())));
    assert_eq!(o.summary_description_for("librust-bar-dev"), None);
    let f = o.file_section_for("src/*").unwrap();
    assert_eq!(f.files(), "src/*");
    assert_eq!(f.license(), "MIT");
    assert!(o.file_section_for("other").is_none());
    let c = o.copyright.as_ref().unwrap();
    assert_eq!(c.ignore(), Some(&strings(&["tests/*"])));
    assert_eq!(c.files().map(|v| v.len()), Some(1));
}

#[test]
fn stages_of_packaging() {
    let init = PackageInitArgs { crate_name: "foo".to_string(), version: None, config: None };
    let extract = PackageExtractArgs { directory: None };
    let finish = PackageFinishArgs { changelog_ready: false, copyright_guess_harder: true, no_overlay_write_back: false };
    assert_eq!(init.crate_name, "foo");
    assert!(finish.copyright_guess_harder);
    let mut p = PackageProgress::new();
    let dir = p.extracted(extract.directory.clone(), "rust-foo-1.0.0", true);
    assert_eq!(dir, "rust-foo-1.0.0");
    p.applied_overrides();
    let tar = orig_tarball_path("/tmp/x/rust-foo-1.0.0", "rust-foo_1.0.0.orig.tar.gz").unwrap();
    assert_eq!(tar, "/tmp/x/rust-foo_1.0.0.orig.tar.gz");
    p.generated(tar.clone());
    assert_eq!(p.orig_tarball, Some(tar));
    assert_eq!(p.source_modified, Some(true));
    assert!(p.overrides_applied);
    let mut q = PackageProgress::new();
    assert_eq!(q.extracted(Some("out".to_string()), "rust-foo-1.0.0", false), "out");
    assert_eq!(orig_tarball_path("/", "x.tar.gz"), None);
}

#[test]
fn reports_after_packaging() {
    assert_eq!(
        package_report("/w/out/rust-foo", "/w/out/rust-foo_1.orig.tar.gz", "/w"),
        "Package Source: out/rust-foo\nOriginal Tarball for package: out/rust-foo_1.orig.tar.gz\n"
    );
    assert!(fixme_report(&vec![], "/w", None, None).is_empty());
    let r = fixme_report(
        &strings(&["/w/d/copyright", "/w/d/control.debcargo.hint"]),
        "/w",
        Some("/w/conf/debcargo.toml"),
        None,
    );
    assert_eq!(
        r,
        strings(&[
            "FIXME found in the following files.",
            "\t •  d/copyright",
            "\t(•) d/control.debcargo.hint",
            "",
            "To fix, try combinations of the following: ",
            "\t •  Add or edit overrides in your config file:",
            "\t    conf/debcargo.toml",
            "\t •  Create an overlay directory and add it to your config file with overlay = \"/path/to/overlay\"",
        ])
    );
}
