use debcargo::config::{
    package_field_for_feature, package_key_string, Config, PackageField, PackageKey, PackageOverride,
    SourceOverride, RUST_MAINT,
};

fn strings(v: &[&str]) -> Vec<String> {
    v.iter().map(|s| s.to_string()).collect()
}

fn no_override() -> PackageOverride {
    PackageOverride {
        section: None,
        summary: None,
        description: None,
        depends: None,
        recommends: None,
        suggests: None,
        provides: None,
        extra_lines: None,
        test_is_broken: None,
        test_depends: None,
    }
}

fn sample() -> Config {
    let mut c = Config::default();
    let mut lib = no_override();
    lib.section = Some("rust".to_string());
    lib.depends = Some(strings(&["libfoo-dev"]));
    lib.test_is_broken = Some(true);
    let mut feat = no_override();
    feat.depends = Some(strings(&["libbar-dev"]));
    feat.summary = Some("the std feature".to_string());
    let mut other = no_override();
    other.depends = Some(strings(&["libbaz-dev"]));
    c.packages = Some(vec![
        ("lib".to_string(), lib),
        ("lib+std".to_string(), feat),
        ("lib+alloc".to_string(), other),
    ]);
    c.source = Some(SourceOverride {
        section: Some("devel".to_string()),
        policy: Some("4.6.0".to_string()),
        homepage: None,
        vcs_git: Some("https://salsa.debian.org/x.git".to_string()),
        vcs_browser: None,
        build_depends: Some(strings(&["pkg-config"])),
        build_depends_excludes: None,
    });
    c
}

#[test]
fn keys_of_packages() {
    assert_eq!(package_key_string(PackageKey::Bin), "bin");
    assert_eq!(package_key_string(PackageKey::BareLib), "lib");
    assert_eq!(package_key_string(PackageKey::feature("std")), "lib+std");
    assert_eq!(package_key_string(PackageKey::feature("")), "lib");
}

#[test]
fn the_default_configuration() {
    let c = Config::default();
    assert_eq!(c.maintainer(), RUST_MAINT);
    assert!(c.build_bin_package());
    assert_eq!(c.section(), None);
    assert_eq!(c.policy_version(), None);
    assert_eq!(c.uploaders(), None);
    assert_eq!(c.requires_root(), None);
    assert_eq!(c.orig_tar_excludes(), None);
    assert_eq!(c.orig_tar_whitelist(), None);
    assert_eq!(c.package_summary(PackageKey::BareLib), None);
}

#[test]
fn binaries_and_semver_suffixes() {
    let mut c = Config::default();
    c.semver_suffix = true;
    assert!(!c.build_bin_package());
    c.bin = Some(true);
    assert!(c.build_bin_package());
}

#[test]
fn source_overrides() {
    let c = sample();
    assert_eq!(c.section(), Some("devel"));
    assert_eq!(c.policy_version(), Some("4.6.0"));
    assert_eq!(c.homepage(), None);
    assert_eq!(c.vcs_git(), Some("https://salsa.debian.org/x.git"));
    assert_eq!(c.vcs_browser(), None);
    assert_eq!(c.build_depends(), Some(&strings(&["pkg-config"])));
    assert_eq!(c.build_depends_excludes(), None);
}

#[test]
fn package_overrides() {
    let c = sample();
    assert_eq!(c.package_section(PackageKey::BareLib), Some("rust"));
    assert_eq!(c.package_summary(PackageKey::feature("std")), Some("the std feature"));
    assert_eq!(c.package_description(PackageKey::feature("std")), None);
    assert_eq!(c.package_depends(PackageKey::BareLib), Some(&strings(&["libfoo-dev"])));
    assert_eq!(c.package_field(PackageKey::feature("std"), PackageField::Depends), Some(&strings(&["libbar-dev"])));
    assert_eq!(c.package_recommends(PackageKey::BareLib), None);
    assert_eq!(c.package_suggests(PackageKey::BareLib), None);
    assert_eq!(c.package_provides(PackageKey::BareLib), None);
    assert_eq!(c.package_extra_lines(PackageKey::BareLib), None);
    assert_eq!(c.package_test_depends(PackageKey::BareLib), None);
    assert_eq!(c.package_test_is_broken(PackageKey::BareLib), Some(true));
    assert_eq!(c.package_test_is_broken(PackageKey::Bin), None);
}

#[test]
fn fields_gathered_over_provided_features() {
    let c = sample();
    let r = package_field_for_feature(&c, PackageField::Depends, PackageKey::feature("std"), &["alloc"]);
    assert_eq!(r, strings(&["libbar-dev", "libbaz-dev"]));
    let r = package_field_for_feature(&c, PackageField::Depends, PackageKey::BareLib, &[]);
    assert_eq!(r, strings(&["libfoo-dev"]));
    let r = package_field_for_feature(&c, PackageField::Recommends, PackageKey::BareLib, &["std"]);
    assert!(r.is_empty());
}

#[test]
fn directories_beside_the_configuration() {
    let mut c = Config::default();
    assert_eq!(c.overlay_dir(Some("conf/foo/debian/debcargo.toml")), None);
    c.overlay = Some(".".to_string());
    c.crate_src_path = Some("../src".to_string());
    assert_eq!(c.overlay_dir(Some("conf/foo/debian/debcargo.toml")), Some("conf/foo/debian/.".to_string()));
    assert_eq!(c.crate_src_path(Some("conf/debcargo.toml")), Some("conf/../src".to_string()));
    assert_eq!(c.overlay_dir(None), None);
}
