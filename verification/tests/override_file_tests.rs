use debcargo::config::{Config, PackageKey, PackageOverride, SourceOverride};
use debcargo::overrides::{Copyright, Files, Overrides, Package, Source};

const SUMMARY: &str = "Tool to create Debian package from Rust crate";
const DESCRIPTION: &str = "\
This package provides debcargo a tool to create Debian source package from \
                    Rust
crate. The package created by this tool is as per the packaging policy \
                    set by
Debian Rust team.
";

fn no_package() -> PackageOverride {
    PackageOverride {
        section: None,
        summary: None,
        description: None,
        depends: None,
        recommends: None,
        suggests: None,
        provides: None,
        extra_lines: None,
        test_is_broken: None,
        test_depends: None,
    }
}

fn source(section: Option<&str>, policy: Option<&str>, homepage: Option<&str>) -> SourceOverride {
    SourceOverride {
        section: section.map(|s| s.to_string()),
        policy: policy.map(|s| s.to_string()),
        homepage: homepage.map(|s| s.to_string()),
        vcs_git: None,
        vcs_browser: None,
        build_depends: None,
        build_depends_excludes: None,
    }
}

/// The values of the clap configuration: its source paragraph and a
/// package override.
fn clap_config() -> Config {
    let mut c = Config::default();
    c.source = Some(source(None, Some("4.0.0"), Some("https://clap.rs")));
    c.packages = Some(vec![("lib".to_string(), no_package())]);
    c
}

/// The values of debcargo's own configuration.
fn debcargo_config() -> Config {
    let mut c = Config::default();
    c.source = Some(source(Some("rust"), None, None));
    let mut bin = no_package();
    bin.summary = Some(SUMMARY.to_string());
    bin.description = Some(DESCRIPTION.to_string());
    c.packages = Some(vec![("bin".to_string(), bin)]);
    c
}

#[test]
fn config_tests_source_package_override() {
    let config = clap_config();
    assert!(config.is_wf());
    assert!(config.source.is_some());
    assert!(config.packages.is_some());
    assert_eq!(config.policy_version(), Some("4.0.0"));
    assert_eq!(config.homepage(), Some("https://clap.rs"));
    assert!(config.section().is_none());
    assert!(config.build_depends().is_none());

    let config = debcargo_config();
    assert!(config.source.is_some());
    assert_eq!(config.section(), Some("rust"));
    assert!(config.packages.is_some());
    assert_eq!(config.package_summary(PackageKey::Bin), Some(SUMMARY));
    assert_eq!(config.package_description(PackageKey::Bin), Some(DESCRIPTION));
}

#[test]
fn sd_top_level() {
    let mut config = Config::default();
    config.source = Some(source(Some("rust"), None, None));
    config.summary = Some(SUMMARY.to_string());
    config.description = Some(DESCRIPTION.to_string());
    assert_eq!(config.section(), Some("rust"));
    assert_eq!(config.summary.as_deref(), Some(SUMMARY));
    assert_eq!(config.description.as_deref(), Some(DESCRIPTION));
}

fn strings(v: &[&str]) -> Vec<String> {
    v.iter().map(|s| s.to_string()).collect()
}

fn clap_overrides() -> Overrides {
    let mut c = Copyright::default();
    c.files = Some(vec![
        ("*".to_string(), Files { copyright: strings(&["2015-2016, Kevin B. Knapp <kbknapp@gmail.com"]), license: "MIT".to_string() }),
        ("debian/*".to_string(), Files { copyright: strings(&["2017, Vasudev Kamath <vasudev@copyninja.info"]), license: "MIT".to_string() }),
    ]);
    Overrides {
        source: Some(Source { section: None, policy: Some("4.0.0".to_string()), homepage: Some("https://clap.rs".to_string()), build_depends: None }),
        packages: Some(vec![(
            "librust-clap-dev".to_string(),
            Package { summary: None, description: None, depends: None },
        )]),
        copyright: Some(c),
    }
}

#[test]
fn override_tests_source_package_override() {
    let overrides = clap_overrides();
    assert!(overrides.is_wf());
    assert!(overrides.is_source_present());
    assert!(overrides.is_packages_present());
    assert!(overrides.is_files_present());
    assert_eq!(overrides.policy_version().as_deref(), Some("4.0.0"));
    assert_eq!(overrides.homepage().as_deref(), Some("https://clap.rs"));
    assert!(overrides.section().is_none());
    assert!(overrides.build_depends().is_none());

    let overrides = Overrides {
        source: Some(Source { section: Some("misc".to_string()), policy: None, homepage: None, build_depends: None }),
        packages: Some(vec![(
            "debcargo".to_string(),
            Package { summary: Some(SUMMARY.to_string()), description: Some(DESCRIPTION.to_string()), depends: None },
        )]),
        copyright: None,
    };
    assert!(overrides.is_source_present());
    assert_eq!(overrides.section().as_deref(), Some("misc"));
    assert!(overrides.is_packages_present());
    let sd = overrides.summary_description_for("debcargo");
    assert!(sd.is_some());
    if let Some((s, d)) = sd {
        assert_eq!(s, SUMMARY);
        assert_eq!(d, DESCRIPTION);
    }
    assert!(!overrides.is_files_present());
}

#[test]
fn files_override() {
    let overrides = clap_overrides();
    assert!(overrides.is_files_present());

    let wildcard_files = overrides.file_section_for("*");
    assert!(wildcard_files.is_some());
    let debian_files = overrides.file_section_for("debian/*");
    assert!(debian_files.is_some());

    let wildcard_files = wildcard_files.unwrap();
    assert_eq!(wildcard_files.copyright, strings(&["2015-2016, Kevin B. Knapp <kbknapp@gmail.com"]));
    assert_eq!(wildcard_files.license(), "MIT");
    assert_eq!(wildcard_files.files(), "*");

    let debian_files = debian_files.unwrap();
    assert_eq!(debian_files.files(), "debian/*");
    assert_eq!(debian_files.copyright, strings(&["2017, Vasudev Kamath <vasudev@copyninja.info"]));
    assert_eq!(debian_files.license(), "MIT");

    assert!(overrides.file_section_for("./dontexists.rs").is_none());
}

#[test]
fn duplicate_keys_are_noticed() {
    let mut config = Config::default();
    assert!(config.is_wf());
    config.packages = Some(vec![("bin".to_string(), no_package()), ("bin".to_string(), no_package())]);
    assert!(!config.is_wf());
    let mut o = clap_overrides();
    o.packages = Some(vec![
        ("a".to_string(), Package { summary: None, description: None, depends: None }),
        ("a".to_string(), Package { summary: None, description: None, depends: None }),
    ]);
    assert!(!o.is_wf());
    assert!(Overrides::default().is_wf());
}
