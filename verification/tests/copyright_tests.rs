use debcargo::license_texts::{license_file_contents, APACHE_2_0_TEXT, GPL_2_0_TEXT, MIT_TEXT, MPL_2_0_TEXT};
use debcargo::copyright::{
    debian_copyright, gen_files, get_licenses, git_years_notice, license_for, years_string,
    CopyrightError, ManifestMeta,
};

#[test]
fn check_get_licenses() {
    let test_data: &[(&str, &[(&str, bool)])] = &[
        ("AGPL-3.0", &[("AGPL-3.0", true)]),
        ("AcmeCorp-1.0", &[("AcmeCorp-1.0", false)]),
        ("AGPL-3.0-or-later", &[("AGPL-3.0-or-later", true)]),
        ("Apache-2.0/MIT", &[("Apache-2.0", true), ("MIT", true)]),
        ("Apache-2.0 or MIT", &[("Apache-2.0", true), ("MIT", true)]),
        (
            "FooBar-1.0 AND MIT",
            &[("FooBar-1.0", false), ("MIT", true)],
        ),
    ];
    for (name, expected) in test_data {
        let licenses = get_licenses(name).ok().expect("getting licenses failed");
        let found: Vec<_> = licenses
            .iter()
            .map(|l| (l.name.as_str(), !l.text.starts_with("FIXME")))
            .collect();
        assert_eq!(&found[..], &expected[..]);
    }
}

#[test]
fn licenses_are_sorted_and_deduplicated() {
    let ls = get_licenses("MIT OR Apache-2.0 OR MIT").ok().unwrap();
    let names: Vec<&str> = ls.iter().map(|l| l.name.as_str()).collect();
    assert_eq!(names, vec!["Apache-2.0", "MIT"]);
    assert_eq!(ls[0].text, APACHE_2_0_TEXT);
    assert_eq!(ls[1].text, MIT_TEXT);
}

#[test]
fn license_lookup_ignores_case_and_later() {
    let l = license_for("GPL-2.0+");
    assert_eq!(l.text, GPL_2_0_TEXT);
    let l = license_for("mpl-2.0");
    assert_eq!(l.text, MPL_2_0_TEXT);
    let l = license_for("Weird");
    assert!(l.text.starts_with("FIXME (overlay): Unrecognized crate license"));
}

#[test]
fn years_are_written_as_ranges() {
    assert_eq!(years_string(2018, 2018), "2018");
    assert_eq!(years_string(2017, 2019), "2017-2019");
    assert_eq!(git_years_notice(2015, 2015), "2015");
    assert_eq!(git_years_notice(2015, 2016), "2015-2016,");
}

#[test]
fn notices_are_gathered_by_path() {
    let files = vec![
        (
            "./src/b.rs".to_string(),
            vec![
                "// Copyright 2016 The Foo Developers. See the COPYRIGHT".to_string(),
                "fn main() {}".to_string(),
            ],
        ),
        ("./src/a.rs".to_string(), vec!["no notice here".to_string()]),
        (
            "./src/c.rs".to_string(),
            vec!["/* Copyright (c) 2019 Jane Doe   ".to_string()],
        ),
    ];
    let fs = gen_files(&files).ok().unwrap();
    assert_eq!(fs.len(), 2);
    assert_eq!(fs[0].files(), "./src/b.rs");
    assert_eq!(fs[0].copyright, vec!["2016 The Foo Developers".to_string()]);
    assert_eq!(fs[1].files(), "./src/c.rs");
    assert_eq!(fs[1].copyright, vec!["2019 Jane Doe".to_string()]);
    assert_eq!(fs[1].license(), "UNKNOWN-LICENSE; FIXME (overlay)");
}

fn meta(license: Option<&str>) -> ManifestMeta {
    ManifestMeta {
        name: "foo".to_string(),
        authors: vec!["Jane Doe <jane@example.org>".to_string()],
        repository: Some("https://example.org/foo".to_string()),
        license: license.map(|s| s.to_string()),
        license_file_text: None,
    }
}

#[test]
fn copyright_file_layout() {
    let c = debian_copyright(
        &meta(Some("MIT/Apache-2.0")),
        &vec![],
        &vec!["John Roe <john@example.org>".to_string()],
        (2018, 2020),
        false,
        None,
    )
    .ok()
    .unwrap();
    assert_eq!(c.files.len(), 2);
    assert_eq!(c.files[0].files(), "*");
    assert_eq!(
        c.files[0].copyright,
        vec!["FIXME (overlay) UNKNOWN-YEARS Jane Doe <jane@example.org>".to_string()]
    );
    assert_eq!(c.files[0].license(), "MIT or Apache-2.0");
    assert_eq!(c.files[1].files(), "debian/*");
    assert_eq!(
        c.files[1].copyright,
        vec![
            "2018-2020 Debian Rust Maintainers <pkg-rust-maintainers@alioth-lists.debian.net>"
                .to_string(),
            "2018-2020 John Roe <john@example.org>".to_string()
        ]
    );
    let text = c.to_string();
    assert!(text.starts_with(
        "Format: https://www.debian.org/doc/packaging-manuals/copyright-format/1.0/\n\
         Upstream-Name: foo\nUpstream-Contact: Jane Doe <jane@example.org>\n\
         Source: https://example.org/foo\n\nFiles: *\n"
    ));
    assert!(text.contains("\nLicense: Apache-2.0\n"));
}

#[test]
fn copyright_years_from_git_when_guessing() {
    let c = debian_copyright(
        &meta(Some("MIT")),
        &vec![],
        &vec![],
        (2020, 2020),
        true,
        Some("2015-2019,".to_string()),
    )
    .ok()
    .unwrap();
    assert_eq!(
        c.files[0].copyright,
        vec!["2015-2019, Jane Doe <jane@example.org>".to_string()]
    );
}

#[test]
fn copyright_needs_a_license() {
    match debian_copyright(&meta(None), &vec![], &vec![], (2020, 2020), false, None) {
        Err(CopyrightError::NoLicense) => {}
        _ => panic!("expected an error"),
    }
}

#[test]
fn recognized_licenses_carry_their_texts() {
    for name in ["AGPL-3.0", "AGPL-3.0-or-later", "Apache-2.0", "BSD-3-Clause", "MIT", "zlib", "GPL-3.0+"] {
        let ls = get_licenses(name).ok().unwrap();
        assert_eq!(ls.len(), 1);
        assert!(!ls[0].text.is_empty());
        assert!(!ls[0].text.starts_with("FIXME"));
    }
    let ls = get_licenses("FooBar-1.0 AND MIT").ok().unwrap();
    assert!(ls[0].text.starts_with("FIXME"));
    assert_eq!(ls[1].text, MIT_TEXT);
    assert!(MIT_TEXT.starts_with("Permission is hereby granted"));
    assert_eq!(license_file_contents("MIT"), MIT_TEXT);
    assert_eq!(license_file_contents("Nope"), "");
}
