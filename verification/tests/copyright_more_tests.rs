use debcargo::copyright::{
    crate_license_string, dated_notices, format_para, git_years_from_times, licenses_from_parts, notices_in_lines, COPYRIGHT_NOTICE,
};
use debcargo::pattern::RegexMatcher;

fn strings(v: &[&str]) -> Vec<String> {
    v.iter().map(|s| s.to_string()).collect()
}

#[test]
fn paragraph_continuation_lines() {
    assert_eq!(format_para("first line  \n\nthird"), " first line\n .\n third\n");
    assert_eq!(format_para(""), "");
}

#[test]
fn license_expressions_in_copyright_spelling() {
    assert_eq!(crate_license_string(" MIT/Apache-2.0 "), "MIT or Apache-2.0");
    assert_eq!(crate_license_string("MIT OR Apache-2.0 AND BSD"), "MIT or Apache-2.0 and BSD");
}

#[test]
fn licenses_for_pieces() {
    let ls = licenses_from_parts(&strings(&["MIT", "Apache-2.0", "MIT"]));
    let names: Vec<&str> = ls.iter().map(|l| l.name.as_str()).collect();
    assert_eq!(names, vec!["Apache-2.0", "MIT"]);
}

#[test]
fn notices_found_in_lines() {
    let p = RegexMatcher::new(COPYRIGHT_NOTICE).unwrap();
    let lines = strings(&[
        "// Copyright 2015-2018 The Foo Developers. See the COPYRIGHT",
        "fn main() {}",
        "/* (c) no year */",
        "Copyright (C) 2020 Jane Doe  ",
    ]);
    assert_eq!(
        notices_in_lines(&p, &lines),
        strings(&["2015-2018 The Foo Developers", "2020 Jane Doe"])
    );
}

#[test]
fn notices_with_years() {
    assert_eq!(
        dated_notices("2019-2021", &strings(&["Jane", "Joe"])),
        strings(&["2019-2021 Jane", "2019-2021 Joe"])
    );
}

#[test]
fn git_years_from_commit_times() {
    // 2015-06-01 and 2020-03-01, in seconds since the epoch
    assert_eq!(git_years_from_times(1433116800, 1583020800), Some("2015-2020,".to_string()));
    assert_eq!(git_years_from_times(1583020800, 1583020801), Some("2020".to_string()));
    assert_eq!(git_years_from_times(i64::MAX, 0), None);
}
