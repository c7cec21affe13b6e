use debcargo::changelog::Changelog;

#[test]
fn changelog_entry_text() {
    let c = Changelog::new(
        "rust-foo",
        "1.0.0-1",
        "UNRELEASED",
        "medium",
        "Jane Doe <jane@example.org>",
        &["Package foo 1.0.0 from crates.io using debcargo 2.6.0".to_string()],
    );
    assert_eq!(
        c.to_string("Mon, 01 Jan 2024 00:00:00 +0000"),
        "rust-foo (1.0.0-1) UNRELEASED; urgency=medium\n\n  * Package foo 1.0.0 from crates.io using debcargo 2.6.0\n\n -- Jane Doe <jane@example.org>  Mon, 01 Jan 2024 00:00:00 +0000\n\n"
    );
}

#[test]
fn long_entries_are_wrapped() {
    let long = "word ".repeat(30);
    let c = Changelog::new("s", "1", "d", "low", "m", &[long.trim_end().to_string()]);
    let text = c.to_string("date");
    let item = text.lines().nth(2).unwrap();
    assert!(item.len() <= 4 + 79);
    assert_eq!(text.lines().count(), 7);
    assert!(text.lines().nth(3).unwrap().starts_with("word"));
}
