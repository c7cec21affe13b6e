use debcargo::changelog::changelog_years;
use debcargo::changelog_merge::merged_changelog;

const JANE: &str = "Jane Doe <jane@example.org>";
const DATE: &str = "Mon, 01 Jan 2024 00:00:00 +0000";
const ITEM: &str = "  * Package foo 1.0.0 from crates.io using debcargo 2.6.0";

fn uploaders() -> Vec<String> {
    vec![JANE.to_string()]
}

const OLDER: &str = "rust-foo (0.9.0-1) unstable; urgency=medium\n\n  * Package foo 0.9.0 from crates.io using debcargo 2.5.0\n\n -- Jane Doe <jane@example.org>  Sat, 01 Jul 2023 00:00:00 +0000\n";

#[test]
fn first_upload_starts_at_revision_one() {
    let r = merged_changelog("", "rust-foo", "1.0.0", JANE, ITEM, &uploaders(), DATE).unwrap();
    assert_eq!(
        r,
        "rust-foo (1.0.0-1) UNRELEASED; urgency=medium\n\n  * Package foo 1.0.0 from crates.io using debcargo 2.6.0\n\n -- Jane Doe <jane@example.org>  Mon, 01 Jan 2024 00:00:00 +0000\n"
    );
}

#[test]
fn released_entry_gets_the_next_revision() {
    let existing = "rust-foo (1.0.0-1) unstable; urgency=medium\n\n  * Package foo 1.0.0 from crates.io using debcargo 2.5.0\n\n -- Jane Doe <jane@example.org>  Fri, 01 Dec 2023 00:00:00 +0000\n";
    let r = merged_changelog(existing, "rust-foo", "1.0.0", JANE, ITEM, &uploaders(), DATE).unwrap();
    let expected = format!(
        "rust-foo (1.0.0-2) UNRELEASED; urgency=medium\n\n{}\n\n -- {}  {}\n\n{}",
        ITEM, JANE, DATE, existing
    );
    assert_eq!(r, expected);
}

#[test]
fn released_entry_of_another_version_restarts_at_one() {
    let r = merged_changelog(OLDER, "rust-foo", "1.0.0", JANE, ITEM, &uploaders(), DATE).unwrap();
    assert!(r.starts_with("rust-foo (1.0.0-1) UNRELEASED; urgency=medium\n"));
    assert!(r.ends_with(OLDER));
}

#[test]
fn non_numeric_revision_is_extended() {
    let existing = "rust-foo (1.0.0-1ubuntu1) unstable; urgency=medium\n\n  * Rebuild.\n\n -- Jane Doe <jane@example.org>  Fri, 01 Dec 2023 00:00:00 +0000\n";
    let r = merged_changelog(existing, "rust-foo", "1.0.0", JANE, ITEM, &uploaders(), DATE).unwrap();
    assert!(r.starts_with("rust-foo (1.0.0-1ubuntu1.1) UNRELEASED;"));
}

#[test]
fn revision_nine_rolls_over() {
    let existing = "rust-foo (1.0.0-9) unstable; urgency=medium\n\n  * Rebuild.\n\n -- Jane Doe <jane@example.org>  Fri, 01 Dec 2023 00:00:00 +0000\n";
    let r = merged_changelog(existing, "rust-foo", "1.0.0", JANE, ITEM, &uploaders(), DATE).unwrap();
    assert!(r.starts_with("rust-foo (1.0.0-10) UNRELEASED;"));
}

#[test]
fn unreleased_entry_by_same_author_is_updated() {
    let existing = format!(
        "rust-foo (1.0.0-1) UNRELEASED; urgency=medium\n\n  * Package foo 1.0.0 from crates.io using debcargo 2.5.0\n  * Fix the build.\n\n -- Jane Doe <jane@example.org>  Fri, 01 Dec 2023 00:00:00 +0000\n\n{}",
        OLDER
    );
    let r = merged_changelog(&existing, "rust-foo", "1.0.0", JANE, ITEM, &uploaders(), DATE).unwrap();
    let expected = format!(
        "rust-foo (1.0.0-1) UNRELEASED; urgency=medium\n\n{}\n  * Fix the build.\n\n -- {}  {}\n\n{}",
        ITEM, JANE, DATE, OLDER
    );
    assert_eq!(r, expected);
}

#[test]
fn unreleased_entry_without_item_gets_one() {
    let existing = "rust-foo (1.0.0-2) UNRELEASED; urgency=medium\n\n  * Fix the build.\n\n -- Jane Doe <jane@example.org>  Fri, 01 Dec 2023 00:00:00 +0000\n";
    let r = merged_changelog(existing, "rust-foo", "1.0.0", JANE, ITEM, &uploaders(), DATE).unwrap();
    let expected = format!(
        "rust-foo (1.0.0-2) UNRELEASED; urgency=medium\n\n  * Fix the build.\n{}\n\n -- {}  {}\n",
        ITEM, JANE, DATE
    );
    assert_eq!(r, expected);
}

#[test]
fn unreleased_entry_by_another_author_is_kept_under_their_name() {
    let existing = format!(
        "rust-foo (1.0.0-3) UNRELEASED; urgency=medium\n\n  * Fix the build.\n\n -- John Roe <john@example.org>  Fri, 01 Dec 2023 00:00:00 +0000\n\n{}",
        OLDER
    );
    let r = merged_changelog(&existing, "rust-foo", "1.1.0", JANE, ITEM, &uploaders(), DATE).unwrap();
    let expected = format!(
        "rust-foo (1.1.0-1) UNRELEASED; urgency=medium\n\n{}\n\n  [ John Roe ]\n  * Fix the build.\n\n -- {}  {}\n\n{}",
        ITEM, JANE, DATE, OLDER
    );
    assert_eq!(r, expected);
}

#[test]
fn author_outside_uploaders_makes_a_team_upload() {
    let r = merged_changelog("", "rust-foo", "1.0.0", JANE, ITEM, &vec![], DATE).unwrap();
    assert_eq!(
        r,
        format!(
            "rust-foo (1.0.0-1) UNRELEASED; urgency=medium\n\n  * Team upload.\n{}\n\n -- {}  {}\n",
            ITEM, JANE, DATE
        )
    );
}

#[test]
fn unreadable_first_entry_is_refused() {
    assert_eq!(merged_changelog("garbage\n", "rust-foo", "1.0.0", JANE, ITEM, &uploaders(), DATE), None);
}

#[test]
fn changelog_years_from_bottom_to_top() {
    let text = format!(
        "rust-foo (1.0.0-1) unstable; urgency=medium\n\n  * New.\n\n -- {}  Fri, 01 Dec 2023 00:00:00 +0000\n\n{}",
        JANE,
        OLDER.replace("Sat, 01 Jul 2023", "Thu, 01 Jul 2021")
    );
    assert_eq!(changelog_years(&text), Some((2021, 2023)));
}

#[test]
fn changelog_years_of_one_entry() {
    assert_eq!(changelog_years(OLDER), Some((2023, 2023)));
}

#[test]
fn changelog_years_of_nothing() {
    assert_eq!(changelog_years(""), None);
}

#[test]
fn changelog_years_with_a_bad_date() {
    let text = "rust-foo (1.0.0-1) unstable; urgency=medium\n\n  * New.\n\n -- Jane Doe <jane@example.org>  yesterday\n";
    assert_eq!(changelog_years(text), None);
}

#[test]
fn released_changelog_is_kept_below() {
    let r = merged_changelog(OLDER, "rust-foo", "0.9.0", JANE, ITEM, &vec![], DATE).unwrap();
    assert!(r.ends_with(OLDER));
    assert!(r.starts_with("rust-foo (0.9.0-2) UNRELEASED; urgency=medium\n\n  * Team upload.\n"));
}
