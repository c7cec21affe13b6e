use debcargo::text::{
    concat2, concat3, contains_str, contains_string, extend_strings, i32_to_string, insert_sorted,
    is_whitespace, join_strings, lines, prefixed, push_str, replace_char, replace_str, show_vec,
    sort_dedup, split_char, starts_with, str_chars, str_eq, string_lt, string_of, suffixed, trim,
    trim_end, trim_end_len, trim_end_matches, u64_to_string,
};

fn strings(v: &[&str]) -> Vec<String> {
    v.iter().map(|s| s.to_string()).collect()
}

#[test]
fn joining_and_showing() {
    assert_eq!(join_strings(&strings(&["a", "b", "c"]), ", "), "a, b, c");
    assert_eq!(join_strings(&strings(&[]), ", "), "");
    assert_eq!(show_vec(&strings(&["x", "y"])), "x, y");
    assert_eq!(prefixed(&strings(&["a", "b"]), " "), " a b");
    assert_eq!(suffixed(&strings(&["a", "b"]), ";"), "a;b;");
}

#[test]
fn concatenating() {
    assert_eq!(concat2("ab", "cd"), "abcd");
    assert_eq!(concat3("a", "-", "b"), "a-b");
    let mut s = String::from("x");
    push_str(&mut s, "yz");
    assert_eq!(s, "xyz");
}

#[test]
fn numbers_as_text() {
    assert_eq!(u64_to_string(0), "0");
    assert_eq!(u64_to_string(1234567890), "1234567890");
    assert_eq!(u64_to_string(u64::MAX), "18446744073709551615");
    assert_eq!(i32_to_string(-42), "-42");
    assert_eq!(i32_to_string(i32::MIN), "-2147483648");
    assert_eq!(i32_to_string(7), "7");
}

#[test]
fn replacing() {
    assert_eq!(replace_char("a_b_c", '_', "-"), "a-b-c");
    assert_eq!(replace_str("one two one", "one", "1"), "1 two 1");
    assert_eq!(replace_str("abc", "", "x"), "abc");
    assert_eq!(trim_end_matches("a.tar.gz.gz", ".gz"), "a.tar");
}

#[test]
fn trimming() {
    assert_eq!(trim("  a b \n"), "a b");
    assert_eq!(trim_end("a b \t\n"), "a b");
    assert_eq!(trim_end_len(&"ab  ".chars().collect()), 2);
    assert!(is_whitespace(' '));
    assert!(is_whitespace('\u{3000}'));
    assert!(!is_whitespace('x'));
}

#[test]
fn splitting_into_pieces_and_lines() {
    assert_eq!(split_char("a,b,,c", ','), strings(&["a", "b", "", "c"]));
    assert_eq!(split_char("", ','), strings(&[""]));
    assert_eq!(lines("a\r\nb\n\nc\n"), strings(&["a", "b", "", "c"]));
    assert_eq!(lines("x"), strings(&["x"]));
    assert!(lines("").is_empty());
}

#[test]
fn comparing_and_searching() {
    assert!(string_lt("abc", "abd"));
    assert!(string_lt("ab", "abc"));
    assert!(!string_lt("b", "a"));
    assert!(str_eq("x", "x"));
    assert!(!str_eq("x", "y"));
    assert!(starts_with("librust-foo", "librust"));
    assert!(!starts_with("lib", "librust"));
    assert!(contains_str(&vec!["a", "b"], "b"));
    assert!(!contains_str(&vec!["a", "b"], "c"));
    assert!(contains_string(&strings(&["a"]), "a"));
}

#[test]
fn sorted_sets_of_strings() {
    let mut v = strings(&["b", "d"]);
    insert_sorted(&mut v, "c".to_string());
    insert_sorted(&mut v, "a".to_string());
    insert_sorted(&mut v, "c".to_string());
    assert_eq!(v, strings(&["a", "b", "c", "d"]));
    assert_eq!(sort_dedup(strings(&["z", "a", "z", "m"])), strings(&["a", "m", "z"]));
}

#[test]
fn characters_and_copies() {
    assert_eq!(str_chars("héllo").len(), 5);
    assert_eq!(string_of(&vec!['a', 'é']), "aé");
    let mut v = strings(&["a"]);
    extend_strings(&mut v, &strings(&["b", "c"]));
    assert_eq!(v, strings(&["a", "b", "c"]));
}
