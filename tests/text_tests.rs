use geoengine::text::{decimal_string, join_path, less_than, same_text, shell_escape, split_once_eq};

#[test]
fn shell_escape_plain_word() {
    assert_eq!(shell_escape("simple"), "simple");
    assert_eq!(shell_escape(""), "''");
    assert_eq!(shell_escape("#note"), "'#note'");
    assert_eq!(shell_escape("~user"), "'~user'");
    assert_eq!(shell_escape("a#b~"), "a#b~");
}

#[test]
fn shell_escape_quotes_specials() {
    assert_eq!(shell_escape("has space"), "'has space'");
    assert_eq!(shell_escape("a'b"), "'a'\\''b'");
    assert_eq!(shell_escape("$HOME;rm"), "'$HOME;rm'");
}

#[test]
fn decimal_rendering() {
    assert_eq!(decimal_string(0), "0");
    assert_eq!(decimal_string(7), "7");
    assert_eq!(decimal_string(1203), "1203");
    assert_eq!(decimal_string(u64::MAX), "18446744073709551615");
}

#[test]
fn path_joining() {
    assert_eq!(join_path("/a", "b"), "/a/b");
    assert_eq!(join_path("/a/", "b"), "/a/b");
    assert_eq!(join_path("/a", "/abs"), "/abs");
    assert_eq!(join_path("", "b"), "b");
}

#[test]
fn splitting_at_first_equals() {
    assert_eq!(split_once_eq("k=v=w"), Some(("k".to_string(), "v=w".to_string())));
    assert_eq!(split_once_eq("novalue"), None);
}

#[test]
fn string_order_and_equality() {
    assert!(less_than("abc", "abd"));
    assert!(less_than("ab", "abc"));
    assert!(!less_than("b", "abc"));
    assert!(!less_than("same", "same"));
    assert!(less_than("Z", "a"));
    assert!(same_text("é", "é"));
    assert!(!same_text("a", "ab"));
}
