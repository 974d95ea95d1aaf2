use comet::text::{contains, join, remove_char, replace_all, to_ascii_lowercase, trimmed_is_empty, u64_to_decimal};

#[test]
fn ascii_lowercase_keeps_other_characters() {
    assert_eq!(to_ascii_lowercase("UserProfile_2É"), "userprofile_2É");
}

#[test]
fn decimal_rendering() {
    assert_eq!(u64_to_decimal(0), "0");
    assert_eq!(u64_to_decimal(1203), "1203");
    assert_eq!(u64_to_decimal(u64::MAX), u64::MAX.to_string());
}

#[test]
fn join_with_separator() {
    let parts = vec!["a".to_string(), "bc".to_string(), "".to_string()];
    assert_eq!(join(&parts, ", "), "a, bc, ");
    assert_eq!(join(&Vec::new(), ", "), "");
}

#[test]
fn replace_all_matches_std() {
    let cases = [("{{name}}-{{name}}", "{{name}}", "demo"), ("aaa", "aa", "b"), ("x", "xyz", "q"), ("", "a", "b"), ("abc", "", "-"), ("", "", "w")];
    for (s, p, w) in cases {
        assert_eq!(replace_all(s, p, w), s.replace(p, w));
    }
}

#[test]
fn remove_and_contains() {
    assert_eq!(remove_char("\"users\"", '"'), "users");
    assert!(contains("__list_watch__", "_watch__"));
    assert!(!contains("list", "_watch__"));
}

#[test]
fn whitespace_only() {
    assert!(trimmed_is_empty(" \n\t"));
    assert!(trimmed_is_empty(""));
    assert!(!trimmed_is_empty(" warning: x "));
}
