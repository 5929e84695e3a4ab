use pcopy::exclude::{contains_substr, is_excluded};

fn pats(v: &[&str]) -> Vec<String> {
    v.iter().map(|s| s.to_string()).collect()
}

#[test]
fn substring_found() {
    assert!(contains_substr("a/b/c.txt", "b/c"));
    assert!(contains_substr("abc", "abc"));
    assert!(contains_substr("abc", ""));
    assert!(contains_substr("", ""));
}

#[test]
fn substring_absent() {
    assert!(!contains_substr("a/b/c.txt", "d"));
    assert!(!contains_substr("ab", "abc"));
    assert!(!contains_substr("", "a"));
    assert!(!contains_substr("aab", "ab/"));
}

#[test]
fn excluded_by_one_pattern() {
    let p = pats(&["tmp", ".git"]);
    assert!(is_excluded("work/tmp/file", &p));
    assert!(is_excluded("repo/.git/config", &p));
    assert!(!is_excluded("repo/src/main.c", &p));
}

#[test]
fn empty_pattern_list_excludes_nothing() {
    let p = pats(&[]);
    assert!(!is_excluded("anything/at/all", &p));
    assert!(!is_excluded("", &p));
}

#[test]
fn empty_pattern_excludes_everything() {
    let p = pats(&[""]);
    assert!(is_excluded("a", &p));
    assert!(is_excluded("", &p));
}

#[test]
fn descendant_of_excluded_directory_is_excluded() {
    let p = pats(&["node_modules"]);
    assert!(is_excluded("app/node_modules", &p));
    assert!(is_excluded("app/node_modules/pkg/index.js", &p));
}
