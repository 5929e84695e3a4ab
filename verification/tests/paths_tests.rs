use pcopy::paths::{file_name_of, join_path};

#[test]
fn join_inserts_separator() {
    assert_eq!(join_path("a", "b"), "a/b");
    assert_eq!(join_path("", "b"), "/b");
    assert_eq!(join_path("a/b", "c.txt"), "a/b/c.txt");
}

#[test]
fn file_name_of_last_component() {
    assert_eq!(file_name_of("a/b/c.txt"), Some("c.txt".to_string()));
    assert_eq!(file_name_of("c.txt"), Some("c.txt".to_string()));
    assert_eq!(file_name_of("a/b/"), Some("b".to_string()));
    assert_eq!(file_name_of("a//"), Some("a".to_string()));
}

#[test]
fn file_name_of_edge_paths() {
    assert_eq!(file_name_of("/"), None);
    assert_eq!(file_name_of(""), None);
    assert_eq!(file_name_of("a/.."), None);
    assert_eq!(file_name_of("."), None);
}
