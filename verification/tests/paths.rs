use extt_core::path::{is_safe_relative, join_paths, path_extension, path_file_name, path_file_stem, split};

#[test]
fn split_keeps_empty_segments() {
    assert_eq!(split("a//b/"), vec!["a".to_string(), "".to_string(), "b".to_string(), "".to_string()]);
    assert_eq!(split(""), vec!["".to_string()]);
}

#[test]
fn parent_segments_are_counted() {
    assert!(is_safe_relative("a/b.md"));
    assert!(is_safe_relative("sub/.."));
    assert!(is_safe_relative("sub/../x.md"));
    assert!(!is_safe_relative("../secret.txt"));
    assert!(!is_safe_relative("a/../../b"));
    assert!(!is_safe_relative("/etc/passwd"));
    assert!(is_safe_relative("./a/./b"));
}

#[test]
fn join_adds_one_separator() {
    assert_eq!(join_paths("root", "a/b.md"), "root/a/b.md");
    assert_eq!(join_paths("root/", "a/b.md"), "root/a/b.md");
    assert_eq!(join_paths("", "a/b.md"), "a/b.md");
}

#[test]
fn names_stems_and_extensions() {
    assert_eq!(path_file_name("a/b.md"), Some("b.md".to_string()));
    assert_eq!(path_file_name("a/b/"), Some("b".to_string()));
    assert_eq!(path_file_name("a/.."), None);
    assert_eq!(path_file_stem("a/b.c.md"), Some("b.c".to_string()));
    assert_eq!(path_file_stem(".git"), Some(".git".to_string()));
    assert_eq!(path_extension(".git"), None);
    assert_eq!(path_extension(".hidden.md"), Some("md".to_string()));
    assert_eq!(path_extension("no_extension"), None);
    assert_eq!(path_extension("a."), Some("".to_string()));
}
