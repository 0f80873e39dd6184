use vagga_core::paths::{
    extension, find_last, path_is_absolute, path_join, split_components, split_dir_file,
    strip_root,
};

#[test]
fn join_relative() {
    assert_eq!(path_join("/work/.vagga", ".roots"), "/work/.vagga/.roots");
}

#[test]
fn join_absolute_tail_replaces() {
    assert_eq!(path_join("/work", "/etc"), "/etc");
}

#[test]
fn join_empty_tail_keeps_base() {
    assert_eq!(path_join("/work", ""), "/work");
}

#[test]
fn absolute_check() {
    assert!(path_is_absolute("/work"));
    assert!(!path_is_absolute("work"));
    assert!(!path_is_absolute(""));
}

#[test]
fn strip_root_drops_leading_slash() {
    assert_eq!(strip_root("/tmp/cache"), "tmp/cache");
    assert_eq!(strip_root("/"), "");
}

#[test]
fn find_last_picks_rightmost() {
    assert_eq!(find_last("a.b.c", '.'), Some(3));
    assert_eq!(find_last("abc", '.'), None);
}

#[test]
fn extension_of_names() {
    assert_eq!(extension("foo.tmp"), Some("tmp".to_string()));
    assert_eq!(extension("foo"), None);
    assert_eq!(extension(".tmp"), None);
    assert_eq!(extension("a.b.c"), Some("c".to_string()));
    assert_eq!(extension("foo."), Some(String::new()));
}

#[test]
fn split_dir_file_of_link_target() {
    let (dir, file) = split_dir_file(".roots/base");
    assert_eq!(dir, ".roots");
    assert_eq!(file, "base");
    let (dir, file) = split_dir_file("plain");
    assert_eq!(dir, ".");
    assert_eq!(file, "plain");
}

#[test]
fn components_of_paths() {
    assert_eq!(split_components("/a/b/c"), vec!["a", "b", "c"]);
    assert_eq!(split_components("a//b/"), vec!["a", "b"]);
    assert_eq!(split_components(""), Vec::<String>::new());
    assert_eq!(split_components("/"), Vec::<String>::new());
}
