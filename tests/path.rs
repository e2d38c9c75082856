use cpprs::path::{as_rs, map_path};

#[test]
fn marker_extension_is_replaced() {
    assert_eq!(
        map_path("dir/file.marker", "marker", "host"),
        Some("dir/file.host".to_string())
    );
    assert_eq!(map_path("dir/file.txt", "marker", "host"), None);
}

#[test]
fn host_extension_is_not_mapped_again() {
    assert_eq!(map_path("dir/file.host", "marker", "host"), None);
    let once = map_path("dir/file.marker", "marker", "host").unwrap();
    assert_eq!(map_path(&once, "marker", "host"), None);
}

#[test]
fn cpprs_becomes_rs() {
    assert_eq!(as_rs("src/lib.cpprs"), Some("src/lib.rs".to_string()));
    assert_eq!(as_rs("lib.cpprs"), Some("lib.rs".to_string()));
    assert_eq!(as_rs("/abs/x/lib.cpprs"), Some("/abs/x/lib.rs".to_string()));
    assert_eq!(as_rs("src/lib.rs"), None);
}

#[test]
fn only_the_last_extension_changes() {
    assert_eq!(as_rs("a/b.c.cpprs"), Some("a/b.c.rs".to_string()));
    assert_eq!(as_rs("a.cpprs/b"), None);
}

#[test]
fn paths_without_extension_are_not_mapped() {
    assert_eq!(as_rs(""), None);
    assert_eq!(as_rs("cpprs"), None);
    assert_eq!(as_rs("src/"), None);
    assert_eq!(as_rs("src/.cpprs"), None);
}

#[test]
fn extension_is_matched_exactly() {
    assert_eq!(as_rs("lib.CPPRS"), None);
    assert_eq!(as_rs("lib.cpprsx"), None);
    assert_eq!(as_rs("lib.cpp"), None);
}

#[test]
fn non_ascii_paths_are_mapped() {
    assert_eq!(as_rs("dé/fïle.cpprs"), Some("dé/fïle.rs".to_string()));
}

#[test]
fn trailing_separators_are_ignored() {
    assert_eq!(as_rs("d/lib.cpprs/"), Some("d/lib.rs".to_string()));
    assert_eq!(as_rs("d/lib.cpprs//"), Some("d/lib.rs".to_string()));
    assert_eq!(as_rs("lib.cpprs/"), Some("lib.rs".to_string()));
    assert_eq!(as_rs("/"), None);
    assert_eq!(as_rs("d/.cpprs/"), None);
}

#[test]
fn trailing_dot_components_are_ignored() {
    assert_eq!(as_rs("d/lib.cpprs/."), Some("d/lib.rs".to_string()));
    assert_eq!(as_rs("d/lib.cpprs/./"), Some("d/lib.rs".to_string()));
    assert_eq!(as_rs("d/lib.cpprs/./."), Some("d/lib.rs".to_string()));
    assert_eq!(as_rs("lib.cpprs/."), Some("lib.rs".to_string()));
    assert_eq!(as_rs("."), None);
    assert_eq!(as_rs("./"), None);
    assert_eq!(as_rs("d/lib.cpprs/.."), None);
    assert_eq!(as_rs("d/lib.cpprs."), None);
}
