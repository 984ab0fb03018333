use prompt_compose::paths::{get_display_path, get_file_extension};

#[test]
fn display_path_keeps_last_segments() {
    assert_eq!(get_display_path("/a/b/c/d.rs", 2), "c/d.rs");
    assert_eq!(get_display_path("/a/b/c/d.rs", 1), "d.rs");
    assert_eq!(get_display_path("/a/b/c/d.rs", 3), "b/c/d.rs");
}

#[test]
fn display_path_full_when_count_not_positive() {
    assert_eq!(get_display_path("/a/b/c/d.rs", 0), "/a/b/c/d.rs");
    assert_eq!(get_display_path("/a/b/c/d.rs", -3), "/a/b/c/d.rs");
}

#[test]
fn display_path_full_when_count_covers_path() {
    assert_eq!(get_display_path("/a/b/c/d.rs", 4), "/a/b/c/d.rs");
    assert_eq!(get_display_path("/a/b/c/d.rs", 9), "/a/b/c/d.rs");
}

#[test]
fn display_path_normalizes_backslashes() {
    assert_eq!(get_display_path("C:\\work\\src\\lib.rs", 2), "src/lib.rs");
    assert_eq!(get_display_path("a\\\\b", 0), "a//b");
    assert_eq!(get_display_path("//a//b//", 1), "b");
}

#[test]
fn extension_is_lowercased_tail() {
    assert_eq!(get_file_extension("notes.MD"), "md");
    assert_eq!(get_file_extension("archive.tar.GZ"), "gz");
    assert_eq!(get_file_extension("dir.d/file"), "d/file");
    assert_eq!(get_file_extension("trailing."), "");
}

#[test]
fn extension_empty_without_dot() {
    assert_eq!(get_file_extension("Makefile"), "");
    assert_eq!(get_file_extension(""), "");
}
