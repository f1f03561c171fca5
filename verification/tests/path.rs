//! Paths by the rules of Unix and of Windows.
use pocker::path::{is_absolute, join, parent, HostFamily};

const UNIX: HostFamily = HostFamily::Unix;
const WINDOWS: HostFamily = HostFamily::Windows;

fn unix_parent(path: &str) -> Option<String> {
    parent(UNIX, path)
}

fn windows_parent(path: &str) -> Option<String> {
    parent(WINDOWS, path)
}

#[test]
fn unix_paths_are_absolute_from_the_root() {
    assert!(is_absolute(UNIX, "/a"));
    assert!(!is_absolute(UNIX, "a"));
    assert!(!is_absolute(UNIX, ""));
    assert!(!is_absolute(UNIX, r"C:\a"));
}

#[test]
fn windows_paths_are_absolute_with_a_prefix_and_a_root() {
    assert!(is_absolute(WINDOWS, r"C:\a"));
    assert!(is_absolute(WINDOWS, "c:/a"));
    assert!(is_absolute(WINDOWS, r"\\server\share"));
    assert!(is_absolute(WINDOWS, r"\\?\C:\a"));
    assert!(is_absolute(WINDOWS, r"\\.\COM1"));
    assert!(!is_absolute(WINDOWS, r"C:a"));
    assert!(!is_absolute(WINDOWS, r"\a"));
    assert!(!is_absolute(WINDOWS, r"\\server"));
    assert!(!is_absolute(WINDOWS, "a"));
    assert!(!is_absolute(WINDOWS, "1:/a"));
}

#[test]
fn unix_paths_are_joined_by_a_slash() {
    assert_eq!(join(UNIX, "/a", "b"), "/a/b");
    assert_eq!(join(UNIX, "/a/", "b"), "/a/b");
    assert_eq!(join(UNIX, "", "b"), "b");
    assert_eq!(join(UNIX, "/a", "/b"), "/b");
    assert_eq!(join(UNIX, "a", ""), "a/");
    assert_eq!(join(UNIX, r"\\?\C:\a", "../b"), r"\\?\C:\a/../b");
}

#[test]
fn windows_paths_are_joined_by_a_backslash() {
    assert_eq!(join(WINDOWS, r"C:\a", "b"), r"C:\a\b");
    assert_eq!(join(WINDOWS, "C:/a/", "b"), "C:/a/b");
    assert_eq!(join(WINDOWS, "C:", "b"), "C:b");
    assert_eq!(join(WINDOWS, "", "b"), "b");
    assert_eq!(join(WINDOWS, r"C:\a", r"D:\b"), r"D:\b");
    assert_eq!(join(WINDOWS, r"C:\a", "D:b"), "D:b");
    assert_eq!(join(WINDOWS, r"C:\a", r"\b"), r"C:\b");
    assert_eq!(join(WINDOWS, r"\\server\share\a", "/b"), r"\\server\share/b");
    assert_eq!(join(WINDOWS, r"\\server\share", "b"), r"\\server\share\b");
    assert_eq!(join(WINDOWS, r"C:\a", r"..\b"), r"C:\a\..\b");
}

#[test]
fn verbatim_paths_are_walked_when_they_are_joined() {
    assert_eq!(join(WINDOWS, r"\\?\C:\a\b", r"..\c"), r"\\?\C:\a\c");
    assert_eq!(join(WINDOWS, r"\\?\C:\a", "./b/c"), r"\\?\C:\a\b\c");
    assert_eq!(join(WINDOWS, r"\\?\C:\a", "../../.."), r"\\?\C:\");
    assert_eq!(join(WINDOWS, r"\\?\C:\a\b", r"\c"), r"\\?\C:\c");
    assert_eq!(join(WINDOWS, r"\\?\C:\a", ""), r"\\?\C:\a\");
    assert_eq!(join(WINDOWS, r"\\?\C:", "."), r"\\?\C:");
    assert_eq!(join(WINDOWS, r"\\?\C:\a\.", ".."), r"\\?\C:\a\.");
    assert_eq!(
        join(WINDOWS, r"\\?\UNC\server\share\a", "../b"),
        r"\\?\UNC\server\share\b"
    );
    assert_eq!(join(WINDOWS, r"\\?\name", "b"), r"\\?\name\b");
}

#[test]
fn the_parent_of_a_unix_path_leaves_its_last_part_out() {
    assert_eq!(unix_parent("/a/b").as_deref(), Some("/a"));
    assert_eq!(unix_parent("/a").as_deref(), Some("/"));
    assert_eq!(unix_parent("a").as_deref(), Some(""));
    assert_eq!(unix_parent("a//b///").as_deref(), Some("a"));
    assert_eq!(unix_parent("a/./b/.").as_deref(), Some("a"));
    assert_eq!(unix_parent("./a").as_deref(), Some("."));
    assert_eq!(unix_parent(".").as_deref(), Some(""));
    assert_eq!(unix_parent("./").as_deref(), Some(""));
    assert_eq!(unix_parent("a/..").as_deref(), Some("a"));
    assert_eq!(unix_parent("/"), None);
    assert_eq!(unix_parent("//."), None);
    assert_eq!(unix_parent(""), None);
}

#[test]
fn the_parent_of_a_windows_path_keeps_its_prefix() {
    assert_eq!(windows_parent(r"C:\a\b").as_deref(), Some(r"C:\a"));
    assert_eq!(windows_parent(r"C:\a").as_deref(), Some(r"C:\"));
    assert_eq!(windows_parent("C:a").as_deref(), Some("C:"));
    assert_eq!(windows_parent(r"C:.\a").as_deref(), Some("C:."));
    assert_eq!(windows_parent(r"\\server\share\a").as_deref(), Some(r"\\server\share\"));
    assert_eq!(windows_parent(r"\\?\C:\a\b").as_deref(), Some(r"\\?\C:\a"));
    assert_eq!(windows_parent(r"\\?\C:\a\.").as_deref(), Some(r"\\?\C:\a"));
    assert_eq!(windows_parent(r"\\?\C:\a/b").as_deref(), Some(r"\\?\C:\"));
    assert_eq!(windows_parent("a/b").as_deref(), Some("a"));
    assert_eq!(windows_parent(r"C:\"), None);
    assert_eq!(windows_parent("C:"), None);
    assert_eq!(windows_parent("C:."), None);
    assert_eq!(windows_parent(r"\\server\share"), None);
    assert_eq!(windows_parent(r"\\?\C:"), None);
}
