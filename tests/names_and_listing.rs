use file_transfer::command::{check_command, Commands};
use file_transfer::frame::{FileListEntry, TransferError};
use file_transfer::listing::{names_in_order, order_listing, render_entry, render_listing, render_row, render_size};
use file_transfer::names::validate_name;
use std::path::PathBuf;

fn entry(name: &str, size: u64) -> FileListEntry {
    FileListEntry { name: name.to_string(), size_bytes: size }
}

#[test]
fn parent_segments_are_path_violations() {
    for bad in ["..", "../etc", "a/../b", "a/b", "/abs", "", ".", "a\\b", "x\0"] {
        assert_eq!(validate_name(bad), Err(TransferError::PathViolation), "{bad:?}");
    }
    for good in ["abc", "..a", "a..", ".hidden", "file_1MiB", "näme"] {
        assert_eq!(validate_name(good), Ok(()), "{good:?}");
    }
}

#[test]
fn commands_are_checked_before_any_transfer() {
    let dir = PathBuf::from("/tmp");
    assert_eq!(check_command(&Commands::List), Ok(()));
    assert_eq!(check_command(&Commands::Download { file: "abc".to_string(), directory: dir.clone() }), Ok(()));
    assert_eq!(
        check_command(&Commands::Upload { file: "../abc".to_string(), directory: dir.clone() }),
        Err(TransferError::PathViolation)
    );
    assert_eq!(
        check_command(&Commands::Download { file: "..".to_string(), directory: dir }),
        Err(TransferError::PathViolation)
    );
}

#[test]
fn empty_listing_has_only_the_header() {
    assert_eq!(render_listing(&vec![]), vec!["File name  Size".to_string()]);
    assert!(order_listing(vec![]).is_empty());
}

#[test]
fn listing_shows_exact_sizes() {
    let entries = order_listing(vec![entry("xyz", 4), entry("abc", 5)]);
    assert_eq!(entries, vec![entry("abc", 5), entry("xyz", 4)]);
    assert_eq!(
        render_listing(&entries),
        vec!["File name  Size".to_string(), "abc        5B".to_string(), "xyz        4B".to_string()]
    );
}

#[test]
fn listing_order_is_lexicographic() {
    let got = order_listing(vec![entry("b", 1), entry("ab", 2), entry("a", 3), entry("B", 4), entry("ba", 5)]);
    let names: Vec<&str> = got.iter().map(|e| e.name.as_str()).collect();
    assert_eq!(names, vec!["B", "a", "ab", "b", "ba"]);
    assert!(names_in_order("a", "ab"));
    assert!(!names_in_order("ab", "a"));
    assert!(names_in_order("abc", "abc"));
    assert!(names_in_order("", "a"));
    assert!(!names_in_order("b", "abc"));
}

#[test]
fn sizes_render_in_bytes() {
    assert_eq!(render_size(0), "0B");
    assert_eq!(render_size(9), "9B");
    assert_eq!(render_size(10), "10B");
    assert_eq!(render_size(1048576), "1048576B");
    assert_eq!(render_size(u64::MAX), "18446744073709551615B");
}

#[test]
fn long_names_keep_one_space_before_the_size() {
    assert_eq!(render_entry(&entry("file_1048576", 1048576)), "file_1048576 1048576B");
    assert_eq!(render_entry(&entry("abcdefghij", 1)), "abcdefghij 1B");
    assert_eq!(render_row("", "x"), "           x");
}
