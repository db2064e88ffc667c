use folderwalk::diagnostics::{
    broken_listing, not_a_directory, unreadable_directory, unreadable_entry,
};

#[test]
fn warning_for_a_directory_that_cannot_be_listed() {
    assert_eq!(
        unreadable_directory("root/locked", "Permission denied (os error 13)"),
        "Warning: cannot read directory root/locked: Permission denied (os error 13)"
    );
}

#[test]
fn warning_for_an_entry_without_metadata() {
    assert_eq!(
        unreadable_entry("root/x", "No such file or directory (os error 2)"),
        "Warning: cannot stat root/x: No such file or directory (os error 2)"
    );
}

#[test]
fn warning_for_a_listing_that_broke_off() {
    assert_eq!(broken_listing("root", "oops"), "Warning: error while reading in root: oops");
}

#[test]
fn warnings_are_single_lines_with_the_fixed_prefix() {
    for w in [
        unreadable_directory("d", "r"),
        unreadable_entry("p", "r"),
        broken_listing("d", "r"),
    ] {
        assert!(w.starts_with("Warning: "));
        assert!(!w.contains('\n'));
    }
}

#[test]
fn message_for_a_root_that_is_no_directory() {
    assert_eq!(not_a_directory("some/file.txt"), "Path is not a directory: some/file.txt");
}
