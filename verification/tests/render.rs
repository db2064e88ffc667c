use folderwalk::entry::{DirEntryInfo, EntryKind};
use folderwalk::render::{
    branch_glyph, child_prefix, content_block, continuation_block, display_name, entry_line,
};

fn entry(name: &str, kind: EntryKind) -> DirEntryInfo {
    DirEntryInfo { path: format!("r/{}", name), name: name.to_string(), kind }
}

#[test]
fn branch_glyphs_of_both_sets() {
    assert_eq!(branch_glyph(false, false), "├── ");
    assert_eq!(branch_glyph(false, true), "└── ");
    assert_eq!(branch_glyph(true, false), "|-- ");
    assert_eq!(branch_glyph(true, true), "`-- ");
}

#[test]
fn continuation_blocks_of_both_sets() {
    assert_eq!(continuation_block(false, false), "│   ");
    assert_eq!(continuation_block(false, true), "    ");
    assert_eq!(continuation_block(true, false), "|   ");
    assert_eq!(continuation_block(true, true), "    ");
}

#[test]
fn glyphs_and_blocks_are_four_characters_wide() {
    for ascii in [false, true] {
        for is_last in [false, true] {
            assert_eq!(branch_glyph(ascii, is_last).chars().count(), 4);
            assert_eq!(continuation_block(ascii, is_last).chars().count(), 4);
        }
    }
}

#[test]
fn display_name_of_a_file_is_its_name() {
    assert_eq!(display_name(&entry("b.txt", EntryKind::File), &None), "b.txt");
    assert_eq!(display_name(&entry("dev", EntryKind::Other), &None), "dev");
    assert_eq!(
        display_name(&entry("b.txt", EntryKind::File), &Some("ignored".to_string())),
        "b.txt"
    );
}

#[test]
fn display_name_of_a_directory_ends_in_a_separator() {
    assert_eq!(display_name(&entry("A", EntryKind::Directory), &None), "A/");
}

#[test]
fn display_name_of_a_link_shows_its_target() {
    assert_eq!(
        display_name(&entry("link", EntryKind::SymlinkToFile), &Some("missing".to_string())),
        "link -> missing"
    );
    assert_eq!(
        display_name(&entry("up", EntryKind::SymlinkToDirectory), &Some("..".to_string())),
        "up -> .."
    );
}

#[test]
fn display_name_of_a_link_that_cannot_be_read() {
    assert_eq!(
        display_name(&entry("link", EntryKind::SymlinkToFile), &None),
        "link -> <unreadable>"
    );
    assert_eq!(
        display_name(&entry("ld", EntryKind::SymlinkToDirectory), &None),
        "ld -> <unreadable>"
    );
}

#[test]
fn entry_line_at_the_root_has_no_prefix() {
    assert_eq!(entry_line("", true, false, false, "A/"), "├── A/");
    assert_eq!(entry_line("ignored", true, false, true, "b.txt"), "└── b.txt");
    assert_eq!(entry_line("", true, true, true, "b.txt"), "`-- b.txt");
}

#[test]
fn entry_line_below_the_root_begins_with_the_prefix() {
    assert_eq!(entry_line("│   ", false, false, false, "x"), "│   ├── x");
    assert_eq!(entry_line("│       ", false, false, true, "y/"), "│       └── y/");
    assert_eq!(entry_line("|   ", false, true, false, "x"), "|   |-- x");
}

#[test]
fn child_prefix_extends_by_one_block() {
    assert_eq!(child_prefix("", true, false, false), "│   ");
    assert_eq!(child_prefix("", true, false, true), "    ");
    assert_eq!(child_prefix("│   ", false, false, true), "│       ");
    assert_eq!(child_prefix("    ", false, false, false), "    │   ");
    assert_eq!(child_prefix("|   ", false, true, false), "|   |   ");
    assert_eq!(child_prefix("ignored", true, true, false), "|   ");
}

#[test]
fn content_block_frames_the_lines() {
    let lines = content_block("", &Ok("alpha\nbeta\n".to_string()));
    assert_eq!(
        lines,
        vec![
            "    --- FILE CONTENT START ---",
            "    alpha",
            "    beta",
            "    --- FILE CONTENT END ---"
        ]
    );
}

#[test]
fn content_block_indents_behind_the_prefix() {
    let lines = content_block("│   ", &Ok("x\r\ny".to_string()));
    assert_eq!(
        lines,
        vec![
            "│       --- FILE CONTENT START ---",
            "│       x",
            "│       y",
            "│       --- FILE CONTENT END ---"
        ]
    );
}

#[test]
fn content_block_of_an_empty_file_has_only_markers() {
    let lines = content_block("", &Ok(String::new()));
    assert_eq!(lines, vec!["    --- FILE CONTENT START ---", "    --- FILE CONTENT END ---"]);
}

#[test]
fn content_block_of_unreadable_content_is_one_line() {
    let lines = content_block("", &Err("stream did not contain valid UTF-8".to_string()));
    assert_eq!(lines, vec!["    [Could not read file: stream did not contain valid UTF-8]"]);
    let lines = content_block("|   ", &Err("denied".to_string()));
    assert_eq!(lines, vec!["|       [Could not read file: denied]"]);
}
