//! The text of one tree line: branch glyphs, ancestor prefixes, display
//! names, and inlined file content.

use crate::entry::{DirEntryInfo, EntryKind, EntryView};
use crate::text::{lines_of, opt_view, split_lines, text_views};
use vstd::prelude::*;

verus! {

/// The branch drawn before an entry that has siblings after it.
pub open spec fn tee_glyph(ascii: bool) -> Seq<char> {
    if ascii {
        "|-- "@
    } else {
        "├── "@
    }
}

/// The branch drawn before the last entry of a directory.
pub open spec fn elbow_glyph(ascii: bool) -> Seq<char> {
    if ascii {
        "`-- "@
    } else {
        "└── "@
    }
}

/// The block that continues the branch of an ancestor with siblings after it.
pub open spec fn pipe_block(ascii: bool) -> Seq<char> {
    if ascii {
        "|   "@
    } else {
        "│   "@
    }
}

/// The block that stands below an ancestor that was the last of its siblings,
/// and the indentation of inlined content.
pub open spec fn blank_block() -> Seq<char> {
    "    "@
}

/// The branch glyph of an entry: an elbow for the last of its siblings, a
/// tee for every other.
pub open spec fn branch_of(ascii: bool, is_last: bool) -> Seq<char> {
    if is_last {
        elbow_glyph(ascii)
    } else {
        tee_glyph(ascii)
    }
}

/// The block by which a directory's prefix is extended for its children.
pub open spec fn continuation_of(ascii: bool, is_last: bool) -> Seq<char> {
    if is_last {
        blank_block()
    } else {
        pipe_block(ascii)
    }
}

/// The part of a line that stands for the ancestors: nothing for the
/// children of the root, the accumulated prefix everywhere else.
pub open spec fn ancestors_of(prefix: Seq<char>, is_root: bool) -> Seq<char> {
    if is_root {
        Seq::empty()
    } else {
        prefix
    }
}

/// The name shown for an entry: a directory's name ends in a separator, and a
/// symbolic link is followed by an arrow and its target, or by a marker where
/// the target could not be read.
pub open spec fn display_name_of(e: EntryView, target: Option<Seq<char>>) -> Seq<char> {
    let name = if e.kind is Directory {
        e.name + "/"@
    } else {
        e.name
    };
    if e.kind.is_symlink() {
        name + " -> "@ + match target {
            Some(t) => t,
            None => "<unreadable>"@,
        }
    } else {
        name
    }
}

/// The line of an entry.
pub open spec fn entry_line_of(
    prefix: Seq<char>,
    is_root: bool,
    ascii: bool,
    is_last: bool,
    display: Seq<char>,
) -> Seq<char> {
    ancestors_of(prefix, is_root) + branch_of(ascii, is_last) + display
}

/// The prefix of the children of a directory that was drawn with `prefix`.
pub open spec fn child_prefix_of(prefix: Seq<char>, is_root: bool, ascii: bool, is_last: bool) -> Seq<
    char,
> {
    ancestors_of(prefix, is_root) + continuation_of(ascii, is_last)
}

/// The indentation of content inlined below an entry drawn with `prefix`.
pub open spec fn content_indent_of(prefix: Seq<char>) -> Seq<char> {
    prefix + blank_block()
}

/// The lines that stand for a file's content below its entry. Content that
/// was read is framed by a start and an end marker, each of its lines
/// indented; content that could not be read gives one line with the reason.
pub open spec fn content_block_of(prefix: Seq<char>, content: Result<Seq<char>, Seq<char>>) -> Seq<
    Seq<char>,
> {
    let indent = content_indent_of(prefix);
    match content {
        Ok(text) => seq![indent + "--- FILE CONTENT START ---"@] + lines_of(text).map_values(
            |l: Seq<char>| indent + l,
        ) + seq![indent + "--- FILE CONTENT END ---"@],
        Err(reason) => seq![indent + "[Could not read file: "@ + reason + "]"@],
    }
}

/// Every glyph and block is four characters wide, in either glyph set.
pub proof fn lemma_blocks_are_four_wide(ascii: bool)
    ensures
        tee_glyph(ascii).len() == 4,
        elbow_glyph(ascii).len() == 4,
        pipe_block(ascii).len() == 4,
        blank_block().len() == 4,
{
    reveal_strlit("|-- ");
    reveal_strlit("├── ");
    reveal_strlit("`-- ");
    reveal_strlit("└── ");
    reveal_strlit("|   ");
    reveal_strlit("│   ");
    reveal_strlit("    ");
}

/// The branch glyph of an entry.
pub fn branch_glyph(ascii: bool, is_last: bool) -> (r: &'static str)
    ensures
        r@ == branch_of(ascii, is_last),
{
    if is_last {
        if ascii {
            "`-- "
        } else {
            "└── "
        }
    } else {
        if ascii {
            "|-- "
        } else {
            "├── "
        }
    }
}

/// The block by which a directory's prefix is extended for its children.
pub fn continuation_block(ascii: bool, is_last: bool) -> (r: &'static str)
    ensures
        r@ == continuation_of(ascii, is_last),
{
    if is_last {
        "    "
    } else {
        if ascii {
            "|   "
        } else {
            "│   "
        }
    }
}

/// The name shown for an entry. `target` is what reading the link gave, for
/// an entry that is a symbolic link; for any other entry it is not looked at.
pub fn display_name(entry: &DirEntryInfo, target: &Option<String>) -> (r: String)
    ensures
        r@ == display_name_of(entry@, opt_view(*target)),
{
    let mut out = String::new();
    out.append(entry.name.as_str());
    match entry.kind {
        EntryKind::Directory => {
            out.append("/");
        },
        _ => {},
    }
    if entry.kind.is_symlink() {
        out.append(" -> ");
        match target {
            Some(t) => {
                out.append(t.as_str());
            },
            None => {
                out.append("<unreadable>");
            },
        }
    }
    out
}

/// The line of an entry.
pub fn entry_line(prefix: &str, is_root: bool, ascii: bool, is_last: bool, display: &str) -> (r:
    String)
    ensures
        r@ == entry_line_of(prefix@, is_root, ascii, is_last, display@),
{
    let mut out = String::new();
    if !is_root {
        out.append(prefix);
    }
    out.append(branch_glyph(ascii, is_last));
    out.append(display);
    out
}

/// The prefix of the children of a directory that was drawn with `prefix`.
pub fn child_prefix(prefix: &str, is_root: bool, ascii: bool, is_last: bool) -> (r: String)
    ensures
        r@ == child_prefix_of(prefix@, is_root, ascii, is_last),
{
    let mut out = String::new();
    if !is_root {
        out.append(prefix);
    }
    out.append(continuation_block(ascii, is_last));
    out
}

/// The view of a file's content, or of the reason why it could not be read.
pub open spec fn content_view(content: Result<String, String>) -> Result<Seq<char>, Seq<char>> {
    match content {
        Ok(text) => Ok(text@),
        Err(reason) => Err(reason@),
    }
}

/// The lines that stand for a file's content below its entry.
pub fn content_block(prefix: &str, content: &Result<String, String>) -> (r: Vec<String>)
    ensures
        text_views(r@) == content_block_of(prefix@, content_view(*content)),
{
    let mut indent = String::new();
    indent.append(prefix);
    indent.append("    ");
    let mut out: Vec<String> = Vec::new();
    match content {
        Ok(text) => {
            let mut first = indent.clone();
            first.append("--- FILE CONTENT START ---");
            out.push(first);
            let lines = split_lines(text.as_str());
            let ghost all = lines_of(text@);
            let ghost head = seq![indent@ + "--- FILE CONTENT START ---"@];
            assert(text_views(out@) == head);
            let mut i: usize = 0;
            while i < lines.len()
                invariant
                    i <= lines.len(),
                    text_views(lines@) == all,
                    text_views(out@) == head + all.take(i as int).map_values(
                        |l: Seq<char>| indent@ + l,
                    ),
                decreases lines.len() - i,
            {
                let mut line = indent.clone();
                line.append(lines[i].as_str());
                proof {
                    assert(lines@[i as int]@ == all[i as int]);
                    assert(all.take(i + 1) == all.take(i as int).push(all[i as int]));
                    assert(text_views(out@.push(line)) == text_views(out@).push(line@));
                    assert(head + all.take(i + 1).map_values(|l: Seq<char>| indent@ + l) == (head
                        + all.take(i as int).map_values(|l: Seq<char>| indent@ + l)).push(
                        indent@ + all[i as int],
                    ));
                }
                out.push(line);
                i += 1;
            }
            let mut last = indent.clone();
            last.append("--- FILE CONTENT END ---");
            proof {
                assert(all.take(lines.len() as int) == all);
                assert(text_views(out@.push(last)) == text_views(out@).push(last@));
                assert(text_views(out@).push(last@) == content_block_of(
                    prefix@,
                    content_view(*content),
                ));
            }
            out.push(last);
        },
        Err(reason) => {
            let mut line = indent.clone();
            line.append("[Could not read file: ");
            line.append(reason.as_str());
            line.append("]");
            proof {
                assert(text_views(out@.push(line)) == seq![line@]);
            }
            out.push(line);
        },
    }
    out
}

} // verus!
