//! One run: from what the command line asked for to a walk that is ready.

use crate::args::Config;
use crate::invariants::{is_nested, shows_only_listed};
use crate::paths::{output_path, output_path_of};
use crate::text::opt_view;
use crate::walker::{initial_view, ConfigView, RenderConfig, Walker};
use vstd::prelude::*;

verus! {

/// The path of the file that a run writes the tree to: `files.txt` in the
/// directory that is drawn. A run that writes to standard output has none.
pub open spec fn self_path_of(to_stdout: bool, root: Seq<char>) -> Option<Seq<char>> {
    if to_stdout {
        None
    } else {
        Some(output_path_of(root))
    }
}

/// The path of the file that a run writes the tree to, where it writes to a
/// file.
pub fn self_path(to_stdout: bool, root: &str) -> (r: Option<String>)
    ensures
        opt_view(r) == self_path_of(to_stdout, root@),
{
    if to_stdout {
        None
    } else {
        Some(output_path(root))
    }
}

/// The walk that a run makes of the directory `root`. The file that the tree
/// is written to is left out of the tree; with the tree on standard output
/// no entry is left out for its path.
pub fn begin_run(config: &Config, root: String) -> (w: Walker)
    ensures
        w@ == initial_view(
            ConfigView {
                ascii: config.ascii,
                show_content: config.show_content,
                self_path: self_path_of(config.to_stdout, root@),
            },
            config.max_depth,
            root@,
        ),
        w@.wf(),
        shows_only_listed(w@),
        is_nested(w@),
{
    let render = RenderConfig {
        ascii: config.ascii,
        show_content: config.show_content,
        self_path: self_path(config.to_stdout, root.as_str()),
    };
    Walker::new(render, config.max_depth, root)
}

} // verus!
