//! Drawing a directory as a tree of text lines.
//!
//! The library decides and the caller acts. A `walker::Walker` is a machine
//! that walks a directory tree depth first: every step hands back lines to
//! write and one request to the file system, and takes the answer to that
//! request with the next step. The machine itself never reads or writes.
//!
//! - `text`: texts as sequences of characters; comparison, lines.
//! - `paths`: the name of a root, the path of the output file.
//! - `entry`: directory entries and their classification.
//! - `lister`: which children of a directory are shown.
//! - `order`: the order of siblings.
//! - `render`: glyphs, prefixes, lines, inlined content.
//! - `walker`: the machine and its steps.
//! - `invariants`: what holds of every state of a walk.
//! - `tree`: what a whole walk draws.
//! - `args`: the command line.
//! - `run`: from a command line to a walk.
//! - `diagnostics`: the warnings that a walk gives.

pub mod args;
pub mod diagnostics;
pub mod entry;
pub mod invariants;
pub mod lister;
pub mod order;
pub mod paths;
pub mod render;
pub mod run;
pub mod text;
pub mod tree;
pub mod walker;
