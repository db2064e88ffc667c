//! The warnings of a walk. Each is one line for the error stream and begins
//! with `Warning: `; none of them ends the walk.

use vstd::prelude::*;

verus! {

/// The warning for a directory that cannot be listed.
pub open spec fn unreadable_directory_of(dir: Seq<char>, reason: Seq<char>) -> Seq<char> {
    "Warning: cannot read directory "@ + dir + ": "@ + reason
}

/// The warning for an entry whose metadata cannot be read.
pub open spec fn unreadable_entry_of(path: Seq<char>, reason: Seq<char>) -> Seq<char> {
    "Warning: cannot stat "@ + path + ": "@ + reason
}

/// The warning for a listing of `dir` that broke off at one of its entries.
pub open spec fn broken_listing_of(dir: Seq<char>, reason: Seq<char>) -> Seq<char> {
    "Warning: error while reading in "@ + dir + ": "@ + reason
}

/// The message for a root that is no directory.
pub open spec fn not_a_directory_of(path: Seq<char>) -> Seq<char> {
    "Path is not a directory: "@ + path
}

/// The warning for a directory that cannot be listed.
pub fn unreadable_directory(dir: &str, reason: &str) -> (r: String)
    ensures
        r@ == unreadable_directory_of(dir@, reason@),
{
    let mut out = String::from_str("Warning: cannot read directory ");
    out.append(dir);
    out.append(": ");
    out.append(reason);
    out
}

/// The warning for an entry whose metadata cannot be read.
pub fn unreadable_entry(path: &str, reason: &str) -> (r: String)
    ensures
        r@ == unreadable_entry_of(path@, reason@),
{
    let mut out = String::from_str("Warning: cannot stat ");
    out.append(path);
    out.append(": ");
    out.append(reason);
    out
}

/// The warning for a listing of `dir` that broke off at one of its entries.
pub fn broken_listing(dir: &str, reason: &str) -> (r: String)
    ensures
        r@ == broken_listing_of(dir@, reason@),
{
    let mut out = String::from_str("Warning: error while reading in ");
    out.append(dir);
    out.append(": ");
    out.append(reason);
    out
}

/// The message for a root that is no directory.
pub fn not_a_directory(path: &str) -> (r: String)
    ensures
        r@ == not_a_directory_of(path@),
{
    let mut out = String::from_str("Path is not a directory: ");
    out.append(path);
    out
}

} // verus!
