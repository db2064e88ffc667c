//! Paths as text, with `/` between their components.

use crate::text::{chars_of, text_of};
use vstd::prelude::*;

verus! {

/// Where the last piece of a path begins: behind its last separator, or at
/// the start where it holds none.
pub open spec fn last_piece_start(path: Seq<char>) -> nat
    decreases path.len(),
{
    if path.len() == 0 || path.last() == '/' {
        path.len()
    } else {
        last_piece_start(path.drop_last())
    }
}

/// The final component of a path: its last piece between separators that is
/// neither empty nor `.`. A path whose last such piece is `..`, or that has
/// no such piece (the root, the current directory, the empty path), has no
/// final component.
pub open spec fn final_component(path: Seq<char>) -> Option<Seq<char>>
    decreases path.len(),
{
    let start = last_piece_start(path) as int;
    let piece = path.skip(start);
    if piece == Seq::<char>::empty() || piece == seq!['.'] {
        if start <= 0 || start > path.len() {
            None
        } else {
            final_component(path.take(start - 1))
        }
    } else if piece == seq!['.', '.'] {
        None
    } else {
        Some(piece)
    }
}

/// The name under which a tree's root is shown: the final component of its
/// path, or the path as it is where it has none.
pub open spec fn root_name_of(path: Seq<char>) -> Seq<char> {
    match final_component(path) {
        Some(name) => name,
        None => path,
    }
}

/// The path of the file `files.txt` directly inside the directory `root`.
pub open spec fn output_path_of(root: Seq<char>) -> Seq<char> {
    if root.len() == 0 || root.last() == '/' {
        root + "files.txt"@
    } else {
        root + "/"@ + "files.txt"@
    }
}

/// A position with no separator from it on, and with a separator directly
/// before it unless it is the start, is `last_piece_start`.
pub proof fn lemma_last_piece_start_is(path: Seq<char>, start: int)
    requires
        0 <= start <= path.len(),
        forall|k: int| start <= k < path.len() ==> path[k] != '/',
        start > 0 ==> path[start - 1] == '/',
    ensures
        last_piece_start(path) == start,
    decreases path.len(),
{
    if path.len() == 0 || path.last() == '/' {
    } else {
        lemma_last_piece_start_is(path.drop_last(), start);
    }
}

/// The final component of the path held in `cs`, as a range of positions.
fn final_component_range(cs: &Vec<char>) -> (r: Option<(usize, usize)>)
    ensures
        match r {
            Some((from, to)) => from <= to <= cs.len() && final_component(cs@) == Some(
                cs@.subrange(from as int, to as int),
            ),
            None => final_component(cs@) is None,
        },
{
    let mut end: usize = cs.len();
    assert(cs@.take(end as int) == cs@);
    loop
        invariant
            end <= cs.len(),
            final_component(cs@) == final_component(cs@.take(end as int)),
        decreases end,
    {
        let ghost cur = cs@.take(end as int);
        let mut start: usize = end;
        while start > 0 && cs[start - 1] != '/'
            invariant
                start <= end <= cs.len(),
                forall|k: int| start <= k < end ==> cs@[k] != '/',
            decreases start,
        {
            start -= 1;
        }
        proof {
            lemma_last_piece_start_is(cur, start as int);
            assert(cur.skip(start as int) == cs@.subrange(start as int, end as int));
        }
        let ghost piece = cs@.subrange(start as int, end as int);
        let len: usize = end - start;
        let skip = len == 0 || (len == 1 && cs[start] == '.');
        let parent = len == 2 && cs[start] == '.' && cs[start + 1] == '.';
        proof {
            assert(skip == (piece == Seq::<char>::empty() || piece == seq!['.'])) by {
                if skip {
                    assert(piece =~= Seq::<char>::empty() || piece =~= seq!['.']);
                }
                if piece == seq!['.'] {
                    assert(piece.len() == 1 && piece[0] == '.');
                }
            }
            assert(parent == (piece == seq!['.', '.'])) by {
                if parent {
                    assert(piece =~= seq!['.', '.']);
                }
                if piece == seq!['.', '.'] {
                    assert(piece.len() == 2 && piece[0] == '.' && piece[1] == '.');
                }
            }
        }
        if skip {
            if start == 0 {
                return None;
            }
            proof {
                assert(cur.take(start - 1) == cs@.take(start - 1));
            }
            end = start - 1;
        } else if parent {
            return None;
        } else {
            return Some((start, end));
        }
    }
}

/// The name under which a tree's root is shown: the final component of
/// `path`, or `path` as it is where it has none. The result is never `None`.
pub fn display_root_name(path: &str) -> (r: Option<String>)
    ensures
        r is Some,
        r->0@ == root_name_of(path@),
{
    let cs = chars_of(path);
    match final_component_range(&cs) {
        Some((from, to)) => Some(text_of(&cs, from, to)),
        None => {
            let whole = text_of(&cs, 0, cs.len());
            assert(cs@.subrange(0, cs.len() as int) == cs@);
            Some(whole)
        },
    }
}

/// The path of the file `files.txt` directly inside the directory `root`.
pub fn output_path(root: &str) -> (r: String)
    ensures
        r@ == output_path_of(root@),
{
    let cs = chars_of(root);
    let mut out = String::new();
    out.append(root);
    if cs.len() > 0 && cs[cs.len() - 1] != '/' {
        out.append("/");
    }
    out.append("files.txt");
    out
}

} // verus!
