//! What holds of every state that a walk passes through.

use crate::entry::EntryView;
use crate::lister::{is_excluded_name, lemma_listing_leaves_out, listing_of};
use crate::order::{lemma_sorted_listing_exists, lemma_sorted_listing_members, sorted_listing};
use crate::paths::root_name_of;
use crate::render::{child_prefix_of, lemma_blocks_are_four_wide};
use crate::walker::{
    initial_view, ConfigView, FrameView, PhaseView, ReplyView, RequestView, StepView, WalkerView,
};
use vstd::prelude::*;

verus! {

/// Whether an entry may stand in the tree: its name is not excluded, and it
/// is not the file that the tree is written to.
pub open spec fn is_shown(config: ConfigView, e: EntryView) -> bool {
    !is_excluded_name(e.name) && config.self_path != Some(e.path)
}

/// Whether every entry of every directory that the walk is in may stand in
/// the tree.
pub open spec fn shows_only_listed(w: WalkerView) -> bool {
    forall|k: int, i: int|
        0 <= k < w.stack.len() && 0 <= i < w.stack[k].entries.len() ==> is_shown(
            w.config,
            #[trigger] w.stack[k].entries[i],
        )
}

/// Whether children with the prefix `prefix` belong to the entry that
/// `parent` drew last: that entry is a directory and no link, and `prefix` is
/// the parent's prefix extended by that entry's block.
pub open spec fn opened_from(
    parent: FrameView,
    parent_at_root: bool,
    ascii: bool,
    prefix: Seq<char>,
) -> bool {
    &&& 1 <= parent.next <= parent.entries.len()
    &&& parent.entries[parent.next - 1].kind is Directory
    &&& prefix == child_prefix_of(
        parent.prefix,
        parent_at_root,
        ascii,
        parent.next == parent.entries.len(),
    )
}

/// Whether the directories that the walk is in lie inside one another: the
/// root's lines have no prefix, every directory below it was opened from the
/// entry that the directory above drew last, and so is a directory whose
/// listing is awaited.
pub open spec fn is_nested(w: WalkerView) -> bool {
    &&& w.stack.len() > 0 ==> w.stack[0].prefix == Seq::<char>::empty()
    &&& forall|k: int|
        1 <= k < w.stack.len() ==> opened_from(
            w.stack[k - 1],
            k == 1,
            w.config.ascii,
            (#[trigger] w.stack[k]).prefix,
        )
    &&& match w.phase {
        PhaseView::AwaitListing { path, prefix } => if w.stack.len() == 0 {
            prefix == Seq::<char>::empty()
        } else {
            &&& opened_from(w.stack.last(), w.stack.len() == 1, w.config.ascii, prefix)
            &&& path == w.stack.last().entries[w.stack.last().next - 1].path
        },
        _ => true,
    }
}

/// A walk begins in a state of which all this holds.
pub proof fn lemma_initial_state(config: ConfigView, max_depth: Option<usize>, root: Seq<char>)
    ensures
        initial_view(config, max_depth, root).wf(),
        shows_only_listed(initial_view(config, max_depth, root)),
        is_nested(initial_view(config, max_depth, root)),
{
}

/// No step brings an excluded name, or the file that the tree is written
/// to, into the tree.
pub proof fn lemma_step_shows_only_listed(w: WalkerView, reply: ReplyView)
    requires
        w.wf(),
        shows_only_listed(w),
    ensures
        shows_only_listed(w.step(reply).0),
{
    let after = w.step(reply).0;
    assert forall|k: int, i: int|
        0 <= k < after.stack.len() && 0 <= i < after.stack[k].entries.len() implies is_shown(
        after.config,
        #[trigger] after.stack[k].entries[i],
    ) by {
        if k < w.stack.len() {
            assert(after.stack[k].entries == w.stack[k].entries);
            assert(is_shown(w.config, w.stack[k].entries[i]));
        } else {
            let raws = reply->Listing_0;
            let listing = listing_of(raws, w.config.self_path);
            lemma_sorted_listing_exists(listing);
            lemma_sorted_listing_members(listing, sorted_listing(listing), i);
            let e = sorted_listing(listing)[i];
            let j = choose|j: int| 0 <= j < listing.len() && listing[j] == e;
            lemma_listing_leaves_out(raws, w.config.self_path, j);
        }
    }
}

/// Every step leaves the directories that the walk is in inside one
/// another.
pub proof fn lemma_step_keeps_nested(w: WalkerView, reply: ReplyView)
    requires
        w.wf(),
        is_nested(w),
    ensures
        is_nested(w.step(reply).0),
{
    let after = w.step(reply).0;
    assert forall|k: int| 1 <= k < after.stack.len() implies opened_from(
        after.stack[k - 1],
        k == 1,
        after.config.ascii,
        (#[trigger] after.stack[k]).prefix,
    ) by {
        if k < w.stack.len() - 1 {
            assert(after.stack[k] == w.stack[k]);
            assert(after.stack[k - 1] == w.stack[k - 1]);
        } else if k < w.stack.len() {
            assert(after.stack[k - 1] == w.stack[k - 1]);
            assert(after.stack[k].prefix == w.stack[k].prefix);
        } else {
            assert(after.stack[k - 1] == w.stack[k - 1]);
        }
    }
    if after.stack.len() > 0 {
        if w.stack.len() > 0 {
            assert(after.stack[0].prefix == w.stack[0].prefix);
        }
    }
}

/// The prefix of a directory at depth `k` is `k` blocks wide.
pub proof fn lemma_prefix_width(w: WalkerView, k: int)
    requires
        is_nested(w),
        0 <= k < w.stack.len(),
    ensures
        w.stack[k].prefix.len() == 4 * k,
    decreases k,
{
    if k > 0 {
        lemma_prefix_width(w, k - 1);
        lemma_blocks_are_four_wide(w.config.ascii);
        assert(opened_from(w.stack[k - 1], k == 1, w.config.ascii, w.stack[k].prefix));
    }
}

/// A step asks for a listing in three cases only: of the root, when the walk
/// begins; of the current entry, when that is a directory and no link; and
/// again of the directory whose listing is awaited. In each case the
/// directory lies above the ceiling. So a walk never goes down into a link to
/// a directory, and never lists a directory at the ceiling or below.
pub proof fn lemma_lists_directories_only(w: WalkerView, reply: ReplyView)
    requires
        w.wf(),
    ensures
        match w.step(reply).1.request {
            RequestView::ListDir { path } => {
                &&& w.lists_at(w.stack.len() as int)
                &&& match w.phase {
                    PhaseView::Begin { root } => path == root,
                    PhaseView::Visit => {
                        &&& w.has_current()
                        &&& w.current().kind is Directory
                        &&& path == w.current().path
                    },
                    PhaseView::AwaitListing { path: awaited, prefix } => path == awaited,
                    _ => false,
                }
            },
            _ => true,
        },
{
}

/// A link is drawn as a leaf: the step that takes its target goes on with
/// the entry after it.
pub proof fn lemma_link_is_leaf(w: WalkerView, target: Option<Seq<char>>)
    requires
        w.wf(),
        w.phase is AwaitLink,
    ensures
        w.step(ReplyView::LinkTarget(target)).1.request is Proceed,
        w.step(ReplyView::LinkTarget(target)).1.lines == seq![w.current_line(target)],
        w.step(ReplyView::LinkTarget(target)).0.stack.len() == w.stack.len(),
{
}

/// With the ceiling 0 the root's name is all that is drawn.
pub proof fn lemma_ceiling_zero(config: ConfigView, root: Seq<char>, reply: ReplyView)
    ensures
        initial_view(config, Some(0), root).step(reply).1 == (StepView {
            lines: seq![root_name_of(root)],
            request: RequestView::Finished,
        }),
        initial_view(config, Some(0), root).step(reply).0.phase is Finished,
{
}

/// With the ceiling 1 only the root is ever listed: every later step draws
/// an entry of the root, or ends the walk.
pub proof fn lemma_ceiling_one(w: WalkerView, reply: ReplyView)
    requires
        w.wf(),
        w.max_depth == Some(1usize),
    ensures
        w.step(reply).1.request is ListDir ==> w.stack.len() == 0,
        w.step(reply).0.stack.len() <= 1,
{
    lemma_lists_directories_only(w, reply);
    crate::walker::lemma_step_keeps_wf(w, reply);
}

} // verus!
