//! What a whole walk draws: the tree below a root, line by line, and the
//! proof that the machine draws exactly that.
//!
//! The file system is taken as it answers: a `World` says what listing a
//! directory, reading a link and reading a file give, the same at every
//! time it is asked.

use crate::entry::{EntryView, RawEntryView};
use crate::invariants::is_shown;
use crate::lister::{lemma_listing_leaves_out, listing_of};
use crate::order::{
    is_sorted_listing, lemma_sorted_listing_exists, lemma_sorted_listing_members, sorted_listing,
};
use crate::paths::root_name_of;
use crate::render::{child_prefix_of, content_block_of, display_name_of, entry_line_of};
use crate::walker::{
    initial_view, lemma_step_keeps_wf, ConfigView, FrameView, PhaseView, ReplyView, RequestView,
    WalkerView,
};
use vstd::prelude::*;

verus! {

/// What the file system answers.
pub ghost struct World {
    /// The children of the directory at a path, as its listing finds them.
    pub listing: spec_fn(Seq<char>) -> Seq<RawEntryView>,
    /// The target of the link at a path; `None` where it cannot be read.
    pub link: spec_fn(Seq<char>) -> Option<Seq<char>>,
    /// The content of the file at a path, or why it cannot be read.
    pub content: spec_fn(Seq<char>) -> Result<Seq<char>, Seq<char>>,
}

/// A file system together with the settings of a walk.
pub ghost struct Scene {
    pub world: World,
    pub config: ConfigView,
    pub max_depth: Option<usize>,
}

/// Where a run of the machine has got to.
pub ghost struct Trace {
    /// The state of the walk.
    pub state: WalkerView,
    /// The reply that the next step takes.
    pub reply: ReplyView,
    /// The lines drawn so far.
    pub lines: Seq<Seq<char>>,
}

impl Scene {
    /// Whether a directory at depth `depth` is listed.
    pub open spec fn lists_at(self, depth: int) -> bool {
        match self.max_depth {
            Some(ceiling) => depth < ceiling,
            None => true,
        }
    }

    /// The entries of the directory at `path`, as they are drawn.
    pub open spec fn children_of(self, path: Seq<char>) -> Seq<EntryView> {
        sorted_listing(listing_of((self.world.listing)(path), self.config.self_path))
    }

    /// The lines of the entries `entries[i..]` of a directory at depth
    /// `depth`, and of everything below them.
    ///
    /// Each entry has its line. Below the line of a regular file stands its
    /// content, where content is shown. Below the line of a directory that is
    /// no link stand the lines of its own entries, one block further in,
    /// unless it lies at the ceiling. `fuel` bounds how many levels further
    /// down the lines go.
    pub open spec fn level_lines(
        self,
        entries: Seq<EntryView>,
        i: int,
        prefix: Seq<char>,
        depth: int,
        fuel: nat,
    ) -> Seq<Seq<char>>
        decreases fuel, entries.len() - i,
    {
        if i < 0 || i >= entries.len() {
            Seq::empty()
        } else {
            let e = entries[i];
            let is_last = i == entries.len() - 1;
            let line = entry_line_of(
                prefix,
                depth == 0,
                self.config.ascii,
                is_last,
                display_name_of(e, (self.world.link)(e.path)),
            );
            let inlined = if e.kind is File && self.config.show_content {
                content_block_of(prefix, (self.world.content)(e.path))
            } else {
                Seq::empty()
            };
            let below = if e.kind is Directory && self.lists_at(depth + 1) && fuel > 0 {
                self.level_lines(
                    self.children_of(e.path),
                    0,
                    child_prefix_of(prefix, depth == 0, self.config.ascii, is_last),
                    depth + 1,
                    (fuel - 1) as nat,
                )
            } else {
                Seq::empty()
            };
            seq![line] + inlined + below + self.level_lines(entries, i + 1, prefix, depth, fuel)
        }
    }

    /// Whether `fuel` levels are enough for everything below the entries
    /// `entries[i..]` of a directory at depth `depth`: no directory that is
    /// to be listed lies deeper.
    pub open spec fn fits(self, entries: Seq<EntryView>, i: int, depth: int, fuel: nat) -> bool
        decreases fuel, entries.len() - i,
    {
        if i < 0 || i >= entries.len() {
            true
        } else {
            let e = entries[i];
            &&& e.kind is Directory && self.lists_at(depth + 1) ==> fuel > 0 && self.fits(
                self.children_of(e.path),
                0,
                depth + 1,
                (fuel - 1) as nat,
            )
            &&& self.fits(entries, i + 1, depth, fuel)
        }
    }

    /// The lines of the tree at `root`: the root's name, and below it the
    /// lines of its entries unless the ceiling is 0.
    pub open spec fn tree_lines(self, root: Seq<char>, fuel: nat) -> Seq<Seq<char>> {
        if self.lists_at(0) {
            seq![root_name_of(root)] + self.level_lines(
                self.children_of(root),
                0,
                Seq::empty(),
                0,
                fuel,
            )
        } else {
            seq![root_name_of(root)]
        }
    }

    /// Whether `fuel` levels are enough for the tree at `root`.
    pub open spec fn tree_fits(self, root: Seq<char>, fuel: nat) -> bool {
        self.lists_at(0) ==> self.fits(self.children_of(root), 0, 0, fuel)
    }

    /// What the file system answers to a request.
    pub open spec fn answer(self, request: RequestView) -> ReplyView {
        match request {
            RequestView::Proceed => ReplyView::Nothing,
            RequestView::ListDir { path } => ReplyView::Listing((self.world.listing)(path)),
            RequestView::ReadLink { path } => ReplyView::LinkTarget((self.world.link)(path)),
            RequestView::ReadFile { path } => ReplyView::FileContent((self.world.content)(path)),
            RequestView::Finished => ReplyView::Nothing,
        }
    }

    /// Where the machine gets to in `steps` steps from the state `w`, the
    /// first step taking `reply` and each later step what the file system
    /// answers to the request before it.
    pub open spec fn run(self, w: WalkerView, reply: ReplyView, steps: nat) -> Trace
        decreases steps,
    {
        if steps == 0 {
            Trace { state: w, reply, lines: Seq::empty() }
        } else {
            let (next, step) = w.step(reply);
            let rest = self.run(next, self.answer(step.request), (steps - 1) as nat);
            Trace { state: rest.state, reply: rest.reply, lines: step.lines + rest.lines }
        }
    }

    /// The state in which the walk of this scene begins at `root`.
    pub open spec fn start(self, root: Seq<char>) -> WalkerView {
        initial_view(self.config, self.max_depth, root)
    }
}

/// The entries of a directory are drawn in sorted order, and each of them
/// may stand in the tree: none has an excluded name, and none is the file
/// that the tree is written to.
pub proof fn lemma_children_are_shown(scene: Scene, path: Seq<char>, i: int)
    requires
        0 <= i < scene.children_of(path).len(),
    ensures
        is_sorted_listing(
            listing_of((scene.world.listing)(path), scene.config.self_path),
            scene.children_of(path),
        ),
        is_shown(scene.config, scene.children_of(path)[i]),
{
    let raws = (scene.world.listing)(path);
    let listing = listing_of(raws, scene.config.self_path);
    lemma_sorted_listing_exists(listing);
    lemma_sorted_listing_members(listing, scene.children_of(path), i);
    let j = choose|j: int| 0 <= j < listing.len() && listing[j] == scene.children_of(path)[i];
    lemma_listing_leaves_out(raws, scene.config.self_path, j);
}

/// The state `w` with every entry of its innermost directory done.
pub open spec fn level_done(w: WalkerView) -> WalkerView {
    let top = w.stack.last();
    WalkerView {
        stack: w.stack.drop_last().push(FrameView { next: top.entries.len() as int, ..top }),
        ..w
    }
}

/// A run of `a + b` steps is a run of `a` steps followed by a run of `b`
/// steps.
pub proof fn lemma_run_add(scene: Scene, w: WalkerView, reply: ReplyView, a: nat, b: nat)
    ensures
        scene.run(w, reply, a + b).state == scene.run(
            scene.run(w, reply, a).state,
            scene.run(w, reply, a).reply,
            b,
        ).state,
        scene.run(w, reply, a + b).reply == scene.run(
            scene.run(w, reply, a).state,
            scene.run(w, reply, a).reply,
            b,
        ).reply,
        scene.run(w, reply, a + b).lines == scene.run(w, reply, a).lines + scene.run(
            scene.run(w, reply, a).state,
            scene.run(w, reply, a).reply,
            b,
        ).lines,
    decreases a,
{
    if a == 0 {
        assert(scene.run(w, reply, a).lines + scene.run(w, reply, b).lines =~= scene.run(
            w,
            reply,
            b,
        ).lines);
    } else {
        let (next, step) = w.step(reply);
        let r = scene.answer(step.request);
        lemma_run_add(scene, next, r, (a - 1) as nat, b);
        let first = scene.run(next, r, (a - 1) as nat);
        let second = scene.run(first.state, first.reply, b);
        assert(scene.run(w, reply, a + b).lines == step.lines + scene.run(
            next,
            r,
            (a - 1 + b) as nat,
        ).lines);
        assert(step.lines + (first.lines + second.lines) =~= (step.lines + first.lines)
            + second.lines);
    }
}

/// Every state of a run is one that a walk can be in.
pub proof fn lemma_run_keeps_wf(scene: Scene, w: WalkerView, reply: ReplyView, steps: nat)
    requires
        w.wf(),
    ensures
        scene.run(w, reply, steps).state.wf(),
    decreases steps,
{
    if steps > 0 {
        lemma_step_keeps_wf(w, reply);
        let (next, step) = w.step(reply);
        lemma_run_keeps_wf(scene, next, scene.answer(step.request), (steps - 1) as nat);
    }
}

/// From a state that is about to take up an entry, the machine draws the
/// lines of that entry and of all entries after it in the same directory,
/// with everything below them, and then has that directory done. The result
/// is the number of steps that this takes.
pub proof fn lemma_run_draws_level(scene: Scene, w: WalkerView, reply: ReplyView, fuel: nat) -> (n:
    nat)
    requires
        w.wf(),
        w.phase is Visit,
        w.stack.len() > 0,
        w.config == scene.config,
        w.max_depth == scene.max_depth,
        scene.fits(w.stack.last().entries, w.stack.last().next, w.stack.len() - 1, fuel),
    ensures
        scene.run(w, reply, n).state == level_done(w),
        scene.run(w, reply, n).lines == scene.level_lines(
            w.stack.last().entries,
            w.stack.last().next,
            w.stack.last().prefix,
            w.stack.len() - 1,
            fuel,
        ),
    decreases fuel, w.stack.last().entries.len() - w.stack.last().next,
{
    let top = w.stack.last();
    let depth = w.stack.len() - 1;
    assert(w.stack[w.stack.len() - 1] == top);
    if top.next >= top.entries.len() {
        assert(w.stack.drop_last().push(top) =~= w.stack);
        assert(level_done(w) == w);
        0
    } else {
        let e = top.entries[top.next];
        let after = w.past_current(PhaseView::Visit);
        assert(after.stack.last() == (FrameView { next: top.next + 1, ..top }));
        assert(after.stack.drop_last() =~= w.stack.drop_last());
        assert(level_done(after) == level_done(w));
        let rest = scene.level_lines(top.entries, top.next + 1, top.prefix, depth, fuel);
        let (w1, s1) = w.step(reply);
        let r1 = scene.answer(s1.request);
        lemma_step_keeps_wf(w, reply);
        assert(scene.run(w, reply, 1).state == w1 && scene.run(w, reply, 1).reply == r1
            && scene.run(w, reply, 1).lines =~= s1.lines) by {
            assert(scene.run(w1, r1, 0).lines =~= Seq::<Seq<char>>::empty());
        }
        if e.kind.is_symlink() || (e.kind is File && w.config.show_content) {
            let (w2, s2) = w1.step(r1);
            let r2 = scene.answer(s2.request);
            lemma_step_keeps_wf(w1, r1);
            assert(w2 == after);
            assert(scene.run(w1, r1, 1).state == w2 && scene.run(w1, r1, 1).reply == r2
                && scene.run(w1, r1, 1).lines =~= s2.lines) by {
                assert(scene.run(w2, r2, 0).lines =~= Seq::<Seq<char>>::empty());
            }
            lemma_run_add(scene, w, reply, 1, 1);
            let m = lemma_run_draws_level(scene, after, r2, fuel);
            lemma_run_add(scene, w, reply, 2, m);
            assert(scene.run(w, reply, 2 + m).lines =~= scene.level_lines(
                top.entries,
                top.next,
                top.prefix,
                depth,
                fuel,
            ));
            2 + m
        } else if e.kind is Directory && w.lists_at(w.stack.len() as int) {
            let (w2, s2) = w1.step(r1);
            let r2 = scene.answer(s2.request);
            lemma_step_keeps_wf(w1, r1);
            assert(scene.run(w1, r1, 1).state == w2 && scene.run(w1, r1, 1).reply == r2
                && scene.run(w1, r1, 1).lines =~= s2.lines) by {
                assert(scene.run(w2, r2, 0).lines =~= Seq::<Seq<char>>::empty());
            }
            lemma_run_add(scene, w, reply, 1, 1);
            let children = scene.children_of(e.path);
            let inner_prefix = child_prefix_of(
                top.prefix,
                depth == 0,
                w.config.ascii,
                top.next == top.entries.len() - 1,
            );
            assert(w2.stack == after.stack.push(
                FrameView { entries: children, next: 0, prefix: inner_prefix },
            ));
            assert(w2.stack.drop_last() =~= after.stack);
            let k = lemma_run_draws_level(scene, w2, r2, (fuel - 1) as nat);
            lemma_run_add(scene, w, reply, 2, k);
            let t3 = scene.run(w, reply, 2 + k);
            let w3 = t3.state;
            assert(w3 == level_done(w2));
            lemma_run_keeps_wf(scene, w, reply, 2 + k);
            let (w4, s4) = w3.step(t3.reply);
            let r4 = scene.answer(s4.request);
            assert(w3.stack.drop_last() =~= after.stack);
            assert(w4 == after);
            assert(scene.run(w3, t3.reply, 1).state == w4 && scene.run(w3, t3.reply, 1).reply
                == r4 && scene.run(w3, t3.reply, 1).lines =~= s4.lines) by {
                assert(scene.run(w4, r4, 0).lines =~= Seq::<Seq<char>>::empty());
            }
            lemma_run_add(scene, w, reply, 2 + k, 1);
            let m = lemma_run_draws_level(scene, after, r4, fuel);
            lemma_run_add(scene, w, reply, 3 + k, m);
            assert(scene.run(w, reply, 3 + k + m).lines =~= scene.level_lines(
                top.entries,
                top.next,
                top.prefix,
                depth,
                fuel,
            ));
            3 + k + m
        } else {
            assert(w1 == after);
            let m = lemma_run_draws_level(scene, after, r1, fuel);
            lemma_run_add(scene, w, reply, 1, m);
            assert(scene.run(w, reply, 1 + m).lines =~= scene.level_lines(
                top.entries,
                top.next,
                top.prefix,
                depth,
                fuel,
            ));
            1 + m
        }
    }
}

/// A walk draws the tree. Begun at `root` and answered by the file system
/// of `scene`, the machine comes to its end, and the lines that it has drawn
/// by then are the lines of the tree at `root`. The result is the number of
/// steps that this takes.
pub proof fn lemma_walk_draws_tree(scene: Scene, root: Seq<char>, fuel: nat) -> (n: nat)
    requires
        scene.tree_fits(root, fuel),
    ensures
        scene.run(scene.start(root), ReplyView::Nothing, n).state.phase is Finished,
        scene.run(scene.start(root), ReplyView::Nothing, n).lines == scene.tree_lines(root, fuel),
{
    let w = scene.start(root);
    let reply = ReplyView::Nothing;
    let (w1, s1) = w.step(reply);
    let r1 = scene.answer(s1.request);
    lemma_step_keeps_wf(w, reply);
    assert(scene.run(w, reply, 1).state == w1 && scene.run(w, reply, 1).reply == r1 && scene.run(
        w,
        reply,
        1,
    ).lines =~= s1.lines) by {
        assert(scene.run(w1, r1, 0).lines =~= Seq::<Seq<char>>::empty());
    }
    if scene.lists_at(0) {
        let (w2, s2) = w1.step(r1);
        let r2 = scene.answer(s2.request);
        lemma_step_keeps_wf(w1, r1);
        assert(scene.run(w1, r1, 1).state == w2 && scene.run(w1, r1, 1).reply == r2 && scene.run(
            w1,
            r1,
            1,
        ).lines =~= s2.lines) by {
            assert(scene.run(w2, r2, 0).lines =~= Seq::<Seq<char>>::empty());
        }
        lemma_run_add(scene, w, reply, 1, 1);
        let children = scene.children_of(root);
        assert(w2.stack =~= seq![
            FrameView { entries: children, next: 0, prefix: Seq::<char>::empty() },
        ]);
        let k = lemma_run_draws_level(scene, w2, r2, fuel);
        lemma_run_add(scene, w, reply, 2, k);
        lemma_run_keeps_wf(scene, w, reply, 2 + k);
        let t3 = scene.run(w, reply, 2 + k);
        let w3 = t3.state;
        assert(w3 == level_done(w2));
        let (w4, s4) = w3.step(t3.reply);
        let r4 = scene.answer(s4.request);
        assert(w4.stack =~= Seq::<FrameView>::empty());
        assert(scene.run(w3, t3.reply, 1).state == w4 && scene.run(w3, t3.reply, 1).reply == r4
            && scene.run(w3, t3.reply, 1).lines =~= s4.lines) by {
            assert(scene.run(w4, r4, 0).lines =~= Seq::<Seq<char>>::empty());
        }
        lemma_run_add(scene, w, reply, 2 + k, 1);
        let (w5, s5) = w4.step(r4);
        let r5 = scene.answer(s5.request);
        assert(scene.run(w4, r4, 1).state == w5 && scene.run(w4, r4, 1).reply == r5 && scene.run(
            w4,
            r4,
            1,
        ).lines =~= s5.lines) by {
            assert(scene.run(w5, r5, 0).lines =~= Seq::<Seq<char>>::empty());
        }
        lemma_run_add(scene, w, reply, 3 + k, 1);
        assert(scene.run(w, reply, 4 + k).lines =~= scene.tree_lines(root, fuel));
        4 + k
    } else {
        1
    }
}

/// Under a ceiling, as many levels as the ceiling counts are enough.
pub proof fn lemma_ceiling_fits(scene: Scene, entries: Seq<EntryView>, i: int, depth: int, fuel: nat)
    requires
        scene.max_depth is Some,
        depth >= 0,
        fuel + depth + 1 >= scene.max_depth->0,
    ensures
        scene.fits(entries, i, depth, fuel),
    decreases fuel, entries.len() - i,
{
    if 0 <= i < entries.len() {
        let e = entries[i];
        if e.kind is Directory && scene.lists_at(depth + 1) {
            lemma_ceiling_fits(scene, scene.children_of(e.path), 0, depth + 1, (fuel - 1) as nat);
        }
        lemma_ceiling_fits(scene, entries, i + 1, depth, fuel);
    }
}

/// A walk with a ceiling always comes to its end, whatever the file system
/// holds, and has then drawn the tree down to the ceiling. The result is the
/// number of steps that this takes.
pub proof fn lemma_walk_with_ceiling_ends(scene: Scene, root: Seq<char>) -> (n: nat)
    requires
        scene.max_depth is Some,
    ensures
        scene.run(scene.start(root), ReplyView::Nothing, n).state.phase is Finished,
        scene.run(scene.start(root), ReplyView::Nothing, n).lines == scene.tree_lines(
            root,
            scene.max_depth->0 as nat,
        ),
{
    let fuel = scene.max_depth->0 as nat;
    lemma_ceiling_fits(scene, scene.children_of(root), 0, 0, fuel);
    lemma_walk_draws_tree(scene, root, fuel)
}

} // verus!
