//! The walk over a directory tree, as a machine that asks for one thing at a
//! time.
//!
//! The machine never touches the file system. Each step hands back the lines
//! to write and one request: list a directory, read a link, read a file, or
//! simply step again. The caller does what is asked and steps with the
//! answer. The walk is depth first: a directory's line is followed by the
//! lines of everything below it.

use crate::entry::{entry_views, raw_views, DirEntryInfo, EntryKind, EntryView, RawEntry, RawEntryView};
use crate::invariants::{
    is_nested, lemma_step_keeps_nested, lemma_step_shows_only_listed, shows_only_listed,
};
use crate::lister::{list_entries, listing_of};
use crate::order::{sort_entries, sorted_listing};
use crate::paths::{display_root_name, root_name_of};
use crate::render::{
    child_prefix, child_prefix_of, content_block, content_block_of, content_view, display_name,
    display_name_of, entry_line, entry_line_of,
};
use crate::text::{opt_view, text_views};
use vstd::prelude::*;

verus! {

/// What stays the same during one walk.
#[derive(Debug)]
pub struct RenderConfig {
    /// Whether the tree is drawn with ASCII characters only.
    pub ascii: bool,
    /// Whether the content of regular files is inlined below their lines.
    pub show_content: bool,
    /// The path of the file that the tree is written to, where it is written
    /// to a file: that file is left out of the tree.
    pub self_path: Option<String>,
}

/// The mathematical value of a `RenderConfig`.
pub ghost struct ConfigView {
    pub ascii: bool,
    pub show_content: bool,
    pub self_path: Option<Seq<char>>,
}

impl View for RenderConfig {
    type V = ConfigView;

    open spec fn view(&self) -> ConfigView {
        ConfigView {
            ascii: self.ascii,
            show_content: self.show_content,
            self_path: opt_view(self.self_path),
        }
    }
}

/// What the machine asks its caller to do before the next step.
#[derive(Debug)]
pub enum Request {
    /// Nothing: step again, with any reply.
    Proceed,
    /// List the directory at `path`, and reply with `Reply::Listing`.
    ListDir { path: String },
    /// Read the target of the link at `path`, and reply with
    /// `Reply::LinkTarget`.
    ReadLink { path: String },
    /// Read the file at `path` as text, and reply with `Reply::FileContent`.
    ReadFile { path: String },
    /// Nothing: the walk is over.
    Finished,
}

/// The mathematical value of a `Request`.
pub ghost enum RequestView {
    Proceed,
    ListDir { path: Seq<char> },
    ReadLink { path: Seq<char> },
    ReadFile { path: Seq<char> },
    Finished,
}

impl View for Request {
    type V = RequestView;

    open spec fn view(&self) -> RequestView {
        match self {
            Request::Proceed => RequestView::Proceed,
            Request::ListDir { path } => RequestView::ListDir { path: path@ },
            Request::ReadLink { path } => RequestView::ReadLink { path: path@ },
            Request::ReadFile { path } => RequestView::ReadFile { path: path@ },
            Request::Finished => RequestView::Finished,
        }
    }
}

/// What the caller answers.
#[derive(Debug)]
pub enum Reply {
    /// The answer to a request that asked for nothing.
    Nothing,
    /// The children of the directory, in the order in which they were found;
    /// none where the directory could not be read.
    Listing(Vec<RawEntry>),
    /// The target of the link; `None` where it could not be read.
    LinkTarget(Option<String>),
    /// The content of the file, or the reason why it could not be read.
    FileContent(Result<String, String>),
}

/// The mathematical value of a `Reply`.
pub ghost enum ReplyView {
    Nothing,
    Listing(Seq<RawEntryView>),
    LinkTarget(Option<Seq<char>>),
    FileContent(Result<Seq<char>, Seq<char>>),
}

impl View for Reply {
    type V = ReplyView;

    open spec fn view(&self) -> ReplyView {
        match self {
            Reply::Nothing => ReplyView::Nothing,
            Reply::Listing(raws) => ReplyView::Listing(raw_views(raws@)),
            Reply::LinkTarget(target) => ReplyView::LinkTarget(opt_view(*target)),
            Reply::FileContent(content) => ReplyView::FileContent(content_view(*content)),
        }
    }
}

/// What one step gives: lines to write, in order, and the next request.
#[derive(Debug)]
pub struct Step {
    pub lines: Vec<String>,
    pub request: Request,
}

/// The mathematical value of a `Step`.
pub ghost struct StepView {
    pub lines: Seq<Seq<char>>,
    pub request: RequestView,
}

impl View for Step {
    type V = StepView;

    open spec fn view(&self) -> StepView {
        StepView { lines: text_views(self.lines@), request: self.request@ }
    }
}

/// One directory that the walk is in: its sorted entries, how many of them
/// are done, and the prefix of its lines.
struct Frame {
    entries: Vec<DirEntryInfo>,
    next: usize,
    prefix: String,
}

/// The mathematical value of a directory that the walk is in.
pub ghost struct FrameView {
    /// The directory's entries, sorted.
    pub entries: Seq<EntryView>,
    /// The position of the entry that is drawn next.
    pub next: int,
    /// The prefix of the directory's lines.
    pub prefix: Seq<char>,
}

impl View for Frame {
    type V = FrameView;

    closed spec fn view(&self) -> FrameView {
        FrameView {
            entries: entry_views(self.entries@),
            next: self.next as int,
            prefix: self.prefix@,
        }
    }
}

/// What the machine waits for.
enum Phase {
    Begin { root: String },
    Visit,
    AwaitListing { path: String, prefix: String },
    AwaitLink,
    AwaitContent,
    Finished,
}

/// What the machine waits for.
pub ghost enum PhaseView {
    /// Nothing was drawn yet, not even the root at `root`.
    Begin { root: Seq<char> },
    /// The next entry of the innermost directory is due.
    Visit,
    /// The listing of the directory at `path` was asked for; its lines will
    /// have the prefix `prefix`.
    AwaitListing { path: Seq<char>, prefix: Seq<char> },
    /// The target of the current entry, a link, was asked for.
    AwaitLink,
    /// The content of the current entry, a file, was asked for.
    AwaitContent,
    /// The walk is over.
    Finished,
}

impl View for Phase {
    type V = PhaseView;

    closed spec fn view(&self) -> PhaseView {
        match self {
            Phase::Begin { root } => PhaseView::Begin { root: root@ },
            Phase::Visit => PhaseView::Visit,
            Phase::AwaitListing { path, prefix } => PhaseView::AwaitListing {
                path: path@,
                prefix: prefix@,
            },
            Phase::AwaitLink => PhaseView::AwaitLink,
            Phase::AwaitContent => PhaseView::AwaitContent,
            Phase::Finished => PhaseView::Finished,
        }
    }
}

/// The state of a walk.
pub struct Walker {
    config: RenderConfig,
    max_depth: Option<usize>,
    stack: Vec<Frame>,
    phase: Phase,
}

/// The mathematical value of a walk's state.
pub ghost struct WalkerView {
    pub config: ConfigView,
    /// The ceiling of the walk: a directory at this depth or below is never
    /// listed. The root is at depth 0.
    pub max_depth: Option<usize>,
    /// The directories that the walk is in, the root first. The directory at
    /// position `k` is at depth `k`.
    pub stack: Seq<FrameView>,
    pub phase: PhaseView,
}

/// The values of a stack of frames.
spec fn frame_views(stack: Seq<Frame>) -> Seq<FrameView> {
    stack.map_values(|f: Frame| f@)
}

/// The state made of the given parts.
spec fn assemble(
    config: RenderConfig,
    max_depth: Option<usize>,
    stack: Seq<Frame>,
    phase: PhaseView,
) -> WalkerView {
    WalkerView { config: config@, max_depth, stack: frame_views(stack), phase }
}

/// The state in which a walk of the tree at `root` begins.
pub open spec fn initial_view(config: ConfigView, max_depth: Option<usize>, root: Seq<char>) -> WalkerView {
    WalkerView { config, max_depth, stack: Seq::empty(), phase: PhaseView::Begin { root } }
}

impl WalkerView {
    /// Whether a directory at depth `depth` is listed.
    pub open spec fn lists_at(self, depth: int) -> bool {
        match self.max_depth {
            Some(ceiling) => depth < ceiling,
            None => true,
        }
    }

    /// Whether the innermost directory has an entry that is not done.
    pub open spec fn has_current(self) -> bool {
        self.stack.len() > 0 && 0 <= self.stack.last().next < self.stack.last().entries.len()
    }

    /// The entry that is drawn next.
    pub open spec fn current(self) -> EntryView {
        self.stack.last().entries[self.stack.last().next]
    }

    /// Whether the entry that is drawn next is the last of its directory.
    pub open spec fn current_is_last(self) -> bool {
        self.stack.last().next == self.stack.last().entries.len() - 1
    }

    /// Whether the innermost directory is the root.
    pub open spec fn at_root(self) -> bool {
        self.stack.len() == 1
    }

    /// The line of the current entry, `target` being what its link leads to
    /// where it is one.
    pub open spec fn current_line(self, target: Option<Seq<char>>) -> Seq<char> {
        entry_line_of(
            self.stack.last().prefix,
            self.at_root(),
            self.config.ascii,
            self.current_is_last(),
            display_name_of(self.current(), target),
        )
    }

    /// The prefix of the lines below the current entry.
    pub open spec fn current_child_prefix(self) -> Seq<char> {
        child_prefix_of(
            self.stack.last().prefix,
            self.at_root(),
            self.config.ascii,
            self.current_is_last(),
        )
    }

    /// This state in another phase.
    pub open spec fn in_phase(self, phase: PhaseView) -> WalkerView {
        WalkerView { phase, ..self }
    }

    /// This state with the current entry done, in phase `phase`.
    pub open spec fn past_current(self, phase: PhaseView) -> WalkerView {
        let top = self.stack.last();
        WalkerView {
            stack: self.stack.drop_last().push(FrameView { next: top.next + 1, ..top }),
            phase,
            ..self
        }
    }

    /// The first step: the root's name is drawn, and the root's listing is
    /// asked for unless the ceiling is 0.
    pub open spec fn begin(self, root: Seq<char>) -> (WalkerView, StepView) {
        let lines = seq![root_name_of(root)];
        if self.lists_at(0) {
            (
                self.in_phase(PhaseView::AwaitListing { path: root, prefix: Seq::empty() }),
                StepView { lines, request: RequestView::ListDir { path: root } },
            )
        } else {
            (self.in_phase(PhaseView::Finished), StepView { lines, request: RequestView::Finished })
        }
    }

    /// The step that takes up the next entry.
    ///
    /// With no directory left the walk is over; with no entry left in the
    /// innermost directory the walk returns to the directory above. A link's
    /// line needs its target, which is asked for. Any other entry is drawn.
    /// Then a regular file's content is asked for where content is shown; a
    /// directory that is no link is listed next unless it lies at the
    /// ceiling; everything else is done with its line.
    pub open spec fn visit(self) -> (WalkerView, StepView) {
        if self.stack.len() == 0 {
            (
                self.in_phase(PhaseView::Finished),
                StepView { lines: Seq::empty(), request: RequestView::Finished },
            )
        } else if !self.has_current() {
            (
                WalkerView { stack: self.stack.drop_last(), ..self },
                StepView { lines: Seq::empty(), request: RequestView::Proceed },
            )
        } else {
            let entry = self.current();
            if entry.kind.is_symlink() {
                (
                    self.in_phase(PhaseView::AwaitLink),
                    StepView {
                        lines: Seq::empty(),
                        request: RequestView::ReadLink { path: entry.path },
                    },
                )
            } else {
                let lines = seq![self.current_line(None)];
                if entry.kind is File && self.config.show_content {
                    (
                        self.in_phase(PhaseView::AwaitContent),
                        StepView { lines, request: RequestView::ReadFile { path: entry.path } },
                    )
                } else if entry.kind.is_traversable() && self.lists_at(self.stack.len() as int) {
                    (
                        self.past_current(
                            PhaseView::AwaitListing {
                                path: entry.path,
                                prefix: self.current_child_prefix(),
                            },
                        ),
                        StepView { lines, request: RequestView::ListDir { path: entry.path } },
                    )
                } else {
                    (
                        self.past_current(PhaseView::Visit),
                        StepView { lines, request: RequestView::Proceed },
                    )
                }
            }
        }
    }

    /// The step that takes a directory's listing: the children are filtered,
    /// classified and sorted, and the walk is in that directory.
    pub open spec fn enter(self, prefix: Seq<char>, raws: Seq<RawEntryView>) -> (
        WalkerView,
        StepView,
    ) {
        let entries = sorted_listing(listing_of(raws, self.config.self_path));
        (
            WalkerView {
                stack: self.stack.push(FrameView { entries, next: 0, prefix }),
                phase: PhaseView::Visit,
                ..self
            },
            StepView { lines: Seq::empty(), request: RequestView::Proceed },
        )
    }

    /// The step that takes a link's target: the link is drawn, and done.
    pub open spec fn after_link(self, target: Option<Seq<char>>) -> (WalkerView, StepView) {
        (
            self.past_current(PhaseView::Visit),
            StepView { lines: seq![self.current_line(target)], request: RequestView::Proceed },
        )
    }

    /// The step that takes a file's content: it is drawn below the file's
    /// line, and the file is done.
    pub open spec fn after_content(self, content: Result<Seq<char>, Seq<char>>) -> (
        WalkerView,
        StepView,
    ) {
        (
            self.past_current(PhaseView::Visit),
            StepView {
                lines: content_block_of(self.stack.last().prefix, content),
                request: RequestView::Proceed,
            },
        )
    }

    /// What the machine is waiting for, as a request.
    pub open spec fn pending_request(self) -> RequestView {
        match self.phase {
            PhaseView::Begin { root } => RequestView::Proceed,
            PhaseView::Visit => RequestView::Proceed,
            PhaseView::AwaitListing { path, prefix } => RequestView::ListDir { path },
            PhaseView::AwaitLink => RequestView::ReadLink { path: self.current().path },
            PhaseView::AwaitContent => RequestView::ReadFile { path: self.current().path },
            PhaseView::Finished => RequestView::Finished,
        }
    }

    /// The step on a reply that does not answer the request: nothing
    /// changes, nothing is drawn, and the request is made again.
    pub open spec fn repeat(self) -> (WalkerView, StepView) {
        (self, StepView { lines: Seq::empty(), request: self.pending_request() })
    }

    /// One step of the walk: the state after it, and what it gives.
    pub open spec fn step(self, reply: ReplyView) -> (WalkerView, StepView) {
        match self.phase {
            PhaseView::Begin { root } => self.begin(root),
            PhaseView::Visit => self.visit(),
            PhaseView::AwaitListing { path, prefix } => match reply {
                ReplyView::Listing(raws) => self.enter(prefix, raws),
                _ => self.repeat(),
            },
            PhaseView::AwaitLink => match reply {
                ReplyView::LinkTarget(target) => self.after_link(target),
                _ => self.repeat(),
            },
            PhaseView::AwaitContent => match reply {
                ReplyView::FileContent(content) => self.after_content(content),
                _ => self.repeat(),
            },
            PhaseView::Finished => self.repeat(),
        }
    }

    /// Whether the state is one that a walk can be in.
    pub open spec fn wf(self) -> bool {
        &&& forall|k: int|
            0 <= k < self.stack.len() ==> 0 <= (#[trigger] self.stack[k]).next
                <= self.stack[k].entries.len()
        &&& self.phase is Begin ==> self.stack.len() == 0
        &&& self.phase is AwaitLink ==> self.has_current() && self.current().kind.is_symlink()
        &&& self.phase is AwaitContent ==> self.has_current() && self.current().kind is File
        &&& self.max_depth is Some ==> self.stack.len() <= self.max_depth->0
        &&& self.phase is AwaitListing ==> self.lists_at(self.stack.len() as int)
    }
}

/// A step leads from a state that a walk can be in to another such state.
pub proof fn lemma_step_keeps_wf(w: WalkerView, reply: ReplyView)
    requires
        w.wf(),
    ensures
        w.step(reply).0.wf(),
{
    let after = w.step(reply).0;
    assert forall|k: int| 0 <= k < after.stack.len() implies 0 <= (#[trigger] after.stack[k]).next
        <= after.stack[k].entries.len() by {
        if k < w.stack.len() - 1 {
            assert(after.stack[k] == w.stack[k]);
        } else if k < w.stack.len() {
            assert(after.stack[k].entries == w.stack[k].entries);
        }
    }
}

impl View for Walker {
    type V = WalkerView;

    closed spec fn view(&self) -> WalkerView {
        assemble(self.config, self.max_depth, self.stack@, self.phase@)
    }
}

/// A step that draws nothing.
fn silent(request: Request) -> (r: Step)
    ensures
        r@ == (StepView { lines: Seq::empty(), request: request@ }),
{
    let lines: Vec<String> = Vec::new();
    assert(text_views(lines@) == Seq::<Seq<char>>::empty());
    Step { lines, request }
}

/// A step that draws one line.
fn one_line(line: String, request: Request) -> (r: Step)
    ensures
        r@ == (StepView { lines: seq![line@], request: request@ }),
{
    let mut lines: Vec<String> = Vec::new();
    lines.push(line);
    assert(text_views(lines@) == seq![line@]);
    Step { lines, request }
}

impl Walker {
    /// What holds of every walker.
    #[verifier::type_invariant]
    spec fn inv(self) -> bool {
        self@.wf() && shows_only_listed(self@) && is_nested(self@)
    }

    /// A walk of the tree at `root` that has not begun.
    ///
    /// With `max_depth` given, only directories at a depth below it are
    /// listed; the root is at depth 0.
    pub fn new(config: RenderConfig, max_depth: Option<usize>, root: String) -> (w: Walker)
        ensures
            w@ == initial_view(config@, max_depth, root@),
            w@.wf(),
            shows_only_listed(w@),
            is_nested(w@),
    {
        let stack: Vec<Frame> = Vec::new();
        assert(frame_views(stack@) == Seq::<FrameView>::empty());
        Walker { config, max_depth, stack, phase: Phase::Begin { root } }
    }

    /// Whether the walk is over.
    pub fn is_finished(&self) -> (r: bool)
        ensures
            r == (self@.phase is Finished),
    {
        match self.phase {
            Phase::Finished => true,
            _ => false,
        }
    }

    /// The number of directories that the walk is in.
    pub fn depth(&self) -> (r: usize)
        ensures
            r == self@.stack.len(),
    {
        self.stack.len()
    }

    /// One step of the walk. `reply` answers the request of the step before;
    /// for the first step, and after `Request::Proceed`, any reply will do.
    pub fn step(self, reply: Reply) -> (r: (Walker, Step))
        ensures
            (r.0@, r.1@) == self@.step(reply@),
            r.0@.wf(),
            shows_only_listed(r.0@),
            is_nested(r.0@),
    {
        proof {
            use_type_invariant(&self);
            lemma_step_keeps_wf(self@, reply@);
            lemma_step_shows_only_listed(self@, reply@);
            lemma_step_keeps_nested(self@, reply@);
        }
        let Walker { config, max_depth, stack, phase } = self;
        let (stack, phase, out) = Self::advance(&config, max_depth, stack, phase, reply);
        (Walker { config, max_depth, stack, phase }, out)
    }

    /// One step, on the parts of a walker.
    fn advance(
        config: &RenderConfig,
        max_depth: Option<usize>,
        stack: Vec<Frame>,
        phase: Phase,
        reply: Reply,
    ) -> (r: (Vec<Frame>, Phase, Step))
        requires
            assemble(*config, max_depth, stack@, phase@).wf(),
        ensures
            (assemble(*config, max_depth, r.0@, r.1@), r.2@) == assemble(
                *config,
                max_depth,
                stack@,
                phase@,
            ).step(reply@),
    {
        match phase {
            Phase::Begin { root } => Self::begin(config, max_depth, stack, root),
            Phase::Visit => Self::visit(config, max_depth, stack),
            Phase::AwaitListing { path, prefix } => match reply {
                Reply::Listing(raws) => Self::enter(config, max_depth, stack, prefix, raws),
                _ => {
                    let request = Request::ListDir { path: path.clone() };
                    (stack, Phase::AwaitListing { path, prefix }, silent(request))
                },
            },
            Phase::AwaitLink => match reply {
                Reply::LinkTarget(target) => Self::after_link(config, max_depth, stack, target),
                _ => {
                    let top = &stack[stack.len() - 1];
                    let path = top.entries[top.next].path.clone();
                    (stack, Phase::AwaitLink, silent(Request::ReadLink { path }))
                },
            },
            Phase::AwaitContent => match reply {
                Reply::FileContent(content) => Self::after_content(
                    config,
                    max_depth,
                    stack,
                    content,
                ),
                _ => {
                    let top = &stack[stack.len() - 1];
                    let path = top.entries[top.next].path.clone();
                    (stack, Phase::AwaitContent, silent(Request::ReadFile { path }))
                },
            },
            Phase::Finished => (stack, Phase::Finished, silent(Request::Finished)),
        }
    }

    /// The first step.
    fn begin(
        config: &RenderConfig,
        max_depth: Option<usize>,
        stack: Vec<Frame>,
        root: String,
    ) -> (r: (Vec<Frame>, Phase, Step))
        ensures
            (assemble(*config, max_depth, r.0@, r.1@), r.2@) == assemble(
                *config,
                max_depth,
                stack@,
                PhaseView::Begin { root: root@ },
            ).begin(root@),
    {
        let name = match display_root_name(root.as_str()) {
            Some(name) => name,
            None => root.clone(),
        };
        let listed = match max_depth {
            Some(ceiling) => 0 < ceiling,
            None => true,
        };
        if listed {
            let request = Request::ListDir { path: root.clone() };
            (stack, Phase::AwaitListing { path: root, prefix: String::new() }, one_line(name, request))
        } else {
            (stack, Phase::Finished, one_line(name, Request::Finished))
        }
    }

    /// The step that takes up the next entry.
    fn visit(config: &RenderConfig, max_depth: Option<usize>, stack: Vec<Frame>) -> (r: (
        Vec<Frame>,
        Phase,
        Step,
    ))
        requires
            assemble(*config, max_depth, stack@, PhaseView::Visit).wf(),
        ensures
            (assemble(*config, max_depth, r.0@, r.1@), r.2@) == assemble(
                *config,
                max_depth,
                stack@,
                PhaseView::Visit,
            ).visit(),
    {
        let ghost pre = assemble(*config, max_depth, stack@, PhaseView::Visit);
        let mut stack = stack;
        let ghost frames = stack@;
        match stack.pop() {
            None => (stack, Phase::Finished, silent(Request::Finished)),
            Some(top) => {
                proof {
                    assert(frame_views(stack@) == pre.stack.drop_last());
                    assert(top@ == pre.stack.last());
                    assert(pre.stack[pre.stack.len() - 1] == top@);
                }
                if top.next >= top.entries.len() {
                    (stack, Phase::Visit, silent(Request::Proceed))
                } else {
                    let at_root = stack.len() == 0;
                    let is_last = top.next == top.entries.len() - 1;
                    let kind = top.entries[top.next].kind;
                    let path = top.entries[top.next].path.clone();
                    proof {
                        assert(entry_views(top.entries@)[top.next as int] == top.entries[top.next as int]@);
                    }
                    if kind.is_symlink() {
                        stack.push(top);
                        proof {
                            assert(stack@ == frames);
                        }
                        (stack, Phase::AwaitLink, silent(Request::ReadLink { path }))
                    } else {
                        let name = display_name(&top.entries[top.next], &None);
                        let line = entry_line(
                            top.prefix.as_str(),
                            at_root,
                            config.ascii,
                            is_last,
                            name.as_str(),
                        );
                        let is_file = match kind {
                            EntryKind::File => true,
                            _ => false,
                        };
                        let listed = match max_depth {
                            Some(ceiling) => stack.len() + 1 < ceiling,
                            None => true,
                        };
                        if is_file && config.show_content {
                            stack.push(top);
                            proof {
                                assert(stack@ == frames);
                            }
                            (stack, Phase::AwaitContent, one_line(line, Request::ReadFile { path }))
                        } else if kind.is_traversable() && listed {
                            let prefix = child_prefix(
                                top.prefix.as_str(),
                                at_root,
                                config.ascii,
                                is_last,
                            );
                            let moved = Frame {
                                entries: top.entries,
                                next: top.next + 1,
                                prefix: top.prefix,
                            };
                            proof {
                                assert(moved@ == (FrameView { next: top@.next + 1, ..top@ }));
                                assert(frame_views(stack@.push(moved)) == pre.stack.drop_last().push(
                                    moved@,
                                ));
                            }
                            stack.push(moved);
                            let request = Request::ListDir { path: path.clone() };
                            (stack, Phase::AwaitListing { path, prefix }, one_line(line, request))
                        } else {
                            let moved = Frame {
                                entries: top.entries,
                                next: top.next + 1,
                                prefix: top.prefix,
                            };
                            proof {
                                assert(moved@ == (FrameView { next: top@.next + 1, ..top@ }));
                                assert(frame_views(stack@.push(moved)) == pre.stack.drop_last().push(
                                    moved@,
                                ));
                            }
                            stack.push(moved);
                            (stack, Phase::Visit, one_line(line, Request::Proceed))
                        }
                    }
                }
            },
        }
    }

    /// The step that takes a directory's listing.
    fn enter(
        config: &RenderConfig,
        max_depth: Option<usize>,
        stack: Vec<Frame>,
        prefix: String,
        raws: Vec<RawEntry>,
    ) -> (r: (Vec<Frame>, Phase, Step))
        ensures
            (assemble(*config, max_depth, r.0@, r.1@), r.2@) == assemble(
                *config,
                max_depth,
                stack@,
                PhaseView::AwaitListing { path: Seq::empty(), prefix: prefix@ },
            ).enter(prefix@, raw_views(raws@)),
    {
        let mut stack = stack;
        let entries = sort_entries(list_entries(raws, &config.self_path));
        let frame = Frame { entries, next: 0, prefix };
        proof {
            assert(frame_views(stack@.push(frame)) == frame_views(stack@).push(frame@));
        }
        stack.push(frame);
        (stack, Phase::Visit, silent(Request::Proceed))
    }

    /// The step that takes a link's target.
    fn after_link(
        config: &RenderConfig,
        max_depth: Option<usize>,
        stack: Vec<Frame>,
        target: Option<String>,
    ) -> (r: (Vec<Frame>, Phase, Step))
        requires
            assemble(*config, max_depth, stack@, PhaseView::AwaitLink).wf(),
        ensures
            (assemble(*config, max_depth, r.0@, r.1@), r.2@) == assemble(
                *config,
                max_depth,
                stack@,
                PhaseView::AwaitLink,
            ).after_link(opt_view(target)),
    {
        let ghost pre = assemble(*config, max_depth, stack@, PhaseView::AwaitLink);
        let mut stack = stack;
        match stack.pop() {
            None => (stack, Phase::Visit, silent(Request::Proceed)),
            Some(top) => {
                proof {
                    assert(frame_views(stack@) == pre.stack.drop_last());
                    assert(top@ == pre.stack.last());
                    assert(entry_views(top.entries@)[top.next as int] == top.entries[top.next as int]@);
                }
                let at_root = stack.len() == 0;
                let is_last = top.next == top.entries.len() - 1;
                let name = display_name(&top.entries[top.next], &target);
                let line = entry_line(
                    top.prefix.as_str(),
                    at_root,
                    config.ascii,
                    is_last,
                    name.as_str(),
                );
                let moved = Frame { entries: top.entries, next: top.next + 1, prefix: top.prefix };
                proof {
                    assert(moved@ == (FrameView { next: top@.next + 1, ..top@ }));
                    assert(frame_views(stack@.push(moved)) == pre.stack.drop_last().push(moved@));
                }
                stack.push(moved);
                (stack, Phase::Visit, one_line(line, Request::Proceed))
            },
        }
    }

    /// The step that takes a file's content.
    fn after_content(
        config: &RenderConfig,
        max_depth: Option<usize>,
        stack: Vec<Frame>,
        content: Result<String, String>,
    ) -> (r: (Vec<Frame>, Phase, Step))
        requires
            assemble(*config, max_depth, stack@, PhaseView::AwaitContent).wf(),
        ensures
            (assemble(*config, max_depth, r.0@, r.1@), r.2@) == assemble(
                *config,
                max_depth,
                stack@,
                PhaseView::AwaitContent,
            ).after_content(content_view(content)),
    {
        let ghost pre = assemble(*config, max_depth, stack@, PhaseView::AwaitContent);
        let mut stack = stack;
        match stack.pop() {
            None => (stack, Phase::Visit, silent(Request::Proceed)),
            Some(top) => {
                proof {
                    assert(frame_views(stack@) == pre.stack.drop_last());
                    assert(top@ == pre.stack.last());
                    assert(pre.has_current());
                    assert(top@.entries.len() == top.entries.len());
                }
                let lines = content_block(top.prefix.as_str(), &content);
                let moved = Frame { entries: top.entries, next: top.next + 1, prefix: top.prefix };
                proof {
                    assert(moved@ == (FrameView { next: top@.next + 1, ..top@ }));
                    assert(frame_views(stack@.push(moved)) == pre.stack.drop_last().push(moved@));
                }
                stack.push(moved);
                (stack, Phase::Visit, Step { lines, request: Request::Proceed })
            },
        }
    }
}

} // verus!
