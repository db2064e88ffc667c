//! Directory entries: what a listing reports, and what the renderer works on.

use vstd::prelude::*;

verus! {

/// What a metadata lookup reports an object to be.
#[derive(Clone, Copy, Debug, PartialEq, Eq, Structural)]
pub enum NodeType {
    File,
    Directory,
    Symlink,
    Other,
}

/// The kind of a directory entry.
///
/// `SymlinkToFile` stands for every symbolic link whose target is not known
/// to be a directory: a link to a file, to something else, or a link whose
/// target cannot be resolved.
#[derive(Clone, Copy, Debug, PartialEq, Eq, Structural)]
pub enum EntryKind {
    File,
    Directory,
    SymlinkToFile,
    SymlinkToDirectory,
    Other,
}

impl EntryKind {
    /// Whether the entry is a symbolic link, whatever it points to.
    pub open spec fn spec_is_symlink(self) -> bool {
        self is SymlinkToFile || self is SymlinkToDirectory
    }

    /// Whether the entry is a symbolic link, whatever it points to.
    #[verifier::when_used_as_spec(spec_is_symlink)]
    pub fn is_symlink(self) -> (r: bool)
        ensures
            r == self.spec_is_symlink(),
    {
        match self {
            EntryKind::SymlinkToFile | EntryKind::SymlinkToDirectory => true,
            _ => false,
        }
    }

    /// Whether the entry is ordered among the directories: a directory or a
    /// symbolic link to one.
    pub open spec fn spec_sorts_as_directory(self) -> bool {
        self is Directory || self is SymlinkToDirectory
    }

    /// Whether the entry is ordered among the directories: a directory or a
    /// symbolic link to one.
    #[verifier::when_used_as_spec(spec_sorts_as_directory)]
    pub fn sorts_as_directory(self) -> (r: bool)
        ensures
            r == self.spec_sorts_as_directory(),
    {
        match self {
            EntryKind::Directory | EntryKind::SymlinkToDirectory => true,
            _ => false,
        }
    }

    /// Whether a walk goes down into the entry: only into a directory that is
    /// no symbolic link.
    pub open spec fn spec_is_traversable(self) -> bool {
        self is Directory
    }

    /// Whether a walk goes down into the entry: only into a directory that is
    /// no symbolic link.
    #[verifier::when_used_as_spec(spec_is_traversable)]
    pub fn is_traversable(self) -> (r: bool)
        ensures
            r == self.spec_is_traversable(),
    {
        match self {
            EntryKind::Directory => true,
            _ => false,
        }
    }
}

/// The kind of an entry, from what the lookup that does not follow links
/// reports (`link_type`) and what the lookup that follows them reports
/// (`target_type`, `None` where it failed).
///
/// The first lookup decides whether the entry is a symbolic link. For a link
/// the second tells whether it leads to a directory; for anything else the
/// second gives the kind, and the first stands in where the second failed.
pub open spec fn kind_of(link_type: NodeType, target_type: Option<NodeType>) -> EntryKind {
    if link_type is Symlink {
        if target_type == Some(NodeType::Directory) {
            EntryKind::SymlinkToDirectory
        } else {
            EntryKind::SymlinkToFile
        }
    } else {
        match (if target_type is Some { target_type->0 } else { link_type }) {
            NodeType::File => EntryKind::File,
            NodeType::Directory => EntryKind::Directory,
            _ => EntryKind::Other,
        }
    }
}

/// Classifies an entry from its two metadata lookups.
pub fn classify(link_type: NodeType, target_type: Option<NodeType>) -> (kind: EntryKind)
    ensures
        kind == kind_of(link_type, target_type),
        kind is SymlinkToDirectory <==> (link_type is Symlink && target_type == Some(
            NodeType::Directory,
        )),
        kind.is_symlink() <==> link_type is Symlink,
{
    match link_type {
        NodeType::Symlink => match target_type {
            Some(NodeType::Directory) => EntryKind::SymlinkToDirectory,
            _ => EntryKind::SymlinkToFile,
        },
        _ => {
            let followed = match target_type {
                Some(t) => t,
                None => link_type,
            };
            match followed {
                NodeType::File => EntryKind::File,
                NodeType::Directory => EntryKind::Directory,
                _ => EntryKind::Other,
            }
        },
    }
}

/// One child of a directory as the listing found it, before it is filtered
/// and classified.
#[derive(Debug)]
pub struct RawEntry {
    /// The child's path.
    pub path: String,
    /// The last component of that path.
    pub name: String,
    /// What the lookup that does not follow links reports; `None` where it
    /// failed.
    pub link_type: Option<NodeType>,
    /// What the lookup that follows links reports; `None` where it failed.
    pub target_type: Option<NodeType>,
}

/// The mathematical value of a `RawEntry`.
pub ghost struct RawEntryView {
    pub path: Seq<char>,
    pub name: Seq<char>,
    pub link_type: Option<NodeType>,
    pub target_type: Option<NodeType>,
}

impl View for RawEntry {
    type V = RawEntryView;

    open spec fn view(&self) -> RawEntryView {
        RawEntryView {
            path: self.path@,
            name: self.name@,
            link_type: self.link_type,
            target_type: self.target_type,
        }
    }
}

/// One child of a directory, classified.
#[derive(Debug)]
pub struct DirEntryInfo {
    /// The child's path.
    pub path: String,
    /// The last component of that path.
    pub name: String,
    /// What the child is.
    pub kind: EntryKind,
}

/// The mathematical value of a `DirEntryInfo`.
pub ghost struct EntryView {
    pub path: Seq<char>,
    pub name: Seq<char>,
    pub kind: EntryKind,
}

impl View for DirEntryInfo {
    type V = EntryView;

    open spec fn view(&self) -> EntryView {
        EntryView { path: self.path@, name: self.name@, kind: self.kind }
    }
}

impl DirEntryInfo {
    /// A second entry with the same path, name and kind.
    pub fn duplicate(&self) -> (r: DirEntryInfo)
        ensures
            r@ == self@,
    {
        DirEntryInfo { path: self.path.clone(), name: self.name.clone(), kind: self.kind }
    }

    /// Whether the entry is a symbolic link that leads to a directory. Such
    /// an entry is drawn, and never entered.
    pub fn is_symlink_dir(&self) -> (r: bool)
        ensures
            r == (self.kind is SymlinkToDirectory),
    {
        match self.kind {
            EntryKind::SymlinkToDirectory => true,
            _ => false,
        }
    }
}

/// The values of a sequence of raw entries.
pub open spec fn raw_views(v: Seq<RawEntry>) -> Seq<RawEntryView> {
    v.map_values(|r: RawEntry| r@)
}

/// The values of a sequence of entries.
pub open spec fn entry_views(v: Seq<DirEntryInfo>) -> Seq<EntryView> {
    v.map_values(|e: DirEntryInfo| e@)
}

} // verus!
