//! The entries a walk discovers, and the filter policy applied to them.

use vstd::prelude::*;

use crate::options::LrgOptions;

verus! {

/// What kind of filesystem node an [`Entry`] is.
#[derive(Clone, Copy, Debug, PartialEq, Eq, Structural)]
pub enum EntryKind {
    /// A regular file.
    File,
    /// A directory.
    Directory,
    /// A symbolic link that was not resolved to its target.
    Symlink,
}

/// A filesystem node discovered during a walk and retained by the filter.
///
/// The size of the node is not stored: it is resolved on demand, and the
/// resolution may fail or give a different answer each time (the node may
/// change or vanish between the walk and the query).
#[derive(Clone, Debug)]
pub struct Entry {
    /// The path of the node, as handed to or discovered under the walk root.
    pub path: String,
    /// The kind of the node, determined at discovery time.
    pub kind: EntryKind,
    /// Distance in path segments from the walk root; the root itself has
    /// depth `0`.
    pub depth: usize,
}

impl Entry {
    /// An exact copy of the entry.
    pub fn duplicate(&self) -> (r: Entry)
        ensures
            r == *self,
    {
        Entry { path: self.path.clone(), kind: self.kind, depth: self.depth }
    }
}

/// The filter policy: whether a node of kind `kind` is retained.
/// Files and symbolic links always are; directories only when asked for.
pub open spec fn retained(kind: EntryKind, include_dirs: bool) -> bool {
    match kind {
        EntryKind::File => true,
        EntryKind::Symlink => true,
        EntryKind::Directory => include_dirs,
    }
}

/// Decides [`retained`] executably.
pub fn retain(kind: EntryKind, include_dirs: bool) -> (r: bool)
    ensures
        r == retained(kind, include_dirs),
{
    match kind {
        EntryKind::File => true,
        EntryKind::Symlink => true,
        EntryKind::Directory => include_dirs,
    }
}

/// Everything the walk promises of a retained entry: it passes the filter
/// policy and its depth lies within the requested window.  A window whose
/// maximum lies below its minimum admits no entry at all.
pub open spec fn complies(e: Entry, opts: LrgOptions) -> bool {
    &&& retained(e.kind, opts.include_dirs)
    &&& opts.min_depth <= e.depth
    &&& e.depth <= opts.max_depth
}

} // verus!
