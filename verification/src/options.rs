//! Configuration for a walk and the built-in sort orders.

use vstd::prelude::*;

verus! {

/// Specifies the sorting order for the built-in, size-keyed sorts.
pub enum SortBy {
    /// Sorts by file size, smallest first.
    Ascending,
    /// Sorts by file size, largest first.
    Descending,
}

/// Options for constructing an [`Lrg`](crate::lrg::Lrg) collection.
///
/// All four fields are independent; any combination is accepted.
#[derive(Clone, Copy, Debug)]
pub struct LrgOptions {
    /// Nodes shallower than this depth are not yielded at all.
    /// The root of the walk has depth `0`.
    pub min_depth: usize,
    /// The traversal does not descend past this depth.  A maximum below the
    /// minimum leaves the depth window empty: no node is yielded at all.
    pub max_depth: usize,
    /// Whether a symbolic link is resolved and treated as its target.
    pub follow_links: bool,
    /// Whether directory nodes are retained as entries.
    pub include_dirs: bool,
}

impl Default for LrgOptions {
    /// Default options: recurse as deep as possible, do not follow links,
    /// do not include directories.
    fn default() -> (r: LrgOptions)
        ensures
            r == (LrgOptions {
                min_depth: 0,
                max_depth: usize::MAX,
                follow_links: false,
                include_dirs: false,
            }),
    {
        LrgOptions { min_depth: 0, max_depth: usize::MAX, follow_links: false, include_dirs: false }
    }
}

} // verus!
