//! The engine: a collection of retained entries, populated by one walk and
//! reordered in place by the sort operations.

use vstd::prelude::*;

use core::cmp::Ordering;

use crate::entry::{complies, retain, Entry};
use crate::errors::{Diagnostic, ErrorCause, Severity};
use crate::options::{LrgOptions, SortBy};
use crate::rank;
use crate::rank::entries_of;
use crate::shim;
use crate::shim::WalkEvent;

verus! {

/// A collection of filesystem entries retained under a policy, searched for
/// by size.  Created by [`Lrg::new`], which performs the walk; afterwards
/// mutated in place only by the sort operations, which reorder the entries
/// and never add or remove one.
#[derive(Clone, Debug)]
pub struct Lrg {
    entries: Vec<Entry>,
    diagnostics: Vec<Diagnostic>,
    options: LrgOptions,
}

impl Lrg {
    /// The retained entries, in their current order.
    pub closed spec fn entry_seq(self) -> Seq<Entry> {
        self.entries@
    }

    /// Every classified failure reported so far, in order of discovery.
    pub closed spec fn diag_seq(self) -> Seq<Diagnostic> {
        self.diagnostics@
    }

    /// The options the collection was populated under.
    pub closed spec fn config(self) -> LrgOptions {
        self.options
    }

    /// The collection's invariant: every retained entry satisfies the filter
    /// policy and the depth window of the options it was populated under.
    pub open spec fn complies_all(self) -> bool {
        forall|i: int|
            0 <= i < self.entry_seq().len() ==> complies(
                #[trigger] self.entry_seq()[i],
                self.config(),
            )
    }

    /// Creates a collection by walking `path` under `options`.
    ///
    /// The walk is a single pre-order, depth-first pass; sibling order is
    /// whatever the operating system reports and is not guaranteed.  A root
    /// that is a single file yields exactly that one entry, depth and filter
    /// policy permitting.  A depth window whose maximum lies below its
    /// minimum admits nothing: the collection stays empty.  Per-node
    /// failures do not abort the walk: the node is skipped and a classified
    /// diagnostic is recorded instead.
    pub fn new(path: &str, options: &LrgOptions) -> (lrg: Lrg)
        ensures
            lrg.config() == *options,
            lrg.complies_all(),
            forall|i: int|
                0 <= i < lrg.diag_seq().len() ==> (#[trigger] lrg.diag_seq()[i]).severity
                    == Severity::Traversal,
    {
        if options.min_depth > options.max_depth {
            return Lrg { entries: Vec::new(), diagnostics: Vec::new(), options: *options };
        }
        let mut walker = shim::start_walk(path, options);
        let mut entries: Vec<Entry> = Vec::new();
        let mut diagnostics: Vec<Diagnostic> = Vec::new();
        // A walk of more nodes than the machine can count is cut short.
        let mut steps: usize = 0;
        while steps < usize::MAX
            invariant
                options.min_depth <= options.max_depth,
                walker.spec_min_depth() == options.min_depth,
                walker.spec_max_depth() == options.max_depth,
                forall|i: int|
                    0 <= i < entries@.len() ==> complies(#[trigger] entries@[i], *options),
                forall|i: int|
                    0 <= i < diagnostics@.len() ==> (#[trigger] diagnostics@[i]).severity
                        == Severity::Traversal,
            decreases usize::MAX - steps,
        {
            match shim::walk_next(&mut walker) {
                None => {
                    break;
                },
                Some(WalkEvent::Node { path: node_path, kind, depth }) => {
                    if let Some(k) = kind {
                        if retain(k, options.include_dirs) {
                            entries.push(Entry { path: node_path, kind: k, depth });
                        }
                    }
                },
                Some(WalkEvent::Failure(err)) => {
                    let p = shim::error_path(&err);
                    let c = shim::error_cause(&err);
                    diagnostics.push(Diagnostic { path: p, cause: c, severity: Severity::Traversal });
                },
            }
            steps += 1;
        }
        Lrg { entries, diagnostics, options: *options }
    }

    /// Resolves the size of `entry` by querying the filesystem, following
    /// links if and only if the collection's options ask for it.
    ///
    /// This never fails: when the metadata cannot be read (the node vanished,
    /// permission was revoked, ...), the size degrades to `0` and one
    /// metadata-severity diagnostic is recorded for the entry's path.  The
    /// result is a fresh, possibly stale read each time; it is not cached.
    pub fn get_size(&mut self, entry: &Entry) -> (size: u64)
        ensures
            final(self).entry_seq() == old(self).entry_seq(),
            final(self).config() == old(self).config(),
            old(self).diag_seq().is_prefix_of(final(self).diag_seq()),
            final(self).diag_seq().len() <= old(self).diag_seq().len() + 1,
            final(self).diag_seq().len() > old(self).diag_seq().len() ==> size == 0,
            forall|i: int|
                old(self).diag_seq().len() <= i < final(self).diag_seq().len() ==> {
                    &&& (#[trigger] final(self).diag_seq()[i]).severity == Severity::Metadata
                    &&& final(self).diag_seq()[i].path == entry.path
                },
    {
        let resolved: Option<u64> = match shim::stat_len(entry.path.as_str(), self.options.follow_links) {
            Some(Ok(n)) => Some(n),
            Some(Err(err)) => {
                let c = shim::error_cause(&err);
                self.diagnostics.push(Diagnostic {
                    path: entry.path.clone(),
                    cause: c,
                    severity: Severity::Metadata,
                });
                None
            },
            None => {
                self.diagnostics.push(Diagnostic {
                    path: entry.path.clone(),
                    cause: ErrorCause::Unknown,
                    severity: Severity::Metadata,
                });
                None
            },
        };
        size_or_zero(resolved)
    }

    /// One ranking pass: resolve every entry's size with a fresh query, then
    /// reorder the entries in place by those sizes.
    fn sort_sized(&mut self, ascending: bool)
        ensures
            final(self).entry_seq().to_multiset() == old(self).entry_seq().to_multiset(),
            final(self).config() == old(self).config(),
            old(self).diag_seq().is_prefix_of(final(self).diag_seq()),
            forall|i: int|
                old(self).diag_seq().len() <= i < final(self).diag_seq().len() ==> (
                #[trigger] final(self).diag_seq()[i]).severity == Severity::Metadata,
    {
        let ghost orig_entries = self.entries@;
        let n = self.entries.len();

        // Resolve the sizes, one fresh query per entry.
        let mut keys: Vec<u64> = Vec::new();
        let mut i: usize = 0;
        while i < n
            invariant
                i <= n,
                keys@.len() == i,
                self.entry_seq() == old(self).entry_seq(),
                orig_entries == old(self).entry_seq(),
                n == self.entry_seq().len(),
                self.config() == old(self).config(),
                old(self).diag_seq().is_prefix_of(self.diag_seq()),
                forall|d: int|
                    old(self).diag_seq().len() <= d < self.diag_seq().len() ==> (
                    #[trigger] self.diag_seq()[d]).severity == Severity::Metadata,
            decreases n - i,
        {
            let ghost mid = *self;
            let e = self.entries[i].duplicate();
            let k = self.get_size(&e);
            keys.push(k);
            proof {
                assert(forall|d: int|
                    0 <= d < mid.diag_seq().len() ==> #[trigger] self.diag_seq()[d]
                        == mid.diag_seq()[d]);
                assert(old(self).diag_seq().is_prefix_of(self.diag_seq())) by {
                    assert(old(self).diag_seq() =~= self.diag_seq().subrange(
                        0,
                        old(self).diag_seq().len() as int,
                    ));
                }
            }
            i = i + 1;
        }

        // Pair every entry with its resolved size, in order.
        let ghost diags_mid = self.diagnostics@;
        let mut rest: Vec<Entry> = Vec::new();
        core::mem::swap(&mut rest, &mut self.entries);
        let mut pairs: Vec<(u64, Entry)> = Vec::new();
        let mut m: usize = 0;
        while m < n
            invariant
                m <= n,
                pairs@.len() == m,
                n == orig_entries.len(),
                keys@.len() == n,
                rest@ == orig_entries.subrange(m as int, n as int),
                forall|d: int|
                    0 <= d < m ==> (#[trigger] pairs@[d]) == (keys@[d], orig_entries[d]),
                self.diagnostics@ == diags_mid,
                self.options == old(self).config(),
            decreases n - m,
        {
            let ghost rest_before = rest@;
            let e = rest.remove(0);
            let k = keys[m];
            pairs.push((k, e));
            proof {
                assert(rest@ =~= orig_entries.subrange(m as int + 1, n as int)) by {
                    rest_before.remove_ensures(0);
                }
            }
            m = m + 1;
        }
        proof {
            assert(entries_of(pairs@) =~= orig_entries);
        }

        // Reorder by the resolved sizes.
        let ghost unranked = pairs@;
        rank::sort_pairs(&mut pairs, ascending);
        let ghost ranked = pairs@;
        proof {
            assert(pairs@ =~= ranked.subrange(0, n as int));
            assert(self.entries@ =~= entries_of(ranked).subrange(0, 0));
        }

        // Put the entries back, in their new order.
        while self.entries.len() < n
            invariant
                ranked.len() == n,
                self.entries@.len() <= n,
                pairs@ == ranked.subrange(self.entries@.len() as int, n as int),
                self.entries@ == entries_of(ranked).subrange(0, self.entries@.len() as int),
                self.diagnostics@ == diags_mid,
                self.options == old(self).config(),
            decreases n - self.entries@.len(),
        {
            let ghost l = self.entries@.len() as int;
            let ghost pairs_before = pairs@;
            let p = pairs.remove(0);
            self.entries.push(p.1);
            proof {
                assert(p == ranked[l]);
                assert(pairs@ =~= ranked.subrange(l + 1, n as int)) by {
                    pairs_before.remove_ensures(0);
                }
                assert(self.entries@ =~= entries_of(ranked).subrange(0, l + 1));
            }
        }
        proof {
            assert(self.entries@ =~= entries_of(ranked));
            assert(entries_of(unranked) == orig_entries);
            assert(self.entries@.to_multiset() == orig_entries.to_multiset());
        }
    }

    /// Sorts the entries by ascending resolved size (smallest first) and
    /// returns the collection for chaining.
    ///
    /// Every size is resolved afresh; a failed resolution degrades to `0`
    /// and records one metadata diagnostic.  Entries of equal size keep no
    /// particular order among themselves.
    pub fn sort_ascending(&mut self) -> (r: &Self)
        ensures
            final(self).entry_seq().to_multiset() == old(self).entry_seq().to_multiset(),
            final(self).config() == old(self).config(),
            old(self).diag_seq().is_prefix_of(final(self).diag_seq()),
            forall|i: int|
                old(self).diag_seq().len() <= i < final(self).diag_seq().len() ==> (
                #[trigger] final(self).diag_seq()[i]).severity == Severity::Metadata,
            *r == *final(self),
    {
        self.sort_sized(true);
        self
    }

    /// Sorts the entries by descending resolved size (largest first) and
    /// returns the collection for chaining.
    ///
    /// Every size is resolved afresh; a failed resolution degrades to `0`
    /// and records one metadata diagnostic.  Entries of equal size keep no
    /// particular order among themselves.
    pub fn sort_descending(&mut self) -> (r: &Self)
        ensures
            final(self).entry_seq().to_multiset() == old(self).entry_seq().to_multiset(),
            final(self).config() == old(self).config(),
            old(self).diag_seq().is_prefix_of(final(self).diag_seq()),
            forall|i: int|
                old(self).diag_seq().len() <= i < final(self).diag_seq().len() ==> (
                #[trigger] final(self).diag_seq()[i]).severity == Severity::Metadata,
            *r == *final(self),
    {
        self.sort_sized(false);
        self
    }

    /// Sorts the entries by resolved size in the given order and returns the
    /// collection for chaining.
    pub fn sort_by(&mut self, cmp: &SortBy) -> (r: &Self)
        ensures
            final(self).entry_seq().to_multiset() == old(self).entry_seq().to_multiset(),
            final(self).config() == old(self).config(),
            old(self).diag_seq().is_prefix_of(final(self).diag_seq()),
            forall|i: int|
                old(self).diag_seq().len() <= i < final(self).diag_seq().len() ==> (
                #[trigger] final(self).diag_seq()[i]).severity == Severity::Metadata,
            *r == *final(self),
    {
        match cmp {
            SortBy::Ascending => self.sort_ascending(),
            SortBy::Descending => self.sort_descending(),
        }
    }

    /// Sorts the entries by a caller-supplied comparison and returns the
    /// collection for chaining.
    ///
    /// The comparison may order the entries by anything — name, depth, kind —
    /// and is not assumed to touch sizes at all.  The pass is exactly a
    /// permutation of the entries, and it leaves every adjacent pair in an
    /// order the comparison allowed: for a comparison that is a total order,
    /// that is the order it dictates.
    pub fn sort_by_custom<F: Fn(&Entry, &Entry) -> Ordering>(&mut self, cmp: F) -> (r: &Self)
        requires
            forall|a: &Entry, b: &Entry| #[trigger] call_requires(cmp, (a, b)),
        ensures
            final(self).entry_seq().to_multiset() == old(self).entry_seq().to_multiset(),
            rank::comparator_ordered(cmp, final(self).entry_seq()),
            final(self).diag_seq() == old(self).diag_seq(),
            final(self).config() == old(self).config(),
            *r == *final(self),
    {
        let mut tmp: Vec<Entry> = Vec::new();
        core::mem::swap(&mut tmp, &mut self.entries);
        self.entries = rank::sort_entries_by(tmp, &cmp);
        self
    }

    /// The entries, in their current order.
    pub fn get_entries(&self) -> (r: Vec<Entry>)
        ensures
            r@ == self.entry_seq(),
    {
        let mut out: Vec<Entry> = Vec::new();
        let mut i: usize = 0;
        while i < self.entries.len()
            invariant
                i <= self.entries.len(),
                out@ == self.entries@.subrange(0, i as int),
            decreases self.entries.len() - i,
        {
            out.push(self.entries[i].duplicate());
            i += 1;
        }
        proof {
            assert(out@ == self.entries@.subrange(0, self.entries@.len() as int));
            assert(self.entries@.subrange(0, self.entries@.len() as int) == self.entries@);
        }
        out
    }

    /// The classified failures reported so far, in order of discovery.
    pub fn get_diagnostics(&self) -> (r: Vec<Diagnostic>)
        ensures
            r@ == self.diag_seq(),
    {
        let mut out: Vec<Diagnostic> = Vec::new();
        let mut i: usize = 0;
        while i < self.diagnostics.len()
            invariant
                i <= self.diagnostics.len(),
                out@ == self.diagnostics@.subrange(0, i as int),
            decreases self.diagnostics.len() - i,
        {
            out.push(self.diagnostics[i].duplicate());
            i += 1;
        }
        proof {
            assert(out@ == self.diagnostics@.subrange(0, self.diagnostics@.len() as int));
            assert(self.diagnostics@.subrange(0, self.diagnostics@.len() as int)
                == self.diagnostics@);
        }
        out
    }
}

/// The fail-soft rule for size resolution: a resolved size is taken as it
/// is, a failed resolution degrades to `0`.
pub fn size_or_zero(resolved: Option<u64>) -> (size: u64)
    ensures
        resolved matches Some(n) ==> size == n,
        resolved is None ==> size == 0,
{
    match resolved {
        Some(n) => n,
        None => 0,
    }
}

/// Law: a collection whose policy excludes directories holds no directory
/// entry, whatever the other options are.
pub proof fn lemma_no_directories(lrg: Lrg)
    requires
        lrg.complies_all(),
        !lrg.config().include_dirs,
    ensures
        forall|i: int|
            0 <= i < lrg.entry_seq().len() ==> (#[trigger] lrg.entry_seq()[i]).kind
                != crate::entry::EntryKind::Directory,
{
}

/// Law: every entry of a collection lies within its policy's depth window:
/// never shallower than `min_depth` and never deeper than `max_depth`.  In
/// particular, a window whose maximum lies below its minimum holds nothing.
pub proof fn lemma_depth_window(lrg: Lrg)
    requires
        lrg.complies_all(),
    ensures
        forall|i: int|
            0 <= i < lrg.entry_seq().len() ==> {
                &&& lrg.config().min_depth <= (#[trigger] lrg.entry_seq()[i]).depth
                &&& lrg.entry_seq()[i].depth <= lrg.config().max_depth
            },
        lrg.config().min_depth > lrg.config().max_depth ==> lrg.entry_seq().len() == 0,
{
    if lrg.config().min_depth > lrg.config().max_depth && lrg.entry_seq().len() > 0 {
        assert(complies(lrg.entry_seq()[0], lrg.config()));
        assert(false);
    }
}

} // verus!
