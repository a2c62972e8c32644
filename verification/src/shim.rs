//! The trusted boundary around the `walkdir` crate.
//!
//! Everything the library learns from the filesystem comes through the few
//! wrappers in this module.  Their contracts state only what the `walkdir`
//! sources show of every outcome; the logic that interprets the results is
//! verified elsewhere.

use vstd::prelude::*;

use std::io::ErrorKind;

use crate::entry::EntryKind;
use crate::errors::ErrorCause;
use crate::options::LrgOptions;

verus! {

/// The highest depth the underlying traversal may report under a requested
/// window: `WalkDir` raises a maximum below the minimum up to the minimum,
/// so the cap is the larger of the two.
pub open spec fn depth_cap(min_depth: usize, max_depth: usize) -> usize {
    if max_depth >= min_depth {
        max_depth
    } else {
        min_depth
    }
}

#[verifier::external_type_specification]
#[verifier::external_body]
pub struct ExWalkdirIntoIter(walkdir::IntoIter);

#[verifier::external_type_specification]
#[verifier::external_body]
pub struct ExWalkdirError(walkdir::Error);

// Declared so that Verus accepts `walkdir::IntoIter`'s `Iterator` impl,
// whose items are of this type; no signature of the library carries it.
#[verifier::external_type_specification]
#[verifier::external_body]
pub struct ExWalkdirDirEntry(walkdir::DirEntry);

/// A running traversal, together with the depth window it was asked for.
pub struct Walker {
    iter: walkdir::IntoIter,
    min_depth: usize,
    max_depth: usize,
}

impl Walker {
    /// The requested minimum depth.
    pub closed spec fn spec_min_depth(self) -> usize {
        self.min_depth
    }

    /// The requested maximum depth, as handed to the traversal (which raises
    /// it to the minimum when it lies below it).
    pub closed spec fn spec_max_depth(self) -> usize {
        self.max_depth
    }
}

/// One step of a traversal: a discovered node, or a per-node failure.
pub enum WalkEvent {
    /// A node, with its path, its kind (`None` for a node that is neither a
    /// file, a directory nor a symbolic link) and its depth below the root.
    Node { path: String, kind: Option<EntryKind>, depth: usize },
    /// A node could not be opened or read; the traversal goes on without it.
    Failure(walkdir::Error),
}

/// Relies on `walkdir::WalkDir`: `new`, `min_depth`, `max_depth`,
/// `follow_links` and `into_iter` configure and start a depth-first
/// traversal of `root`.  The requested depth window is recorded beside the
/// iterator.
#[verifier::external_body]
pub(crate) fn start_walk(root: &str, opts: &LrgOptions) -> (w: Walker)
    ensures
        w.spec_min_depth() == opts.min_depth,
        w.spec_max_depth() == opts.max_depth,
{
    Walker {
        iter: walkdir::WalkDir::new(root)
            .min_depth(opts.min_depth)
            .max_depth(opts.max_depth)
            .follow_links(opts.follow_links)
            .into_iter(),
        min_depth: opts.min_depth,
        max_depth: opts.max_depth,
    }
}

/// Relies on `walkdir::IntoIter::next` and the `walkdir::DirEntry` accessors
/// `path`, `file_type` and `depth`: the traversal yields only nodes whose
/// depth lies at or above the requested minimum and at or below the requested
/// maximum (raised to the minimum when it lies below it), and exactly one of
/// the three file-type tests holds for a node that has a kind at all.
#[verifier::external_body]
pub(crate) fn walk_next(w: &mut Walker) -> (ev: Option<WalkEvent>)
    ensures
        final(w).spec_min_depth() == old(w).spec_min_depth(),
        final(w).spec_max_depth() == old(w).spec_max_depth(),
        (ev matches Some(WalkEvent::Node { path, kind, depth }) ==> {
            &&& old(w).spec_min_depth() <= depth
            &&& depth <= depth_cap(old(w).spec_min_depth(), old(w).spec_max_depth())
        }),
{
    match w.iter.next() {
        None => None,
        Some(Err(e)) => Some(WalkEvent::Failure(e)),
        Some(Ok(d)) => {
            let ft = d.file_type();
            let kind = if ft.is_dir() { Some(EntryKind::Directory) }
                else if ft.is_file() { Some(EntryKind::File) }
                else if ft.is_symlink() { Some(EntryKind::Symlink) } else { None };
            let path = d.path().to_string_lossy().into_owned();
            Some(WalkEvent::Node { path, kind, depth: d.depth() })
        },
    }
}

/// Relies on `walkdir::WalkDir` with a zero depth window, and root links not
/// specially followed, yielding exactly the root path itself, and on
/// `walkdir::DirEntry::metadata` and `Metadata::len`: the size of the node at
/// `path`, read through a symbolic link (even a dangling one) exactly when
/// `follow_links` is set and of the link itself otherwise.  The result
/// depends on the state of the filesystem at the time of the call, so
/// nothing is promised of it.
#[verifier::external_body]
pub(crate) fn stat_len(path: &str, follow_links: bool) -> (r: Option<Result<u64, walkdir::Error>>)
{
    let first = walkdir::WalkDir::new(path)
        .max_depth(0)
        .follow_links(follow_links)
        .follow_root_links(follow_links)
        .into_iter()
        .next();
    match first {
        None => None,
        Some(Err(e)) => Some(Err(e)),
        Some(Ok(d)) => Some(match d.metadata() { Ok(m) => Ok(m.len()), Err(e) => Err(e) }),
    }
}

/// Relies on `walkdir::Error::path`: the path the failure concerns, or the
/// empty string when the error carries none.
#[verifier::external_body]
pub(crate) fn error_path(err: &walkdir::Error) -> (p: String)
{
    match err.path() {
        Some(p) => p.to_string_lossy().into_owned(),
        None => String::new(),
    }
}

/// Relies on `walkdir::Error::io_error` and `std::io::Error::kind`: each
/// known kind of the underlying operating-system error is told apart into
/// the library's own cause, one arm each; `Unknown` where no such error or
/// no known kind stands behind the failure.
#[verifier::external_body]
pub(crate) fn error_cause(err: &walkdir::Error) -> (c: ErrorCause)
{
    let kind = match err.io_error() { Some(io) => io.kind(), None => return ErrorCause::Unknown };
    match kind {
        ErrorKind::NotFound => ErrorCause::NotFound, ErrorKind::PermissionDenied => ErrorCause::PermissionDenied,
        ErrorKind::ConnectionRefused => ErrorCause::ConnectionRefused, ErrorKind::ConnectionReset => ErrorCause::ConnectionReset,
        ErrorKind::ConnectionAborted => ErrorCause::ConnectionAborted, ErrorKind::NotConnected => ErrorCause::NotConnected,
        ErrorKind::AddrInUse => ErrorCause::AddrInUse, ErrorKind::AddrNotAvailable => ErrorCause::AddrNotAvailable,
        ErrorKind::BrokenPipe => ErrorCause::BrokenPipe, ErrorKind::AlreadyExists => ErrorCause::AlreadyExists,
        ErrorKind::WouldBlock => ErrorCause::WouldBlock, ErrorKind::InvalidInput => ErrorCause::InvalidInput,
        ErrorKind::InvalidData => ErrorCause::InvalidData, ErrorKind::TimedOut => ErrorCause::TimedOut,
        ErrorKind::WriteZero => ErrorCause::WriteZero, ErrorKind::Interrupted => ErrorCause::Interrupted,
        ErrorKind::Other => ErrorCause::Other, ErrorKind::UnexpectedEof => ErrorCause::UnexpectedEof,
        _ => ErrorCause::Unknown,
    }
}

} // verus!
