//! `lrg` finds the largest (or smallest) files beneath a root path.
//!
//! A walk discovers the filesystem nodes under a root, bounded by a depth
//! window and a link policy; a filter retains files, symbolic links and
//! (when asked for) directories; the retained entries are then ordered by
//! their on-demand resolved sizes, or by a caller-supplied comparison.
//! Per-node failures never abort a walk or a ranking pass: they are
//! classified and reported as diagnostics on the side.

pub mod entry;
pub mod errors;
pub mod lrg;
pub mod options;
pub mod rank;
pub mod shim;

pub use entry::{Entry, EntryKind};
pub use errors::{classify, get_walkdir_error_str, Diagnostic, ErrorCause, Severity};
pub use lrg::Lrg;
pub use options::{LrgOptions, SortBy};
