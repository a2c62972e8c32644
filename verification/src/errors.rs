//! Classification of per-node failures into stable, human-readable labels.
//!
//! The underlying platform's own error-description strings are not part of
//! any stable contract, so the library maps the closed set of low-level
//! causes to labels of its own.

use vstd::prelude::*;

verus! {

/// The closed set of low-level failure causes the classifier knows.
/// Anything else is `Unknown`.
#[derive(Clone, Copy, Debug, PartialEq, Eq, Structural)]
pub enum ErrorCause {
    NotFound,
    PermissionDenied,
    ConnectionRefused,
    ConnectionReset,
    ConnectionAborted,
    NotConnected,
    AddrInUse,
    AddrNotAvailable,
    BrokenPipe,
    AlreadyExists,
    WouldBlock,
    InvalidInput,
    InvalidData,
    TimedOut,
    WriteZero,
    Interrupted,
    Other,
    UnexpectedEof,
    Unknown,
}

/// How severe a reported failure is.
#[derive(Clone, Copy, Debug, PartialEq, Eq, Structural)]
pub enum Severity {
    /// A node could not be opened or read during the walk; the node was
    /// skipped and the walk went on.
    Traversal,
    /// A size could not be resolved for an already-retained entry; the size
    /// degraded to zero.
    Metadata,
}

/// A classified, non-fatal error notification: which path failed, why, and
/// at which stage.
#[derive(Clone, Debug)]
pub struct Diagnostic {
    /// The path the failure concerns; empty when none is known.
    pub path: String,
    /// The classified cause of the failure.
    pub cause: ErrorCause,
    /// The stage the failure happened at.
    pub severity: Severity,
}

impl Diagnostic {
    /// An exact copy of the diagnostic.
    pub fn duplicate(&self) -> (r: Diagnostic)
        ensures
            r == *self,
    {
        Diagnostic { path: self.path.clone(), cause: self.cause, severity: self.severity }
    }

    /// The stable label for this diagnostic's cause.
    pub fn label(&self) -> (r: String)
        ensures
            r@ == label_of(self.cause),
    {
        classify(self.cause)
    }
}

/// The stable label of each failure cause.
pub open spec fn label_of(cause: ErrorCause) -> Seq<char> {
    match cause {
        ErrorCause::NotFound => "Entity not found"@,
        ErrorCause::PermissionDenied => "Permission denied"@,
        ErrorCause::ConnectionRefused => "Connection refused"@,
        ErrorCause::ConnectionReset => "Connection reset"@,
        ErrorCause::ConnectionAborted => "Connection aborted"@,
        ErrorCause::NotConnected => "Not connected"@,
        ErrorCause::AddrInUse => "Address in use"@,
        ErrorCause::AddrNotAvailable => "Address not available"@,
        ErrorCause::BrokenPipe => "Broken pipe"@,
        ErrorCause::AlreadyExists => "Entity already exists"@,
        ErrorCause::WouldBlock => "Operation would block"@,
        ErrorCause::InvalidInput => "Invalid input parameter"@,
        ErrorCause::InvalidData => "Invalid data"@,
        ErrorCause::TimedOut => "Timed out"@,
        ErrorCause::WriteZero => "Write zero"@,
        ErrorCause::Interrupted => "Operation interrupted"@,
        ErrorCause::Other => "Other os error"@,
        ErrorCause::UnexpectedEof => "Unexpected end of file"@,
        ErrorCause::Unknown => "Unknown error"@,
    }
}

/// Maps a failure cause to its stable, human-readable label.
///
/// This is a total, pure function: every cause has exactly one label, with
/// no dependency on locale or platform string rendering.
pub fn classify(cause: ErrorCause) -> (r: String)
    ensures
        r@ == label_of(cause),
{
    match cause {
        ErrorCause::NotFound => "Entity not found".to_owned(),
        ErrorCause::PermissionDenied => "Permission denied".to_owned(),
        ErrorCause::ConnectionRefused => "Connection refused".to_owned(),
        ErrorCause::ConnectionReset => "Connection reset".to_owned(),
        ErrorCause::ConnectionAborted => "Connection aborted".to_owned(),
        ErrorCause::NotConnected => "Not connected".to_owned(),
        ErrorCause::AddrInUse => "Address in use".to_owned(),
        ErrorCause::AddrNotAvailable => "Address not available".to_owned(),
        ErrorCause::BrokenPipe => "Broken pipe".to_owned(),
        ErrorCause::AlreadyExists => "Entity already exists".to_owned(),
        ErrorCause::WouldBlock => "Operation would block".to_owned(),
        ErrorCause::InvalidInput => "Invalid input parameter".to_owned(),
        ErrorCause::InvalidData => "Invalid data".to_owned(),
        ErrorCause::TimedOut => "Timed out".to_owned(),
        ErrorCause::WriteZero => "Write zero".to_owned(),
        ErrorCause::Interrupted => "Operation interrupted".to_owned(),
        ErrorCause::Other => "Other os error".to_owned(),
        ErrorCause::UnexpectedEof => "Unexpected end of file".to_owned(),
        ErrorCause::Unknown => "Unknown error".to_owned(),
    }
}

/// The stable label for a traversal error, as the walk reports it.
///
/// The label is always one of the classifier's fixed labels.
pub fn get_walkdir_error_str(err: &walkdir::Error) -> (r: String)
    ensures
        exists|c: ErrorCause| r@ == label_of(c),
{
    let cause = crate::shim::error_cause(err);
    let r = classify(cause);
    proof {
        assert(r@ == label_of(cause));
    }
    r
}

} // verus!
