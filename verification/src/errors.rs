//! The closed set of fatal conditions a worker can surface to the
//! coordinator. Every variant aborts the whole run; recoverable
//! per-file conditions are skip-counted instead and never appear here.

use vstd::prelude::*;

verus! {

/// A fatal condition, carrying the path or paths needed for a precise
/// user-facing message.
#[derive(Clone, Debug, PartialEq, Eq)]
pub enum CopyError {
    /// The source is a single file, not a directory; a multithreaded
    /// copy has no benefit.
    NotFaster,
    /// The source path does not exist.
    SourceNotFound(String),
    /// A destination file already exists and neither `skip` nor
    /// `overwrite` was set.
    CannotOverwrite(String),
    /// A destination directory could not be created; carries the
    /// underlying error text.
    DirectoryCreationFailed(String),
    /// Permission was denied copying the first path to the second.
    AccessDenied(String, String),
    /// Any other fatal condition, with its verbatim error text.
    Other(String),
}

/// Specification-level image of a `CopyError`, with payloads as
/// character sequences.
pub ghost enum CopyErrorV {
    NotFaster,
    SourceNotFound(Seq<char>),
    CannotOverwrite(Seq<char>),
    DirectoryCreationFailed(Seq<char>),
    AccessDenied(Seq<char>, Seq<char>),
    Other(Seq<char>),
}

impl View for CopyError {
    type V = CopyErrorV;

    open spec fn view(&self) -> CopyErrorV {
        match self {
            CopyError::NotFaster => CopyErrorV::NotFaster,
            CopyError::SourceNotFound(p) => CopyErrorV::SourceNotFound(p@),
            CopyError::CannotOverwrite(p) => CopyErrorV::CannotOverwrite(p@),
            CopyError::DirectoryCreationFailed(m) => CopyErrorV::DirectoryCreationFailed(m@),
            CopyError::AccessDenied(s, d) => CopyErrorV::AccessDenied(s@, d@),
            CopyError::Other(m) => CopyErrorV::Other(m@),
        }
    }
}

/// The user-facing message each error formats to.
pub open spec fn spec_message(e: CopyErrorV) -> Seq<char> {
    match e {
        CopyErrorV::NotFaster => "This isn't any faster for single files, just use cp/copy."@,
        CopyErrorV::SourceNotFound(p) => "Source path not found: "@ + p,
        CopyErrorV::CannotOverwrite(p) => "Destination file already exists: "@ + p,
        CopyErrorV::DirectoryCreationFailed(m) => "Could not create destination directory: "@ + m,
        CopyErrorV::AccessDenied(s, d) => "Access denied copying "@ + s + " to "@ + d,
        CopyErrorV::Other(m) => "Error: "@ + m,
    }
}

impl CopyError {
    /// The precise, path-qualified message for this error, for the
    /// caller to print before mapping the error to an exit code.
    pub fn message(&self) -> (r: String)
        ensures
            r@ == spec_message(self@),
    {
        match self {
            CopyError::NotFaster => {
                String::from_str("This isn't any faster for single files, just use cp/copy.")
            },
            CopyError::SourceNotFound(p) => {
                String::from_str("Source path not found: ").concat(p.as_str())
            },
            CopyError::CannotOverwrite(p) => {
                String::from_str("Destination file already exists: ").concat(p.as_str())
            },
            CopyError::DirectoryCreationFailed(m) => {
                String::from_str("Could not create destination directory: ").concat(m.as_str())
            },
            CopyError::AccessDenied(s, d) => {
                let r = String::from_str("Access denied copying ")
                    .concat(s.as_str())
                    .concat(" to ")
                    .concat(d.as_str());
                proof {
                    assert(r@ =~= spec_message(self@));
                }
                r
            },
            CopyError::Other(m) => String::from_str("Error: ").concat(m.as_str()),
        }
    }
}

} // verus!
