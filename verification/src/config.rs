//! The resolved run configuration handed in by the surrounding
//! command-line layer, and the fail-fast checks the core makes on it.

use vstd::prelude::*;
use crate::errors::{CopyError, CopyErrorV};

verus! {

/// A resolved run configuration: source and destination roots, the
/// conflict-policy flags, and the worker-pool size. The surrounding
/// binary fills this from its command line.
#[derive(Clone, Debug)]
pub struct Args {
    /// The folder to copy.
    pub src: String,
    /// The location to copy `src` to.
    pub dst: String,
    /// Overwrite files that already exist at the destination.
    /// Mutually exclusive with `skip`.
    pub overwrite: bool,
    /// Skip files that already exist at the destination.
    /// Mutually exclusive with `overwrite`.
    pub skip: bool,
    /// Periodically log progress.
    pub progress: bool,
    /// The number of threads for search and copy; `None` means one per
    /// available core.
    pub threads: Option<usize>,
    /// Declared but not yet wired into the core: copy an existing
    /// destination file when the source is more recently modified.
    pub copy_if_newer: bool,
    /// Declared but not yet wired into the core: copy an existing
    /// destination file when the source is larger.
    pub copy_if_larger: bool,
    /// Declared but not yet wired into the core: degrade per-file fatal
    /// conditions to skips instead of aborting.
    pub continue_on_error: bool,
}

/// The fail-fast checks made before any work starts, given what the
/// filesystem says about the source path. Rejects a missing source,
/// a source that is not a directory, and the contradictory flag pair.
pub fn validate_run(args: &Args, src_exists: bool, src_is_dir: bool) -> (r: Result<(), CopyError>)
    ensures
        !src_exists ==> (r matches Err(e) && e@ == CopyErrorV::SourceNotFound(args.src@)),
        src_exists && !src_is_dir ==> (r matches Err(e) && e@ == CopyErrorV::NotFaster),
        src_exists && src_is_dir && args.skip && args.overwrite ==> (r matches Err(e)
            && e@ == CopyErrorV::Other("Cannot have both skip and overwrite set."@)),
        src_exists && src_is_dir && !(args.skip && args.overwrite) ==> r matches Ok(()),
{
    if !src_exists {
        return Err(CopyError::SourceNotFound(args.src.clone()));
    }
    if !src_is_dir {
        return Err(CopyError::NotFaster);
    }
    if args.skip && args.overwrite {
        return Err(CopyError::Other(String::from_str("Cannot have both skip and overwrite set.")));
    }
    Ok(())
}

/// The worker-pool size for a run: the operator's request if given,
/// else the available core count, else a fallback of two.
pub fn resolve_thread_count(requested: Option<usize>, available: Option<usize>) -> (n: usize)
    ensures
        n == (match requested {
            Some(t) => t,
            None => match available {
                Some(a) => a,
                None => 2usize,
            },
        }),
{
    match requested {
        Some(t) => t,
        None => match available {
            Some(a) => a,
            None => 2,
        },
    }
}

} // verus!
