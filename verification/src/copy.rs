//! The copy dispatcher's coordinator and the per-item policy. Workers
//! pull: each ready signal both reports the delta of the item just
//! finished and requests the next one. The coordinator pops the queue
//! front for the signalling worker, or counts it idle when the queue
//! is empty; the phase is over when every worker has gone idle.

use vstd::prelude::*;
use crate::errors::{CopyError, CopyErrorV};
use crate::scan::WorkItem;
use crate::stats::{merge_fits, merge_totals, Accumulator};

verus! {

/// A worker's ready signal: its identity and the statistics delta of
/// the unit of work it just finished (the all-zero delta on startup).
#[derive(Clone, Copy, Debug)]
pub struct ThreadReadySignal {
    /// Which worker is ready for its next item.
    pub worker: usize,
    /// Statistics of the item just finished.
    pub delta: Accumulator,
}

/// The unit exchanged on the coordinator-facing channel in the copy
/// phase: a worker is ready for more work, or has hit a fatal
/// condition.
pub type CopyOutcome = Result<ThreadReadySignal, CopyError>;

/// The copy coordinator's whole state, owned by one task. `idle`
/// counts workers whose last request found the queue empty; the phase
/// terminates when it equals the pool size.
pub struct CopyCoordinator {
    /// The items not yet handed to any worker, consumed front to back.
    pub queue: Vec<WorkItem>,
    /// Workers whose last request found nothing left.
    pub idle: usize,
    /// Size of the worker pool.
    pub threads: usize,
    /// Running total: found-stats from the scan plus every delta
    /// reported so far.
    pub acc: Accumulator,
}

impl CopyCoordinator {
    /// Basic well-formedness.
    pub open spec fn inv(self) -> bool {
        &&& self.threads >= 1
        &&& self.idle <= self.threads
    }

    /// The items not yet handed to any worker, in order.
    pub open spec fn remaining(self) -> Seq<WorkItem> {
        self.queue@
    }

    /// Every worker has reported ready with nothing left to give it.
    pub open spec fn finished(self) -> bool {
        self.idle == self.threads
    }

    /// A fresh coordinator over the scan's queue, starting from the
    /// found-stats the scan accumulated.
    pub fn new(queue: Vec<WorkItem>, threads: usize, acc: Accumulator) -> (s: Self)
        requires
            threads >= 1,
        ensures
            s.inv(),
            s.threads == threads,
            s.idle == 0,
            s.acc == acc,
            s.remaining() == queue@,
    {
        CopyCoordinator { queue, idle: 0, threads, acc }
    }

    /// Take in one ready signal: merge the reported delta into the
    /// running total, then hand back the queue front for that worker,
    /// or count the worker idle when nothing remains.
    pub fn step(&mut self, rq: ThreadReadySignal) -> (item: Option<WorkItem>)
        requires
            old(self).inv(),
            !old(self).finished(),
            merge_fits(old(self).acc@, rq.delta@),
        ensures
            final(self).inv(),
            final(self).threads == old(self).threads,
            final(self).acc@ == merge_totals(old(self).acc@, rq.delta@),
            old(self).remaining().len() > 0 ==> {
                &&& item == Some(old(self).remaining()[0])
                &&& final(self).remaining() == old(self).remaining().skip(1)
                &&& final(self).idle == old(self).idle
            },
            old(self).remaining().len() == 0 ==> {
                &&& item is None
                &&& final(self).remaining() == old(self).remaining()
                &&& final(self).idle == old(self).idle + 1
            },
    {
        self.acc.merge_from(rq.delta);
        if self.queue.len() > 0 {
            let item = self.queue.remove(0);
            proof {
                assert(self.remaining() =~= old(self).remaining().skip(1));
            }
            Some(item)
        } else {
            self.idle = self.idle + 1;
            None
        }
    }
}

/// What the policy says to do with one `File` item, given what the
/// filesystem reports about its source and destination paths.
#[derive(Clone, Copy, Debug, PartialEq, Eq, Structural)]
pub enum FileAction {
    /// Copy the source to the destination (overwriting if it exists,
    /// which only happens with `overwrite` set).
    CopyIt,
    /// The source vanished between scan and copy: count a skip.
    SkipMissing,
    /// The destination exists and `skip` is set: count a skip.
    SkipExisting,
    /// The destination exists with neither flag set: fatal.
    FatalExists,
}

/// The per-file conflict policy. A pre-existing destination with
/// neither flag set is fatal even when the source has vanished; a
/// vanished source is otherwise a skip; a pre-existing destination
/// under `skip` is a skip; everything else is copied.
pub open spec fn spec_decide_file(
    src_exists: bool,
    dst_exists: bool,
    skip: bool,
    overwrite: bool,
) -> FileAction {
    if dst_exists && !skip && !overwrite {
        FileAction::FatalExists
    } else if !src_exists {
        FileAction::SkipMissing
    } else if dst_exists && skip {
        FileAction::SkipExisting
    } else {
        FileAction::CopyIt
    }
}

/// Decide what to do with one `File` item, from the two existence
/// checks and the two mode flags.
pub fn decide_file(src_exists: bool, dst_exists: bool, skip: bool, overwrite: bool) -> (a:
    FileAction)
    ensures
        a == spec_decide_file(src_exists, dst_exists, skip, overwrite),
{
    if dst_exists && !skip && !overwrite {
        FileAction::FatalExists
    } else if !src_exists {
        FileAction::SkipMissing
    } else if dst_exists && skip {
        FileAction::SkipExisting
    } else {
        FileAction::CopyIt
    }
}

/// How one attempted file copy ended, as the surrounding binary
/// classifies its I/O result: success, a permission failure, or any
/// other failure with its error text.
#[derive(Clone, Debug)]
pub enum CopyAttempt {
    /// The copy succeeded.
    Copied,
    /// The operating system denied permission.
    PermissionDenied,
    /// Any other I/O failure, with its verbatim error text.
    OtherFailure(String),
}

/// Turn one attempted copy into the worker's outcome: a copied-stats
/// delta on success, the fatal error naming both paths on a permission
/// failure, and an opaque fatal error otherwise.
pub fn classify_copy_attempt(attempt: CopyAttempt, src: String, dst: String, size: u64) -> (r:
    Result<Accumulator, CopyError>)
    ensures
        match attempt {
            CopyAttempt::Copied => r matches Ok(a) && a@ == crate::stats::copied_totals(1, size as int),
            CopyAttempt::PermissionDenied => r matches Err(e) && e@ == CopyErrorV::AccessDenied(
                src@,
                dst@,
            ),
            CopyAttempt::OtherFailure(m) => r matches Err(e) && e@ == CopyErrorV::Other(m@),
        },
{
    match attempt {
        CopyAttempt::Copied => Ok(Accumulator::copies(1, size)),
        CopyAttempt::PermissionDenied => Err(CopyError::AccessDenied(src, dst)),
        CopyAttempt::OtherFailure(m) => Err(CopyError::Other(m)),
    }
}

} // verus!
