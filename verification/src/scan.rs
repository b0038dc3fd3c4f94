//! The tree scanner's coordinator: it seeds worker zero with the
//! source root, spreads freshly discovered directories over the
//! workers round-robin, appends every discovered entry to the work
//! queue, and detects termination with a pending counter — one unit
//! per directory listing still owed — instead of any shared flag.

use vstd::prelude::*;
use crate::stats::{Accumulator, merge_totals, zero_totals, Totals};

verus! {

/// A discovered filesystem object: its absolute path and the size its
/// metadata reported at discovery time. The snapshot may be stale by
/// the time the copy phase runs; the copy phase tolerates that.
#[derive(Clone, Debug)]
pub struct PathEntry {
    /// Absolute path of the object.
    pub path: String,
    /// Size in bytes at discovery time; zero for directories.
    pub size: u64,
}

/// One message from a scan worker to the coordinator, and later one
/// unit of the copy phase's work queue. `Done` is purely a control
/// signal: a worker sends it after emitting all children of one
/// assigned directory.
#[derive(Clone, Debug)]
pub enum WorkItem {
    /// A discovered file.
    File(PathEntry),
    /// A discovered directory, still owed a listing.
    Directory(PathEntry),
    /// One assigned directory's children have all been emitted.
    Done,
}

/// What the coordinator must do after taking in one message.
#[derive(Clone, Copy, Debug, PartialEq, Eq, Structural)]
pub enum ScanAction {
    /// Nothing to dispatch; keep receiving.
    Continue,
    /// Send the just-discovered directory's path to this worker.
    Dispatch(usize),
}

/// The found-stats delta one message contributes: files count their
/// size once; directories and `Done` contribute nothing.
pub open spec fn found_delta(msg: WorkItem) -> Totals {
    match msg {
        WorkItem::File(e) => Totals { files_found: 1, bytes_found: e.size as int, ..zero_totals() },
        WorkItem::Directory(_) => zero_totals(),
        WorkItem::Done => zero_totals(),
    }
}

/// The scan coordinator's whole state. It is owned by one task; the
/// workers never see it. `pending` counts directory listings that have
/// been dispatched but not yet fully drained; the scan is over exactly
/// when it reaches zero.
pub struct ScanCoordinator {
    /// Directory listings dispatched and not yet fully drained.
    pub pending: usize,
    /// The worker that receives the next discovered directory.
    pub sender_idx: usize,
    /// Size of the worker pool.
    pub threads: usize,
    /// Every entry discovered so far, in arrival order.
    pub queue: Vec<WorkItem>,
    /// Running found-stats.
    pub acc: Accumulator,
}

impl ScanCoordinator {
    /// Basic well-formedness: a non-empty pool and an in-range
    /// round-robin cursor.
    pub open spec fn inv(self) -> bool {
        &&& self.threads >= 1
        &&& self.sender_idx < self.threads
    }

    /// The scan is complete: every dispatched listing has been drained.
    pub open spec fn done(self) -> bool {
        self.pending == 0
    }

    /// A fresh coordinator for a pool of `threads` workers, accounting
    /// for the root listing the caller seeds to worker zero. The
    /// round-robin cursor starts past worker zero, wrapping immediately
    /// for a pool of one.
    pub fn new(threads: usize) -> (s: Self)
        requires
            threads >= 1,
        ensures
            s.inv(),
            s.threads == threads,
            s.pending == 1,
            s.sender_idx == if threads > 1 { 1int } else { 0int },
            s.queue@ =~= Seq::<WorkItem>::empty(),
            s.acc@ == zero_totals(),
    {
        ScanCoordinator {
            pending: 1,
            sender_idx: if threads > 1 { 1 } else { 0 },
            threads,
            queue: Vec::new(),
            acc: Accumulator::new(),
        }
    }

    /// Take in one worker message: append a discovered entry to the
    /// queue, count found-stats for files, adjust the pending counter,
    /// and for a directory name the worker that must list it next.
    pub fn step(&mut self, msg: WorkItem) -> (act: ScanAction)
        requires
            old(self).inv(),
            !old(self).done(),
            msg matches WorkItem::File(e) ==> old(self).acc.file_count_found < u64::MAX
                && old(self).acc.byte_count_found + e.size <= u64::MAX,
            msg is Directory ==> old(self).pending < usize::MAX,
        ensures
            final(self).inv(),
            final(self).threads == old(self).threads,
            final(self).acc@ == merge_totals(old(self).acc@, found_delta(msg)),
            match msg {
                WorkItem::File(e) => {
                    &&& final(self).queue@ == old(self).queue@.push(msg)
                    &&& final(self).pending == old(self).pending
                    &&& final(self).sender_idx == old(self).sender_idx
                    &&& act == ScanAction::Continue
                },
                WorkItem::Directory(_) => {
                    &&& final(self).queue@ == old(self).queue@.push(msg)
                    &&& final(self).pending == old(self).pending + 1
                    &&& final(self).sender_idx == (if old(self).sender_idx + 1
                        == old(self).threads { 0int } else { old(self).sender_idx + 1 })
                    &&& act == ScanAction::Dispatch(old(self).sender_idx)
                },
                WorkItem::Done => {
                    &&& final(self).queue@ == old(self).queue@
                    &&& final(self).pending == old(self).pending - 1
                    &&& final(self).sender_idx == old(self).sender_idx
                    &&& act == ScanAction::Continue
                },
            },
    {
        match msg {
            WorkItem::File(e) => {
                let size = e.size;
                self.queue.push(WorkItem::File(e));
                self.acc.merge_from(Accumulator::found(1, size));
                ScanAction::Continue
            },
            WorkItem::Directory(e) => {
                self.queue.push(WorkItem::Directory(e));
                self.pending = self.pending + 1;
                let target = self.sender_idx;
                self.sender_idx = self.sender_idx + 1;
                if self.sender_idx == self.threads {
                    self.sender_idx = 0;
                }
                ScanAction::Dispatch(target)
            },
            WorkItem::Done => {
                self.pending = self.pending - 1;
                ScanAction::Continue
            },
        }
    }
}

/// Number of `File` items among the first `k` queue items.
pub open spec fn queue_files_upto(q: Seq<WorkItem>, k: int) -> nat
    decreases k,
{
    if k <= 0 || k > q.len() {
        0
    } else {
        queue_files_upto(q, k - 1) + (if q[k - 1] is File {
            1nat
        } else {
            0nat
        })
    }
}

/// Total size of the `File` items among the first `k` queue items.
pub open spec fn queue_bytes_upto(q: Seq<WorkItem>, k: int) -> nat
    decreases k,
{
    if k <= 0 || k > q.len() {
        0
    } else {
        queue_bytes_upto(q, k - 1) + (match q[k - 1] {
            WorkItem::File(e) => e.size as nat,
            _ => 0nat,
        })
    }
}

/// Number of `File` items in the queue.
pub open spec fn queue_files(q: Seq<WorkItem>) -> nat {
    queue_files_upto(q, q.len() as int)
}

/// Total size of the `File` items in the queue.
pub open spec fn queue_bytes(q: Seq<WorkItem>) -> nat {
    queue_bytes_upto(q, q.len() as int)
}

/// Prefix counts never exceed the whole queue's counts.
pub proof fn lemma_queue_counts_mono(q: Seq<WorkItem>, k: int)
    requires
        0 <= k <= q.len(),
    ensures
        queue_files_upto(q, k) <= queue_files(q),
        queue_bytes_upto(q, k) <= queue_bytes(q),
    decreases q.len() - k,
{
    if k < q.len() {
        lemma_queue_counts_mono(q, k + 1);
    }
}


/// Number of `Directory` items among the first `k` queue items.
pub open spec fn queue_dirs_upto(q: Seq<WorkItem>, k: int) -> nat
    decreases k,
{
    if k <= 0 || k > q.len() {
        0
    } else {
        queue_dirs_upto(q, k - 1) + (if q[k - 1] is Directory {
            1nat
        } else {
            0nat
        })
    }
}

/// Number of `Directory` items in the queue.
pub open spec fn queue_dirs(q: Seq<WorkItem>) -> nat {
    queue_dirs_upto(q, q.len() as int)
}

/// Appending an item leaves every prefix count alone and adds the
/// item's own contribution to the whole-queue counts.
pub proof fn lemma_queue_counts_push(q: Seq<WorkItem>, x: WorkItem, j: int)
    requires
        0 <= j <= q.len(),
    ensures
        queue_files_upto(q.push(x), j) == queue_files_upto(q, j),
        queue_bytes_upto(q.push(x), j) == queue_bytes_upto(q, j),
        queue_dirs_upto(q.push(x), j) == queue_dirs_upto(q, j),
    decreases j,
{
    if j > 0 {
        lemma_queue_counts_push(q, x, j - 1);
        assert(q.push(x)[j - 1] == q[j - 1]);
    }
}

} // verus!
