//! The copy phase over the filesystem model: a specification-level
//! fold that says what processing the scan queue means, an executable
//! per-item processor, and the whole phase run through the pull-based
//! coordinator. The run function's loops all carry termination
//! measures, so the copy phase provably terminates for any queue size
//! and any pool of one or more workers, the empty queue included.

use vstd::prelude::*;
use crate::copy::{decide_file, spec_decide_file, CopyCoordinator, FileAction, ThreadReadySignal};
use crate::errors::{CopyError, CopyErrorV};
use crate::fs_model::{FsModel, FsNodeV};
use crate::paths::{has_prefix, re_root, reroot_view};
use crate::scan::{lemma_queue_counts_mono, queue_bytes, queue_bytes_upto, queue_files, queue_files_upto, WorkItem};
use crate::stats::{
    copied_totals, merge_fits, merge_totals, skipped_totals, zero_totals, Accumulator, Totals,
};

verus! {

/// The copy phase's abstract state: the destination-side filesystem,
/// the first fatal error if one has struck, and the statistics deltas
/// accumulated so far.
pub ghost struct RunState {
    pub fs: Map<Seq<char>, FsNodeV>,
    pub err: Option<CopyErrorV>,
    pub acc: Totals,
}

/// Every item path the copy phase re-roots must lie under the source
/// root, as every path the scan discovers does.
pub open spec fn queue_paths_ok(q: Seq<WorkItem>, src_base: Seq<char>) -> bool {
    forall|i: int|
        0 <= i < q.len() ==> match #[trigger] q[i] {
            WorkItem::File(e) => has_prefix(e.path@, src_base),
            WorkItem::Directory(e) => has_prefix(e.path@, src_base),
            WorkItem::Done => true,
        }
}

/// What processing one queue item does to the abstract state. After a
/// fatal error the state is frozen: the coordinator stops handing out
/// work, so no further copies happen from the first error onward.
pub open spec fn spec_step_item(
    s: RunState,
    item: WorkItem,
    src_base: Seq<char>,
    dst_base: Seq<char>,
    skip: bool,
    overwrite: bool,
) -> RunState {
    if s.err is Some {
        s
    } else {
        match item {
            WorkItem::Done => s,
            WorkItem::Directory(e) => {
                let d = reroot_view(e.path@, src_base, dst_base);
                if s.fs.contains_key(d) {
                    s
                } else {
                    RunState { fs: s.fs.insert(d, FsNodeV::Dir), ..s }
                }
            },
            WorkItem::File(e) => {
                let d = reroot_view(e.path@, src_base, dst_base);
                let se = s.fs.contains_key(e.path@);
                let de = s.fs.contains_key(d);
                match spec_decide_file(se, de, skip, overwrite) {
                    FileAction::FatalExists => RunState {
                        err: Some(CopyErrorV::CannotOverwrite(d)),
                        ..s
                    },
                    FileAction::SkipMissing => RunState {
                        acc: merge_totals(s.acc, skipped_totals(1, e.size as int)),
                        ..s
                    },
                    FileAction::SkipExisting => RunState {
                        acc: merge_totals(s.acc, skipped_totals(1, e.size as int)),
                        ..s
                    },
                    FileAction::CopyIt => match s.fs[e.path@] {
                        FsNodeV::File(data) => RunState {
                            fs: s.fs.insert(d, FsNodeV::File(data)),
                            acc: merge_totals(s.acc, copied_totals(1, e.size as int)),
                            ..s
                        },
                        FsNodeV::Dir => RunState {
                            err: Some(CopyErrorV::Other("source is not a regular file"@)),
                            ..s
                        },
                    },
                }
            },
        }
    }
}

/// The abstract state after the first `k` queue items.
pub open spec fn spec_run(
    q: Seq<WorkItem>,
    k: int,
    init: RunState,
    src_base: Seq<char>,
    dst_base: Seq<char>,
    skip: bool,
    overwrite: bool,
) -> RunState
    decreases k,
{
    if k <= 0 {
        init
    } else {
        spec_step_item(
            spec_run(q, k - 1, init, src_base, dst_base, skip, overwrite),
            q[k - 1],
            src_base,
            dst_base,
            skip,
            overwrite,
        )
    }
}

/// The initial abstract state over a destination filesystem.
pub open spec fn run_init(m0: Map<Seq<char>, FsNodeV>) -> RunState {
    RunState { fs: m0, err: None, acc: zero_totals() }
}

/// Stepping an item depends only on the filesystem: starting from the
/// same filesystem mid-run or fresh gives the same filesystem and
/// error, with the delta merged onto whatever was accumulated.
pub proof fn lemma_step_item_shift(
    s: RunState,
    item: WorkItem,
    src_base: Seq<char>,
    dst_base: Seq<char>,
    skip: bool,
    overwrite: bool,
)
    requires
        s.err is None,
    ensures
        ({
            let t0 = spec_step_item(run_init(s.fs), item, src_base, dst_base, skip, overwrite);
            let t1 = spec_step_item(s, item, src_base, dst_base, skip, overwrite);
            &&& t1.fs == t0.fs
            &&& t1.err == t0.err
            &&& t1.acc == merge_totals(s.acc, t0.acc)
        }),
{
}

/// Once a fatal error has struck, the rest of the queue changes
/// nothing: the run is frozen at the error point.
pub proof fn lemma_run_error_stops(
    q: Seq<WorkItem>,
    k1: int,
    k2: int,
    init: RunState,
    src_base: Seq<char>,
    dst_base: Seq<char>,
    skip: bool,
    overwrite: bool,
)
    requires
        0 <= k1 <= k2,
        spec_run(q, k1, init, src_base, dst_base, skip, overwrite).err is Some,
    ensures
        spec_run(q, k2, init, src_base, dst_base, skip, overwrite) == spec_run(
            q,
            k1,
            init,
            src_base,
            dst_base,
            skip,
            overwrite,
        ),
    decreases k2 - k1,
{
    if k2 > k1 {
        lemma_run_error_stops(q, k1, k2 - 1, init, src_base, dst_base, skip, overwrite);
    }
}

/// Bounds on the statistics a run accumulates: found counters are
/// never touched, and the copied and skipped counters stay within the
/// queue's own file count and byte total.
pub proof fn lemma_run_acc_bounds(
    q: Seq<WorkItem>,
    k: int,
    m0: Map<Seq<char>, FsNodeV>,
    src_base: Seq<char>,
    dst_base: Seq<char>,
    skip: bool,
    overwrite: bool,
)
    requires
        0 <= k <= q.len(),
    ensures
        ({
            let a = spec_run(q, k, run_init(m0), src_base, dst_base, skip, overwrite).acc;
            &&& a.files_found == 0
            &&& a.bytes_found == 0
            &&& 0 <= a.files_copied
            &&& 0 <= a.files_skipped
            &&& 0 <= a.bytes_copied
            &&& 0 <= a.bytes_skipped
            &&& a.files_copied + a.files_skipped <= queue_files_upto(q, k)
            &&& a.bytes_copied + a.bytes_skipped <= queue_bytes_upto(q, k)
        }),
    decreases k,
{
    if k > 0 {
        lemma_run_acc_bounds(q, k - 1, m0, src_base, dst_base, skip, overwrite);
    }
}

/// Process one work item against the filesystem model, exactly as the
/// abstract step says: re-root the path, apply the conflict policy,
/// and copy, skip, create the directory, or surface the fatal error.
pub fn process_item(
    item: WorkItem,
    src_base: &str,
    dst_base: &str,
    skip: bool,
    overwrite: bool,
    fs: &mut FsModel,
) -> (r: Result<Accumulator, CopyError>)
    requires
        item matches WorkItem::File(e) ==> has_prefix(e.path@, src_base@),
        item matches WorkItem::Directory(e) ==> has_prefix(e.path@, src_base@),
    ensures
        ({
            let s1 = spec_step_item(
                run_init(old(fs)@),
                item,
                src_base@,
                dst_base@,
                skip,
                overwrite,
            );
            &&& final(fs)@ == s1.fs
            &&& match r {
                Ok(a) => s1.err is None && a@ == s1.acc,
                Err(e) => s1.err == Some(e@),
            }
        }),
{
    match item {
        WorkItem::Done => Ok(Accumulator::new()),
        WorkItem::Directory(e) => {
            let d = re_root(e.path.as_str(), src_base, dst_base);
            fs.ensure_dir(d);
            Ok(Accumulator::new())
        },
        WorkItem::File(e) => {
            let d = re_root(e.path.as_str(), src_base, dst_base);
            let se = fs.contains_path(e.path.as_str());
            let de = fs.contains_path(d.as_str());
            match decide_file(se, de, skip, overwrite) {
                FileAction::FatalExists => Err(CopyError::CannotOverwrite(d)),
                FileAction::SkipMissing => Ok(Accumulator::skips(1, e.size)),
                FileAction::SkipExisting => Ok(Accumulator::skips(1, e.size)),
                FileAction::CopyIt => {
                    let bytes_opt = match fs.read_file(e.path.as_str()) {
                        Some(data) => Some(vstd::slice::slice_to_vec(data.as_slice())),
                        None => None,
                    };
                    match bytes_opt {
                        Some(bytes) => {
                            fs.write_file(d, bytes);
                            Ok(Accumulator::copies(1, e.size))
                        },
                        None => Err(
                            CopyError::Other(String::from_str("source is not a regular file")),
                        ),
                    }
                },
            }
        },
    }
}

/// Run the whole copy phase over the filesystem model through the
/// pull-based coordinator, with a single eager worker draining the
/// queue and the rest of the pool reporting idle once it is empty —
/// one legal schedule of the real pool. Returns the final running
/// total, or the first fatal error with all later work abandoned.
///
/// Both loops carry a termination measure, so the phase terminates for
/// any queue size and any pool of one or more workers.
pub fn copy_model(
    queue: Vec<WorkItem>,
    src_base: &str,
    dst_base: &str,
    skip: bool,
    overwrite: bool,
    fs: &mut FsModel,
    threads: usize,
    base: Accumulator,
) -> (r: Result<Accumulator, CopyError>)
    requires
        threads >= 1,
        queue_paths_ok(queue@, src_base@),
        base@.files_copied + queue_files(queue@) <= u64::MAX,
        base@.bytes_copied + queue_bytes(queue@) <= u64::MAX,
        base@.files_skipped + queue_files(queue@) <= u64::MAX,
        base@.bytes_skipped + queue_bytes(queue@) <= u64::MAX,
    ensures
        ({
            let run = spec_run(
                queue@,
                queue@.len() as int,
                run_init(old(fs)@),
                src_base@,
                dst_base@,
                skip,
                overwrite,
            );
            &&& final(fs)@ == run.fs
            &&& match r {
                Ok(a) => run.err is None && a@ == merge_totals(base@, run.acc),
                Err(e) => run.err == Some(e@),
            }
        }),
{
    let ghost q = queue@;
    let ghost m_init = fs@;
    let ghost init = run_init(m_init);
    let mut coord = CopyCoordinator::new(queue, threads, base);
    let mut delta = Accumulator::new();
    let mut err_out: Option<CopyError> = None;
    let ghost mut k: int = 0;
    loop
        invariant_except_break
            err_out is None,
            coord.inv(),
            coord.threads == threads,
            threads >= 1,
            coord.idle == 0,
            0 <= k <= q.len(),
            coord.remaining() =~= q.skip(k),
            queue_paths_ok(q, src_base@),
            base@.files_copied + queue_files(q) <= u64::MAX,
            base@.bytes_copied + queue_bytes(q) <= u64::MAX,
            base@.files_skipped + queue_files(q) <= u64::MAX,
            base@.bytes_skipped + queue_bytes(q) <= u64::MAX,
            spec_run(q, k, init, src_base@, dst_base@, skip, overwrite).err is None,
            fs@ == spec_run(q, k, init, src_base@, dst_base@, skip, overwrite).fs,
            merge_totals(coord.acc@, delta@) == merge_totals(
                base@,
                spec_run(q, k, init, src_base@, dst_base@, skip, overwrite).acc,
            ),
            init == run_init(m_init),
        ensures
            coord.inv(),
            coord.threads == threads,
            ({
                let run = spec_run(q, q.len() as int, init, src_base@, dst_base@, skip, overwrite);
                match err_out {
                    None => {
                        &&& coord.idle == 1
                        &&& coord.remaining().len() == 0
                        &&& run.err is None
                        &&& fs@ == run.fs
                        &&& coord.acc@ == merge_totals(base@, run.acc)
                    },
                    Some(e) => {
                        &&& run.err == Some(e@)
                        &&& fs@ == run.fs
                    },
                }
            }),
        decreases q.len() - k,
    {
        proof {
            lemma_run_acc_bounds(q, k, m_init, src_base@, dst_base@, skip, overwrite);
            lemma_queue_counts_mono(q, k);
        }
        let item_opt = coord.step(ThreadReadySignal { worker: 0, delta });
        match item_opt {
            Some(item) => {
                proof {
                    assert(item == q[k]);
                    assert(coord.remaining() =~= q.skip(k + 1));
                }
                let ghost s_pre = spec_run(q, k, init, src_base@, dst_base@, skip, overwrite);
                proof {
                    lemma_step_item_shift(s_pre, q[k], src_base@, dst_base@, skip, overwrite);
                }
                match process_item(item, src_base, dst_base, skip, overwrite, fs) {
                    Ok(dnew) => {
                        delta = dnew;
                        proof {
                            k = k + 1;
                        }
                    },
                    Err(e) => {
                        proof {
                            k = k + 1;
                            lemma_run_error_stops(
                                q,
                                k,
                                q.len() as int,
                                init,
                                src_base@,
                                dst_base@,
                                skip,
                                overwrite,
                            );
                        }
                        err_out = Some(e);
                        break;
                    },
                }
            },
            None => {
                proof {
                    assert(q.skip(k).len() == 0);
                    assert(k == q.len());
                }
                break;
            },
        }
    }
    if let Some(e) = err_out {
        return Err(e);
    }
    // The queue is drained and one worker has gone idle; the rest of
    // the pool now reports ready, finds nothing, and goes idle too.
    let mut w: usize = 1;
    while w < threads
        invariant
            coord.inv(),
            coord.threads == threads,
            1 <= w <= threads,
            coord.idle == w,
            coord.remaining().len() == 0,
            coord.acc@ == merge_totals(
                base@,
                spec_run(q, q.len() as int, init, src_base@, dst_base@, skip, overwrite).acc,
            ),
            spec_run(q, q.len() as int, init, src_base@, dst_base@, skip, overwrite).err is None,
            fs@ == spec_run(q, q.len() as int, init, src_base@, dst_base@, skip, overwrite).fs,
            init == run_init(m_init),
        decreases threads - w,
    {
        proof {
            lemma_run_acc_bounds(q, q.len() as int, m_init, src_base@, dst_base@, skip, overwrite);
            lemma_queue_counts_mono(q, q.len() as int);
        }
        let _ = coord.step(ThreadReadySignal { worker: w, delta: Accumulator::new() });
        w = w + 1;
    }
    Ok(coord.acc)
}

} // verus!
