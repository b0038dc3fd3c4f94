//! Laws of the copy phase, proved over the abstract run: fidelity (a
//! conflict-free or overwriting run copies every source file byte for
//! byte and creates every directory), the conflict policy with no
//! flags set (the run ends in the overwrite error), and the skip
//! policy (an existing destination file is left untouched and counted
//! as skipped, and the run still completes).

use vstd::prelude::*;
use crate::copy::{spec_decide_file, FileAction};
use crate::copy_model::{run_init, spec_run};
use crate::scan::{queue_bytes, queue_bytes_upto, queue_files, queue_files_upto};
use crate::errors::CopyErrorV;
use crate::fs_model::FsNodeV;
use crate::paths::{has_prefix, reroot_view};
use crate::scan::WorkItem;
use crate::stats::copied_totals;

verus! {

/// The path a `File` or `Directory` item carries; the empty path for
/// the `Done` control signal.
pub open spec fn item_path(it: WorkItem) -> Seq<char> {
    match it {
        WorkItem::File(e) => e.path@,
        WorkItem::Directory(e) => e.path@,
        WorkItem::Done => Seq::empty(),
    }
}

/// Whether the item carries a path at all.
pub open spec fn has_path(it: WorkItem) -> bool {
    !(it is Done)
}

/// Every `File` item's source path is a regular file of the initial
/// filesystem.
pub open spec fn sources_ok(q: Seq<WorkItem>, m0: Map<Seq<char>, FsNodeV>) -> bool {
    forall|i: int|
        0 <= i < q.len() ==> match #[trigger] q[i] {
            WorkItem::File(e) => m0.contains_key(e.path@) && m0[e.path@] is File,
            _ => true,
        }
}

/// No item's destination path collides with any item's source path:
/// the destination tree is disjoint from the source tree.
pub open spec fn dsts_clear_of_srcs(q: Seq<WorkItem>, srcb: Seq<char>, dstb: Seq<char>) -> bool {
    forall|i: int, j: int|
        #![trigger q[i], q[j]]
        0 <= i < q.len() && 0 <= j < q.len() && has_path(q[i]) && has_path(q[j])
            ==> reroot_view(item_path(q[i]), srcb, dstb) != item_path(q[j])
}

/// Distinct items carry distinct paths, as a scan of a real tree
/// produces.
pub open spec fn distinct_item_paths(q: Seq<WorkItem>) -> bool {
    forall|i: int, j: int|
        #![trigger q[i], q[j]]
        0 <= i < j < q.len() && has_path(q[i]) && has_path(q[j]) ==> item_path(q[i]) != item_path(
            q[j],
        )
}

/// Every `File` item's destination is new, unless overwriting is on.
pub open spec fn file_dsts_ok(
    q: Seq<WorkItem>,
    srcb: Seq<char>,
    dstb: Seq<char>,
    m0: Map<Seq<char>, FsNodeV>,
    overwrite: bool,
) -> bool {
    forall|i: int|
        0 <= i < q.len() ==> match #[trigger] q[i] {
            WorkItem::File(e) => overwrite || !m0.contains_key(
                reroot_view(e.path@, srcb, dstb),
            ),
            _ => true,
        }
}

/// Every `Directory` item's destination is new or already a directory.
pub open spec fn dir_dsts_ok(
    q: Seq<WorkItem>,
    srcb: Seq<char>,
    dstb: Seq<char>,
    m0: Map<Seq<char>, FsNodeV>,
) -> bool {
    forall|i: int|
        0 <= i < q.len() ==> match #[trigger] q[i] {
            WorkItem::Directory(e) => {
                let d = reroot_view(e.path@, srcb, dstb);
                !m0.contains_key(d) || m0[d] is Dir
            },
            _ => true,
        }
}

/// Re-rooting keeps paths apart: two paths under the source root with
/// the same mirrored destination are the same path.
pub proof fn lemma_reroot_injective(p1: Seq<char>, p2: Seq<char>, srcb: Seq<char>, dstb: Seq<char>)
    requires
        has_prefix(p1, srcb),
        has_prefix(p2, srcb),
        reroot_view(p1, srcb, dstb) == reroot_view(p2, srcb, dstb),
    ensures
        p1 == p2,
{
    let bl = srcb.len() as int;
    let s1 = p1.subrange(bl, p1.len() as int);
    let s2 = p2.subrange(bl, p2.len() as int);
    assert((dstb + s1).len() == (dstb + s2).len());
    assert forall|i: int| 0 <= i < s1.len() implies s1[i] == s2[i] by {
        assert((dstb + s1)[dstb.len() + i] == s1[i]);
        assert((dstb + s2)[dstb.len() + i] == s2[i]);
    }
    assert(p1 =~= p2) by {
        assert forall|i: int| 0 <= i < p1.len() implies p1[i] == p2[i] by {
            if i < bl {
                assert(p1.subrange(0, bl)[i] == p1[i]);
                assert(p2.subrange(0, bl)[i] == p2[i]);
            } else {
                assert(s1[i - bl] == p1[i]);
                assert(s2[i - bl] == p2[i]);
            }
        }
    }
}

/// The invariant of a clean (error-free) run: statistics count every
/// file so far as copied; item source paths are untouched; not-yet
/// processed destinations are as the initial filesystem had them; and
/// every processed item's destination holds its source's bytes, or the
/// directory.
pub open spec fn clean_inv(
    q: Seq<WorkItem>,
    m0: Map<Seq<char>, FsNodeV>,
    srcb: Seq<char>,
    dstb: Seq<char>,
    overwrite: bool,
    k: int,
) -> bool {
    let s = spec_run(q, k, run_init(m0), srcb, dstb, false, overwrite);
    &&& s.err is None
    &&& s.acc == copied_totals(queue_files_upto(q, k) as int, queue_bytes_upto(q, k) as int)
    &&& forall|i: int|
        #![trigger q[i]]
        0 <= i < q.len() && has_path(q[i]) ==> s.fs.contains_key(item_path(q[i]))
            == m0.contains_key(item_path(q[i])) && (m0.contains_key(item_path(q[i]))
            ==> s.fs[item_path(q[i])] == m0[item_path(q[i])])
    &&& forall|i: int|
        #![trigger q[i]]
        k <= i < q.len() && has_path(q[i]) ==> {
            let d = reroot_view(item_path(q[i]), srcb, dstb);
            &&& s.fs.contains_key(d) == m0.contains_key(d)
            &&& (m0.contains_key(d) ==> s.fs[d] == m0[d])
        }
    &&& forall|i: int|
        0 <= i < k ==> match #[trigger] q[i] {
            WorkItem::File(e) => {
                let d = reroot_view(e.path@, srcb, dstb);
                s.fs.contains_key(d) && s.fs[d] == m0[e.path@]
            },
            WorkItem::Directory(e) => {
                let d = reroot_view(e.path@, srcb, dstb);
                s.fs.contains_key(d) && s.fs[d] is Dir
            },
            WorkItem::Done => true,
        }
}

proof fn lemma_clean_run(
    q: Seq<WorkItem>,
    m0: Map<Seq<char>, FsNodeV>,
    srcb: Seq<char>,
    dstb: Seq<char>,
    overwrite: bool,
    k: int,
)
    requires
        0 <= k <= q.len(),
        crate::copy_model::queue_paths_ok(q, srcb),
        sources_ok(q, m0),
        dsts_clear_of_srcs(q, srcb, dstb),
        distinct_item_paths(q),
        file_dsts_ok(q, srcb, dstb, m0, overwrite),
        dir_dsts_ok(q, srcb, dstb, m0),
    ensures
        clean_inv(q, m0, srcb, dstb, overwrite, k),
    decreases k,
{
    if k > 0 {
        lemma_clean_run(q, m0, srcb, dstb, overwrite, k - 1);
        let s = spec_run(q, k - 1, run_init(m0), srcb, dstb, false, overwrite);
        let s2 = spec_run(q, k, run_init(m0), srcb, dstb, false, overwrite);
        let it = q[k - 1];
        match it {
            WorkItem::Done => {},
            WorkItem::File(e) => {
                let d = reroot_view(e.path@, srcb, dstb);
                assert(s.fs.contains_key(e.path@) && s.fs[e.path@] == m0[e.path@]);
                if m0.contains_key(d) {
                    assert(overwrite);
                }
                assert(spec_decide_file(true, s.fs.contains_key(d), false, overwrite)
                    == FileAction::CopyIt);
                assert(s2.fs == s.fs.insert(d, s.fs[e.path@]));
                assert forall|i: int|
                    0 <= i < q.len() && has_path(q[i]) && reroot_view(
                        item_path(q[i]),
                        srcb,
                        dstb,
                    ) == d implies item_path(q[i]) == e.path@ by {
                    lemma_reroot_injective(item_path(q[i]), e.path@, srcb, dstb);
                }
            },
            WorkItem::Directory(e) => {
                let d = reroot_view(e.path@, srcb, dstb);
                if m0.contains_key(d) {
                    assert(s.fs.contains_key(d) && s.fs[d] == m0[d] && m0[d] is Dir);
                    assert(s2.fs == s.fs);
                } else {
                    assert(!s.fs.contains_key(d));
                    assert(s2.fs == s.fs.insert(d, FsNodeV::Dir));
                }
                assert forall|i: int|
                    0 <= i < q.len() && has_path(q[i]) && reroot_view(
                        item_path(q[i]),
                        srcb,
                        dstb,
                    ) == d implies item_path(q[i]) == e.path@ by {
                    lemma_reroot_injective(item_path(q[i]), e.path@, srcb, dstb);
                }
            },
        }
    }
}

/// Copy fidelity. For a queue whose sources exist, whose destinations
/// are disjoint from the sources, and whose file destinations are new
/// (or overwriting is on) and directory destinations new or already
/// directories, the run with `skip` off completes without error, every
/// source file's bytes stand at its mirrored destination path, every
/// directory item has its mirrored destination directory, and the
/// statistics count exactly the queue's files and bytes as copied.
pub proof fn lemma_copy_fidelity(
    q: Seq<WorkItem>,
    m0: Map<Seq<char>, FsNodeV>,
    srcb: Seq<char>,
    dstb: Seq<char>,
    overwrite: bool,
)
    requires
        crate::copy_model::queue_paths_ok(q, srcb),
        sources_ok(q, m0),
        dsts_clear_of_srcs(q, srcb, dstb),
        distinct_item_paths(q),
        file_dsts_ok(q, srcb, dstb, m0, overwrite),
        dir_dsts_ok(q, srcb, dstb, m0),
    ensures
        ({
            let run = spec_run(q, q.len() as int, run_init(m0), srcb, dstb, false, overwrite);
            &&& run.err is None
            &&& run.acc == copied_totals(queue_files(q) as int, queue_bytes(q) as int)
            &&& forall|i: int|
                0 <= i < q.len() ==> match #[trigger] q[i] {
                    WorkItem::File(e) => {
                        let d = reroot_view(e.path@, srcb, dstb);
                        run.fs.contains_key(d) && run.fs[d] == m0[e.path@]
                    },
                    WorkItem::Directory(e) => {
                        let d = reroot_view(e.path@, srcb, dstb);
                        run.fs.contains_key(d) && run.fs[d] is Dir
                    },
                    WorkItem::Done => true,
                }
        }),
{
    lemma_clean_run(q, m0, srcb, dstb, overwrite, q.len() as int);
}

/// The copy phase never removes anything: a path present initially is
/// present after any number of steps.
pub proof fn lemma_dom_monotone(
    q: Seq<WorkItem>,
    m0: Map<Seq<char>, FsNodeV>,
    srcb: Seq<char>,
    dstb: Seq<char>,
    skip: bool,
    overwrite: bool,
    k: int,
    p: Seq<char>,
)
    requires
        0 <= k,
        m0.contains_key(p),
    ensures
        spec_run(q, k, run_init(m0), srcb, dstb, skip, overwrite).fs.contains_key(p),
    decreases k,
{
    if k > 0 {
        lemma_dom_monotone(q, m0, srcb, dstb, skip, overwrite, k - 1, p);
    }
}

/// While no error has struck, every item's source path still holds its
/// initial object: the run writes only at destination paths, which are
/// disjoint from the sources.
proof fn lemma_sources_preserved(
    q: Seq<WorkItem>,
    m0: Map<Seq<char>, FsNodeV>,
    srcb: Seq<char>,
    dstb: Seq<char>,
    skip: bool,
    overwrite: bool,
    k: int,
)
    requires
        0 <= k <= q.len(),
        crate::copy_model::queue_paths_ok(q, srcb),
        dsts_clear_of_srcs(q, srcb, dstb),
    ensures
        ({
            let s = spec_run(q, k, run_init(m0), srcb, dstb, skip, overwrite);
            s.err is None ==> forall|i: int|
                #![trigger q[i]]
                0 <= i < q.len() && has_path(q[i]) ==> s.fs.contains_key(item_path(q[i]))
                    == m0.contains_key(item_path(q[i])) && (m0.contains_key(item_path(q[i]))
                    ==> s.fs[item_path(q[i])] == m0[item_path(q[i])])
        }),
    decreases k,
{
    if k > 0 {
        lemma_sources_preserved(q, m0, srcb, dstb, skip, overwrite, k - 1);
        let s = spec_run(q, k - 1, run_init(m0), srcb, dstb, skip, overwrite);
        let s2 = spec_run(q, k, run_init(m0), srcb, dstb, skip, overwrite);
        if s2.err is None {
            assert(s.err is None);
            match q[k - 1] {
                WorkItem::Done => {},
                WorkItem::File(_) => {
                    assert(has_path(q[k - 1]));
                },
                WorkItem::Directory(_) => {
                    assert(has_path(q[k - 1]));
                },
            }
        }
    }
}

/// With every source a regular file and destinations disjoint from
/// sources, the only fatal error a run can surface is the overwrite
/// conflict.
proof fn lemma_errors_are_overwrite(
    q: Seq<WorkItem>,
    m0: Map<Seq<char>, FsNodeV>,
    srcb: Seq<char>,
    dstb: Seq<char>,
    skip: bool,
    overwrite: bool,
    k: int,
)
    requires
        0 <= k <= q.len(),
        crate::copy_model::queue_paths_ok(q, srcb),
        sources_ok(q, m0),
        dsts_clear_of_srcs(q, srcb, dstb),
    ensures
        ({
            let s = spec_run(q, k, run_init(m0), srcb, dstb, skip, overwrite);
            s.err matches Some(ev) ==> ev is CannotOverwrite
        }),
    decreases k,
{
    if k > 0 {
        lemma_errors_are_overwrite(q, m0, srcb, dstb, skip, overwrite, k - 1);
        lemma_sources_preserved(q, m0, srcb, dstb, skip, overwrite, k - 1);
    }
}

/// Conflict policy with no flags: given any pre-existing destination
/// file, the run terminates with the overwrite error — and by
/// `lemma_run_error_stops` the state freezes there, so no further
/// copies happen from the detection onward.
pub proof fn lemma_conflict_aborts(
    q: Seq<WorkItem>,
    m0: Map<Seq<char>, FsNodeV>,
    srcb: Seq<char>,
    dstb: Seq<char>,
    i: int,
)
    requires
        crate::copy_model::queue_paths_ok(q, srcb),
        sources_ok(q, m0),
        dsts_clear_of_srcs(q, srcb, dstb),
        0 <= i < q.len(),
        q[i] is File,
        m0.contains_key(reroot_view(item_path(q[i]), srcb, dstb)),
    ensures
        ({
            let run = spec_run(q, q.len() as int, run_init(m0), srcb, dstb, false, false);
            run.err matches Some(ev) && ev is CannotOverwrite
        }),
{
    let si = spec_run(q, i, run_init(m0), srcb, dstb, false, false);
    let d = reroot_view(item_path(q[i]), srcb, dstb);
    if si.err is Some {
        lemma_errors_are_overwrite(q, m0, srcb, dstb, false, false, i);
        crate::copy_model::lemma_run_error_stops(
            q, i, q.len() as int, run_init(m0), srcb, dstb, false, false,
        );
    } else {
        lemma_dom_monotone(q, m0, srcb, dstb, false, false, i, d);
        assert(spec_run(q, i + 1, run_init(m0), srcb, dstb, false, false).err == Some(
            CopyErrorV::CannotOverwrite(d),
        ));
        crate::copy_model::lemma_run_error_stops(
            q, i + 1, q.len() as int, run_init(m0), srcb, dstb, false, false,
        );
    }
}

/// With `skip` set and sources in order, a run never surfaces an
/// error: a conflict becomes a counted skip.
proof fn lemma_skip_no_error(
    q: Seq<WorkItem>,
    m0: Map<Seq<char>, FsNodeV>,
    srcb: Seq<char>,
    dstb: Seq<char>,
    k: int,
)
    requires
        0 <= k <= q.len(),
        crate::copy_model::queue_paths_ok(q, srcb),
        sources_ok(q, m0),
        dsts_clear_of_srcs(q, srcb, dstb),
    ensures
        spec_run(q, k, run_init(m0), srcb, dstb, true, false).err is None,
    decreases k,
{
    if k > 0 {
        lemma_skip_no_error(q, m0, srcb, dstb, k - 1);
        lemma_sources_preserved(q, m0, srcb, dstb, true, false, k - 1);
    }
}

/// A run's skipped-file count never decreases.
proof fn lemma_skipped_monotone(
    q: Seq<WorkItem>,
    m0: Map<Seq<char>, FsNodeV>,
    srcb: Seq<char>,
    dstb: Seq<char>,
    skip: bool,
    overwrite: bool,
    k1: int,
    k2: int,
)
    requires
        0 <= k1 <= k2,
    ensures
        spec_run(q, k2, run_init(m0), srcb, dstb, skip, overwrite).acc.files_skipped >= spec_run(
            q, k1, run_init(m0), srcb, dstb, skip, overwrite,
        ).acc.files_skipped,
    decreases k2 - k1,
{
    if k2 > k1 {
        lemma_skipped_monotone(q, m0, srcb, dstb, skip, overwrite, k1, k2 - 1);
    }
}

/// A pre-existing destination file is never written while `skip` is
/// set: its entry stays exactly the initial one at every step.
proof fn lemma_skip_untouched(
    q: Seq<WorkItem>,
    m0: Map<Seq<char>, FsNodeV>,
    srcb: Seq<char>,
    dstb: Seq<char>,
    i: int,
    k: int,
)
    requires
        0 <= k <= q.len(),
        crate::copy_model::queue_paths_ok(q, srcb),
        sources_ok(q, m0),
        dsts_clear_of_srcs(q, srcb, dstb),
        distinct_item_paths(q),
        0 <= i < q.len(),
        q[i] is File,
        m0.contains_key(reroot_view(item_path(q[i]), srcb, dstb)),
    ensures
        ({
            let s = spec_run(q, k, run_init(m0), srcb, dstb, true, false);
            let d = reroot_view(item_path(q[i]), srcb, dstb);
            s.fs.contains_key(d) && s.fs[d] == m0[d]
        }),
    decreases k,
{
    let d = reroot_view(item_path(q[i]), srcb, dstb);
    if k > 0 {
        lemma_skip_untouched(q, m0, srcb, dstb, i, k - 1);
        lemma_skip_no_error(q, m0, srcb, dstb, k - 1);
        let s = spec_run(q, k - 1, run_init(m0), srcb, dstb, true, false);
        match q[k - 1] {
            WorkItem::Done => {},
            WorkItem::File(e) => {
                if reroot_view(e.path@, srcb, dstb) == d {
                    assert(has_path(q[k - 1]) && has_path(q[i]));
                    lemma_reroot_injective(e.path@, item_path(q[i]), srcb, dstb);
                    assert(item_path(q[k - 1]) == item_path(q[i]));
                    assert(k - 1 == i);
                    assert(s.fs.contains_key(d));
                    assert(spec_decide_file(
                        s.fs.contains_key(e.path@),
                        true,
                        true,
                        false,
                    ) != FileAction::CopyIt);
                }
            },
            WorkItem::Directory(e) => {
                if reroot_view(e.path@, srcb, dstb) == d {
                    assert(s.fs.contains_key(d));
                }
            },
        }
    }
}

/// Conflict policy with `skip`: the run completes without error, the
/// pre-existing destination file is left untouched, and the item is
/// counted as skipped.
pub proof fn lemma_skip_preserves_existing(
    q: Seq<WorkItem>,
    m0: Map<Seq<char>, FsNodeV>,
    srcb: Seq<char>,
    dstb: Seq<char>,
    i: int,
)
    requires
        crate::copy_model::queue_paths_ok(q, srcb),
        sources_ok(q, m0),
        dsts_clear_of_srcs(q, srcb, dstb),
        distinct_item_paths(q),
        0 <= i < q.len(),
        q[i] is File,
        m0.contains_key(reroot_view(item_path(q[i]), srcb, dstb)),
    ensures
        ({
            let run = spec_run(q, q.len() as int, run_init(m0), srcb, dstb, true, false);
            let d = reroot_view(item_path(q[i]), srcb, dstb);
            &&& run.err is None
            &&& run.fs.contains_key(d) && run.fs[d] == m0[d]
            &&& run.acc.files_skipped >= 1
        }),
{
    let d = reroot_view(item_path(q[i]), srcb, dstb);
    lemma_skip_no_error(q, m0, srcb, dstb, q.len() as int);
    lemma_skip_untouched(q, m0, srcb, dstb, i, q.len() as int);
    lemma_skip_untouched(q, m0, srcb, dstb, i, i);
    lemma_skip_no_error(q, m0, srcb, dstb, i);
    lemma_sources_preserved(q, m0, srcb, dstb, true, false, i);
    crate::copy_model::lemma_run_acc_bounds(q, i, m0, srcb, dstb, true, false);
    let si = spec_run(q, i, run_init(m0), srcb, dstb, true, false);
    assert(si.fs.contains_key(d));
    assert(spec_run(q, i + 1, run_init(m0), srcb, dstb, true, false).acc.files_skipped
        == si.acc.files_skipped + 1);
    lemma_skipped_monotone(q, m0, srcb, dstb, true, false, i + 1, q.len() as int);
}

} // verus!
