//! The scan phase over a tree model: a finite acyclic directory tree
//! given as listings indexed by directory id, scanned through the real
//! coordinator with a frontier standing for the workers' inbound
//! queues. The scan provably terminates for any such tree and any pool
//! size — the pending counter reaches exactly zero — and its queue
//! then holds exactly the tree's file and directory entries, with the
//! found statistics equal to the file count and byte total.

use vstd::prelude::*;
use crate::copy_model::queue_paths_ok;
use crate::paths::{has_prefix, lemma_join_keeps_prefix, lemma_prefix_reflexive, path_join};
use crate::scan::{
    lemma_queue_counts_push, queue_bytes, queue_dirs, queue_files, PathEntry, ScanAction,
    ScanCoordinator, WorkItem,
};
use crate::stats::{found_totals, Accumulator};

verus! {

/// One child in a directory listing of the tree model.
pub enum TreeEntry {
    /// A file: its name and size in bytes.
    File { name: String, size: u64 },
    /// A subdirectory: its name and the id of its own listing.
    Dir { name: String, id: usize },
}

/// A finite directory tree: `listings[d]` is the list of children of
/// directory `d`, and id 0 is the root.
pub struct TreeModel {
    /// The children of each directory, indexed by directory id.
    pub listings: Vec<Vec<TreeEntry>>,
}

/// The children of directory `d`.
pub open spec fn listing(t: TreeModel, d: int) -> Seq<TreeEntry> {
    t.listings@[d]@
}

/// How many directories the tree has, the root included.
pub open spec fn tree_size(t: TreeModel) -> int {
    t.listings@.len() as int
}

/// The directory id a child entry refers to, if it is a subdirectory.
pub open spec fn dir_id_of(e: TreeEntry) -> Option<int> {
    match e {
        TreeEntry::Dir { name: _, id } => Some(id as int),
        TreeEntry::File { .. } => None,
    }
}

/// Position `(p, j)` of the tree holds a subdirectory entry for `c`.
pub open spec fn dir_at(t: TreeModel, p: int, j: int, c: int) -> bool {
    &&& 0 <= p < tree_size(t)
    &&& 0 <= j < listing(t, p).len()
    &&& dir_id_of(listing(t, p)[j]) == Some(c)
}

/// Directory `c` appears as somebody's child.
pub open spec fn has_parent(t: TreeModel, c: int) -> bool {
    exists|p: int, j: int| dir_at(t, p, j, c)
}

/// A well-formed tree: at least the root; child ids point forward
/// (which makes the tree acyclic); every non-root directory is listed
/// as a child exactly once.
pub open spec fn tree_wf(t: TreeModel) -> bool {
    &&& tree_size(t) >= 1
    &&& forall|p: int, j: int, c: int| #[trigger] dir_at(t, p, j, c) ==> p < c < tree_size(t)
    &&& forall|p1: int, j1: int, p2: int, j2: int, c: int|
        #[trigger] dir_at(t, p1, j1, c) && #[trigger] dir_at(t, p2, j2, c) ==> p1 == p2 && j1
            == j2
    &&& forall|c: int| 1 <= c < tree_size(t) ==> #[trigger] has_parent(t, c)
}

/// Sum of a per-entry measure over a listing.
pub open spec fn entry_sum(l: Seq<TreeEntry>, g: spec_fn(TreeEntry) -> nat) -> nat
    decreases l.len(),
{
    if l.len() == 0 {
        0
    } else {
        entry_sum(l.drop_last(), g) + g(l.last())
    }
}

/// Measure counting file entries.
pub open spec fn g_files() -> spec_fn(TreeEntry) -> nat {
    |e: TreeEntry|
        match e {
            TreeEntry::File { .. } => 1nat,
            TreeEntry::Dir { .. } => 0nat,
        }
}

/// Measure summing file sizes.
pub open spec fn g_bytes() -> spec_fn(TreeEntry) -> nat {
    |e: TreeEntry|
        match e {
            TreeEntry::File { name: _, size } => size as nat,
            TreeEntry::Dir { .. } => 0nat,
        }
}

/// Measure counting subdirectory entries.
pub open spec fn g_dirs() -> spec_fn(TreeEntry) -> nat {
    |e: TreeEntry|
        match e {
            TreeEntry::File { .. } => 0nat,
            TreeEntry::Dir { .. } => 1nat,
        }
}

/// Sum of a measure over the listings of the first `k` directories.
pub open spec fn total_sum(t: TreeModel, k: int, g: spec_fn(TreeEntry) -> nat) -> nat
    decreases k,
{
    if k <= 0 {
        0
    } else {
        total_sum(t, k - 1, g) + entry_sum(listing(t, k - 1), g)
    }
}

/// Sum of a measure over the listings of the already-listed
/// directories among the first `k`, where `st` gives each directory's
/// protocol state: 0 undiscovered, 1 dispatched, 2 fully listed.
pub open spec fn listed_sum(t: TreeModel, st: Seq<int>, k: int, g: spec_fn(TreeEntry) -> nat) -> nat
    decreases k,
{
    if k <= 0 {
        0
    } else {
        listed_sum(t, st, k - 1, g) + if st[k - 1] == 2 {
            entry_sum(listing(t, k - 1), g)
        } else {
            0
        }
    }
}

/// How many of the first `k` states equal `v`.
pub open spec fn count_val(st: Seq<int>, v: int, k: int) -> nat
    decreases k,
{
    if k <= 0 {
        0
    } else {
        count_val(st, v, k - 1) + if st[k - 1] == v {
            1nat
        } else {
            0nat
        }
    }
}

/// The tree's file count.
pub open spec fn tree_files(t: TreeModel) -> nat {
    total_sum(t, tree_size(t), g_files())
}

/// The tree's file byte total.
pub open spec fn tree_bytes(t: TreeModel) -> nat {
    total_sum(t, tree_size(t), g_bytes())
}

/// The tree's subdirectory count: with a well-formed tree each
/// subdirectory stands in exactly one listing, so this counts the
/// subdirectories themselves.
pub open spec fn tree_dirs(t: TreeModel) -> nat {
    total_sum(t, tree_size(t), g_dirs())
}

proof fn lemma_entry_sum_take_step(l: Seq<TreeEntry>, g: spec_fn(TreeEntry) -> nat, j: int)
    requires
        0 <= j < l.len(),
    ensures
        entry_sum(l.take(j + 1), g) == entry_sum(l.take(j), g) + g(l[j]),
{
    assert(l.take(j + 1).drop_last() =~= l.take(j));
    assert(l.take(j + 1).last() == l[j]);
}

proof fn lemma_entry_sum_take_le(l: Seq<TreeEntry>, g: spec_fn(TreeEntry) -> nat, j: int)
    requires
        0 <= j <= l.len(),
    ensures
        entry_sum(l.take(j), g) <= entry_sum(l, g),
    decreases l.len() - j,
{
    if j == l.len() {
        assert(l.take(j) =~= l);
    } else {
        lemma_entry_sum_take_step(l, g, j);
        lemma_entry_sum_take_le(l, g, j + 1);
    }
}

proof fn lemma_listed_sum_update(
    t: TreeModel,
    st: Seq<int>,
    d: int,
    x: int,
    k: int,
    g: spec_fn(TreeEntry) -> nat,
)
    requires
        0 <= d < st.len(),
        st[d] != 2,
        k <= st.len(),
    ensures
        listed_sum(t, st.update(d, x), k, g) == listed_sum(t, st, k, g) + (if x == 2 && d < k {
            entry_sum(listing(t, d), g)
        } else {
            0nat
        }),
    decreases k,
{
    if k > 0 {
        lemma_listed_sum_update(t, st, d, x, k - 1, g);
    }
}

proof fn lemma_listed_le_total(t: TreeModel, st: Seq<int>, k: int, g: spec_fn(TreeEntry) -> nat)
    ensures
        listed_sum(t, st, k, g) <= total_sum(t, k, g),
    decreases k,
{
    if k > 0 {
        lemma_listed_le_total(t, st, k - 1, g);
    }
}

proof fn lemma_listed_all(t: TreeModel, st: Seq<int>, k: int, g: spec_fn(TreeEntry) -> nat)
    requires
        forall|d: int| 0 <= d < k ==> st[d] == 2,
    ensures
        listed_sum(t, st, k, g) == total_sum(t, k, g),
    decreases k,
{
    if k > 0 {
        lemma_listed_all(t, st, k - 1, g);
    }
}

proof fn lemma_listed_none(t: TreeModel, st: Seq<int>, k: int, g: spec_fn(TreeEntry) -> nat)
    requires
        forall|d: int| 0 <= d < k ==> st[d] != 2,
    ensures
        listed_sum(t, st, k, g) == 0,
    decreases k,
{
    if k > 0 {
        lemma_listed_none(t, st, k - 1, g);
    }
}

proof fn lemma_count_update(st: Seq<int>, d: int, x: int, v: int, k: int)
    requires
        0 <= d < st.len(),
        k <= st.len(),
    ensures
        count_val(st.update(d, x), v, k) as int == count_val(st, v, k) as int + (if d < k {
            (if x == v {
                1int
            } else {
                0int
            }) - (if st[d] == v {
                1int
            } else {
                0int
            })
        } else {
            0int
        }),
    decreases k,
{
    if k > 0 {
        lemma_count_update(st, d, x, v, k - 1);
    }
}

proof fn lemma_count_none(st: Seq<int>, v: int, k: int)
    requires
        forall|d: int| 0 <= d < k ==> st[d] != v,
    ensures
        count_val(st, v, k) == 0,
    decreases k,
{
    if k > 0 {
        lemma_count_none(st, v, k - 1);
    }
}

proof fn lemma_count_zero(st: Seq<int>, v: int, k: int)
    requires
        count_val(st, v, k) == 0,
    ensures
        forall|d: int| 0 <= d < k ==> st[d] != v,
    decreases k,
{
    if k > 0 {
        lemma_count_zero(st, v, k - 1);
    }
}

proof fn lemma_count_le(st: Seq<int>, v: int, k: int)
    requires
        k >= 0,
    ensures
        count_val(st, v, k) <= k,
    decreases k,
{
    if k > 0 {
        lemma_count_le(st, v, k - 1);
    }
}

/// The discovery invariant, relative to the directory `d` whose
/// listing is being drained with `j` entries already emitted: a
/// directory is discovered exactly when its unique parent occurrence
/// has been emitted. Passing `d == -1` gives the between-listings
/// form.
pub open spec fn disc_inv(t: TreeModel, st: Seq<int>, d: int, j: int) -> bool {
    forall|p: int, jx: int, c: int|
        #[trigger] dir_at(t, p, jx, c) ==> ((st[c] != 0) <==> (st[p] == 2 || (p == d && jx < j)))
}

proof fn lemma_listed_below(t: TreeModel, st: Seq<int>, c: int)
    requires
        tree_wf(t),
        st.len() == tree_size(t),
        forall|i: int| 0 <= i < st.len() ==> 0 <= #[trigger] st[i] <= 2,
        forall|i: int| 0 <= i < st.len() ==> st[i] != 1,
        st[0] == 2,
        disc_inv(t, st, -1, 0),
        0 <= c < tree_size(t),
    ensures
        st[c] == 2,
    decreases c,
{
    if c > 0 {
        assert(has_parent(t, c));
        let (p, j) = choose|p: int, j: int| dir_at(t, p, j, c);
        assert(dir_at(t, p, j, c));
        assert(0 <= p < c);
        lemma_listed_below(t, st, p);
        assert(st[c] != 0);
    }
}

/// Once the pending counter is back to zero, every directory of a
/// well-formed tree has been fully listed: no subtree is missed.
proof fn lemma_all_listed(t: TreeModel, st: Seq<int>)
    requires
        tree_wf(t),
        st.len() == tree_size(t),
        forall|i: int| 0 <= i < st.len() ==> 0 <= #[trigger] st[i] <= 2,
        forall|i: int| 0 <= i < st.len() ==> st[i] != 1,
        st[0] == 2,
        disc_inv(t, st, -1, 0),
    ensures
        forall|d: int| 0 <= d < tree_size(t) ==> st[d] == 2,
{
    assert forall|d: int| 0 <= d < tree_size(t) implies st[d] == 2 by {
        lemma_listed_below(t, st, d);
    }
}

/// One dispatched-but-unlisted directory: its id, its full path, and
/// the worker whose inbound queue holds it.
pub struct DirTask {
    /// The directory's id in the tree model.
    pub id: usize,
    /// The directory's full path.
    pub path: String,
    /// The worker the round-robin policy assigned it to.
    pub worker: usize,
}

/// Every dispatched directory's path lies under the scan root.
pub open spec fn frontier_paths_ok(fr: Seq<DirTask>, root: Seq<char>) -> bool {
    forall|i: int| 0 <= i < fr.len() ==> has_prefix((#[trigger] fr[i]).path@, root)
}

/// The frontier stands for the union of the workers' inbound queues:
/// every task is a distinct dispatched directory.
pub open spec fn frontier_ok(t: TreeModel, st: Seq<int>, fr: Seq<DirTask>) -> bool {
    &&& forall|i: int|
        0 <= i < fr.len() ==> 0 <= (#[trigger] fr[i]).id < tree_size(t) && st[fr[i].id as int] == 1
    &&& forall|i: int, j2: int|
        0 <= i < j2 < fr.len() ==> (#[trigger] fr[i]).id != (#[trigger] fr[j2]).id
}

/// The coordinator's queue and statistics match the listings drained
/// so far, plus the `extra` contributions of a partially drained one.
pub open spec fn counts_ok(
    t: TreeModel,
    st: Seq<int>,
    coord: ScanCoordinator,
    xf: nat,
    xb: nat,
    xd: nat,
) -> bool {
    let n = tree_size(t);
    &&& queue_files(coord.queue@) == listed_sum(t, st, n, g_files()) + xf
    &&& queue_bytes(coord.queue@) == listed_sum(t, st, n, g_bytes()) + xb
    &&& queue_dirs(coord.queue@) == listed_sum(t, st, n, g_dirs()) + xd
    &&& coord.queue@.len() == queue_files(coord.queue@) + queue_dirs(coord.queue@)
    &&& coord.acc@ == found_totals(
        (listed_sum(t, st, n, g_files()) + xf) as int,
        (listed_sum(t, st, n, g_bytes()) + xb) as int,
    )
}

/// Each directory's protocol state is one of undiscovered, dispatched,
/// listed; the root is never undiscovered.
pub open spec fn state_ok(t: TreeModel, st: Seq<int>) -> bool {
    &&& st.len() == tree_size(t)
    &&& forall|i: int| 0 <= i < st.len() ==> 0 <= #[trigger] st[i] <= 2
    &&& st[0] != 0
}

/// Run the whole scan phase over a tree model through the real
/// coordinator, draining one dispatched directory at a time — one
/// legal arrival order of the concurrent pool. Returns the work queue
/// and the found statistics.
///
/// The loops carry termination measures, so the scan terminates for
/// any finite well-formed tree and any pool of one or more workers,
/// and on exit the queue holds exactly the tree's files and
/// subdirectories, with found statistics equal to the file count and
/// byte total.
pub fn scan_model(t: &TreeModel, root_path: &str, threads: usize) -> (r: (
    Vec<WorkItem>,
    Accumulator,
))
    requires
        tree_wf(*t),
        threads >= 1,
        tree_files(*t) <= u64::MAX,
        tree_bytes(*t) <= u64::MAX,
        t.listings@.len() < usize::MAX,
    ensures
        queue_files(r.0@) == tree_files(*t),
        queue_dirs(r.0@) == tree_dirs(*t),
        r.0@.len() == tree_files(*t) + tree_dirs(*t),
        r.1@ == found_totals(tree_files(*t) as int, tree_bytes(*t) as int),
        queue_paths_ok(r.0@, root_path@),
{
    let n = t.listings.len();
    let mut coord = ScanCoordinator::new(threads);
    let mut frontier: Vec<DirTask> = Vec::new();
    frontier.push(DirTask { id: 0, path: String::from_str(root_path), worker: 0 });
    proof {
        lemma_prefix_reflexive(root_path@);
    }
    let ghost st0 = Seq::new(n as nat, |i: int| 0int);
    let ghost mut st: Seq<int> = st0.update(0, 1);
    proof {
        lemma_count_none(st0, 1, n as int);
        lemma_count_update(st0, 0, 1, 1, n as int);
        assert(forall|dd: int| 0 <= dd < n ==> st[dd] != 2);
        lemma_listed_none(*t, st, n as int, g_files());
        lemma_listed_none(*t, st, n as int, g_bytes());
        lemma_listed_none(*t, st, n as int, g_dirs());
        assert forall|p: int, jx: int, c: int| #[trigger] dir_at(*t, p, jx, c) implies ((st[c] != 0)
            <==> (st[p] == 2 || (p == -1 && jx < 0))) by {
            assert(0 <= p < c < n);
            assert(st[c] == 0);
            assert(st[p] != 2);
        }
    }
    while coord.pending > 0
        invariant
            tree_wf(*t),
            threads >= 1,
            n == t.listings@.len(),
            n < usize::MAX,
            tree_files(*t) <= u64::MAX,
            tree_bytes(*t) <= u64::MAX,
            coord.inv(),
            coord.threads == threads,
            state_ok(*t, st),
            frontier_ok(*t, st, frontier@),
            coord.pending == count_val(st, 1, n as int),
            coord.pending == frontier@.len(),
            disc_inv(*t, st, -1, 0),
            counts_ok(*t, st, coord, 0, 0, 0),
            queue_paths_ok(coord.queue@, root_path@),
            frontier_paths_ok(frontier@, root_path@),
        decreases count_val(st, 0, n as int) + count_val(st, 1, n as int),
    {
        let ghost m0 = count_val(st, 0, n as int) + count_val(st, 1, n as int);
        let task = frontier.pop().unwrap();
        let d = task.id;
        let lst = &t.listings[d];
        let listing_len = lst.len();
        let mut j: usize = 0;
        while j < listing_len
            invariant
                tree_wf(*t),
                threads >= 1,
                n == t.listings@.len(),
                n < usize::MAX,
                tree_files(*t) <= u64::MAX,
                tree_bytes(*t) <= u64::MAX,
                coord.inv(),
                coord.threads == threads,
                state_ok(*t, st),
                d < n,
                st[d as int] == 1,
                lst@ == listing(*t, d as int),
                listing_len == lst@.len(),
                j <= listing_len,
                frontier_ok(*t, st, frontier@),
                forall|i: int| 0 <= i < frontier@.len() ==> (#[trigger] frontier@[i]).id != d,
                coord.pending == frontier@.len() + 1,
                count_val(st, 1, n as int) == frontier@.len() + 1,
                disc_inv(*t, st, d as int, j as int),
                counts_ok(
                    *t,
                    st,
                    coord,
                    entry_sum(lst@.take(j as int), g_files()),
                    entry_sum(lst@.take(j as int), g_bytes()),
                    entry_sum(lst@.take(j as int), g_dirs()),
                ),
                m0 == count_val(st, 0, n as int) + count_val(st, 1, n as int),
                has_prefix(task.path@, root_path@),
                queue_paths_ok(coord.queue@, root_path@),
                frontier_paths_ok(frontier@, root_path@),
            decreases listing_len - j,
        {
            proof {
                lemma_entry_sum_take_step(lst@, g_files(), j as int);
                lemma_entry_sum_take_step(lst@, g_bytes(), j as int);
                lemma_entry_sum_take_step(lst@, g_dirs(), j as int);
                lemma_entry_sum_take_le(lst@, g_files(), j + 1);
                lemma_entry_sum_take_le(lst@, g_bytes(), j + 1);
                lemma_listed_sum_update(*t, st, d as int, 2, n as int, g_files());
                lemma_listed_sum_update(*t, st, d as int, 2, n as int, g_bytes());
                lemma_listed_le_total(*t, st.update(d as int, 2), n as int, g_files());
                lemma_listed_le_total(*t, st.update(d as int, 2), n as int, g_bytes());
            }
            match &lst[j] {
                TreeEntry::File { name, size } => {
                    proof {
                        lemma_join_keeps_prefix(task.path@, name@, root_path@);
                    }
                    let child_path = path_join(task.path.as_str(), name.as_str());
                    let ghost q_pre = coord.queue@;
                    let _ = coord.step(WorkItem::File(PathEntry { path: child_path, size: *size }));
                    proof {
                        lemma_queue_counts_push(q_pre, coord.queue@.last(), q_pre.len() as int);
                        assert forall|p: int, jx: int, c: int| #[trigger] dir_at(*t, p, jx, c)
                            implies ((st[c] != 0) <==> (st[p] == 2 || (p == d as int && jx < j + 1)))
                        by {
                            if p == d as int && jx == j as int {
                                assert(dir_id_of(listing(*t, d as int)[j as int]) is None);
                            }
                        }
                    }
                },
                TreeEntry::Dir { name, id } => {
                    proof {
                        assert(dir_at(*t, d as int, j as int, *id as int));
                        assert(st[*id as int] == 0);
                        lemma_count_le(st, 1, n as int);
                    }
                    proof {
                        lemma_join_keeps_prefix(task.path@, name@, root_path@);
                    }
                    let child_path = path_join(task.path.as_str(), name.as_str());
                    let frontier_path = path_join(task.path.as_str(), name.as_str());
                    let ghost q_pre = coord.queue@;
                    let act = coord.step(
                        WorkItem::Directory(PathEntry { path: child_path, size: 0 }),
                    );
                    let w = match act {
                        ScanAction::Dispatch(wk) => wk,
                        ScanAction::Continue => 0,
                    };
                    frontier.push(DirTask { id: *id, path: frontier_path, worker: w });
                    proof {
                        lemma_queue_counts_push(q_pre, coord.queue@.last(), q_pre.len() as int);
                        let ghost st_pre = st;
                        st = st.update(*id as int, 1);
                        lemma_count_update(st_pre, *id as int, 1, 1, n as int);
                        lemma_count_update(st_pre, *id as int, 1, 0, n as int);
                        lemma_listed_sum_update(*t, st_pre, *id as int, 1, n as int, g_files());
                        lemma_listed_sum_update(*t, st_pre, *id as int, 1, n as int, g_bytes());
                        lemma_listed_sum_update(*t, st_pre, *id as int, 1, n as int, g_dirs());
                        assert forall|p: int, jx: int, c: int| #[trigger] dir_at(*t, p, jx, c)
                            implies ((st[c] != 0) <==> (st[p] == 2 || (p == d as int && jx < j + 1)))
                        by {
                            if c == *id as int {
                                assert(dir_at(*t, d as int, j as int, c));
                                assert(p == d as int && jx == j as int);
                            } else {
                                assert(st[c] == st_pre[c]);
                                if p == d as int && jx == j as int {
                                    assert(dir_id_of(listing(*t, d as int)[j as int]) == Some(
                                        *id as int,
                                    ));
                                }
                            }
                        }
                    }
                },
            }
            j = j + 1;
        }
        proof {
            assert(lst@.take(listing_len as int) =~= lst@);
        }
        let _ = coord.step(WorkItem::Done);
        proof {
            let ghost st_pre = st;
            st = st.update(d as int, 2);
            lemma_count_update(st_pre, d as int, 2, 1, n as int);
            lemma_count_update(st_pre, d as int, 2, 0, n as int);
            lemma_listed_sum_update(*t, st_pre, d as int, 2, n as int, g_files());
            lemma_listed_sum_update(*t, st_pre, d as int, 2, n as int, g_bytes());
            lemma_listed_sum_update(*t, st_pre, d as int, 2, n as int, g_dirs());
            assert forall|p: int, jx: int, c: int| #[trigger] dir_at(*t, p, jx, c) implies ((st[c]
                != 0) <==> (st[p] == 2 || (p == -1 && jx < 0))) by {
                assert(0 <= p < c < n);
                if c == d as int {
                    assert(st_pre[c] != 0);
                    assert(st_pre[p] == 2 || (p == d as int && jx < listing_len));
                    assert(p != c);
                } else if p == d as int {
                    assert(st_pre[c] != 0 <==> (st_pre[p] == 2 || jx < listing_len));
                    assert(0 <= jx < listing(*t, d as int).len());
                } else {
                    assert(st[c] == st_pre[c] && st[p] == st_pre[p]);
                }
            }
            assert(count_val(st, 0, n as int) + count_val(st, 1, n as int) == m0 - 1);
        }
    }
    proof {
        lemma_count_zero(st, 1, n as int);
        assert(st[0] == 2);
        lemma_all_listed(*t, st);
        lemma_listed_all(*t, st, n as int, g_files());
        lemma_listed_all(*t, st, n as int, g_bytes());
        lemma_listed_all(*t, st, n as int, g_dirs());
    }
    let ScanCoordinator { queue, acc, .. } = coord;
    (queue, acc)
}

} // verus!
