//! The work accumulator: six never-decremented counters with a
//! commutative, associative merge, used both as a per-item delta and
//! as the coordinator's running total.

use vstd::prelude::*;

verus! {

/// Mathematical totals an `Accumulator` stands for, with unbounded
/// integers so that merging never truncates at the specification level.
pub ghost struct Totals {
    pub files_found: int,
    pub bytes_found: int,
    pub files_copied: int,
    pub bytes_copied: int,
    pub files_skipped: int,
    pub bytes_skipped: int,
}

/// Componentwise sum of two totals.
pub open spec fn merge_totals(a: Totals, b: Totals) -> Totals {
    Totals {
        files_found: a.files_found + b.files_found,
        bytes_found: a.bytes_found + b.bytes_found,
        files_copied: a.files_copied + b.files_copied,
        bytes_copied: a.bytes_copied + b.bytes_copied,
        files_skipped: a.files_skipped + b.files_skipped,
        bytes_skipped: a.bytes_skipped + b.bytes_skipped,
    }
}

/// The all-zero totals, the identity of `merge_totals`.
pub open spec fn zero_totals() -> Totals {
    Totals {
        files_found: 0,
        bytes_found: 0,
        files_copied: 0,
        bytes_copied: 0,
        files_skipped: 0,
        bytes_skipped: 0,
    }
}

/// Totals with only the found counters set.
pub open spec fn found_totals(files: int, bytes: int) -> Totals {
    Totals { files_found: files, bytes_found: bytes, ..zero_totals() }
}

/// Totals with only the copied counters set.
pub open spec fn copied_totals(files: int, bytes: int) -> Totals {
    Totals { files_copied: files, bytes_copied: bytes, ..zero_totals() }
}

/// Totals with only the skipped counters set.
pub open spec fn skipped_totals(files: int, bytes: int) -> Totals {
    Totals { files_skipped: files, bytes_skipped: bytes, ..zero_totals() }
}

/// Running statistics for one run: counts and byte sizes of the files
/// found by the scan, copied, and skipped. A value is either a delta
/// reported by one worker for one unit of work or the coordinator's
/// running total; deltas from any workers combine by addition.
#[derive(Clone, Copy, Debug, PartialEq, Eq, Structural)]
pub struct Accumulator {
    pub file_count_found: u64,
    pub byte_count_found: u64,
    pub file_count_copied: u64,
    pub byte_count_copied: u64,
    pub file_count_skipped: u64,
    pub byte_count_skipped: u64,
}

impl View for Accumulator {
    type V = Totals;

    open spec fn view(&self) -> Totals {
        Totals {
            files_found: self.file_count_found as int,
            bytes_found: self.byte_count_found as int,
            files_copied: self.file_count_copied as int,
            bytes_copied: self.byte_count_copied as int,
            files_skipped: self.file_count_skipped as int,
            bytes_skipped: self.byte_count_skipped as int,
        }
    }
}

/// True when the componentwise sum of the two operands still fits in
/// the `u64` counters, so that an executable merge cannot overflow.
pub open spec fn merge_fits(a: Totals, b: Totals) -> bool {
    &&& a.files_found + b.files_found <= u64::MAX
    &&& a.bytes_found + b.bytes_found <= u64::MAX
    &&& a.files_copied + b.files_copied <= u64::MAX
    &&& a.bytes_copied + b.bytes_copied <= u64::MAX
    &&& a.files_skipped + b.files_skipped <= u64::MAX
    &&& a.bytes_skipped + b.bytes_skipped <= u64::MAX
}

impl Accumulator {
    /// The all-zero accumulator.
    pub fn new() -> (r: Self)
        ensures
            r@ == zero_totals(),
    {
        Accumulator {
            file_count_found: 0,
            byte_count_found: 0,
            file_count_copied: 0,
            byte_count_copied: 0,
            file_count_skipped: 0,
            byte_count_skipped: 0,
        }
    }

    /// A delta recording `files` files totalling `bytes` bytes found by
    /// the scan phase; all other counters are zero.
    pub fn found(files: u64, bytes: u64) -> (r: Self)
        ensures
            r@ == found_totals(files as int, bytes as int),
            r.file_count_found == files,
            r.byte_count_found == bytes,
            r.file_count_copied == 0,
            r.byte_count_copied == 0,
            r.file_count_skipped == 0,
            r.byte_count_skipped == 0,
    {
        Accumulator {
            file_count_found: files,
            byte_count_found: bytes,
            ..Self::new()
        }
    }

    /// A delta recording `files` files totalling `bytes` bytes copied;
    /// all other counters are zero.
    pub fn copies(files: u64, bytes: u64) -> (r: Self)
        ensures
            r@ == copied_totals(files as int, bytes as int),
            r.file_count_copied == files,
            r.byte_count_copied == bytes,
            r.file_count_found == 0,
            r.byte_count_found == 0,
            r.file_count_skipped == 0,
            r.byte_count_skipped == 0,
    {
        Accumulator {
            file_count_copied: files,
            byte_count_copied: bytes,
            ..Self::new()
        }
    }

    /// A delta recording `files` files totalling `bytes` bytes skipped;
    /// all other counters are zero.
    pub fn skips(files: u64, bytes: u64) -> (r: Self)
        ensures
            r@ == skipped_totals(files as int, bytes as int),
            r.file_count_skipped == files,
            r.byte_count_skipped == bytes,
            r.file_count_found == 0,
            r.byte_count_found == 0,
            r.file_count_copied == 0,
            r.byte_count_copied == 0,
    {
        Accumulator {
            file_count_skipped: files,
            byte_count_skipped: bytes,
            ..Self::new()
        }
    }

    /// Componentwise addition of two accumulators.
    pub fn merge(self, rhs: Self) -> (r: Self)
        requires
            merge_fits(self@, rhs@),
        ensures
            r@ == merge_totals(self@, rhs@),
    {
        Accumulator {
            file_count_found: self.file_count_found + rhs.file_count_found,
            byte_count_found: self.byte_count_found + rhs.byte_count_found,
            file_count_copied: self.file_count_copied + rhs.file_count_copied,
            byte_count_copied: self.byte_count_copied + rhs.byte_count_copied,
            file_count_skipped: self.file_count_skipped + rhs.file_count_skipped,
            byte_count_skipped: self.byte_count_skipped + rhs.byte_count_skipped,
        }
    }

    /// In-place componentwise addition, the running-total form of
    /// `merge`.
    pub fn merge_from(&mut self, rhs: Self)
        requires
            merge_fits(old(self)@, rhs@),
        ensures
            final(self)@ == merge_totals(old(self)@, rhs@),
    {
        self.file_count_found = self.file_count_found + rhs.file_count_found;
        self.byte_count_found = self.byte_count_found + rhs.byte_count_found;
        self.file_count_copied = self.file_count_copied + rhs.file_count_copied;
        self.byte_count_copied = self.byte_count_copied + rhs.byte_count_copied;
        self.file_count_skipped = self.file_count_skipped + rhs.file_count_skipped;
        self.byte_count_skipped = self.byte_count_skipped + rhs.byte_count_skipped;
    }
}

impl Default for Accumulator {
    /// The all-zero accumulator.
    fn default() -> (r: Self)
        ensures
            r@ == zero_totals(),
    {
        Self::new()
    }
}

/// Merging totals is commutative: a single delta pair may be combined
/// in either order without changing the result.
pub proof fn lemma_merge_commutative(a: Totals, b: Totals)
    ensures
        merge_totals(a, b) == merge_totals(b, a),
{
}

/// Merging totals is associative: deltas may be grouped arbitrarily
/// without changing the result.
pub proof fn lemma_merge_associative(a: Totals, b: Totals, c: Totals)
    ensures
        merge_totals(merge_totals(a, b), c) == merge_totals(a, merge_totals(b, c)),
{
}

/// The all-zero totals are the identity of the merge, so a worker's
/// startup signal with an empty delta leaves the running total alone.
pub proof fn lemma_merge_identity(a: Totals)
    ensures
        merge_totals(a, zero_totals()) == a,
        merge_totals(zero_totals(), a) == a,
{
}

/// Total of a sequence of deltas, merged left to right.
pub open spec fn fold_totals(deltas: Seq<Totals>) -> Totals
    decreases deltas.len(),
{
    if deltas.len() == 0 {
        zero_totals()
    } else {
        merge_totals(fold_totals(deltas.drop_last()), deltas.last())
    }
}

/// Merging a set of deltas in any order yields the same final totals:
/// any two permutations of the same delta sequence fold to the same
/// result.
pub proof fn lemma_fold_totals_permutation(a: Seq<Totals>, b: Seq<Totals>)
    requires
        a.to_multiset() == b.to_multiset(),
    ensures
        fold_totals(a) == fold_totals(b),
    decreases a.len(),
{
    broadcast use vstd::seq_lib::group_to_multiset_ensures;

    if a.len() == 0 {
        assert(b.to_multiset().len() == 0);
        assert(b.len() == 0);
    } else {
        let x = a.last();
        assert(a.to_multiset().contains(x));
        assert(b.to_multiset().contains(x));
        let j = choose|j: int| 0 <= j < b.len() && b[j] == x;
        let b1 = b.remove(j);
        assert(a.drop_last() =~= a.remove(a.len() - 1));
        assert(a.remove(a.len() - 1).to_multiset() =~= a.to_multiset().remove(x));
        assert(b1.to_multiset() =~= b.to_multiset().remove(x));
        lemma_fold_totals_permutation(a.drop_last(), b1);
        lemma_fold_totals_remove(b, j);
    }
}

/// Folding a sequence equals folding it with one element taken out,
/// merged with that element.
proof fn lemma_fold_totals_remove(b: Seq<Totals>, j: int)
    requires
        0 <= j < b.len(),
    ensures
        fold_totals(b) == merge_totals(fold_totals(b.remove(j)), b[j]),
    decreases b.len(),
{
    if j == b.len() - 1 {
        assert(b.remove(j) =~= b.drop_last());
    } else {
        lemma_fold_totals_remove(b.drop_last(), j);
        assert(b.remove(j).drop_last() =~= b.drop_last().remove(j));
        assert(b.remove(j).last() == b.last());
    }
}

} // verus!
