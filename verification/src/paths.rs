//! Path arithmetic on plain strings: prefix tests, joining a child
//! name onto a directory, and re-rooting a scanned path under the
//! destination root with the relative suffix it had under the source.

use vstd::prelude::*;

verus! {

/// `base` is a prefix of `p`, character for character.
pub open spec fn has_prefix(p: Seq<char>, base: Seq<char>) -> bool {
    base.len() <= p.len() && p.subrange(0, base.len() as int) == base
}

/// The path `dir/name`.
pub open spec fn join_view(dir: Seq<char>, name: Seq<char>) -> Seq<char> {
    dir + "/"@ + name
}

/// `p` with its `src_base` prefix replaced by `dst_base`: the mirrored
/// destination path of a scanned source path.
pub open spec fn reroot_view(p: Seq<char>, src_base: Seq<char>, dst_base: Seq<char>) -> Seq<char> {
    dst_base + p.subrange(src_base.len() as int, p.len() as int)
}

/// Joining a child name onto a path under `base` stays under `base`.
pub proof fn lemma_join_keeps_prefix(dir: Seq<char>, name: Seq<char>, base: Seq<char>)
    requires
        has_prefix(dir, base),
    ensures
        has_prefix(join_view(dir, name), base),
{
    let joined = join_view(dir, name);
    assert(joined.subrange(0, base.len() as int) =~= base) by {
        assert forall|i: int| 0 <= i < base.len() implies joined[i] == base[i] by {
            assert(dir.subrange(0, base.len() as int)[i] == dir[i]);
        }
    }
}

/// A path is a prefix of itself, so the root may be re-rooted too.
pub proof fn lemma_prefix_reflexive(p: Seq<char>)
    ensures
        has_prefix(p, p),
{
    assert(p.subrange(0, p.len() as int) =~= p);
}

/// Whether `base` is a prefix of `p`, so that `p` can be re-rooted.
pub fn starts_with_path(p: &str, base: &str) -> (r: bool)
    ensures
        r == has_prefix(p@, base@),
{
    let pl = p.unicode_len();
    let bl = base.unicode_len();
    if bl > pl {
        proof {
            assert(!has_prefix(p@, base@));
        }
        return false;
    }
    let mut i: usize = 0;
    while i < bl
        invariant
            i <= bl,
            bl <= pl,
            pl == p@.len(),
            bl == base@.len(),
            forall|k: int| 0 <= k < i ==> p@[k] == base@[k],
        decreases bl - i,
    {
        if p.get_char(i) != base.get_char(i) {
            proof {
                assert(p@.subrange(0, bl as int) != base@) by {
                    assert(p@.subrange(0, bl as int)[i as int] != base@[i as int]);
                }
            }
            return false;
        }
        i = i + 1;
    }
    proof {
        assert(p@.subrange(0, bl as int) =~= base@);
    }
    true
}

/// Whether two paths are the same, character for character.
pub fn str_eq(a: &str, b: &str) -> (r: bool)
    ensures
        r == (a@ == b@),
{
    let al = a.unicode_len();
    let bl = b.unicode_len();
    if al != bl {
        proof {
            assert(a@ != b@);
        }
        return false;
    }
    let r = starts_with_path(a, b);
    proof {
        if r {
            assert(a@.subrange(0, bl as int) =~= a@);
        } else {
            assert(a@.subrange(0, bl as int) =~= a@);
        }
    }
    r
}

/// The path `dir/name`, the full path of a child discovered while
/// listing `dir`.
pub fn path_join(dir: &str, name: &str) -> (r: String)
    ensures
        r@ == join_view(dir@, name@),
{
    String::from_str(dir).concat("/").concat(name)
}

/// The mirrored destination path: `p` with its `src_base` prefix
/// replaced by `dst_base`, keeping the relative suffix.
pub fn re_root(p: &str, src_base: &str, dst_base: &str) -> (r: String)
    requires
        has_prefix(p@, src_base@),
    ensures
        r@ == reroot_view(p@, src_base@, dst_base@),
{
    let from = src_base.unicode_len();
    let to = p.unicode_len();
    let suffix = p.substring_char(from, to);
    String::from_str(dst_base).concat(suffix)
}

} // verus!
