//! Small verified helpers on vectors of numbers: membership tests, ordered
//! insertion, and a pigeonhole argument showing that a short exclusion list
//! cannot cover a longer contiguous range.

use vstd::prelude::*;

verus! {

/// The elements of `s` are in strictly increasing order; in particular they
/// are pairwise distinct.
pub open spec fn strictly_sorted(s: Seq<u32>) -> bool {
    forall|i: int, j: int| 0 <= i < j < s.len() ==> s[i] < s[j]
}

/// Linear membership test.
pub fn vec_contains(v: &Vec<u32>, x: u32) -> (b: bool)
    ensures
        b == v@.contains(x),
{
    let mut j: usize = 0;
    while j < v.len()
        invariant
            0 <= j <= v@.len(),
            forall|i: int| 0 <= i < j ==> v@[i] != x,
        decreases v@.len() - j,
    {
        if v[j] == x {
            return true;
        }
        j += 1;
    }
    false
}

/// Inserts `x` into the strictly sorted vector `v`, keeping it strictly
/// sorted.
pub fn insert_sorted(v: &mut Vec<u32>, x: u32)
    requires
        strictly_sorted(old(v)@),
        !old(v)@.contains(x),
        old(v)@.len() < usize::MAX,
    ensures
        strictly_sorted(final(v)@),
        final(v)@.len() == old(v)@.len() + 1,
        final(v)@.to_multiset() == old(v)@.to_multiset().insert(x),
        forall|n: u32| final(v)@.contains(n) <==> (old(v)@.contains(n) || n == x),
{
    let mut p: usize = 0;
    while p < v.len() && v[p] < x
        invariant
            0 <= p <= v@.len(),
            forall|i: int| 0 <= i < p ==> v@[i] < x,
        decreases v@.len() - p,
    {
        p += 1;
    }
    let ghost oldv = v@;
    // every element at or past p is greater than x
    assert forall|i: int| p <= i < v@.len() implies v@[i] > x by {
        if i > p {
            assert(v@[p as int] < v@[i]);
        }
        assert(v@[i] != x) by {
            assert(v@.contains(v@[i]));
        }
    }
    v.insert(p, x);
    assert forall|i: int, j: int| 0 <= i < j < v@.len() implies v@[i] < v@[j] by {
        if j < p {
            assert(oldv[i] < oldv[j]);
        } else if i > p {
            assert(oldv[i - 1] < oldv[j - 1]);
        }
    }
    proof {
        assert(v@ =~= oldv.insert(p as int, x));
        vstd::seq_lib::to_multiset_insert(oldv, p as int, x);
        assert forall|n: u32| v@.contains(n) implies (oldv.contains(n) || n == x) by {
            let i = choose|i: int| 0 <= i < v@.len() && v@[i] == n;
            if i < p {
                assert(oldv[i] == n);
            } else if i > p {
                assert(oldv[i - 1] == n);
            }
        }
        assert forall|n: u32| oldv.contains(n) implies v@.contains(n) by {
            let i = choose|i: int| 0 <= i < oldv.len() && oldv[i] == n;
            if i < p {
                assert(v@[i] == n);
            } else {
                assert(v@[i + 1] == n);
            }
        }
        assert(v@.contains(x)) by {
            assert(v@[p as int] == x);
        }
    }
}

/// Pigeonhole: an exclusion list shorter than the contiguous range
/// `[lo, hi]` cannot contain every number of the range.
pub proof fn lemma_short_exclusion_leaves_candidate(ex: Seq<u32>, lo: int, hi: int)
    requires
        1 <= lo <= hi,
        hi <= u32::MAX,
        ex.len() < hi - lo + 1,
    ensures
        exists|n: u32| lo <= n <= hi && !ex.contains(n),
    decreases ex.len(),
{
    if !ex.contains(hi as u32) {
        assert(lo <= hi as u32 <= hi && !ex.contains(hi as u32));
    } else {
        let i = choose|i: int| 0 <= i < ex.len() && ex[i] == hi as u32;
        let ex2 = ex.remove(i);
        vstd::seq_lib::to_multiset_remove(ex, i);
        ex.to_multiset_ensures();
        ex2.to_multiset_ensures();
        // ex is non-empty, so the smaller range is still non-empty
        lemma_short_exclusion_leaves_candidate(ex2, lo, hi - 1);
        let n = choose|n: u32| lo <= n <= hi - 1 && !ex2.contains(n);
        // n differs from ex[i], so removing that entry did not affect it
        assert(ex.to_multiset().count(n) == ex2.to_multiset().count(n));
        assert(lo <= n <= hi && !ex.contains(n));
    }
}

} // verus!
