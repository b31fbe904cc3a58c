//! Weight-proportional sampling with exclusion.
//!
//! A draw value `r` below the total candidate weight is turned into a
//! number by walking the domain in ascending order and subtracting each
//! unexcluded number's weight from `r` until it drops below the weight at
//! hand. Because weights are integers the walk is exact: every draw value
//! selects a candidate, and no rounding fallback is needed.

use vstd::prelude::*;
use crate::rng::random_below;
use crate::vecs::vec_contains;
use crate::weights::WeightTable;
use crate::weights::lemma_total_weight_pos_iff_candidate;
use crate::weights::lemma_weight_from_excluded_le;
use crate::weights::lemma_weight_from_mono;

verus! {

/// Every domain number was excluded, so there was nothing to draw from.
#[derive(Clone, Copy, Debug, PartialEq, Eq, Structural)]
pub struct EmptyDomainError;

/// The number that the weighted walk starting at index `k` with remainder
/// `r` selects.
pub open spec fn pick_from(t: WeightTable, ex: Seq<u32>, k: int, r: int) -> u32
    decreases t.weights@.len() - k,
{
    if k < 0 || k >= t.weights@.len() {
        0
    } else if ex.contains(t.number_at(k)) {
        pick_from(t, ex, k + 1, r)
    } else if r < t.weights@[k] {
        t.number_at(k)
    } else {
        pick_from(t, ex, k + 1, r - t.weights@[k])
    }
}

/// The number that the draw value `r` selects from the whole domain.
pub open spec fn selected(t: WeightTable, ex: Seq<u32>, r: int) -> u32 {
    pick_from(t, ex, 0, r)
}

/// Sum of the weights of the unexcluded domain indices in `[k, j)`.
pub open spec fn weight_seg(t: WeightTable, ex: Seq<u32>, k: int, j: int) -> int
    decreases j - k,
{
    if k >= j {
        0
    } else {
        t.weight_at(ex, k) + weight_seg(t, ex, k + 1, j)
    }
}

/// Combined weight of the unexcluded candidates that the walk visits
/// before index `j`.
pub open spec fn weight_before(t: WeightTable, ex: Seq<u32>, j: int) -> int {
    weight_seg(t, ex, 0, j)
}

/// Total weight of the candidate set, computed exactly.
pub fn compute_total(t: &WeightTable, excluded: &Vec<u32>) -> (tot: u64)
    requires
        t.wf(),
    ensures
        tot as int == t.total_weight(excluded@),
{
    let size: usize = t.weights.len();
    let mut tot: u64 = 0;
    let mut back: usize = size;
    while back > 0
        invariant
            t.wf(),
            size == t.weights@.len(),
            0 <= back <= size,
            tot as int == t.weight_from(excluded@, back as int),
        decreases back,
    {
        back -= 1;
        if !vec_contains(excluded, t.lo + (back as u32)) {
            let w = t.weights[back];
            proof {
                lemma_weight_from_excluded_le(*t, excluded@, back as int);
                lemma_weight_from_mono(*t, Seq::<u32>::empty(), 0, back as int);
            }
            tot = tot + w;
        }
    }
    tot
}

/// Turns the draw value `r` into the selected candidate by the weighted
/// walk. Exact integer arithmetic: the walk always stops at a candidate.
pub fn select(t: &WeightTable, excluded: &Vec<u32>, r: u64) -> (n: u32)
    requires
        t.wf(),
        (r as int) < t.total_weight(excluded@),
    ensures
        n == selected(*t, excluded@, r as int),
        t.in_domain(n),
        !excluded@.contains(n),
{
    let size: usize = t.weights.len();
    let mut k: usize = 0;
    let mut rem: u64 = r;
    while k < size
        invariant
            t.wf(),
            size == t.weights@.len(),
            0 <= k <= size,
            (rem as int) < t.weight_from(excluded@, k as int),
            selected(*t, excluded@, r as int) == pick_from(*t, excluded@, k as int, rem as int),
        decreases size - k,
    {
        let num = t.lo + (k as u32);
        if !vec_contains(excluded, num) {
            let w = t.weights[k];
            if rem < w {
                return num;
            }
            rem = rem - w;
        }
        k += 1;
    }
    proof {
        assert(false);
    }
    vstd::pervasive::unreached()
}

/// Draws a number from the table with probability proportional to its
/// weight, never returning an excluded number. Fails exactly when every
/// domain number is excluded.
pub fn draw(t: &WeightTable, excluded: &Vec<u32>) -> (r: Result<u32, EmptyDomainError>)
    requires
        t.wf(),
    ensures
        r is Ok <==> t.total_weight(excluded@) > 0,
        r is Ok <==> exists|n: u32| t.in_domain(n) && !excluded@.contains(n),
        (r matches Ok(n) ==> t.in_domain(n) && !excluded@.contains(n)),
{
    let tot = compute_total(t, excluded);
    proof {
        lemma_total_weight_pos_iff_candidate(*t, excluded@);
    }
    if tot == 0 {
        Err(EmptyDomainError)
    } else {
        let rv = random_below(tot);
        Ok(select(t, excluded, rv))
    }
}

proof fn lemma_weight_seg_nonneg(t: WeightTable, ex: Seq<u32>, k: int, j: int)
    ensures
        weight_seg(t, ex, k, j) >= 0,
    decreases j - k,
{
    if k < j {
        lemma_weight_seg_nonneg(t, ex, k + 1, j);
    }
}

/// For a draw value within the remaining weight, the walk from index `k`
/// lands on an unexcluded domain number at or past `k`.
proof fn lemma_pick_from_lands_on_candidate(t: WeightTable, ex: Seq<u32>, k: int, r: int)
    requires
        t.wf(),
        0 <= k,
        0 <= r < t.weight_from(ex, k),
    ensures
        t.in_domain(pick_from(t, ex, k, r)),
        pick_from(t, ex, k, r) >= t.lo + k,
        !ex.contains(pick_from(t, ex, k, r)),
    decreases t.weights@.len() - k,
{
    if ex.contains(t.number_at(k)) {
        lemma_pick_from_lands_on_candidate(t, ex, k + 1, r);
    } else if r < t.weights@[k] {
    } else {
        lemma_pick_from_lands_on_candidate(t, ex, k + 1, r - t.weights@[k]);
    }
}

/// The walk from `k` selects the candidate `n` exactly when `r` falls in
/// the interval of length `weight(n)` that starts at the combined weight
/// of the candidates in `[k, idx(n))`.
proof fn lemma_pick_from_interval(t: WeightTable, ex: Seq<u32>, n: u32, k: int, r: int)
    requires
        t.wf(),
        t.in_domain(n),
        !ex.contains(n),
        0 <= k <= n - t.lo,
        0 <= r < t.weight_from(ex, k),
    ensures
        pick_from(t, ex, k, r) == n <==> (weight_seg(t, ex, k, n - t.lo) <= r < weight_seg(
            t,
            ex,
            k,
            n - t.lo,
        ) + t.spec_weight(n)),
    decreases n - t.lo - k,
{
    let idx = n - t.lo;
    if k == idx {
        assert(t.number_at(k) == n);
        if r >= t.weights@[k] {
            lemma_pick_from_lands_on_candidate(t, ex, k + 1, r - t.weights@[k]);
        }
    } else {
        lemma_weight_seg_nonneg(t, ex, k + 1, idx);
        if ex.contains(t.number_at(k)) {
            lemma_pick_from_interval(t, ex, n, k + 1, r);
        } else if r < t.weights@[k] {
            assert(pick_from(t, ex, k, r) == t.number_at(k));
            assert(t.number_at(k) != n);
        } else {
            lemma_pick_from_interval(t, ex, n, k + 1, r - t.weights@[k]);
        }
    }
}

/// The suffix sum of the table is the segment sum up to the domain's end.
proof fn lemma_weight_from_is_seg(t: WeightTable, ex: Seq<u32>, k: int)
    requires
        0 <= k,
    ensures
        t.weight_from(ex, k) == weight_seg(t, ex, k, t.weights@.len() as int),
    decreases t.weights@.len() - k,
{
    if k < t.weights@.len() {
        lemma_weight_from_is_seg(t, ex, k + 1);
    }
}

/// Segment sums split at any midpoint.
proof fn lemma_weight_seg_split(t: WeightTable, ex: Seq<u32>, a: int, b: int, c: int)
    requires
        a <= b <= c,
    ensures
        weight_seg(t, ex, a, c) == weight_seg(t, ex, a, b) + weight_seg(t, ex, b, c),
    decreases b - a,
{
    if a < b {
        lemma_weight_seg_split(t, ex, a + 1, b, c);
    }
}

/// Weight conservation: the draw values that select the candidate `n` form
/// exactly an interval of length `weight(n)`, starting at the combined
/// weight of the candidates before `n`. Under a uniform draw value below
/// the total weight, each candidate is therefore selected with probability
/// `weight(n) / total weight`.
pub proof fn lemma_weight_conservation(t: WeightTable, ex: Seq<u32>, n: u32, r: int)
    requires
        t.wf(),
        t.in_domain(n),
        !ex.contains(n),
        0 <= r < t.total_weight(ex),
    ensures
        selected(t, ex, r) == n <==> (weight_before(t, ex, n - t.lo) <= r < weight_before(
            t,
            ex,
            n - t.lo,
        ) + t.spec_weight(n)),
{
    lemma_pick_from_interval(t, ex, n, 0, r);
}

/// Every unexcluded domain number can be drawn: its selection interval is
/// non-empty, so some draw value below the total weight selects it.
pub proof fn lemma_every_candidate_selectable(t: WeightTable, ex: Seq<u32>, n: u32)
    requires
        t.wf(),
        t.in_domain(n),
        !ex.contains(n),
    ensures
        exists|r: int| 0 <= r < t.total_weight(ex) && selected(t, ex, r) == n,
{
    let idx = n - t.lo;
    let size = t.weights@.len() as int;
    let p = weight_before(t, ex, idx);
    lemma_weight_seg_nonneg(t, ex, 0, idx);
    lemma_weight_seg_nonneg(t, ex, idx + 1, size);
    lemma_weight_from_is_seg(t, ex, 0);
    lemma_weight_seg_split(t, ex, 0, idx, size);
    assert(weight_seg(t, ex, idx, size) == t.weight_at(ex, idx) + weight_seg(t, ex, idx + 1, size));
    assert(t.number_at(idx) == n);
    assert(t.weight_at(ex, idx) == t.spec_weight(n));
    assert(p + t.spec_weight(n) <= t.total_weight(ex));
    lemma_weight_conservation(t, ex, n, p);
    assert(0 <= p < t.total_weight(ex) && selected(t, ex, p) == n);
}

} // verus!
