//! Weight tables: an immutable mapping from every number of a contiguous
//! domain to a positive weight.
//!
//! Weights are fixed-point values in tenths (a weight of `30` means a 3.0×
//! multiplier), which keeps all weight arithmetic exact. A table is built
//! from a list of tiers; the first tier whose member set contains a number
//! determines that number's weight, and numbers matching no tier get the
//! default weight.

use vstd::prelude::*;
use crate::vecs::vec_contains;

verus! {

/// One weight tier: every member of `members` gets weight `weight`, unless
/// an earlier tier already claimed it.
pub struct Tier {
    pub members: Vec<u32>,
    pub weight: u64,
}

/// Rejected weight-table configuration.
#[derive(Clone, Copy, Debug, PartialEq, Eq, Structural)]
pub enum ConfigError {
    /// The default weight is zero, a tier weight is zero, or a tier names a
    /// number outside the domain.
    MalformedTier,
    /// The weights are well formed but their sum over the domain does not
    /// fit in a `u64`, so the table could not be sampled from.
    WeightOverflow,
}

/// An immutable weight table over the domain `[lo, hi]`; `weights[k]` is
/// the weight of the number `lo + k`.
pub struct WeightTable {
    pub lo: u32,
    pub hi: u32,
    pub weights: Vec<u64>,
}

impl WeightTable {
    /// Number of values in the domain.
    pub open spec fn domain_size(self) -> int {
        self.hi - self.lo + 1
    }

    /// The domain number at index `k` of the table.
    pub open spec fn number_at(self, k: int) -> u32 {
        (self.lo + k) as u32
    }

    pub open spec fn in_domain(self, n: u32) -> bool {
        self.lo <= n <= self.hi
    }

    /// The weight of a domain number `n`.
    pub open spec fn spec_weight(self, n: u32) -> int {
        self.weights@[n - self.lo] as int
    }

    /// The weight that index `k` contributes when the numbers of `ex` are
    /// excluded: its weight if it is an unexcluded domain index, else 0.
    pub open spec fn weight_at(self, ex: Seq<u32>, k: int) -> int {
        if 0 <= k < self.weights@.len() && !ex.contains(self.number_at(k)) {
            self.weights@[k] as int
        } else {
            0
        }
    }

    /// Sum of the weights contributed by the indices from `k` on.
    pub open spec fn weight_from(self, ex: Seq<u32>, k: int) -> int
        decreases self.weights@.len() - k,
    {
        if k < 0 || k >= self.weights@.len() {
            0
        } else {
            self.weight_at(ex, k) + self.weight_from(ex, k + 1)
        }
    }

    /// Total weight of the candidate set: the domain numbers not in `ex`.
    pub open spec fn total_weight(self, ex: Seq<u32>) -> int {
        self.weight_from(ex, 0)
    }

    /// A well-formed table: a non-empty domain of positive numbers, one
    /// positive weight per number, and a total weight that fits in a `u64`.
    pub open spec fn wf(self) -> bool {
        &&& 1 <= self.lo <= self.hi
        &&& self.weights@.len() == self.domain_size()
        &&& (forall|k: int| 0 <= k < self.weights@.len() ==> self.weights@[k] > 0)
        &&& self.total_weight(Seq::<u32>::empty()) <= u64::MAX
    }
}

/// Every weight of the suffix sum is nonnegative.
pub proof fn lemma_weight_from_nonneg(t: WeightTable, ex: Seq<u32>, k: int)
    ensures
        t.weight_from(ex, k) >= 0,
    decreases t.weights@.len() - k,
{
    if 0 <= k < t.weights@.len() {
        lemma_weight_from_nonneg(t, ex, k + 1);
    }
}

/// Suffix sums shrink as the suffix shrinks.
pub proof fn lemma_weight_from_mono(t: WeightTable, ex: Seq<u32>, j: int, k: int)
    requires
        0 <= j <= k,
    ensures
        t.weight_from(ex, k) <= t.weight_from(ex, j),
    decreases k - j,
{
    if j < k {
        lemma_weight_from_mono(t, ex, j + 1, k);
    }
}

/// Excluding numbers can only lower a suffix sum.
pub proof fn lemma_weight_from_excluded_le(t: WeightTable, ex: Seq<u32>, k: int)
    ensures
        t.weight_from(ex, k) <= t.weight_from(Seq::<u32>::empty(), k),
    decreases t.weights@.len() - k,
{
    if 0 <= k < t.weights@.len() {
        lemma_weight_from_excluded_le(t, ex, k + 1);
    }
}

/// A suffix sum is positive exactly when the suffix holds an unexcluded
/// domain index.
pub proof fn lemma_weight_from_pos_iff_candidate(t: WeightTable, ex: Seq<u32>, k: int)
    requires
        t.wf(),
        k >= 0,
    ensures
        t.weight_from(ex, k) > 0 <==> exists|i: int|
            k <= i < t.domain_size() && !ex.contains(#[trigger] t.number_at(i)),
    decreases t.weights@.len() - k,
{
    if k < t.weights@.len() {
        lemma_weight_from_pos_iff_candidate(t, ex, k + 1);
        lemma_weight_from_nonneg(t, ex, k + 1);
    }
}

/// The total weight is positive exactly when some domain number escapes the
/// exclusion list.
pub proof fn lemma_total_weight_pos_iff_candidate(t: WeightTable, ex: Seq<u32>)
    requires
        t.wf(),
    ensures
        t.total_weight(ex) > 0 <==> exists|n: u32| t.in_domain(n) && !ex.contains(n),
{
    lemma_weight_from_pos_iff_candidate(t, ex, 0);
    if t.total_weight(ex) > 0 {
        let i = choose|i: int|
            0 <= i < t.domain_size() && !ex.contains(#[trigger] t.number_at(i));
        assert(t.in_domain(t.number_at(i)) && !ex.contains(t.number_at(i)));
    }
    if exists|n: u32| t.in_domain(n) && !ex.contains(n) {
        let n = choose|n: u32| t.in_domain(n) && !ex.contains(n);
        assert(t.number_at(n - t.lo) == n);
    }
}

/// The weight the tiers assign to `n`: the weight of the first tier whose
/// member set contains `n`, or the default weight.
pub open spec fn tier_weight_of(tiers: Seq<Tier>, n: u32, default_weight: u64) -> u64
    decreases tiers.len(),
{
    if tiers.len() == 0 {
        default_weight
    } else if tiers[0].members@.contains(n) {
        tiers[0].weight
    } else {
        tier_weight_of(tiers.drop_first(), n, default_weight)
    }
}

/// A tier is acceptable for the domain `[lo, hi]`: positive weight, every
/// member within the domain.
pub open spec fn tier_ok(t: Tier, lo: u32, hi: u32) -> bool {
    &&& t.weight > 0
    &&& forall|i: int| 0 <= i < t.members@.len() ==> lo <= #[trigger] t.members@[i] <= hi
}

pub open spec fn tiers_ok(tiers: Seq<Tier>, lo: u32, hi: u32) -> bool {
    forall|i: int| 0 <= i < tiers.len() ==> tier_ok(#[trigger] tiers[i], lo, hi)
}

/// Sum of the tier-assigned weights of the numbers `n..=hi`.
pub open spec fn config_total_from(n: int, hi: int, tiers: Seq<Tier>, default_weight: u64) -> int
    decreases hi + 1 - n,
{
    if n > hi {
        0
    } else {
        tier_weight_of(tiers, n as u32, default_weight)
            + config_total_from(n + 1, hi, tiers, default_weight)
    }
}

/// Sum of the tier-assigned weights over the whole domain `[lo, hi]`.
pub open spec fn config_total(lo: int, hi: int, tiers: Seq<Tier>, default_weight: u64) -> int {
    config_total_from(lo, hi, tiers, default_weight)
}

/// With a positive default and positive tier weights, every assigned weight
/// is positive.
pub proof fn lemma_tier_weight_pos(tiers: Seq<Tier>, n: u32, default_weight: u64)
    requires
        default_weight > 0,
        forall|i: int| 0 <= i < tiers.len() ==> (#[trigger] tiers[i]).weight > 0,
    ensures
        tier_weight_of(tiers, n, default_weight) > 0,
    decreases tiers.len(),
{
    if tiers.len() > 0 && !tiers[0].members@.contains(n) {
        assert(forall|i: int|
            0 <= i < tiers.drop_first().len() ==> (#[trigger] tiers.drop_first()[i]).weight
                > 0) by {
            assert(forall|i: int|
                0 <= i < tiers.drop_first().len() ==> tiers.drop_first()[i] == tiers[i + 1]);
        }
        lemma_tier_weight_pos(tiers.drop_first(), n, default_weight);
    }
}

/// A partial sum never exceeds the sum over a larger range.
pub proof fn lemma_config_total_from_mono(j: int, n: int, hi: int, tiers: Seq<Tier>, default_weight: u64)
    requires
        j <= n,
    ensures
        config_total_from(n, hi, tiers, default_weight)
            <= config_total_from(j, hi, tiers, default_weight),
    decreases n - j,
{
    if j < n {
        lemma_config_total_from_mono(j + 1, n, hi, tiers, default_weight);
    }
}

/// The weight the tiers assign to `n`, computed by first match.
fn lookup_weight(tiers: &Vec<Tier>, n: u32, default_weight: u64) -> (w: u64)
    ensures
        w == tier_weight_of(tiers@, n, default_weight),
{
    let mut j: usize = 0;
    proof {
        assert(tiers@.skip(0) =~= tiers@);
    }
    while j < tiers.len()
        invariant
            0 <= j <= tiers@.len(),
            tier_weight_of(tiers@, n, default_weight) == tier_weight_of(
                tiers@.skip(j as int),
                n,
                default_weight,
            ),
        decreases tiers@.len() - j,
    {
        proof {
            assert(tiers@.skip(j as int)[0] == tiers@[j as int]);
        }
        if vec_contains(&tiers[j].members, n) {
            return tiers[j].weight;
        }
        proof {
            assert(tiers@.skip(j as int).drop_first() =~= tiers@.skip(j as int + 1));
        }
        j += 1;
    }
    proof {
        assert(tiers@.skip(tiers@.len() as int) =~= Seq::<Tier>::empty());
    }
    default_weight
}

impl WeightTable {
    /// Builds the table for the domain `[lo, hi]` from the given tiers and
    /// default weight. The first tier whose member set contains a number
    /// determines that number's weight; numbers matching no tier get the
    /// default weight.
    pub fn build(lo: u32, hi: u32, tiers: &Vec<Tier>, default_weight: u64) -> (r: Result<
        WeightTable,
        ConfigError,
    >)
        requires
            1 <= lo <= hi,
        ensures
            r is Ok <==> (default_weight > 0 && tiers_ok(tiers@, lo, hi) && config_total(
                lo as int,
                hi as int,
                tiers@,
                default_weight,
            ) <= u64::MAX),
            (r matches Ok(t) ==> {
                &&& t.wf()
                &&& t.lo == lo
                &&& t.hi == hi
                &&& forall|n: u32|
                    lo <= n <= hi ==> t.spec_weight(n) == tier_weight_of(
                        tiers@,
                        n,
                        default_weight,
                    )
            }),
            r == Err::<WeightTable, ConfigError>(ConfigError::MalformedTier) <==> !(
            default_weight > 0 && tiers_ok(tiers@, lo, hi)),
            r == Err::<WeightTable, ConfigError>(ConfigError::WeightOverflow) <==> (default_weight
                > 0 && tiers_ok(tiers@, lo, hi) && config_total(
                lo as int,
                hi as int,
                tiers@,
                default_weight,
            ) > u64::MAX),
    {
        if default_weight == 0 {
            return Err(ConfigError::MalformedTier);
        }
        // validate the tiers
        let mut i: usize = 0;
        while i < tiers.len()
            invariant
                0 <= i <= tiers@.len(),
                forall|a: int| 0 <= a < i ==> tier_ok(#[trigger] tiers@[a], lo, hi),
            decreases tiers@.len() - i,
        {
            if tiers[i].weight == 0 {
                return Err(ConfigError::MalformedTier);
            }
            let mut j: usize = 0;
            while j < tiers[i].members.len()
                invariant
                    0 <= i < tiers@.len(),
                    0 <= j <= tiers@[i as int].members@.len(),
                    forall|b: int| 0 <= b < j ==> lo <= #[trigger] tiers@[i as int].members@[b] <= hi,
                decreases tiers@[i as int].members@.len() - j,
            {
                let m = tiers[i].members[j];
                if m < lo || m > hi {
                    return Err(ConfigError::MalformedTier);
                }
                j += 1;
            }
            assert(tiers@[i as int].weight > 0);
            i += 1;
        }
        assert(tiers_ok(tiers@, lo, hi));
        // assign a weight to every domain number
        let size: usize = (hi - lo) as usize + 1;
        let mut weights: Vec<u64> = Vec::new();
        let mut k: usize = 0;
        while k < size
            invariant
                0 <= k <= size,
                size == hi - lo + 1,
                1 <= lo <= hi,
                weights@.len() == k,
                forall|a: int|
                    0 <= a < k ==> weights@[a] == tier_weight_of(
                        tiers@,
                        (lo + a) as u32,
                        default_weight,
                    ),
            decreases size - k,
        {
            let w = lookup_weight(tiers, lo + (k as u32), default_weight);
            weights.push(w);
            k += 1;
        }
        // check that the total weight fits in a u64
        let mut tot: u64 = 0;
        let mut back: usize = size;
        while back > 0
            invariant
                0 <= back <= size,
                size == hi - lo + 1,
                1 <= lo <= hi,
                default_weight > 0,
                tiers_ok(tiers@, lo, hi),
                weights@.len() == size,
                forall|a: int|
                    0 <= a < size ==> weights@[a] == tier_weight_of(
                        tiers@,
                        (lo + a) as u32,
                        default_weight,
                    ),
                tot == config_total_from(lo + back, hi as int, tiers@, default_weight),
            decreases back,
        {
            back -= 1;
            match tot.checked_add(weights[back]) {
                Some(t2) => {
                    tot = t2;
                },
                None => {
                    proof {
                        lemma_config_total_from_mono(
                            lo as int,
                            lo + back,
                            hi as int,
                            tiers@,
                            default_weight,
                        );
                    }
                    return Err(ConfigError::WeightOverflow);
                },
            }
        }
        let t = WeightTable { lo, hi, weights };
        proof {
            assert forall|n: u32| lo <= n <= hi implies t.spec_weight(n) == tier_weight_of(
                tiers@,
                n,
                default_weight,
            ) by {
                assert(t.weights@[n - lo] == tier_weight_of(
                    tiers@,
                    (lo + (n - lo)) as u32,
                    default_weight,
                ));
            }
            assert forall|a: int| 0 <= a < t.weights@.len() implies t.weights@[a] > 0 by {
                lemma_tier_weight_pos(tiers@, (lo + a) as u32, default_weight);
            }
            lemma_weight_from_matches_config(t, tiers@, default_weight, 0);
        }
        Ok(t)
    }
}

/// Ties the suffix sums of a built table back to the configuration sum it
/// was built from.
proof fn lemma_weight_from_matches_config(
    t: WeightTable,
    tiers: Seq<Tier>,
    default_weight: u64,
    k: int,
)
    requires
        1 <= t.lo <= t.hi,
        t.weights@.len() == t.domain_size(),
        0 <= k,
        forall|a: int|
            0 <= a < t.weights@.len() ==> t.weights@[a] == tier_weight_of(
                tiers,
                (t.lo + a) as u32,
                default_weight,
            ),
    ensures
        t.weight_from(Seq::<u32>::empty(), k) == config_total_from(
            t.lo + k,
            t.hi as int,
            tiers,
            default_weight,
        ),
    decreases t.weights@.len() - k,
{
    if k < t.weights@.len() {
        lemma_weight_from_matches_config(t, tiers, default_weight, k + 1);
    }
}

/// The ten historically hot main numbers: they draw a 3.0× weight.
pub open spec fn hot_seq() -> Seq<u32> {
    seq![28u32, 5u32, 51u32, 58u32, 8u32, 18u32, 19u32, 53u32, 6u32, 21u32]
}

/// The ten historically cold main numbers: they draw a 0.5× weight.
pub open spec fn cold_seq() -> Seq<u32> {
    seq![61u32, 65u32, 12u32, 13u32, 17u32, 38u32, 41u32, 42u32, 45u32, 67u32]
}

/// The special numbers that never appeared historically: weight 0.1×.
pub open spec fn very_cold_special_seq() -> Seq<u32> {
    seq![22u32, 23u32, 24u32, 25u32, 26u32]
}

pub open spec fn is_hot(n: u32) -> bool {
    hot_seq().contains(n)
}

pub open spec fn is_cold(n: u32) -> bool {
    cold_seq().contains(n)
}

/// The weight (in tenths) of a main number: hot 3.0, cold 0.5, else 1.0.
pub open spec fn main_weight_of(n: u32) -> u64 {
    if is_hot(n) {
        30
    } else if is_cold(n) {
        5
    } else {
        10
    }
}

/// The weight (in tenths) of a special number: per-number overrides for
/// 2..=5, 0.1 for the very cold set, 0.8 otherwise.
pub open spec fn special_weight_of(n: u32) -> u64 {
    if n == 2 {
        50
    } else if n == 3 {
        20
    } else if n == 4 {
        15
    } else if n == 5 {
        12
    } else if 22 <= n <= 26 {
        1
    } else {
        8
    }
}

/// The hot main numbers as a vector.
pub fn hot_numbers() -> (v: Vec<u32>)
    ensures
        v@ == hot_seq(),
{
    let mut v: Vec<u32> = Vec::new();
    v.push(28);
    v.push(5);
    v.push(51);
    v.push(58);
    v.push(8);
    v.push(18);
    v.push(19);
    v.push(53);
    v.push(6);
    v.push(21);
    proof {
        assert(v@ =~= hot_seq());
    }
    v
}

/// The cold main numbers as a vector.
pub fn cold_numbers() -> (v: Vec<u32>)
    ensures
        v@ == cold_seq(),
{
    let mut v: Vec<u32> = Vec::new();
    v.push(61);
    v.push(65);
    v.push(12);
    v.push(13);
    v.push(17);
    v.push(38);
    v.push(41);
    v.push(42);
    v.push(45);
    v.push(67);
    proof {
        assert(v@ =~= cold_seq());
    }
    v
}

/// An upper bound on every assigned weight bounds the configuration sum.
pub proof fn lemma_config_total_from_bound(
    n: int,
    hi: int,
    tiers: Seq<Tier>,
    default_weight: u64,
    b: int,
)
    requires
        0 <= n <= hi + 1,
        hi <= u32::MAX,
        b >= 0,
        forall|m: u32| n <= m <= hi ==> tier_weight_of(tiers, m, default_weight) <= b,
    ensures
        config_total_from(n, hi, tiers, default_weight) <= (hi + 1 - n) * b,
    decreases hi + 1 - n,
{
    if n <= hi {
        lemma_config_total_from_bound(n + 1, hi, tiers, default_weight, b);
        assert(tier_weight_of(tiers, n as u32, default_weight) <= b);
        assert((hi + 1 - n) * b == (hi - n) * b + b) by (nonlinear_arith);
    }
}

/// The weight table for the main-number domain `[1, 69]`: hot numbers 3.0,
/// cold numbers 0.5, every other number 1.0.
pub fn main_table() -> (t: WeightTable)
    ensures
        t.wf(),
        t.lo == 1,
        t.hi == 69,
        forall|n: u32| 1 <= n <= 69 ==> t.spec_weight(n) == main_weight_of(n),
{
    let hot = hot_numbers();
    let cold = cold_numbers();
    let mut tiers: Vec<Tier> = Vec::new();
    tiers.push(Tier { members: hot, weight: 30 });
    tiers.push(Tier { members: cold, weight: 5 });
    proof {
        assert forall|n: u32| tier_weight_of(tiers@, n, 10) == main_weight_of(n) by {
            reveal_with_fuel(tier_weight_of, 3);
            assert(tiers@.len() == 2);
            assert(tiers@[0].members@ == hot_seq());
            assert(tiers@[0].weight == 30);
            assert(tiers@[1].members@ == cold_seq());
            assert(tiers@[1].weight == 5);
            let rest = tiers@.drop_first();
            assert(rest[0] == tiers@[1]);
            assert(rest.len() == 1);
            assert(rest.drop_first().len() == 0);
        }
        assert(tiers_ok(tiers@, 1, 69)) by {
            assert forall|i: int| 0 <= i < tiers@.len() implies tier_ok(
                #[trigger] tiers@[i],
                1,
                69,
            ) by {
                assert(forall|a: int| 0 <= a < 10 ==> 1 <= #[trigger] hot_seq()[a] <= 69);
                assert(forall|a: int| 0 <= a < 10 ==> 1 <= #[trigger] cold_seq()[a] <= 69);
            }
        }
        assert forall|m: u32| 1 <= m <= 69 implies tier_weight_of(tiers@, m, 10) <= 30 by {
            assert(tier_weight_of(tiers@, m, 10) == main_weight_of(m));
        }
        lemma_config_total_from_bound(1, 69, tiers@, 10, 30);
    }
    let r = WeightTable::build(1, 69, &tiers, 10);
    match r {
        Ok(t) => t,
        Err(_) => vstd::pervasive::unreached(),
    }
}

/// The weight table for the special-number domain `[1, 26]`: overrides for
/// 2..=5, 0.1 for 22..=26, 0.8 otherwise.
pub fn special_table() -> (t: WeightTable)
    ensures
        t.wf(),
        t.lo == 1,
        t.hi == 26,
        forall|n: u32| 1 <= n <= 26 ==> t.spec_weight(n) == special_weight_of(n),
{
    let mut two: Vec<u32> = Vec::new();
    two.push(2);
    let mut three: Vec<u32> = Vec::new();
    three.push(3);
    let mut four: Vec<u32> = Vec::new();
    four.push(4);
    let mut five: Vec<u32> = Vec::new();
    five.push(5);
    let mut very_cold: Vec<u32> = Vec::new();
    very_cold.push(22);
    very_cold.push(23);
    very_cold.push(24);
    very_cold.push(25);
    very_cold.push(26);
    let mut tiers: Vec<Tier> = Vec::new();
    tiers.push(Tier { members: two, weight: 50 });
    tiers.push(Tier { members: three, weight: 20 });
    tiers.push(Tier { members: four, weight: 15 });
    tiers.push(Tier { members: five, weight: 12 });
    tiers.push(Tier { members: very_cold, weight: 1 });
    proof {
        assert(tiers@.len() == 5);
        assert(tiers@[0].members@.len() == 1 && tiers@[0].members@[0] == 2 && tiers@[0].weight
            == 50);
        assert(tiers@[1].members@.len() == 1 && tiers@[1].members@[0] == 3 && tiers@[1].weight
            == 20);
        assert(tiers@[2].members@.len() == 1 && tiers@[2].members@[0] == 4 && tiers@[2].weight
            == 15);
        assert(tiers@[3].members@.len() == 1 && tiers@[3].members@[0] == 5 && tiers@[3].weight
            == 12);
        assert(tiers@[4].members@ =~= very_cold_special_seq());
        assert(tiers@[4].weight == 1);
        assert forall|n: u32| tier_weight_of(tiers@, n, 8) == special_weight_of(n) by {
            reveal_with_fuel(tier_weight_of, 6);
            let t1 = tiers@.drop_first();
            let t2 = t1.drop_first();
            let t3 = t2.drop_first();
            let t4 = t3.drop_first();
            assert(t1[0] == tiers@[1] && t1.len() == 4);
            assert(t2[0] == tiers@[2] && t2.len() == 3);
            assert(t3[0] == tiers@[3] && t3.len() == 2);
            assert(t4[0] == tiers@[4] && t4.len() == 1);
            assert(t4.drop_first().len() == 0);
            if 22 <= n <= 26 {
                assert(very_cold_special_seq()[n - 22] == n);
            }
        }
        assert(tiers_ok(tiers@, 1, 26)) by {
            assert forall|i: int| 0 <= i < tiers@.len() implies tier_ok(
                #[trigger] tiers@[i],
                1,
                26,
            ) by {
                assert(forall|a: int|
                    0 <= a < 5 ==> 1 <= #[trigger] very_cold_special_seq()[a] <= 26);
            }
        }
        assert forall|m: u32| 1 <= m <= 26 implies tier_weight_of(tiers@, m, 8) <= 50 by {
            assert(tier_weight_of(tiers@, m, 8) == special_weight_of(m));
        }
        lemma_config_total_from_bound(1, 26, tiers@, 8, 50);
    }
    let r = WeightTable::build(1, 26, &tiers, 8);
    match r {
        Ok(t) => t,
        Err(_) => vstd::pervasive::unreached(),
    }
}

/// A table giving every number of `[lo, hi]` the same weight, for uniform
/// draws.
pub fn uniform_table(lo: u32, hi: u32) -> (t: WeightTable)
    requires
        1 <= lo <= hi,
    ensures
        t.wf(),
        t.lo == lo,
        t.hi == hi,
        forall|n: u32| lo <= n <= hi ==> t.spec_weight(n) == 10,
{
    let tiers: Vec<Tier> = Vec::new();
    proof {
        lemma_config_total_from_bound(lo as int, hi as int, tiers@, 10, 10);
        assert((hi + 1 - lo) * 10 <= 0x10_0000_0000) by (nonlinear_arith)
            requires
                hi <= u32::MAX,
                lo >= 1,
        ;
    }
    let r = WeightTable::build(lo, hi, &tiers, 10);
    match r {
        Ok(t) => t,
        Err(_) => vstd::pervasive::unreached(),
    }
}

} // verus!
