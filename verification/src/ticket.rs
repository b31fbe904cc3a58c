//! Tickets: the result of one draw. Five distinct main numbers in
//! ascending order plus one special number.

use vstd::prelude::*;
use crate::vecs::insert_sorted;
use crate::vecs::strictly_sorted;
use crate::vecs::vec_contains;

verus! {

/// A complete ticket: five main numbers and one special number.
pub struct PowerBallGame {
    pub main_numbers: Vec<u32>,
    pub special: u32,
}

/// Sum of the numbers of `s`.
pub open spec fn sum_of(s: Seq<u32>) -> int
    decreases s.len(),
{
    if s.len() == 0 {
        0
    } else {
        sum_of(s.drop_last()) + s.last()
    }
}

impl PowerBallGame {
    /// A valid ticket: exactly five strictly ascending (hence pairwise
    /// distinct) main numbers from `[1, 69]`, and a special number from
    /// `[1, 26]`.
    pub open spec fn wf(self) -> bool {
        &&& self.main_numbers@.len() == 5
        &&& strictly_sorted(self.main_numbers@)
        &&& (forall|i: int| 0 <= i < 5 ==> 1 <= #[trigger] self.main_numbers@[i] <= 69)
        &&& 1 <= self.special <= 26
    }

    /// Sum of the main numbers.
    pub open spec fn spec_sum(self) -> int {
        sum_of(self.main_numbers@)
    }

    /// Spread of the main numbers: last minus first, which for the
    /// ascending main numbers is the maximum minus the minimum.
    pub open spec fn spec_spread(self) -> int {
        self.main_numbers@.last() - self.main_numbers@.first()
    }

    /// Builds a ticket from five proposed main numbers and a special
    /// number, sorting the main numbers ascending. Returns `None` exactly
    /// when the proposal is invalid: not five numbers, a duplicate, a main
    /// number outside `[1, 69]`, or a special number outside `[1, 26]`.
    pub fn from_numbers(main_numbers: Vec<u32>, special: u32) -> (r: Option<PowerBallGame>)
        ensures
            (r matches Some(t) ==> {
                &&& t.wf()
                &&& t.main_numbers@.to_multiset() == main_numbers@.to_multiset()
                &&& t.special == special
            }),
            r is Some <==> {
                &&& main_numbers@.len() == 5
                &&& main_numbers@.no_duplicates()
                &&& (forall|i: int| 0 <= i < main_numbers@.len() ==> 1 <= #[trigger] main_numbers@[i] <= 69)
                &&& 1 <= special <= 26
            },
    {
        if main_numbers.len() != 5 {
            return None;
        }
        if special < 1 || special > 26 {
            return None;
        }
        let mut sorted_main: Vec<u32> = Vec::new();
        let mut i: usize = 0;
        proof {
            assert(main_numbers@.take(0) =~= Seq::<u32>::empty());
            assert(sorted_main@ =~= Seq::<u32>::empty());
        }
        while i < main_numbers.len()
            invariant
                0 <= i <= 5,
                main_numbers@.len() == 5,
                sorted_main@.len() == i,
                strictly_sorted(sorted_main@),
                sorted_main@.to_multiset() == main_numbers@.take(i as int).to_multiset(),
                forall|n: u32|
                    sorted_main@.contains(n) <==> main_numbers@.take(i as int).contains(n),
                forall|j: int| 0 <= j < i ==> 1 <= #[trigger] main_numbers@[j] <= 69,
                main_numbers@.take(i as int).no_duplicates(),
            decreases 5 - i,
        {
            let x = main_numbers[i];
            if x < 1 || x > 69 {
                return None;
            }
            if vec_contains(&sorted_main, x) {
                proof {
                    let j = choose|j: int|
                        0 <= j < i && main_numbers@.take(i as int)[j] == x;
                    assert(main_numbers@[j] == x && main_numbers@[i as int] == x);
                }
                return None;
            }
            let ghost prefix = main_numbers@.take(i as int);
            insert_sorted(&mut sorted_main, x);
            proof {
                let next = main_numbers@.take(i as int + 1);
                assert(next =~= prefix.push(x));
                vstd::seq_lib::to_multiset_build(prefix, x);
                assert forall|n: u32| sorted_main@.contains(n) implies next.contains(n) by {
                    if n == x {
                        assert(next.last() == x);
                    } else {
                        let j = choose|j: int| 0 <= j < prefix.len() && prefix[j] == n;
                        assert(next[j] == n);
                    }
                }
                assert forall|n: u32| next.contains(n) implies sorted_main@.contains(n) by {
                    let j = choose|j: int| 0 <= j < next.len() && next[j] == n;
                    if j < i {
                        assert(prefix[j] == n);
                    }
                }
                assert(next.no_duplicates()) by {
                    assert(forall|a: int, b: int|
                        0 <= a < b < next.len() && b < i ==> next[a] != next[b]);
                    assert forall|a: int| 0 <= a < i implies next[a] != next[i as int] by {
                        assert(prefix[a] == next[a]);
                        assert(!prefix.contains(x));
                    }
                }
            }
            i += 1;
        }
        proof {
            assert(main_numbers@.take(5) =~= main_numbers@);
            assert forall|j: int| 0 <= j < 5 implies 1 <= #[trigger] sorted_main@[j] <= 69 by {
                assert(sorted_main@.contains(sorted_main@[j]));
                let a = choose|a: int| 0 <= a < 5 && main_numbers@[a] == sorted_main@[j];
            }
        }
        Some(PowerBallGame { main_numbers: sorted_main, special })
    }

    /// Sum of the main numbers, computed exactly.
    pub fn sum(&self) -> (s: u32)
        requires
            self.wf(),
        ensures
            s == self.spec_sum(),
    {
        let mut total: u32 = 0;
        let mut i: usize = 0;
        while i < self.main_numbers.len()
            invariant
                self.wf(),
                0 <= i <= 5,
                total == sum_of(self.main_numbers@.take(i as int)),
                total <= 69 * i,
            decreases 5 - i,
        {
            total = total + self.main_numbers[i];
            proof {
                assert(self.main_numbers@.take(i as int + 1).drop_last() =~= self.main_numbers@.take(
                    i as int,
                ));
            }
            i += 1;
        }
        proof {
            assert(self.main_numbers@.take(5) =~= self.main_numbers@);
        }
        total
    }

    /// Spread of the main numbers: the largest minus the smallest.
    pub fn spread(&self) -> (d: u32)
        requires
            self.wf(),
        ensures
            d == self.spec_spread(),
    {
        self.main_numbers[4] - self.main_numbers[0]
    }
}

/// The main numbers of a valid ticket are pairwise distinct.
pub proof fn lemma_main_numbers_distinct(t: PowerBallGame)
    requires
        t.wf(),
    ensures
        t.main_numbers@.no_duplicates(),
{
}

} // verus!
