//! Aggregate acceptance criteria for tickets: an inclusive range for the
//! sum of the main numbers and one for their spread. Criteria drive the
//! rejection loop of the criteria-filtered draw strategy.

use vstd::prelude::*;
use crate::ticket::PowerBallGame;

verus! {

/// A pair of inclusive ranges that a ticket's main-number sum and spread
/// must fall into.
#[derive(Clone, Copy, Debug, PartialEq, Eq, Structural)]
pub struct Criteria {
    pub sum_lo: u32,
    pub sum_hi: u32,
    pub spread_lo: u32,
    pub spread_hi: u32,
}

impl Criteria {
    /// The fixed default criteria: sum in `[134, 218]`, spread in
    /// `[41, 51]`, derived from offline historical analysis.
    pub open spec fn spec_default() -> Criteria {
        Criteria { sum_lo: 134, sum_hi: 218, spread_lo: 41, spread_hi: 51 }
    }

    /// A ticket satisfies the criteria exactly when both its sum and its
    /// spread fall in the inclusive ranges.
    pub open spec fn spec_satisfied_by(self, t: PowerBallGame) -> bool {
        &&& self.sum_lo <= t.spec_sum() <= self.sum_hi
        &&& self.spread_lo <= t.spec_spread() <= self.spread_hi
    }

    /// Pure evaluation of the criteria against a ticket.
    pub fn satisfies(&self, t: &PowerBallGame) -> (r: bool)
        requires
            t.wf(),
        ensures
            r == self.spec_satisfied_by(*t),
    {
        let s = t.sum();
        let d = t.spread();
        self.sum_lo <= s && s <= self.sum_hi && self.spread_lo <= d && d <= self.spread_hi
    }
}

impl Default for Criteria {
    /// The default criteria.
    fn default() -> (c: Criteria)
        ensures
            c == Criteria::spec_default(),
    {
        Criteria { sum_lo: 134, sum_hi: 218, spread_lo: 41, spread_hi: 51 }
    }
}

impl PowerBallGame {
    /// Whether the ticket meets the fixed default criteria: main-number
    /// sum in `[134, 218]` and spread in `[41, 51]`.
    pub fn meets_criteria(&self) -> (r: bool)
        requires
            self.wf(),
        ensures
            r == Criteria::spec_default().spec_satisfied_by(*self),
    {
        let c = Criteria::default();
        c.satisfies(self)
    }
}

} // verus!
