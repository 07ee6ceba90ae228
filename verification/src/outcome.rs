//! What the escape-time iteration reports for one point.

use vstd::prelude::*;

verus! {

/// The result of iterating one point under a budget of `budget` updates.
///
/// `count` is the index of the first update after which the orbit left the
/// bounded region, counted from zero, or `budget` when no update did.
#[derive(Clone, Copy, Debug, PartialEq, Eq, Structural)]
pub struct EscapeOutcome {
    pub count: u32,
    pub budget: u32,
}

impl EscapeOutcome {
    /// The count never exceeds the budget.
    pub open spec fn wf(self) -> bool {
        self.count <= self.budget
    }

    /// The orbit stayed bounded through the whole budget.
    pub open spec fn bounded(self) -> bool {
        self.count == self.budget
    }

    /// The outcome of an orbit that never left the region.
    pub fn stayed(budget: u32) -> (outcome: Self)
        ensures
            outcome.count == budget,
            outcome.budget == budget,
            outcome.wf(),
            outcome.bounded(),
    {
        EscapeOutcome { count: budget, budget }
    }

    /// The outcome of an orbit that left the region at update `index`.
    pub fn escaped_at(index: u32, budget: u32) -> (outcome: Self)
        requires
            index < budget,
        ensures
            outcome.count == index,
            outcome.budget == budget,
            outcome.wf(),
            !outcome.bounded(),
    {
        EscapeOutcome { count: index, budget }
    }

    /// Whether the orbit stayed bounded: the boolean form of the outcome.
    pub fn is_bounded(&self) -> (b: bool)
        ensures
            b == self.bounded(),
    {
        self.count == self.budget
    }
}

} // verus!
