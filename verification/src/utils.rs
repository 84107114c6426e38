//! The per-minute time grid: an explicit cursor over one-minute-spaced
//! timestamps, and the mathematical model of such a grid.
use vstd::prelude::*;

verus! {

/// How many one-minute-spaced points lie in `[a, b]`, starting at `a`.
pub open spec fn grid_count(a: int, b: int) -> int {
    if a <= b {
        (b - a) / 60 + 1
    } else {
        0
    }
}

/// The one-minute-spaced timestamps `a, a + 60, ...` that are `<= b`.
pub open spec fn minute_points(a: int, b: int) -> Seq<int> {
    Seq::new(grid_count(a, b) as nat, |k: int| a + 60 * k)
}

/// A restartable cursor over the minute grid from `self.0` (inclusive) up
/// to `self.1` (inclusive); timestamps are whole seconds. An empty range
/// (`self.0 > self.1`) yields nothing.
pub struct MinuteDateRange(pub i64, pub i64);

impl MinuteDateRange {
    /// The timestamps this cursor has still to yield.
    pub open spec fn remaining(self) -> Seq<int> {
        minute_points(self.0 as int, self.1 as int)
    }

    /// Yields the current timestamp and advances by exactly sixty seconds,
    /// or yields nothing once the cursor has passed the upper bound.
    pub fn next(&mut self) -> (r: Option<i64>)
        requires
            old(self).0 <= old(self).1 ==> old(self).0 + 60 <= i64::MAX,
        ensures
            old(self).0 <= old(self).1 ==> {
                &&& r == Some(old(self).0)
                &&& final(self).0 == old(self).0 + 60
                &&& final(self).1 == old(self).1
            },
            old(self).0 > old(self).1 ==> {
                &&& r is None
                &&& final(self).0 == old(self).0
                &&& final(self).1 == old(self).1
            },
    {
        if self.0 <= self.1 {
            let current = self.0;
            self.0 = current + 60;
            Some(current)
        } else {
            None
        }
    }
}

/// A range whose bounds coincide holds exactly its one shared timestamp.
pub proof fn lemma_minute_points_single(t: int)
    ensures
        minute_points(t, t) =~= seq![t],
{
}

/// A range whose lower bound lies past its upper bound holds nothing.
pub proof fn lemma_minute_points_empty(a: int, b: int)
    requires
        a > b,
    ensures
        minute_points(a, b) =~= Seq::<int>::empty(),
{
}

/// Yielding the first timestamp leaves the rest of the grid: each step
/// advances by exactly sixty seconds, with no drift.
pub proof fn lemma_minute_points_step(a: int, b: int)
    requires
        a <= b,
    ensures
        minute_points(a, b) =~= seq![a] + minute_points(a + 60, b),
{
    assert forall|k: int| 0 <= k < grid_count(a, b) implies minute_points(a, b)[k] == (seq![a]
        + minute_points(a + 60, b))[k] by {
        if k > 0 {
            assert((b - (a + 60)) == (b - a) - 60);
        }
    }
    assert(grid_count(a, b) == 1 + grid_count(a + 60, b)) by {
        if a + 60 <= b {
            assert((b - a) / 60 == (b - a - 60) / 60 + 1) by {
                vstd::arithmetic::div_mod::lemma_hoist_over_denominator(b - a - 60, 1, 60);
            }
        } else {
            assert((b - a) / 60 == 0) by {
                vstd::arithmetic::div_mod::lemma_basic_div(b - a, 60);
            }
        }
    }
}

} // verus!
