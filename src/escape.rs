use vstd::prelude::*;

verus! {

/// Brightness level of a point whose orbit stayed bounded for `run` of the
/// `budget` allowed steps: the ratio `run / budget` clamped to `[0, 1]`,
/// scaled to 255 and rounded to the nearest integer (halves round up).
/// A budget of zero (or less) gives 0.
pub open spec fn level_of(run: int, budget: int) -> int {
    if budget <= 0 || run <= 0 {
        0
    } else if run >= budget {
        255
    } else {
        (510 * run + budget) / (2 * budget)
    }
}

/// Normalises an escape count against the iteration budget to a byte.
pub fn escape_level(run: i32, budget: i32) -> (r: u8)
    ensures
        r as int == level_of(run as int, budget as int),
{
    if budget <= 0 || run <= 0 {
        0
    } else if run >= budget {
        255
    } else {
        let scaled: i64 = (510 * (run as i64) + budget as i64) / (2 * budget as i64);
        assert(scaled < 256) by (nonlinear_arith)
            requires
                scaled == (510 * (run as int) + budget as int) / (2 * budget as int),
                0 < run < budget,
        ;
        scaled as u8
    }
}


/// Number of steps an escape-time iteration runs, given the observations
/// made so far: `bounded[n]` tells whether `|z_n|^2 <= 4` held for the
/// `n`-th point of the orbit (`z_0 = 0`). A step is taken after an
/// observation only while every observation so far was bounded and fewer
/// than `budget` steps have been taken.
pub open spec fn escape_count(bounded: Seq<bool>, budget: int) -> int
    decreases bounded.len(),
{
    if bounded.len() == 0 {
        0
    } else {
        let before = bounded.drop_last();
        let c = escape_count(before, budget);
        if c == before.len() && c < budget && bounded.last() {
            c + 1
        } else {
            c
        }
    }
}

/// Counts the steps of one point's escape-time iteration. The caller owns
/// the orbit; before each step it reports whether the current point is
/// still within radius 2, and the counter says whether to take that step.
pub struct EscapeCounter {
    run: i32,
    budget: i32,
    open: bool,
    seen: Ghost<Seq<bool>>,
}

impl EscapeCounter {
    /// The observations reported so far.
    pub closed spec fn observed(&self) -> Seq<bool> {
        self.seen@
    }

    /// The iteration budget the counter was made with.
    pub closed spec fn budget(&self) -> int {
        self.budget as int
    }

    /// The number of steps taken so far.
    pub closed spec fn run(&self) -> int {
        self.run as int
    }

    pub closed spec fn wf(&self) -> bool {
        &&& self.run == escape_count(self.seen@, self.budget as int)
        &&& 0 <= self.run <= self.seen@.len()
        &&& self.open == (self.run == self.seen@.len())
    }

    pub fn new(budget: i32) -> (r: EscapeCounter)
        ensures
            r.wf(),
            r.observed() == Seq::<bool>::empty(),
            r.budget() == budget,
            r.run() == 0,
    {
        EscapeCounter { run: 0, budget, open: true, seen: Ghost(Seq::empty()) }
    }

    /// Reports whether the current point of the orbit is bounded. Returns
    /// whether the caller is to compute the next point.
    pub fn observe(&mut self, bounded: bool) -> (more: bool)
        requires
            old(self).wf(),
        ensures
            final(self).wf(),
            final(self).budget() == old(self).budget(),
            final(self).observed() == old(self).observed().push(bounded),
            final(self).run() == escape_count(final(self).observed(), final(self).budget()),
            more == (final(self).run() == old(self).run() + 1),
            more == (old(self).run() == old(self).observed().len() && old(self).run()
                < old(self).budget() && bounded),
    {
        let ghost s = self.seen@.push(bounded);
        assert(s.drop_last() =~= self.seen@);
        self.seen = Ghost(s);
        if self.open && bounded && self.run < self.budget {
            self.run = self.run + 1;
            true
        } else {
            self.open = false;
            false
        }
    }

    /// The number of steps taken so far.
    pub fn iterations(&self) -> (r: i32)
        requires
            self.wf(),
        ensures
            r == self.run(),
    {
        self.run
    }

    /// The escape-time byte of the point: the steps taken, normalised
    /// against the budget.
    pub fn level(&self) -> (r: u8)
        requires
            self.wf(),
        ensures
            r as int == level_of(self.run(), self.budget()),
    {
        escape_level(self.run, self.budget)
    }
}

/// The number of steps taken never exceeds the observations made, nor a
/// non-negative budget.
pub proof fn lemma_escape_count_bounds(bounded: Seq<bool>, budget: int)
    ensures
        0 <= escape_count(bounded, budget) <= bounded.len(),
        budget >= 0 ==> escape_count(bounded, budget) <= budget,
    decreases bounded.len(),
{
    if bounded.len() > 0 {
        lemma_escape_count_bounds(bounded.drop_last(), budget);
    }
}

/// On an orbit that never leaves radius 2, the iteration runs to the
/// budget, or as far as it has been observed.
pub proof fn lemma_bounded_orbit_count(bounded: Seq<bool>, budget: int)
    requires
        budget >= 0,
        forall|i: int| 0 <= i < bounded.len() ==> bounded[i],
    ensures
        escape_count(bounded, budget) == if bounded.len() < budget {
            bounded.len() as int
        } else {
            budget
        },
    decreases bounded.len(),
{
    if bounded.len() > 0 {
        let before = bounded.drop_last();
        assert forall|i: int| 0 <= i < before.len() implies before[i] by {
            assert(before[i] == bounded[i]);
        }
        lemma_bounded_orbit_count(before, budget);
    }
}

/// A point whose orbit never escapes (the origin among them) gets the full
/// level 255 for every budget of at least one step.
pub proof fn lemma_bounded_orbit_full_level(bounded: Seq<bool>, budget: int)
    requires
        budget >= 1,
        bounded.len() >= budget,
        forall|i: int| 0 <= i < bounded.len() ==> bounded[i],
    ensures
        level_of(escape_count(bounded, budget), budget) == 255,
{
    lemma_bounded_orbit_count(bounded, budget);
}

/// With a budget of zero no step is taken and every point gets level 0.
pub proof fn lemma_zero_budget_level(bounded: Seq<bool>)
    ensures
        escape_count(bounded, 0) == 0,
        level_of(escape_count(bounded, 0), 0) == 0,
{
    lemma_escape_count_bounds(bounded, 0);
}

/// For one orbit, a larger budget never gives fewer steps.
pub proof fn lemma_escape_count_monotone(bounded: Seq<bool>, small: int, large: int)
    requires
        small <= large,
    ensures
        escape_count(bounded, small) <= escape_count(bounded, large),
    decreases bounded.len(),
{
    if bounded.len() > 0 {
        let before = bounded.drop_last();
        lemma_escape_count_monotone(before, small, large);
        lemma_escape_count_bounds(before, small);
        lemma_escape_count_bounds(before, large);
    }
}

} // verus!
