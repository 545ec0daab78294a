//! The escape-time decision: from what each step of an orbit showed to the
//! outcome of the point.
//!
//! The orbit itself, `z <- z * z + c` from zero, is rounding arithmetic and is
//! computed by the caller. After step `n` the caller reports what the new `z`
//! showed, and [`judge`] says whether the orbit is decided.

use vstd::prelude::*;

verus! {

/// The number of steps after which an undecided orbit counts as bounded.
pub const MAX_ITER: u32 = 100;

/// The squared length of `z` beyond which an orbit counts as diverged.
pub const DIVERGENCE_THRESHOLD_SQUARED: u32 = 10000;

/// What became of a point.
#[derive(Clone, Copy, Debug, PartialEq, Eq, Structural)]
pub enum IterationOutcome {
    /// The orbit left the divergence radius at this step, counted from 0.
    Escaped(u32),
    /// The orbit stayed inside for [`MAX_ITER`] steps, or returned to the origin.
    Bounded,
}

/// What one step of an orbit showed of the new `z`.
#[derive(Clone, Copy, Debug, PartialEq, Eq, Structural)]
pub struct Observation {
    /// The squared length of `z` exceeds the divergence threshold.
    pub diverged: bool,
    /// Both components of `z` are zero.
    pub at_origin: bool,
}

impl IterationOutcome {
    /// An escape is dated before [`MAX_ITER`].
    pub open spec fn well_formed(self) -> bool {
        match self {
            IterationOutcome::Escaped(step) => step < MAX_ITER,
            IterationOutcome::Bounded => true,
        }
    }

    /// Whether an escape is dated before [`MAX_ITER`].
    pub fn is_well_formed(&self) -> (r: bool)
        ensures
            r == self.well_formed(),
    {
        match self {
            IterationOutcome::Escaped(step) => *step < MAX_ITER,
            IterationOutcome::Bounded => true,
        }
    }
}

/// Whether the orbit is still undecided after the steps before `n`: none of
/// them diverged and none returned to the origin.
pub open spec fn undecided_before(orbit: Seq<Observation>, n: int) -> bool {
    forall|j: int| 0 <= j < n ==> !(#[trigger] orbit[j]).diverged && !orbit[j].at_origin
}

/// Whether the orbit escapes at step `n`: the step exists, is dated before
/// [`MAX_ITER`], diverged, and the orbit was undecided until then.
pub open spec fn escapes_at(orbit: Seq<Observation>, n: int) -> bool {
    &&& 0 <= n < orbit.len()
    &&& n < MAX_ITER
    &&& orbit[n].diverged
    &&& undecided_before(orbit, n)
}

/// The decision after step `n` showed `seen`, for an orbit undecided so far:
/// divergence is an escape at `n`, a return to the origin is bounded (and
/// divergence is looked at first), and anything else leaves the orbit open.
/// From [`MAX_ITER`] on every orbit is bounded.
pub open spec fn judged(n: u32, seen: Observation) -> Option<IterationOutcome> {
    if n >= MAX_ITER {
        Some(IterationOutcome::Bounded)
    } else if seen.diverged {
        Some(IterationOutcome::Escaped(n))
    } else if seen.at_origin {
        Some(IterationOutcome::Bounded)
    } else {
        None
    }
}

/// The decision after step `n` showed `seen`; `None` while the orbit is open.
pub fn judge(n: u32, seen: Observation) -> (decision: Option<IterationOutcome>)
    ensures
        decision == judged(n, seen),
        decision is Some ==> decision->Some_0.well_formed(),
{
    if n >= MAX_ITER {
        Some(IterationOutcome::Bounded)
    } else if seen.diverged {
        Some(IterationOutcome::Escaped(n))
    } else if seen.at_origin {
        Some(IterationOutcome::Bounded)
    } else {
        None
    }
}

/// The outcome of a point whose orbit showed `orbit`, step by step. An orbit
/// reported for fewer than [`MAX_ITER`] steps and undecided at its end counts
/// as bounded.
pub fn classify(orbit: &Vec<Observation>) -> (outcome: IterationOutcome)
    ensures
        outcome.well_formed(),
        forall|n: int|
            outcome == IterationOutcome::Escaped(n as u32) && 0 <= n < MAX_ITER <==> escapes_at(
                orbit@,
                n,
            ),
        outcome is Bounded <==> !exists|n: int| escapes_at(orbit@, n),
{
    let mut n: u32 = 0;
    while n < MAX_ITER && (n as usize) < orbit.len()
        invariant
            n <= MAX_ITER,
            n <= orbit@.len(),
            undecided_before(orbit@, n as int),
        decreases MAX_ITER - n,
    {
        match judge(n, orbit[n as usize]) {
            Some(outcome) => {
                proof {
                    lemma_decided(orbit@, n as int, outcome);
                }
                return outcome;
            },
            None => {},
        }
        n = n + 1;
    }
    proof {
        assert forall|k: int| !escapes_at(orbit@, k) by {
            if escapes_at(orbit@, k) {
                assert(k < n);
                assert(!orbit@[k].diverged);
            }
        }
    }
    IterationOutcome::Bounded
}

/// An orbit that is decided at step `n` escapes at no other step, and escapes
/// at `n` exactly if the decision is an escape.
proof fn lemma_decided(orbit: Seq<Observation>, n: int, outcome: IterationOutcome)
    requires
        0 <= n < orbit.len(),
        n < MAX_ITER,
        undecided_before(orbit, n),
        judged(n as u32, orbit[n]) == Some(outcome),
    ensures
        forall|k: int|
            outcome == IterationOutcome::Escaped(k as u32) && 0 <= k < MAX_ITER <==> escapes_at(
                orbit,
                k,
            ),
        outcome is Bounded <==> !exists|k: int| escapes_at(orbit, k),
{
    assert forall|k: int| escapes_at(orbit, k) implies k == n && outcome
        == IterationOutcome::Escaped(n as u32) by {
        if k < n {
            assert(!orbit[k].diverged);
        } else if k > n {
            assert(!orbit[n].diverged && !orbit[n].at_origin);
        }
    }
    if outcome == IterationOutcome::Escaped(n as u32) {
        assert(escapes_at(orbit, n));
    }
}

} // verus!
