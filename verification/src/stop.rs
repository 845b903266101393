//! When a run ends.

use vstd::prelude::*;

verus! {

/// Asks oxigen's `StopCriteria::Generation(limit)`, through
/// `StopCriterion::stop`, whether `generation` ends the run. That variant
/// answers `generation >= limit`; it does not read the progress, the number
/// of solutions or the fitness values, which are handed over as zero and
/// empty.
#[verifier::external_body]
pub(crate) fn generation_reached(limit: u64, generation: u64) -> (reached: bool)
    ensures
        reached == (generation >= limit),
{
    oxigen::StopCriterion::stop(
        &oxigen::StopCriteria::Generation(limit),
        generation,
        Default::default(),
        0,
        &[],
    )
}

/// The test that ends a run.
#[derive(Clone, Copy, Debug, PartialEq, Eq, Structural)]
pub enum StopCriterion {
    /// Stop once the generation counter has reached the given count.
    Generation(u64),
}

impl StopCriterion {
    /// Whether a run that has completed `generation` generations is over.
    pub open spec fn stops_at(self, generation: u64) -> bool {
        match self {
            StopCriterion::Generation(limit) => generation >= limit,
        }
    }

    /// The number of generations that a run makes before it stops.
    pub open spec fn generations(self) -> u64 {
        match self {
            StopCriterion::Generation(limit) => limit,
        }
    }

    /// Decides whether the run ends after `generation`.
    pub fn should_stop(&self, generation: u64) -> (stop: bool)
        ensures
            stop == self.stops_at(generation),
            stop == (generation >= self.generations()),
    {
        match self {
            StopCriterion::Generation(limit) => generation_reached(*limit, generation),
        }
    }
}

} // verus!
