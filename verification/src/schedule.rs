//! Rate schedules: a parameter of the search as a function of the generation.
//!
//! Rates are fixed-point numbers: a mutation probability of one half is
//! `UNIT / 2`, a cup of four candidates is `4 * UNIT`.

use vstd::prelude::*;

verus! {

/// How a rate develops over the generations.
#[derive(Clone, Copy, Debug, PartialEq, Eq, Structural)]
pub enum RateSchedule {
    /// The same value in every generation.
    Constant(i64),
    /// `start + coefficient * generation`, held at `bound` once it gets there.
    /// A coefficient of zero or more travels upwards and `bound` is the
    /// ceiling; a negative one travels downwards and `bound` is the floor.
    Linear { start: i64, bound: i64, coefficient: i64 },
}

/// `raw` held at `bound` in the direction in which `coefficient` travels.
pub open spec fn held_at_bound(bound: int, coefficient: int, raw: int) -> int {
    if coefficient >= 0 {
        if raw < bound {
            raw
        } else {
            bound
        }
    } else {
        if raw > bound {
            raw
        } else {
            bound
        }
    }
}

impl RateSchedule {
    /// The rate in generation `generation`.
    pub open spec fn value_at(self, generation: int) -> int {
        match self {
            RateSchedule::Constant(value) => value as int,
            RateSchedule::Linear { start, bound, coefficient } => held_at_bound(
                bound as int,
                coefficient as int,
                start + coefficient * generation,
            ),
        }
    }

    /// Computes the rate in generation `generation`.
    pub fn value(&self, generation: u64) -> (rate: i64)
        ensures
            rate == self.value_at(generation as int),
    {
        match *self {
            RateSchedule::Constant(value) => value,
            RateSchedule::Linear { start, bound, coefficient } => {
                proof {
                    lemma_travel_fits(coefficient as int, generation as int);
                }
                let travel: i128 = (coefficient as i128) * (generation as i128);
                let raw: i128 = travel + (start as i128);
                if coefficient >= 0 {
                    if raw < bound as i128 {
                        raw as i64
                    } else {
                        bound
                    }
                } else {
                    if raw > bound as i128 {
                        raw as i64
                    } else {
                        bound
                    }
                }
            },
        }
    }
}

/// The distance travelled after `generation` steps has the sign of the
/// coefficient and fits in 128 bits with room for the start value.
proof fn lemma_travel_fits(coefficient: int, generation: int)
    requires
        -0x8000_0000_0000_0000 <= coefficient < 0x8000_0000_0000_0000,
        0 <= generation < 0x1_0000_0000_0000_0000,
    ensures
        coefficient >= 0 ==> 0 <= coefficient * generation,
        coefficient < 0 ==> coefficient * generation <= 0,
        -0x8000_0000_0000_0000 * 0xffff_ffff_ffff_ffff <= coefficient * generation,
        coefficient * generation <= 0x7fff_ffff_ffff_ffff * 0xffff_ffff_ffff_ffff,
{
    assert(coefficient >= 0 ==> 0 <= coefficient * generation) by (nonlinear_arith)
        requires
            0 <= generation,
    ;
    assert(coefficient < 0 ==> coefficient * generation <= 0) by (nonlinear_arith)
        requires
            0 <= generation,
    ;
    assert(-0x8000_0000_0000_0000 * 0xffff_ffff_ffff_ffff <= coefficient * generation)
        by (nonlinear_arith)
        requires
            -0x8000_0000_0000_0000 <= coefficient,
            0 <= generation <= 0xffff_ffff_ffff_ffff,
    ;
    assert(coefficient * generation <= 0x7fff_ffff_ffff_ffff * 0xffff_ffff_ffff_ffff)
        by (nonlinear_arith)
        requires
            coefficient <= 0x7fff_ffff_ffff_ffff,
            0 <= generation <= 0xffff_ffff_ffff_ffff,
    ;
}

/// A linear schedule moves toward its bound and never passes it: with a
/// coefficient of zero or more the rate never falls from one generation to a
/// later one and is never above the bound; with a negative coefficient it
/// never rises and is never below the bound. A schedule whose start is
/// already at or past the bound gives the bound in every generation.
pub proof fn lemma_linear_moves_toward_bound(
    start: i64,
    bound: i64,
    coefficient: i64,
    earlier: u64,
    later: u64,
)
    requires
        earlier <= later,
    ensures
        ({
            let schedule = RateSchedule::Linear { start, bound, coefficient };
            let first = schedule.value_at(earlier as int);
            let second = schedule.value_at(later as int);
            &&& coefficient >= 0 ==> first <= second <= bound
            &&& coefficient < 0 ==> first >= second >= bound
            &&& coefficient >= 0 && start >= bound ==> first == bound
            &&& coefficient < 0 && start <= bound ==> first == bound
            &&& first == bound ==> second == bound
        }),
{
    let c = coefficient as int;
    let e = earlier as int;
    let l = later as int;
    assert(c >= 0 ==> 0 <= c * e <= c * l) by (nonlinear_arith)
        requires
            0 <= e <= l,
    ;
    assert(c < 0 ==> 0 >= c * e >= c * l) by (nonlinear_arith)
        requires
            0 <= e <= l,
    ;
}

} // verus!
