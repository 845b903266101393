//! The configuration with which the sphere benchmark is run: minimising the
//! sum of the squares of `problem_size` numbers.

use crate::config::Config;
use crate::fixed::UNIT;
use crate::schedule::RateSchedule;
use crate::selection::SelectionFunction;
use crate::stop::StopCriterion;
use vstd::arithmetic::power2::lemma2_to64;
use vstd::arithmetic::power2::lemma_pow2_unfold;
use vstd::arithmetic::power2::pow2;
use vstd::prelude::*;

verus! {

/// The largest problem size that the benchmark is configured for: its
/// population can still be counted where `usize` has 32 bits.
pub const MAX_PROBLEM_SIZE: usize = 0x0fff_ffff;

/// The generation at which the benchmark stops.
pub const GENERATIONS: u64 = 10_000;

/// The logarithm of `value` to the base two, rounded up: the number of
/// times that `value` has to be halved, rounding up, to arrive at one.
pub open spec fn log2_ceil(value: nat) -> nat
    decreases value,
{
    if value <= 1 {
        0
    } else {
        1 + log2_ceil((value + 1) / 2)
    }
}

/// Computes the logarithm to the base two, rounded up.
pub fn ceil_log2(value: u64) -> (exponent: u32)
    ensures
        exponent == log2_ceil(value as nat),
        exponent <= 64,
{
    let mut rest: u64 = value;
    let mut exponent: u32 = 0;
    proof {
        lemma2_to64();
    }
    while rest > 1
        invariant
            log2_ceil(value as nat) == exponent + log2_ceil(rest as nat),
            exponent <= 64,
            rest as int <= pow2((64 - exponent) as nat),
        decreases rest,
    {
        proof {
            if exponent == 64 {
                lemma2_to64();
            } else {
                lemma_pow2_unfold((64 - exponent) as nat);
            }
        }
        rest = rest / 2 + rest % 2;
        exponent = exponent + 1;
    }
    exponent
}

/// `log2_ceil` is the least exponent whose power of two reaches `value`.
pub proof fn lemma_log2_ceil_is_least(value: nat)
    requires
        value >= 1,
    ensures
        pow2(log2_ceil(value)) >= value,
        log2_ceil(value) > 0 ==> pow2((log2_ceil(value) - 1) as nat) < value,
    decreases value,
{
    if value <= 1 {
        lemma2_to64();
    } else {
        let half = (value + 1) / 2;
        lemma_log2_ceil_is_least(half as nat);
        lemma_pow2_unfold(log2_ceil(value));
        if log2_ceil(half as nat) > 0 {
            lemma_pow2_unfold(log2_ceil(half as nat));
        } else {
            lemma2_to64();
        }
    }
}

/// The configuration of the benchmark for a problem of `problem_size`
/// genes. With `levels` the logarithm of four times the problem size,
/// rounded up: eight candidates for every gene; a mutation probability that
/// starts at `problem_size / (8 + 2 * levels)` hundredths and falls by
/// 0.0002 a generation to 0.005; a cup that starts at `levels - 2`
/// candidates and moves by 0.0005 a generation, not below two thirds of
/// `levels`; a progress entry every 100 and the population every 500
/// generations.
pub open spec fn configuration_of(problem_size: usize) -> Config {
    let levels = log2_ceil((4 * problem_size) as nat) as int;
    Config {
        problem_size,
        population_size: (8 * problem_size) as usize,
        mutation_rate_schedule: RateSchedule::Linear {
            start: ((problem_size * 10_000) / (8 + 2 * levels)) as i64,
            bound: 5_000,
            coefficient: -200i64,
        },
        selection_rate_schedule: RateSchedule::Linear {
            start: ((levels - 2) * UNIT) as i64,
            bound: ((2 * levels * UNIT) / 3) as i64,
            coefficient: -500i64,
        },
        selection_function: SelectionFunction::Cup,
        stop_criterion: StopCriterion::Generation(GENERATIONS),
        progress_log_interval: 100,
        population_log_interval: 500,
    }
}

/// Makes the configuration of the benchmark, for a problem size from one to
/// `MAX_PROBLEM_SIZE`.
pub fn configuration(problem_size: usize) -> (made: Option<Config>)
    ensures
        made == (if 1 <= problem_size <= MAX_PROBLEM_SIZE {
            Some(configuration_of(problem_size))
        } else {
            None
        }),
        made matches Some(config) ==> config.valid(),
{
    if problem_size < 1 || problem_size > MAX_PROBLEM_SIZE {
        return None;
    }
    let size: u64 = problem_size as u64;
    let levels: u64 = ceil_log2(4 * size) as u64;
    assert(log2_ceil((4 * size) as nat) >= 2) by {
        reveal_with_fuel(log2_ceil, 3);
    }
    let unit: u64 = UNIT as u64;
    assert(unit == 1_000_000);
    let mutation_start: u64 = (size * 10_000) / (8 + 2 * levels);
    let selection_bound: u64 = (2 * levels * unit) / 3;
    Some(
        Config {
            problem_size,
            population_size: 8 * problem_size,
            mutation_rate_schedule: RateSchedule::Linear {
                start: mutation_start as i64,
                bound: 5_000,
                coefficient: -200,
            },
            selection_rate_schedule: RateSchedule::Linear {
                start: ((levels - 2) * unit) as i64,
                bound: selection_bound as i64,
                coefficient: -500,
            },
            selection_function: SelectionFunction::Cup,
            stop_criterion: StopCriterion::Generation(GENERATIONS),
            progress_log_interval: 100,
            population_log_interval: 500,
        },
    )
}

/// The fitness from which the benchmark takes a candidate for a solution: a
/// hundred. The fitness of a candidate is one over the sum of the squares of
/// its genes, so it is reached where that sum is a hundredth or less.
pub const ACCEPTED_FITNESS: i64 = 100_000_000;

/// A candidate of this fitness solves the benchmark.
pub open spec fn is_accepted(fitness: i64) -> bool {
    fitness >= ACCEPTED_FITNESS
}

/// Whether the benchmark takes a candidate of this fitness for a solution.
pub fn accepted(fitness: i64) -> (yes: bool)
    ensures
        yes == is_accepted(fitness),
{
    fitness >= ACCEPTED_FITNESS
}

/// A higher fitness is better: a candidate that is accepted is accepted at
/// any higher fitness, and one that is refused is refused at any lower.
pub proof fn lemma_acceptance_is_upward_closed(lower: i64, higher: i64)
    requires
        lower <= higher,
    ensures
        is_accepted(lower) ==> is_accepted(higher),
        !is_accepted(higher) ==> !is_accepted(lower),
{
}

} // verus!
