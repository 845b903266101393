//! What a run records about its progress.

use crate::fixed::decimal;
use crate::fixed::fixed_text;
use crate::fixed::write_decimal;
use crate::fixed::write_fixed;
use vstd::arithmetic::div_mod::lemma_fundamental_div_mod;
use vstd::arithmetic::div_mod::lemma_fundamental_div_mod_converse;
use vstd::prelude::*;

verus! {

/// One row of the progress log.
#[derive(Clone, Copy, Debug, PartialEq, Eq, Structural)]
pub struct ProgressEntry {
    pub generation: u64,
    /// The highest fitness in the population.
    pub best: i64,
    /// The mean fitness, rounded down.
    pub mean: i64,
    /// The lowest fitness in the population.
    pub worst: i64,
    /// The mutation rate with which the generation was made.
    pub mutation_rate: i64,
    /// The selection rate with which the generation was made.
    pub selection_rate: i64,
}

/// The genes of every candidate of one generation.
#[derive(Debug)]
pub struct Snapshot<G> {
    pub generation: u64,
    pub candidates: Vec<Vec<G>>,
}

/// The row of the progress log for `entry`: the generation, the best, the
/// mean and the worst fitness, the mutation rate and the selection rate, in
/// decimal text, with a tab between two fields and a line feed at the end.
pub open spec fn row_text(entry: ProgressEntry) -> Seq<u8> {
    decimal(entry.generation as nat) + seq![9u8] + fixed_text(entry.best as int) + seq![9u8]
        + fixed_text(entry.mean as int) + seq![9u8] + fixed_text(entry.worst as int) + seq![9u8]
        + fixed_text(entry.mutation_rate as int) + seq![9u8] + fixed_text(
        entry.selection_rate as int,
    ) + seq![10u8]
}

/// The sum of a sequence of fitness values.
pub open spec fn total(fitness: Seq<i64>) -> int
    decreases fitness.len(),
{
    if fitness.len() == 0 {
        0
    } else {
        total(fitness.drop_last()) + fitness.last()
    }
}

/// `entry` gives the highest, the mean and the lowest of `fitness`.
pub open spec fn summarizes(entry: ProgressEntry, fitness: Seq<i64>) -> bool {
    &&& is_highest(fitness, entry.best)
    &&& is_lowest(fitness, entry.worst)
    &&& entry.mean == total(fitness) / (fitness.len() as int)
}

/// `value` occurs in `fitness` and no value of `fitness` is higher.
pub open spec fn is_highest(fitness: Seq<i64>, value: i64) -> bool {
    fitness.contains(value) && forall|k: int| 0 <= k < fitness.len() ==> fitness[k] <= value
}

/// `value` occurs in `fitness` and no value of `fitness` is lower.
pub open spec fn is_lowest(fitness: Seq<i64>, value: i64) -> bool {
    fitness.contains(value) && forall|k: int| 0 <= k < fitness.len() ==> fitness[k] >= value
}

/// A log with the interval `interval` gets an entry after generation
/// `generation`: after every `interval` generations that the run has made.
/// An interval of zero disables the log.
pub open spec fn is_due(interval: u64, generation: u64) -> bool {
    interval > 0 && generation > 0 && generation % interval == 0
}

/// The number of entries that a log with the interval `interval` holds
/// after `generation` generations.
pub open spec fn entries_after(interval: u64, generation: u64) -> int {
    if interval == 0 {
        0
    } else {
        generation as int / interval as int
    }
}

/// Decides whether a log gets an entry after generation `generation`.
pub fn due(interval: u64, generation: u64) -> (due: bool)
    ensures
        due == is_due(interval, generation),
{
    interval > 0 && generation > 0 && generation % interval == 0
}

/// The mean of values that add up to `sum`, rounded down.
fn mean_of(sum: i128, count: usize, Ghost(low): Ghost<int>, Ghost(high): Ghost<int>) -> (mean:
    i64)
    requires
        count > 0,
        i64::MIN <= low <= high <= i64::MAX,
        low * count <= sum <= high * count,
    ensures
        mean == sum as int / count as int,
        low <= mean <= high,
{
    let ghost n = count as int;
    let ghost s = sum as int;
    proof {
        lemma_fundamental_div_mod(s, n);
        let q = s / n;
        let r = s % n;
        assert(0 <= r < n);
        assert(low <= q) by (nonlinear_arith)
            requires
                s == n * q + r,
                0 <= r < n,
                low * n <= s,
        ;
        assert(q <= high) by (nonlinear_arith)
            requires
                s == n * q + r,
                0 <= r < n,
                s <= high * n,
        ;
    }
    if sum >= 0 {
        let quotient: u128 = (sum as u128) / (count as u128);
        quotient as i64
    } else {
        assert(low * n >= -0x8000_0000_0000_0000 * 0xffff_ffff_ffff_ffff) by (nonlinear_arith)
            requires
                low >= -0x8000_0000_0000_0000,
                0 < n <= 0xffff_ffff_ffff_ffff,
        ;
        let magnitude: u128 = (-sum) as u128;
        let rounded_up: u128 = (magnitude + (count as u128 - 1)) / (count as u128);
        proof {
            let m = magnitude as int;
            let up = (m + n - 1) / n;
            let rest = (m + n - 1) % n;
            lemma_fundamental_div_mod(m + n - 1, n);
            assert(s == (-up) * n + (n - 1 - rest)) by (nonlinear_arith)
                requires
                    m + n - 1 == n * up + rest,
                    s == -m,
            ;
            lemma_fundamental_div_mod_converse(s, n, -up, n - 1 - rest);
        }
        let mean: i128 = -(rounded_up as i128);
        mean as i64
    }
}

impl ProgressEntry {
    /// Renders the entry as a row of the progress log.
    pub fn row(&self) -> (text: Vec<u8>)
        ensures
            text@ == row_text(*self),
    {
        let mut text: Vec<u8> = Vec::new();
        write_decimal(&mut text, self.generation);
        text.push(9u8);
        write_fixed(&mut text, self.best);
        text.push(9u8);
        write_fixed(&mut text, self.mean);
        text.push(9u8);
        write_fixed(&mut text, self.worst);
        text.push(9u8);
        write_fixed(&mut text, self.mutation_rate);
        text.push(9u8);
        write_fixed(&mut text, self.selection_rate);
        text.push(10u8);
        assert(text@ =~= row_text(*self));
        text
    }

    /// The entry for a generation whose candidates have the fitness values
    /// `fitness`, made with the two rates given.
    pub fn of(generation: u64, fitness: &Vec<i64>, mutation_rate: i64, selection_rate: i64) -> (entry:
        Self)
        requires
            fitness@.len() > 0,
        ensures
            entry.generation == generation,
            entry.mutation_rate == mutation_rate,
            entry.selection_rate == selection_rate,
            summarizes(entry, fitness@),
            entry.worst <= entry.mean <= entry.best,
    {
        let mut best: i64 = fitness[0];
        let mut worst: i64 = fitness[0];
        let mut sum: i128 = fitness[0] as i128;
        let mut slot: usize = 1;
        assert(fitness@.subrange(0, 1).drop_last() =~= Seq::<i64>::empty());
        assert(total(fitness@.subrange(0, 1)) == fitness@[0]) by {
            assert(total(Seq::<i64>::empty()) == 0);
            assert(fitness@.subrange(0, 1).last() == fitness@[0]);
        }
        assert(fitness@.subrange(0, 1).contains(fitness@[0])) by {
            assert(fitness@.subrange(0, 1)[0] == fitness@[0]);
        }
        while slot < fitness.len()
            invariant
                1 <= slot <= fitness@.len(),
                sum == total(fitness@.subrange(0, slot as int)),
                is_highest(fitness@.subrange(0, slot as int), best),
                is_lowest(fitness@.subrange(0, slot as int), worst),
                worst * slot <= sum <= best * slot,
            decreases fitness@.len() - slot,
        {
            let value: i64 = fitness[slot];
            let ghost seen = fitness@.subrange(0, slot as int);
            let ghost grown = fitness@.subrange(0, slot + 1);
            proof {
                assert(grown.drop_last() =~= seen);
                assert(grown.last() == value);
                assert(worst * slot >= -0x8000_0000_0000_0000 * 0xffff_ffff_ffff_ffff)
                    by (nonlinear_arith)
                    requires
                        worst >= -0x8000_0000_0000_0000,
                        0 < slot <= 0xffff_ffff_ffff_ffff,
                ;
                assert(best * slot <= 0x7fff_ffff_ffff_ffff * 0xffff_ffff_ffff_ffff)
                    by (nonlinear_arith)
                    requires
                        best <= 0x7fff_ffff_ffff_ffff,
                        0 < slot < 0xffff_ffff_ffff_ffff,
                ;
            }
            let ghost old_best = best;
            let ghost old_worst = worst;
            sum = sum + value as i128;
            if value > best {
                best = value;
            }
            if value < worst {
                worst = value;
            }
            proof {
                let k_best = choose|k: int| 0 <= k < seen.len() && seen[k] == old_best;
                let k_worst = choose|k: int| 0 <= k < seen.len() && seen[k] == old_worst;
                assert(seen.contains(old_best) && seen.contains(old_worst));
                assert(grown[k_best] == old_best && grown[k_worst] == old_worst);
                assert(grown[slot as int] == value);
                assert(grown.contains(best));
                assert(grown.contains(worst));
                assert forall|k: int| 0 <= k < grown.len() implies (#[trigger] grown[k]) <= best by {
                    if k < slot {
                        assert(grown[k] == seen[k]);
                    }
                }
                assert forall|k: int| 0 <= k < grown.len() implies (#[trigger] grown[k]) >= worst by {
                    if k < slot {
                        assert(grown[k] == seen[k]);
                    }
                }
                assert(worst * (slot + 1) <= sum <= best * (slot + 1)) by (nonlinear_arith)
                    requires
                        old_worst * slot <= sum - value <= old_best * slot,
                        worst <= old_worst,
                        worst <= value <= best,
                        old_best <= best,
                        slot >= 1,
                ;
            }
            slot += 1;
        }
        assert(fitness@.subrange(0, slot as int) =~= fitness@);
        let mean: i64 = mean_of(sum, fitness.len(), Ghost(worst as int), Ghost(best as int));
        ProgressEntry { generation, best, mean, worst, mutation_rate, selection_rate }
    }
}

/// One more generation adds an entry to a log exactly when the log is due.
pub proof fn lemma_entries_grow_when_due(interval: u64, generation: u64)
    requires
        generation < u64::MAX,
    ensures
        entries_after(interval, (generation + 1) as u64) == entries_after(interval, generation) + (
        if is_due(interval, (generation + 1) as u64) {
            1int
        } else {
            0int
        }),
        is_due(interval, (generation + 1) as u64) ==> generation + 1 == entries_after(
            interval,
            (generation + 1) as u64,
        ) * interval,
{
    if interval > 0 {
        let n = interval as int;
        let g = generation as int;
        lemma_fundamental_div_mod(g, n);
        lemma_fundamental_div_mod(g + 1, n);
        let q = g / n;
        let r = g % n;
        if r + 1 < n {
            assert(g + 1 == q * n + (r + 1)) by (nonlinear_arith)
                requires
                    g == n * q + r,
            ;
            lemma_fundamental_div_mod_converse(g + 1, n, q, r + 1);
        } else {
            assert(g + 1 == (q + 1) * n + 0) by (nonlinear_arith)
                requires
                    g == n * q + r,
                    r + 1 == n,
            ;
            lemma_fundamental_div_mod_converse(g + 1, n, q + 1, 0);
        }
    }
}

} // verus!
