//! Choosing the parents of the next generation.

use crate::fixed::UNIT;
use crate::random::draw_below;
use rand::rngs::SmallRng;
use vstd::prelude::*;

verus! {

/// The two candidates from which one offspring is made, by their positions
/// in the population.
#[derive(Clone, Copy, Debug, PartialEq, Eq, Structural)]
pub struct Parents {
    pub first: usize,
    pub second: usize,
}

/// How parents are chosen.
#[derive(Clone, Copy, Debug, PartialEq, Eq, Structural)]
pub enum SelectionFunction {
    /// Parents are drawn from the cup: the fittest candidates, as many as the
    /// selection rate says.
    Cup,
}

/// A fixed-point rate rounded up to whole units.
pub open spec fn whole_units(rate: int) -> int {
    (rate + UNIT - 1) / (UNIT as int)
}

/// The number of candidates in the cup: the selection rate in whole units,
/// but at least two and at most the whole population.
pub open spec fn cup_size_of(rate: int, population_size: int) -> int {
    let wanted = whole_units(rate);
    if wanted < 2 {
        2
    } else if wanted > population_size {
        population_size
    } else {
        wanted
    }
}

/// `candidate` holds one of the first `cup` places of `ranking`.
pub open spec fn in_cup(ranking: Seq<usize>, cup: int, candidate: usize) -> bool {
    exists|place: int| 0 <= place < cup && place < ranking.len() && ranking[place] == candidate
}

/// Computes the size of the cup for a selection rate.
pub fn cup_size(rate: i64, population_size: usize) -> (cup: usize)
    requires
        population_size >= 2,
    ensures
        cup == cup_size_of(rate as int, population_size as int),
        2 <= cup <= population_size,
{
    if rate <= UNIT {
        2
    } else {
        let wanted: u64 = (rate as u64 - 1) / (UNIT as u64) + 1;
        if wanted < 2 {
            2
        } else if wanted > population_size as u64 {
            population_size
        } else {
            wanted as usize
        }
    }
}

/// The parents that stand at two places of the ranking.
pub fn parents_at(ranking: &Vec<usize>, first_place: usize, second_place: usize) -> (parents:
    Parents)
    requires
        first_place < ranking@.len(),
        second_place < ranking@.len(),
    ensures
        parents.first == ranking@[first_place as int],
        parents.second == ranking@[second_place as int],
{
    Parents { first: ranking[first_place], second: ranking[second_place] }
}

impl SelectionFunction {
    /// Chooses one pair of parents for each place of the next generation.
    /// `ranking` lists the candidates fittest first; both parents of every
    /// pair are drawn from its cup, whose size follows from `rate`.
    pub fn select(&self, ranking: &Vec<usize>, rate: i64, rng: &mut SmallRng) -> (chosen: Vec<
        Parents,
    >)
        requires
            ranking@.len() >= 2,
        ensures
            chosen@.len() == ranking@.len(),
            forall|k: int|
                0 <= k < chosen@.len() ==> {
                    let cup = cup_size_of(rate as int, ranking@.len() as int);
                    &&& in_cup(ranking@, cup, (#[trigger] chosen@[k]).first)
                    &&& in_cup(ranking@, cup, chosen@[k].second)
                },
    {
        match self {
            SelectionFunction::Cup => {
                let cup: usize = cup_size(rate, ranking.len());
                let mut chosen: Vec<Parents> = Vec::new();
                let mut slot: usize = 0;
                while slot < ranking.len()
                    invariant
                        slot <= ranking@.len(),
                        chosen@.len() == slot,
                        2 <= cup <= ranking@.len(),
                        forall|k: int|
                            0 <= k < chosen@.len() ==> {
                                &&& in_cup(ranking@, cup as int, (#[trigger] chosen@[k]).first)
                                &&& in_cup(ranking@, cup as int, chosen@[k].second)
                            },
                    decreases ranking@.len() - slot,
                {
                    let first_place: usize = draw_below(rng, cup);
                    let second_place: usize = draw_below(rng, cup);
                    let parents: Parents = parents_at(ranking, first_place, second_place);
                    assert(in_cup(ranking@, cup as int, parents.first)) by {
                        assert(ranking@[first_place as int] == parents.first);
                    }
                    assert(in_cup(ranking@, cup as int, parents.second)) by {
                        assert(ranking@[second_place as int] == parents.second);
                    }
                    chosen.push(parents);
                    slot += 1;
                }
                chosen
            },
        }
    }
}

/// When the selection rate asks for the whole population or more, every
/// candidate of a ranking is in the cup.
pub proof fn lemma_full_cup_holds_everyone(
    fitness: Seq<i64>,
    ranking: Seq<usize>,
    rate: i64,
    candidate: usize,
)
    requires
        crate::rank::is_ranking(fitness, ranking),
        fitness.len() >= 2,
        whole_units(rate as int) >= fitness.len(),
        candidate < fitness.len(),
    ensures
        cup_size_of(rate as int, ranking.len() as int) == ranking.len(),
        in_cup(ranking, cup_size_of(rate as int, ranking.len() as int), candidate),
{
    assert(ranking.contains(candidate));
}

} // verus!
