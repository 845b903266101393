//! Ranking a population by fitness.

use vstd::prelude::*;

verus! {

/// Candidate `first` is placed before candidate `second`: it is fitter, or
/// as fit and earlier in the population.
pub open spec fn ranks_before(fitness: Seq<i64>, first: int, second: int) -> bool {
    fitness[first] > fitness[second] || (fitness[first] == fitness[second] && first < second)
}

/// `order` lists the positions of `fitness`, each once, fittest first, and
/// equally fit candidates in the order in which the population holds them.
pub open spec fn is_ranking(fitness: Seq<i64>, order: Seq<usize>) -> bool {
    &&& order.len() == fitness.len()
    &&& forall|k: int| 0 <= k < order.len() ==> (#[trigger] order[k]) < fitness.len()
    &&& forall|i: int, j: int|
        0 <= i < j < order.len() ==> ranks_before(
            fitness,
            #[trigger] order[i] as int,
            #[trigger] order[j] as int,
        )
    &&& forall|candidate: usize| candidate < fitness.len() ==> #[trigger] order.contains(candidate)
}

/// The ranking of `fitness`. There is exactly one.
pub open spec fn ranking_of(fitness: Seq<i64>) -> Seq<usize> {
    choose|order: Seq<usize>| is_ranking(fitness, order)
}

/// Ranks the candidates by fitness, highest first. The sort is stable.
pub fn rank(fitness: &Vec<i64>) -> (order: Vec<usize>)
    ensures
        is_ranking(fitness@, order@),
        order@ == ranking_of(fitness@),
{
    let mut order: Vec<usize> = Vec::new();
    let mut next: usize = 0;
    while next < fitness.len()
        invariant
            next <= fitness@.len(),
            is_ranking(fitness@.subrange(0, next as int), order@),
        decreases fitness@.len() - next,
    {
        let ghost ranked = fitness@.subrange(0, next as int);
        let ghost before = order@;
        let mut position: usize = 0;
        while position < order.len() && fitness[order[position]] >= fitness[next]
            invariant
                next < fitness@.len(),
                position <= order@.len(),
                order@ == before,
                is_ranking(ranked, before),
                ranked == fitness@.subrange(0, next as int),
                forall|k: int|
                    0 <= k < position ==> fitness@[(#[trigger] before[k]) as int] >= fitness@[next as int],
            decreases order@.len() - position,
        {
            position += 1;
        }
        order.insert(position, next);
        proof {
            lemma_insert_keeps_ranking(fitness@, before, next as int, position as int);
        }
        next += 1;
    }
    assert(fitness@.subrange(0, next as int) =~= fitness@);
    proof {
        lemma_ranking_is_unique(fitness@, order@, ranking_of(fitness@));
    }
    order
}

/// Placing the next candidate behind every candidate that is at least as fit
/// and before the first that is less fit keeps the order a ranking.
proof fn lemma_insert_keeps_ranking(fitness: Seq<i64>, before: Seq<usize>, next: int, position: int)
    requires
        0 <= next < fitness.len(),
        next <= usize::MAX,
        is_ranking(fitness.subrange(0, next), before),
        0 <= position <= before.len(),
        forall|k: int| 0 <= k < position ==> fitness[(#[trigger] before[k]) as int] >= fitness[next],
        position < before.len() ==> fitness[before[position] as int] < fitness[next],
    ensures
        is_ranking(fitness.subrange(0, next + 1), before.insert(position, next as usize)),
{
    let ranked = fitness.subrange(0, next);
    let grown = fitness.subrange(0, next + 1);
    let after = before.insert(position, next as usize);
    assert(after.len() == before.len() + 1);
    assert forall|k: int| 0 <= k < after.len() implies (#[trigger] after[k]) < grown.len() by {
        if k < position {
            assert(after[k] == before[k]);
        } else if k > position {
            assert(after[k] == before[k - 1]);
        }
    }
    assert forall|i: int, j: int| 0 <= i < j < after.len() implies ranks_before(
        grown,
        #[trigger] after[i] as int,
        #[trigger] after[j] as int,
    ) by {
        if j < position {
            assert(after[i] == before[i] && after[j] == before[j]);
            assert(ranks_before(ranked, before[i] as int, before[j] as int));
        } else if j == position {
            assert(after[i] == before[i]);
            assert(before[i] < next);
        } else if i < position {
            assert(after[i] == before[i] && after[j] == before[j - 1]);
            assert(ranks_before(ranked, before[i] as int, before[j - 1] as int));
        } else if i == position {
            assert(after[j] == before[j - 1]);
            if j - 1 > position {
                assert(ranks_before(ranked, before[position] as int, before[j - 1] as int));
            }
            assert(before[j - 1] < next);
        } else {
            assert(after[i] == before[i - 1] && after[j] == before[j - 1]);
            assert(ranks_before(ranked, before[i - 1] as int, before[j - 1] as int));
        }
    }
    assert forall|candidate: usize| candidate < grown.len() implies #[trigger] after.contains(
        candidate,
    ) by {
        if candidate == next {
            assert(after[position] == next as usize);
        } else {
            assert(before.contains(candidate));
            let k = choose|k: int| 0 <= k < before.len() && before[k] == candidate;
            if k < position {
                assert(after[k] == before[k]);
            } else {
                assert(after[k + 1] == before[k]);
            }
        }
    }
}

/// Two rankings of the same fitness values agree on their first `places`
/// places.
proof fn lemma_rankings_agree_up_to(
    fitness: Seq<i64>,
    first: Seq<usize>,
    second: Seq<usize>,
    places: int,
)
    requires
        is_ranking(fitness, first),
        is_ranking(fitness, second),
        0 <= places <= fitness.len(),
    ensures
        forall|k: int| 0 <= k < places ==> first[k] == second[k],
    decreases places,
{
    if places > 0 {
        lemma_rankings_agree_up_to(fitness, first, second, places - 1);
        let place = places - 1;
        let here = first[place];
        let there = second[place];
        if here != there {
            assert(second.contains(here));
            let p = choose|p: int| 0 <= p < second.len() && second[p] == here;
            if p < place {
                assert(first[p] == second[p]);
                assert(ranks_before(fitness, first[p] as int, first[place] as int));
            }
            assert(ranks_before(fitness, second[place] as int, second[p] as int));
            assert(first.contains(there));
            let q = choose|q: int| 0 <= q < first.len() && first[q] == there;
            if q < place {
                assert(first[q] == second[q]);
                assert(ranks_before(fitness, second[q] as int, second[place] as int));
            }
            assert(ranks_before(fitness, first[place] as int, first[q] as int));
        }
    }
}

/// The fitness values leave no choice: there is one ranking of them.
pub proof fn lemma_ranking_is_unique(fitness: Seq<i64>, first: Seq<usize>, second: Seq<usize>)
    requires
        is_ranking(fitness, first),
        is_ranking(fitness, second),
    ensures
        first == second,
{
    lemma_rankings_agree_up_to(fitness, first, second, fitness.len() as int);
    assert(first =~= second);
}

/// A ranking never rises in fitness, and candidates of equal fitness stand
/// in it in the order in which the population holds them.
pub proof fn lemma_ranking_is_sorted_and_stable(
    fitness: Seq<i64>,
    order: Seq<usize>,
    earlier: int,
    later: int,
)
    requires
        is_ranking(fitness, order),
        0 <= earlier < later < order.len(),
    ensures
        fitness[order[earlier] as int] >= fitness[order[later] as int],
        fitness[order[earlier] as int] == fitness[order[later] as int] ==> order[earlier]
            < order[later],
{
    assert(ranks_before(fitness, order[earlier] as int, order[later] as int));
}

} // verus!
