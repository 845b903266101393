//! Candidates, the population, and how one generation is made from another.

use crate::random::draw_below;
use crate::selection::Parents;
use rand::rngs::SmallRng;
use vstd::prelude::*;

verus! {

/// One member of the population: its genes and, once it has been evaluated,
/// its fitness. A higher fitness is better.
#[derive(Debug)]
pub struct Individual<G> {
    pub genes: Vec<G>,
    /// The fitness of `genes`, or `None` while they have not been evaluated.
    pub fitness: Option<i64>,
}

/// The offspring of two gene sequences cut at `cut`: the genes of `first`
/// before the cut, those of `second` from it on.
pub open spec fn crossed<G>(first: Seq<G>, second: Seq<G>, cut: int) -> Seq<G> {
    first.subrange(0, cut) + second.subrange(cut, second.len() as int)
}

/// A cut that single-point crossover may make in a candidate of
/// `problem_size` genes: both parents give at least one gene wherever the
/// candidate has two or more.
pub open spec fn is_cut(problem_size: int, cut: int) -> bool {
    1 <= cut <= problem_size && (problem_size >= 2 ==> cut < problem_size)
}

/// Copies a gene sequence.
pub fn copy_genes<G: Copy>(genes: &Vec<G>) -> (copy: Vec<G>)
    ensures
        copy@ == genes@,
{
    let mut copy: Vec<G> = Vec::new();
    let mut index: usize = 0;
    while index < genes.len()
        invariant
            index <= genes@.len(),
            copy@ == genes@.subrange(0, index as int),
        decreases genes@.len() - index,
    {
        copy.push(genes[index]);
        assert(copy@ =~= genes@.subrange(0, index + 1));
        index += 1;
    }
    assert(copy@ =~= genes@);
    copy
}

/// Single-point crossover of two gene sequences of one length.
pub fn crossover<G: Copy>(first: &Vec<G>, second: &Vec<G>, cut: usize) -> (child: Vec<G>)
    requires
        first@.len() == second@.len(),
        cut <= first@.len(),
    ensures
        child@ == crossed(first@, second@, cut as int),
{
    let mut child: Vec<G> = Vec::new();
    let mut index: usize = 0;
    while index < first.len()
        invariant
            first@.len() == second@.len(),
            cut <= first@.len(),
            index <= first@.len(),
            child@.len() == index,
            forall|j: int|
                0 <= j < index ==> child@[j] == (if j < cut {
                    first@[j]
                } else {
                    second@[j]
                }),
        decreases first@.len() - index,
    {
        let gene: G = if index < cut {
            first[index]
        } else {
            second[index]
        };
        child.push(gene);
        index += 1;
    }
    assert(child@ =~= crossed(first@, second@, cut as int));
    child
}

/// Draws the cut for one crossover.
pub fn draw_cut(problem_size: usize, rng: &mut SmallRng) -> (cut: usize)
    requires
        problem_size >= 1,
    ensures
        is_cut(problem_size as int, cut as int),
{
    if problem_size >= 2 {
        let drawn: usize = draw_below(rng, problem_size - 1);
        cut_for(problem_size, drawn)
    } else {
        1
    }
}

/// The cut that a draw stands for. A candidate of two or more genes can be
/// cut in `problem_size - 1` places, between two genes each; the draw
/// `drawn`, a number below that, stands for the cut behind the gene at
/// `drawn`.
pub fn cut_for(problem_size: usize, drawn: usize) -> (cut: usize)
    requires
        problem_size >= 2,
        drawn < problem_size - 1,
    ensures
        cut == drawn + 1,
        is_cut(problem_size as int, cut as int),
{
    drawn + 1
}

impl<G: Copy> Individual<G> {
    /// A candidate with the given genes, not yet evaluated.
    pub fn from_genes(genes: Vec<G>) -> (individual: Self)
        ensures
            individual.genes == genes,
            individual.fitness is None,
    {
        Individual { genes, fitness: None }
    }

    /// A copy of the candidate's genes, in order.
    pub fn genes(&self) -> (genes: Vec<G>)
        ensures
            genes@ == self.genes@,
    {
        copy_genes(&self.genes)
    }

    /// Replaces the gene at `index` and forgets the fitness, which belonged
    /// to the genes as they were.
    pub fn set_gene(&mut self, index: usize, gene: G)
        requires
            index < old(self).genes@.len(),
        ensures
            final(self).genes@ == old(self).genes@.update(index as int, gene),
            final(self).fitness is None,
    {
        self.genes[index] = gene;
        self.fitness = None;
    }

    /// Stores the fitness of the candidate's genes.
    pub fn record_fitness(&mut self, fitness: i64)
        ensures
            final(self).genes == old(self).genes,
            final(self).fitness == Some(fitness),
    {
        self.fitness = Some(fitness);
    }
}

/// The candidates of one generation, in a fixed order.
#[derive(Debug)]
pub struct Population<G> {
    pub members: Vec<Individual<G>>,
}

/// `members` are `population_size` candidates of `problem_size` genes each.
pub open spec fn is_generation<G>(
    members: Seq<Individual<G>>,
    population_size: int,
    problem_size: int,
) -> bool {
    &&& members.len() == population_size
    &&& forall|k: int| 0 <= k < members.len() ==> (#[trigger] members[k]).genes@.len() == problem_size
}

/// Every candidate of `members` has a fitness.
pub open spec fn all_evaluated<G>(members: Seq<Individual<G>>) -> bool {
    forall|k: int| 0 <= k < members.len() ==> (#[trigger] members[k]).fitness is Some
}

/// The fitness of every candidate of `members`, in their order.
pub open spec fn fitness_values<G>(members: Seq<Individual<G>>) -> Seq<i64> {
    Seq::new(members.len(), |k: int| members[k].fitness->Some_0)
}

/// The genes of every candidate of `members`, in their order.
pub open spec fn genes_of<G>(members: Seq<Individual<G>>) -> Seq<Seq<G>> {
    Seq::new(members.len(), |k: int| members[k].genes@)
}

/// The gene sequences that `rows` holds.
pub open spec fn gene_rows<G>(rows: Seq<Vec<G>>) -> Seq<Seq<G>> {
    Seq::new(rows.len(), |k: int| rows[k]@)
}

/// `child` is the unevaluated offspring of the parents `chosen` among
/// `members`, cut at `cut`.
pub open spec fn is_offspring_of<G>(
    members: Seq<Individual<G>>,
    chosen: Parents,
    cut: int,
    child: Individual<G>,
) -> bool {
    &&& child.fitness is None
    &&& child.genes@ == crossed(
        members[chosen.first as int].genes@,
        members[chosen.second as int].genes@,
        cut,
    )
}

/// `child` is the unevaluated offspring of the parents `chosen` among
/// `members`, cut somewhere that single-point crossover allows.
pub open spec fn is_crossed_offspring<G>(
    members: Seq<Individual<G>>,
    problem_size: int,
    chosen: Parents,
    child: Individual<G>,
) -> bool {
    exists|cut: int|
        is_cut(problem_size, cut) && #[trigger] is_offspring_of(members, chosen, cut, child)
}

impl<G: Copy> Population<G> {
    /// The population is one generation of a run with these two sizes.
    pub open spec fn well_formed(&self, population_size: usize, problem_size: usize) -> bool {
        is_generation(self.members@, population_size as int, problem_size as int)
    }

    /// The fitness of every candidate, in the population's order.
    pub fn fitnesses(&self) -> (fitness: Vec<i64>)
        requires
            all_evaluated(self.members@),
        ensures
            fitness@ == fitness_values(self.members@),
    {
        let mut fitness: Vec<i64> = Vec::new();
        let mut slot: usize = 0;
        while slot < self.members.len()
            invariant
                slot <= self.members@.len(),
                all_evaluated(self.members@),
                fitness@.len() == slot,
                forall|k: int|
                    0 <= k < fitness@.len() ==> self.members@[k].fitness == Some(
                        #[trigger] fitness@[k],
                    ),
            decreases self.members@.len() - slot,
        {
            match self.members[slot].fitness {
                Some(value) => {
                    fitness.push(value);
                },
                None => {
                    assert(self.members@[slot as int].fitness is Some);
                },
            }
            slot += 1;
        }
        assert(fitness@ =~= fitness_values(self.members@));
        fitness
    }

    /// The genes of every candidate, in the population's order.
    pub fn snapshot(&self) -> (genes: Vec<Vec<G>>)
        ensures
            gene_rows(genes@) == genes_of(self.members@),
    {
        let mut genes: Vec<Vec<G>> = Vec::new();
        let mut slot: usize = 0;
        while slot < self.members.len()
            invariant
                slot <= self.members@.len(),
                genes@.len() == slot,
                forall|k: int|
                    0 <= k < genes@.len() ==> (#[trigger] genes@[k])@ == self.members@[k].genes@,
            decreases self.members@.len() - slot,
        {
            genes.push(copy_genes(&self.members[slot].genes));
            slot += 1;
        }
        assert(gene_rows(genes@) =~= genes_of(self.members@));
        genes
    }

    /// Makes one offspring for each pair of parents, cut where `cuts` says.
    pub fn recombine_at(&self, chosen: &Vec<Parents>, cuts: &Vec<usize>) -> (offspring: Vec<
        Individual<G>,
    >)
        requires
            cuts@.len() == chosen@.len(),
            forall|k: int|
                0 <= k < chosen@.len() ==> {
                    &&& (#[trigger] chosen@[k]).first < self.members@.len()
                    &&& chosen@[k].second < self.members@.len()
                    &&& self.members@[chosen@[k].first as int].genes@.len()
                        == self.members@[chosen@[k].second as int].genes@.len()
                    &&& cuts@[k] <= self.members@[chosen@[k].first as int].genes@.len()
                },
        ensures
            offspring@.len() == chosen@.len(),
            forall|k: int|
                0 <= k < offspring@.len() ==> is_offspring_of(
                    self.members@,
                    chosen@[k],
                    cuts@[k] as int,
                    #[trigger] offspring@[k],
                ),
    {
        let mut offspring: Vec<Individual<G>> = Vec::new();
        let mut slot: usize = 0;
        while slot < chosen.len()
            invariant
                slot <= chosen@.len(),
                cuts@.len() == chosen@.len(),
                forall|k: int|
                    0 <= k < chosen@.len() ==> {
                        &&& (#[trigger] chosen@[k]).first < self.members@.len()
                        &&& chosen@[k].second < self.members@.len()
                        &&& self.members@[chosen@[k].first as int].genes@.len()
                            == self.members@[chosen@[k].second as int].genes@.len()
                        &&& cuts@[k] <= self.members@[chosen@[k].first as int].genes@.len()
                    },
                offspring@.len() == slot,
                forall|k: int|
                    0 <= k < offspring@.len() ==> is_offspring_of(
                        self.members@,
                        chosen@[k],
                        cuts@[k] as int,
                        #[trigger] offspring@[k],
                    ),
            decreases chosen@.len() - slot,
        {
            let pair: Parents = chosen[slot];
            let genes: Vec<G> = crossover(
                &self.members[pair.first].genes,
                &self.members[pair.second].genes,
                cuts[slot],
            );
            offspring.push(Individual::from_genes(genes));
            slot += 1;
        }
        offspring
    }

    /// Makes one offspring for each pair of parents by single-point
    /// crossover, with a cut drawn for each.
    pub fn recombine(&self, chosen: &Vec<Parents>, problem_size: usize, rng: &mut SmallRng) -> (offspring:
        Vec<Individual<G>>)
        requires
            problem_size >= 1,
            is_generation(self.members@, self.members@.len() as int, problem_size as int),
            forall|k: int|
                0 <= k < chosen@.len() ==> {
                    &&& (#[trigger] chosen@[k]).first < self.members@.len()
                    &&& chosen@[k].second < self.members@.len()
                },
        ensures
            offspring@.len() == chosen@.len(),
            forall|k: int|
                0 <= k < offspring@.len() ==> is_crossed_offspring(
                    self.members@,
                    problem_size as int,
                    chosen@[k],
                    #[trigger] offspring@[k],
                ),
    {
        let mut cuts: Vec<usize> = Vec::new();
        let mut slot: usize = 0;
        while slot < chosen.len()
            invariant
                slot <= chosen@.len(),
                problem_size >= 1,
                cuts@.len() == slot,
                forall|k: int|
                    0 <= k < cuts@.len() ==> is_cut(problem_size as int, (#[trigger] cuts@[k]) as int),
            decreases chosen@.len() - slot,
        {
            cuts.push(draw_cut(problem_size, rng));
            slot += 1;
        }
        assert forall|k: int| 0 <= k < chosen@.len() implies {
            &&& self.members@[(#[trigger] chosen@[k]).first as int].genes@.len()
                == self.members@[chosen@[k].second as int].genes@.len()
            &&& cuts@[k] <= self.members@[chosen@[k].first as int].genes@.len()
        } by {
            assert(self.members@[chosen@[k].first as int].genes@.len() == problem_size);
            assert(self.members@[chosen@[k].second as int].genes@.len() == problem_size);
            assert(is_cut(problem_size as int, cuts@[k] as int));
        }
        let offspring = self.recombine_at(chosen, &cuts);
        assert forall|k: int| 0 <= k < offspring@.len() implies is_crossed_offspring(
            self.members@,
            problem_size as int,
            chosen@[k],
            #[trigger] offspring@[k],
        ) by {
            assert(is_cut(problem_size as int, cuts@[k] as int));
            assert(is_offspring_of(self.members@, chosen@[k], cuts@[k] as int, offspring@[k]));
        }
        offspring
    }

    /// Puts the offspring in the place of the whole population. No candidate
    /// of the old generation stays.
    pub fn replace(&mut self, offspring: Vec<Individual<G>>)
        requires
            offspring@.len() == old(self).members@.len(),
        ensures
            final(self).members@ == offspring@,
            final(self).members@.len() == old(self).members@.len(),
    {
        self.members = offspring;
    }
}

/// Every gene of an offspring is the gene that one of its parents has at the
/// same index, and the offspring has as many genes as its parents.
pub proof fn lemma_offspring_genes_come_from_parents<G>(
    first: Seq<G>,
    second: Seq<G>,
    cut: int,
    index: int,
)
    requires
        first.len() == second.len(),
        0 <= cut <= first.len(),
        0 <= index < first.len(),
    ensures
        crossed(first, second, cut).len() == first.len(),
        crossed(first, second, cut)[index] == (if index < cut {
            first[index]
        } else {
            second[index]
        }),
{
}

/// A candidate rebuilt from the genes that another candidate lists is as fit
/// as the other, whatever the fitness is, as long as it depends on the genes
/// alone.
pub proof fn lemma_rebuilt_is_as_fit<G>(
    candidate: Individual<G>,
    listed: Vec<G>,
    rebuilt: Individual<G>,
    fitness: spec_fn(Seq<G>) -> Option<i64>,
)
    requires
        listed@ == candidate.genes@,
        rebuilt.genes@ == listed@,
    ensures
        fitness(rebuilt.genes@) == fitness(candidate.genes@),
{
}

} // verus!
