//! The run: generation after generation until the stop criterion holds.
//!
//! [`run`] does the whole of it and keeps the logs. [`start`] and
//! [`advance`] do it step by step, for a caller that writes each report
//! down as it is made.

use crate::config::Config;
use crate::config::ConfigurationError;
use crate::fixed::UNIT;
use crate::population::all_evaluated;
use crate::population::copy_genes;
use crate::population::crossed;
use crate::population::fitness_values;
use crate::population::gene_rows;
use crate::population::genes_of;
use crate::population::is_crossed_offspring;
use crate::population::is_cut;
use crate::population::is_generation;
use crate::population::is_offspring_of;
use crate::population::Individual;
use crate::population::Population;
use crate::random::draw_below;
use crate::rank::is_ranking;
use crate::rank::rank;
use crate::rank::ranking_of;
use crate::report::due;
use crate::report::entries_after;
use crate::report::is_due;
use crate::report::lemma_entries_grow_when_due;
use crate::report::summarizes;
use crate::report::ProgressEntry;
use crate::report::Snapshot;
use crate::selection::cup_size_of;
use crate::selection::in_cup;
use crate::selection::Parents;
use rand::rngs::SmallRng;
use vstd::prelude::*;

verus! {

/// The problem that a run works on. A candidate is a sequence of genes; the
/// problem says how one is made, how good it is, how one gene of it changes
/// and whether it is good enough.
///
/// `generate`, `fitness` and `mutate` may fail by returning `None`, which
/// ends the run. The engine takes nothing for granted of what the
/// operations return: it checks the size of what `generate` hands back, and
/// its contracts say of a gene, a fitness or a solution that it is what the
/// problem, asked with these arguments, gave.
pub trait Candidate {
    type Gene: Copy;

    /// A new random candidate of `problem_size` genes.
    fn generate(problem_size: usize, rng: &mut SmallRng) -> Option<Vec<Self::Gene>>;

    /// The fitness of a candidate, a fixed-point number; higher is better.
    /// It should depend on the genes alone: the engine computes it once and
    /// keeps it until a gene changes.
    fn fitness(genes: &Vec<Self::Gene>) -> Option<i64>;

    /// A new random value for the gene at `index`.
    fn mutate(genes: &Vec<Self::Gene>, index: usize, rng: &mut SmallRng) -> Option<Self::Gene>
        requires
            index < genes@.len(),
    ;

    /// Whether a candidate with this fitness solves the problem.
    fn is_solution(genes: &Vec<Self::Gene>, fitness: i64) -> bool;
}

/// The operation of a candidate that failed.
#[derive(Clone, Copy, Debug, PartialEq, Eq, Structural)]
pub enum CandidateOperation {
    Generate,
    Fitness,
    Mutate,
}

/// Why a run ended without a result.
#[derive(Clone, Copy, Debug, PartialEq, Eq, Structural)]
pub enum RunError {
    /// The configuration was refused; no candidate was made.
    Configuration(ConfigurationError),
    /// An operation of a candidate failed, or `generate` gave a candidate of
    /// the wrong size.
    CandidateOperationFailure(CandidateOperation),
}

/// What a run hands back.
#[derive(Debug)]
pub struct RunOutcome<G> {
    /// The genes of the candidates of the last generation that solve the
    /// problem.
    pub solutions: Vec<Vec<G>>,
    /// The number of generations made after the first.
    pub generations_run: u64,
    pub progress_log: Vec<ProgressEntry>,
    pub population_log: Vec<Snapshot<G>>,
    /// The last generation, evaluated.
    pub population: Population<G>,
}

/// The genes of the candidates of `members` whose flag is set, in the order
/// of the population.
pub open spec fn flagged<G>(members: Seq<Individual<G>>, flags: Seq<bool>) -> Seq<Seq<G>>
    decreases members.len(),
{
    if members.len() == 0 || flags.len() != members.len() {
        Seq::empty()
    } else if flags.last() {
        flagged(members.drop_last(), flags.drop_last()).push(members.last().genes@)
    } else {
        flagged(members.drop_last(), flags.drop_last())
    }
}

/// `flag` is the problem's answer to whether `member` solves it. A
/// candidate without a fitness is not asked; its flag is not set.
pub open spec fn is_answer_for<C: Candidate>(member: Individual<C::Gene>, flag: bool) -> bool {
    match member.fitness {
        Some(fitness) => call_ensures(C::is_solution, (&member.genes, fitness), flag),
        None => !flag,
    }
}

/// `flags` are the problem's answers for the candidates of `members`, one
/// for each.
pub open spec fn are_answers_for<C: Candidate>(
    members: Seq<Individual<C::Gene>>,
    flags: Seq<bool>,
) -> bool {
    &&& flags.len() == members.len()
    &&& forall|k: int| 0 <= k < members.len() ==> is_answer_for::<C>(members[k], #[trigger] flags[k])
}

/// `rows` are the genes of exactly those candidates of `members` that the
/// problem, asked about each with its fitness, said solve it, in the order
/// of the population.
pub open spec fn are_solutions_of<C: Candidate>(
    members: Seq<Individual<C::Gene>>,
    rows: Seq<Seq<C::Gene>>,
) -> bool {
    exists|flags: Seq<bool>| #[trigger]
        are_answers_for::<C>(members, flags) && flagged(members, flags) == rows
}

/// The fitness that `member` holds, if it holds one, is what the problem
/// gave for the genes beside it.
pub open spec fn holds_own_fitness<C: Candidate>(member: Individual<C::Gene>) -> bool {
    member.fitness is Some ==> call_ensures(C::fitness, (&member.genes,), member.fitness)
}

/// Every fitness that `members` hold belongs to the genes beside it.
pub open spec fn cache_is_consistent<C: Candidate>(members: Seq<Individual<C::Gene>>) -> bool {
    forall|k: int| 0 <= k < members.len() ==> holds_own_fitness::<C>(#[trigger] members[k])
}

/// `member` has no fitness, and the problem gave none for its genes.
pub open spec fn failed_fitness<C: Candidate>(member: Individual<C::Gene>) -> bool {
    member.fitness is None && call_ensures(C::fitness, (&member.genes,), None::<i64>)
}

/// `after` is what an evaluation makes of `before`: the same candidates with
/// the same genes, each fitness that was there before still there, and each
/// new one what the problem gave for the candidate's genes.
pub open spec fn is_evaluation_of<C: Candidate>(
    before: Seq<Individual<C::Gene>>,
    after: Seq<Individual<C::Gene>>,
) -> bool {
    &&& after.len() == before.len()
    &&& forall|k: int| 0 <= k < before.len() ==> (#[trigger] after[k]).genes == before[k].genes
    &&& forall|k: int|
        0 <= k < before.len() && (#[trigger] before[k]).fitness is Some ==> after[k] == before[k]
    &&& forall|k: int|
        0 <= k < before.len() && (#[trigger] before[k]).fitness is None ==> holds_own_fitness::<C>(
            after[k],
        )
}

/// Some candidate of `members` has `gene` at `index`.
pub open spec fn has_gene_at<G>(members: Seq<Individual<G>>, index: int, gene: G) -> bool {
    exists|k: int|
        0 <= k < members.len() && 0 <= index < (#[trigger] members[k]).genes@.len()
            && members[k].genes@[index] == gene
}

/// Every gene of every candidate of `later` stands at the same index in some
/// candidate of `earlier`.
pub open spec fn inherits_genes<G>(earlier: Seq<Individual<G>>, later: Seq<Individual<G>>) -> bool {
    forall|k: int, index: int|
        0 <= k < later.len() && 0 <= index < later[k].genes@.len() ==> has_gene_at(
            earlier,
            index,
            #[trigger] later[k].genes@[index],
        )
}

/// `genes` are those of an offspring of two candidates of `members` that
/// both stand among the first `cup` of `ranking`.
pub open spec fn is_bred_from_cup<G>(
    members: Seq<Individual<G>>,
    problem_size: int,
    ranking: Seq<usize>,
    cup: int,
    genes: Seq<G>,
) -> bool {
    exists|first: usize, second: usize, cut: int|
        in_cup(ranking, cup, first) && in_cup(ranking, cup, second) && is_cut(problem_size, cut)
            && genes == #[trigger] crossed(
            members[first as int].genes@,
            members[second as int].genes@,
            cut,
        )
}

/// Every candidate of `later` is an offspring, not mutated, of two
/// candidates from the cup of `earlier`, whose size follows from
/// `selection_rate`.
pub open spec fn is_unmutated_offspring_of<G>(
    earlier: Seq<Individual<G>>,
    problem_size: int,
    selection_rate: int,
    later: Seq<Individual<G>>,
) -> bool {
    forall|k: int|
        0 <= k < later.len() ==> is_bred_from_cup(
            earlier,
            problem_size,
            ranking_of(fitness_values(earlier)),
            cup_size_of(selection_rate, earlier.len() as int),
            #[trigger] later[k].genes@,
        )
}

/// Whether a gene is mutated, given the mutation rate and a number drawn
/// evenly from the numbers below `UNIT`: with probability
/// `rate / UNIT`.
pub fn mutation_due(rate: i64, drawn: usize) -> (due: bool)
    requires
        drawn < UNIT,
    ensures
        due == (drawn < rate),
{
    (drawn as i64) < rate
}

/// The genes of the candidates whose flag is set.
pub fn keep_flagged<G: Copy>(population: &Population<G>, flags: &Vec<bool>) -> (kept: Vec<Vec<G>>)
    requires
        flags@.len() == population.members@.len(),
    ensures
        gene_rows(kept@) == flagged(population.members@, flags@),
{
    let mut kept: Vec<Vec<G>> = Vec::new();
    let mut slot: usize = 0;
    assert(gene_rows(kept@) =~= flagged(
        population.members@.subrange(0, 0),
        flags@.subrange(0, 0),
    ));
    while slot < flags.len()
        invariant
            slot <= flags@.len(),
            flags@.len() == population.members@.len(),
            gene_rows(kept@) == flagged(
                population.members@.subrange(0, slot as int),
                flags@.subrange(0, slot as int),
            ),
        decreases flags@.len() - slot,
    {
        let ghost seen = population.members@.subrange(0, slot as int);
        let ghost grown = population.members@.subrange(0, slot + 1);
        let ghost kept_before = kept@;
        proof {
            assert(grown.drop_last() =~= seen);
            assert(flags@.subrange(0, slot + 1).drop_last() =~= flags@.subrange(0, slot as int));
        }
        if flags[slot] {
            kept.push(copy_genes(&population.members[slot].genes));
            assert(gene_rows(kept@) =~= gene_rows(kept_before).push(
                population.members@[slot as int].genes@,
            ));
        }
        slot += 1;
    }
    assert(population.members@.subrange(0, slot as int) =~= population.members@);
    assert(flags@.subrange(0, slot as int) =~= flags@);
    kept
}

/// The problem, asked for a candidate of `problem_size` genes, made `made`.
pub open spec fn was_generated<C: Candidate>(problem_size: usize, made: Option<Vec<C::Gene>>) -> bool {
    exists|rng: &mut SmallRng| #[trigger] call_ensures(C::generate, (problem_size, rng), made)
}

/// Admits what the problem made as a member of the first generation: a
/// candidate of `problem_size` genes is taken in, not yet evaluated; none,
/// or one of another size, is a failure of `generate`.
pub fn admitted<G: Copy>(made: Option<Vec<G>>, problem_size: usize) -> (member: Result<
    Individual<G>,
    RunError,
>)
    ensures
        member is Ok <==> made is Some && made->Some_0@.len() == problem_size,
        member matches Ok(individual) ==> individual.genes == made->Some_0
            && individual.fitness is None,
        member matches Err(error) ==> error == RunError::CandidateOperationFailure(
            CandidateOperation::Generate,
        ),
{
    match made {
        Some(genes) => {
            if genes.len() == problem_size {
                Ok(Individual::from_genes(genes))
            } else {
                Err(RunError::CandidateOperationFailure(CandidateOperation::Generate))
            }
        },
        None => Err(RunError::CandidateOperationFailure(CandidateOperation::Generate)),
    }
}

/// Makes the first generation: `population_size` new candidates, none of
/// them evaluated.
pub fn spawn<C: Candidate>(population_size: usize, problem_size: usize, rng: &mut SmallRng) -> (made:
    Result<Population<C::Gene>, RunError>)
    ensures
        made matches Ok(population) ==> {
            &&& population.well_formed(population_size, problem_size)
            &&& forall|k: int|
                0 <= k < population.members@.len() ==> {
                    &&& (#[trigger] population.members@[k]).fitness is None
                    &&& was_generated::<C>(problem_size, Some(population.members@[k].genes))
                }
        },
        made matches Err(error) ==> error == RunError::CandidateOperationFailure(
            CandidateOperation::Generate,
        ),
        made is Err ==> generation_failed::<C>(problem_size),
        population_size == 0 ==> made is Ok,
{
    let mut members: Vec<Individual<C::Gene>> = Vec::new();
    let mut slot: usize = 0;
    while slot < population_size
        invariant
            slot <= population_size,
            is_generation(members@, slot as int, problem_size as int),
            forall|k: int|
                0 <= k < members@.len() ==> {
                    &&& (#[trigger] members@[k]).fitness is None
                    &&& was_generated::<C>(problem_size, Some(members@[k].genes))
                },
        decreases population_size - slot,
    {
        let generated: Option<Vec<C::Gene>> = C::generate(problem_size, rng);
        assert(was_generated::<C>(problem_size, generated));
        match admitted(generated, problem_size) {
            Ok(member) => {
                assert(Some(member.genes) == generated);
                members.push(member);
            },
            Err(error) => {
                return Err(error);
            },
        }
        slot += 1;
    }
    Ok(Population { members })
}

/// Computes the fitness of every candidate that has none. A candidate that
/// has one keeps it, so evaluating a second time changes nothing.
pub fn evaluate<C: Candidate>(population: &mut Population<C::Gene>) -> (done: Result<(), RunError>)
    ensures
        is_evaluation_of::<C>(old(population).members@, final(population).members@),
        cache_is_consistent::<C>(old(population).members@) ==> cache_is_consistent::<C>(
            final(population).members@,
        ),
        done is Ok <==> all_evaluated(final(population).members@),
        all_evaluated(old(population).members@) ==> done is Ok,
        done is Err ==> exists|k: int|
            0 <= k < old(population).members@.len() && failed_fitness::<C>(
                #[trigger] old(population).members@[k],
            ) && final(population).members@[k] == old(population).members@[k],
        done matches Err(error) ==> error == RunError::CandidateOperationFailure(
            CandidateOperation::Fitness,
        ),
{
    let mut slot: usize = 0;
    while slot < population.members.len()
        invariant
            slot <= population.members@.len(),
            population.members@.len() == old(population).members@.len(),
            forall|k: int|
                0 <= k < old(population).members@.len() ==> (#[trigger] population.members@[k]).genes
                    == old(population).members@[k].genes,
            forall|k: int|
                0 <= k < slot && (#[trigger] old(population).members@[k]).fitness is None
                    ==> holds_own_fitness::<C>(population.members@[k]),
            forall|k: int|
                0 <= k < old(population).members@.len() && (#[trigger] old(population).members@[k]).fitness
                    is Some ==> population.members@[k] == old(population).members@[k],
            forall|k: int|
                slot <= k < old(population).members@.len() ==> (#[trigger] population.members@[k])
                    == old(population).members@[k],
            forall|k: int| 0 <= k < slot ==> (#[trigger] population.members@[k]).fitness is Some,
        decreases population.members@.len() - slot,
    {
        if population.members[slot].fitness.is_none() {
            match C::fitness(&population.members[slot].genes) {
                Some(value) => {
                    population.members[slot].record_fitness(value);
                },
                None => {
                    assert(population.members@[slot as int].fitness is None);
                    assert(failed_fitness::<C>(old(population).members@[slot as int]));
                    proof {
                        lemma_evaluation_keeps_consistency::<C>(
                            old(population).members@,
                            population.members@,
                        );
                    }
                    return Err(RunError::CandidateOperationFailure(CandidateOperation::Fitness));
                },
            }
        }
        slot += 1;
    }
    proof {
        lemma_evaluation_keeps_consistency::<C>(old(population).members@, population.members@);
    }
    Ok(())
}

/// The problem, asked for a new value of the gene at `index` of a candidate
/// with the genes `genes`, gave `gene`.
pub open spec fn was_mutated_to<C: Candidate>(
    genes: Seq<C::Gene>,
    index: usize,
    gene: Option<C::Gene>,
) -> bool {
    exists|asked: Vec<C::Gene>, rng: &mut SmallRng|
        asked@ == genes && #[trigger] call_ensures(C::mutate, (&asked, index, rng), gene)
}

/// The genes of a candidate at the moment at which its gene at `index` is
/// looked at: the genes before it are as mutation leaves them, the others
/// as they were.
pub open spec fn genes_when_asked<G>(before: Seq<G>, after: Seq<G>, index: int) -> Seq<G> {
    after.subrange(0, index) + before.subrange(index, before.len() as int)
}

/// The gene at `index` is as mutation at the rate `rate` may leave it: as
/// it was, or the value that the problem gave for it. At a rate of zero or
/// less it is as it was; at a rate of one or more it is what the problem
/// gave.
pub open spec fn is_gene_after_mutation<C: Candidate>(
    before: Seq<C::Gene>,
    after: Seq<C::Gene>,
    rate: int,
    index: int,
) -> bool {
    ||| rate < UNIT && after[index] == before[index]
    ||| rate > 0 && was_mutated_to::<C>(
        genes_when_asked(before, after, index),
        index as usize,
        Some(after[index]),
    )
}

/// The genes `after` are what mutation at the rate `rate`, gene by gene
/// from the first, may make of the genes `before`.
pub open spec fn is_mutation_of<C: Candidate>(
    before: Seq<C::Gene>,
    after: Seq<C::Gene>,
    rate: int,
) -> bool {
    &&& after.len() == before.len()
    &&& forall|index: int|
        0 <= index < after.len() ==> #[trigger] is_gene_after_mutation::<C>(
            before,
            after,
            rate,
            index,
        )
}

/// The problem, asked for a new value of a gene of a candidate of `size`
/// genes, gave none.
pub open spec fn mutation_failed<C: Candidate>(size: int) -> bool {
    exists|asked: Vec<C::Gene>, index: usize, rng: &mut SmallRng|
        asked@.len() == size && index < size && #[trigger] call_ensures(
            C::mutate,
            (&asked, index, rng),
            None::<C::Gene>,
        )
}

/// Looks at one gene of a candidate with the number `drawn` for it, one of
/// the numbers below `UNIT`. A draw below the rate mutates the gene: the
/// problem is asked for a new value, which takes its place, and the
/// candidate loses its fitness. Any other draw leaves the candidate as it
/// is, and so does a problem that gives no value.
pub fn mutate_gene<C: Candidate>(
    candidate: &mut Individual<C::Gene>,
    index: usize,
    rate: i64,
    drawn: usize,
    rng: &mut SmallRng,
) -> (done: Result<(), RunError>)
    requires
        index < old(candidate).genes@.len(),
        drawn < UNIT,
    ensures
        drawn >= rate ==> done is Ok && *final(candidate) == *old(candidate),
        drawn < rate && done is Ok ==> exists|gene: C::Gene| #[trigger]
            was_mutated_to::<C>(old(candidate).genes@, index, Some(gene)) && final(candidate).genes@ == old(candidate).genes@.update(index as int, gene) && final(candidate).fitness is None,
        done is Err ==> drawn < rate && *final(candidate) == *old(candidate)
            && was_mutated_to::<C>(old(candidate).genes@, index, None::<C::Gene>),
        done matches Err(error) ==> error == RunError::CandidateOperationFailure(
            CandidateOperation::Mutate,
        ),
{
    if mutation_due(rate, drawn) {
        let ghost asked = candidate.genes;
        let given: Option<C::Gene> = C::mutate(&candidate.genes, index, rng);
        assert(was_mutated_to::<C>(asked@, index, given));
        match given {
            Some(gene) => {
                candidate.set_gene(index, gene);
                Ok(())
            },
            None => Err(RunError::CandidateOperationFailure(CandidateOperation::Mutate)),
        }
    } else {
        Ok(())
    }
}

/// Mutates one candidate: every gene of it, from the first, is replaced,
/// with the probability that `rate` stands for, by the value that the
/// problem gives for it. A candidate that was changed loses its fitness.
pub fn mutate_candidate<C: Candidate>(
    candidate: &mut Individual<C::Gene>,
    rate: i64,
    rng: &mut SmallRng,
) -> (done: Result<(), RunError>)
    ensures
        final(candidate).genes@.len() == old(candidate).genes@.len(),
        *final(candidate) == *old(candidate) || final(candidate).fitness is None,
        rate <= 0 ==> done is Ok && *final(candidate) == *old(candidate),
        done is Ok ==> is_mutation_of::<C>(
            old(candidate).genes@,
            final(candidate).genes@,
            rate as int,
        ),
        rate >= UNIT && done is Ok && old(candidate).genes@.len() > 0 ==> final(candidate).fitness is None,
        done is Err ==> mutation_failed::<C>(old(candidate).genes@.len() as int),
        done matches Err(error) ==> error == RunError::CandidateOperationFailure(
            CandidateOperation::Mutate,
        ),
{
    let ghost before = candidate.genes@;
    let size: usize = candidate.genes.len();
    let mut index: usize = 0;
    while index < size
        invariant
            index <= size,
            size == before.len(),
            before == old(candidate).genes@,
            candidate.genes@.len() == before.len(),
            *candidate == *old(candidate) || candidate.fitness is None,
            rate <= 0 ==> *candidate == *old(candidate),
            rate >= UNIT && index > 0 ==> candidate.fitness is None,
            forall|j: int| index <= j < size ==> candidate.genes@[j] == before[j],
            forall|j: int|
                0 <= j < index ==> #[trigger] is_gene_after_mutation::<C>(
                    before,
                    candidate.genes@,
                    rate as int,
                    j,
                ),
        decreases size - index,
    {
        let ghost current = candidate.genes@;
        let drawn: usize = draw_below(rng, UNIT as usize);
        match mutate_gene::<C>(candidate, index, rate, drawn, rng) {
            Ok(_) => {
                proof {
                    if drawn < rate {
                        lemma_mutation_so_far::<C>(
                            before,
                            current,
                            candidate.genes@,
                            rate as int,
                            index as int,
                        );
                    }
                }
            },
            Err(error) => {
                assert(mutation_failed::<C>(size as int)) by {
                    let (asked, asked_rng) = choose|asked: Vec<C::Gene>, asked_rng: &mut SmallRng|
                        asked@ == current && #[trigger] call_ensures(
                            C::mutate,
                            (&asked, index, asked_rng),
                            None::<C::Gene>,
                        );
                    assert(asked@.len() == size);
                }
                return Err(error);
            },
        }
        index += 1;
    }
    Ok(())
}

/// Replacing the gene at `index` by what the problem gave for it leaves
/// the genes before it as mutation left them.
proof fn lemma_mutation_so_far<C: Candidate>(
    before: Seq<C::Gene>,
    current: Seq<C::Gene>,
    after: Seq<C::Gene>,
    rate: int,
    index: int,
)
    requires
        0 <= index < before.len(),
        current.len() == before.len(),
        after == current.update(index, after[index]),
        rate > 0,
        forall|j: int| index <= j < before.len() ==> current[j] == before[j],
        forall|j: int|
            0 <= j < index ==> #[trigger] is_gene_after_mutation::<C>(before, current, rate, j),
        was_mutated_to::<C>(current, index as usize, Some(after[index])),
    ensures
        forall|j: int|
            0 <= j <= index ==> #[trigger] is_gene_after_mutation::<C>(before, after, rate, j),
{
    assert forall|j: int| 0 <= j <= index implies #[trigger] is_gene_after_mutation::<C>(
        before,
        after,
        rate,
        j,
    ) by {
        if j < index {
            assert(is_gene_after_mutation::<C>(before, current, rate, j));
            assert(genes_when_asked(before, after, j) =~= genes_when_asked(before, current, j));
            assert(after[j] == current[j]);
        } else {
            assert(genes_when_asked(before, after, index) =~= current);
        }
    }
}

/// Mutates the offspring, one candidate after the other.
pub fn mutate<C: Candidate>(
    offspring: &mut Vec<Individual<C::Gene>>,
    rate: i64,
    rng: &mut SmallRng,
) -> (done: Result<(), RunError>)
    ensures
        final(offspring)@.len() == old(offspring)@.len(),
        forall|k: int|
            0 <= k < old(offspring)@.len() ==> {
                &&& (#[trigger] final(offspring)@[k]).genes@.len() == old(offspring)@[k].genes@.len()
                &&& final(offspring)@[k] == old(offspring)@[k] || final(offspring)@[k].fitness is None
            },
        rate <= 0 ==> done is Ok && final(offspring)@ == old(offspring)@,
        done is Ok ==> forall|k: int|
            0 <= k < old(offspring)@.len() ==> is_mutation_of::<C>(
                old(offspring)@[k].genes@,
                (#[trigger] final(offspring)@[k]).genes@,
                rate as int,
            ),
        rate >= UNIT && done is Ok ==> forall|k: int|
            0 <= k < old(offspring)@.len() && old(offspring)@[k].genes@.len() > 0 ==> (
            #[trigger] final(offspring)@[k]).fitness is None,
        done is Err ==> exists|k: int|
            0 <= k < old(offspring)@.len() && mutation_failed::<C>(
                (#[trigger] old(offspring)@[k]).genes@.len() as int,
            ),
        done matches Err(error) ==> error == RunError::CandidateOperationFailure(
            CandidateOperation::Mutate,
        ),
{
    let mut slot: usize = 0;
    while slot < offspring.len()
        invariant
            slot <= offspring@.len(),
            offspring@.len() == old(offspring)@.len(),
            forall|k: int|
                0 <= k < old(offspring)@.len() ==> {
                    &&& (#[trigger] offspring@[k]).genes@.len() == old(offspring)@[k].genes@.len()
                    &&& offspring@[k] == old(offspring)@[k] || offspring@[k].fitness is None
                },
            forall|k: int|
                slot <= k < old(offspring)@.len() ==> (#[trigger] offspring@[k]) == old(offspring)@[k],
            rate <= 0 ==> offspring@ == old(offspring)@,
            forall|k: int|
                0 <= k < slot ==> is_mutation_of::<C>(
                    old(offspring)@[k].genes@,
                    (#[trigger] offspring@[k]).genes@,
                    rate as int,
                ),
            rate >= UNIT ==> forall|k: int|
                0 <= k < slot && old(offspring)@[k].genes@.len() > 0 ==> (
                #[trigger] offspring@[k]).fitness is None,
        decreases offspring@.len() - slot,
    {
        let ghost entered = offspring@;
        match mutate_candidate::<C>(&mut offspring[slot], rate, rng) {
            Ok(_) => {},
            Err(error) => {
                assert(mutation_failed::<C>(old(offspring)@[slot as int].genes@.len() as int));
                return Err(error);
            },
        }
        assert(offspring@ =~= entered.update(slot as int, offspring@[slot as int]));
        if rate <= 0 {
            assert(offspring@ =~= old(offspring)@);
        }
        slot += 1;
    }
    Ok(())
}

/// The genes of the candidates that solve the problem, in the order of the
/// population.
pub fn solutions<C: Candidate>(population: &Population<C::Gene>) -> (found: Vec<Vec<C::Gene>>)
    ensures
        are_solutions_of::<C>(population.members@, gene_rows(found@)),
{
    let mut flags: Vec<bool> = Vec::new();
    let mut slot: usize = 0;
    while slot < population.members.len()
        invariant
            slot <= population.members@.len(),
            flags@.len() == slot,
            forall|k: int|
                0 <= k < slot ==> is_answer_for::<C>(population.members@[k], #[trigger] flags@[k]),
        decreases population.members@.len() - slot,
    {
        let flag: bool = match population.members[slot].fitness {
            Some(fitness) => C::is_solution(&population.members[slot].genes, fitness),
            None => false,
        };
        flags.push(flag);
        slot += 1;
    }
    let found = keep_flagged(population, &flags);
    assert(are_answers_for::<C>(population.members@, flags@));
    found
}

/// `genes` are those of an offspring of two candidates from the cup of
/// `members`, mutated at the rate `mutation_rate`.
pub open spec fn is_bred_and_mutated<C: Candidate>(
    members: Seq<Individual<C::Gene>>,
    problem_size: int,
    ranking: Seq<usize>,
    cup: int,
    mutation_rate: int,
    genes: Seq<C::Gene>,
) -> bool {
    exists|bred: Seq<C::Gene>|
        is_bred_from_cup(members, problem_size, ranking, cup, bred) && #[trigger] is_mutation_of::<C>(
            bred,
            genes,
            mutation_rate,
        )
}

/// Every candidate of `later` is an offspring of two candidates from the
/// cup of `earlier`, whose size follows from `selection_rate`, mutated at
/// the rate `mutation_rate`.
pub open spec fn is_offspring_generation<C: Candidate>(
    earlier: Seq<Individual<C::Gene>>,
    problem_size: int,
    selection_rate: int,
    mutation_rate: int,
    later: Seq<Individual<C::Gene>>,
) -> bool {
    forall|k: int|
        0 <= k < later.len() ==> is_bred_and_mutated::<C>(
            earlier,
            problem_size,
            ranking_of(fitness_values(earlier)),
            cup_size_of(selection_rate, earlier.len() as int),
            mutation_rate,
            #[trigger] later[k].genes@,
        )
}

/// `after` and `done` are what making generation `generation` with `config`
/// leaves of the population `before`.
///
/// Whatever happens, the population keeps its size and its candidates their
/// number of genes, and a fitness that it holds belongs to the genes beside
/// it. A failed mutation, where the problem gave no value for a gene,
/// leaves the population as it was. Otherwise every new candidate is an
/// offspring of two candidates from the cup, mutated at the rate of the
/// generation; a failed evaluation leaves one of them without a fitness,
/// the problem having given none. With a mutation rate of zero or less no
/// mutation can fail and no offspring is mutated.
pub open spec fn is_next_generation_of<C: Candidate>(
    config: Config,
    generation: u64,
    before: Population<C::Gene>,
    after: Population<C::Gene>,
    done: Result<(), RunError>,
) -> bool {
    let failed_mutation = Err::<(), RunError>(
        RunError::CandidateOperationFailure(CandidateOperation::Mutate),
    );
    let failed_evaluation = Err::<(), RunError>(
        RunError::CandidateOperationFailure(CandidateOperation::Fitness),
    );
    &&& after.well_formed(config.population_size, config.problem_size)
    &&& done is Ok ==> all_evaluated(after.members@)
    &&& done is Err ==> done == failed_mutation || done == failed_evaluation
    &&& done == failed_mutation ==> after == before && mutation_failed::<C>(
        config.problem_size as int,
    )
    &&& done != failed_mutation ==> is_offspring_generation::<C>(
        before.members@,
        config.problem_size as int,
        config.selection_rate_schedule.value_at(generation as int),
        config.mutation_rate_schedule.value_at(generation as int),
        after.members@,
    )
    &&& done == failed_evaluation ==> exists|k: int|
        0 <= k < after.members@.len() && failed_fitness::<C>(#[trigger] after.members@[k])
    &&& done == failed_mutation || cache_is_consistent::<C>(after.members@)
    &&& cache_is_consistent::<C>(before.members@) ==> cache_is_consistent::<C>(after.members@)
    &&& config.mutation_rate_schedule.value_at(generation as int) <= 0 ==> {
        &&& done != failed_mutation
        &&& inherits_genes(before.members@, after.members@)
        &&& is_unmutated_offspring_of(
            before.members@,
            config.problem_size as int,
            config.selection_rate_schedule.value_at(generation as int),
            after.members@,
        )
    }
}

/// Makes generation `generation` from the one before it: ranks the
/// population, chooses parents, makes and mutates their offspring, puts
/// them in the place of the population and evaluates them. The rates are
/// those of `generation`.
///
/// Whatever happens, the population keeps its size and its candidates their
/// number of genes. If a mutation fails the population is left as it was;
/// if an evaluation fails it holds the new generation, not all of it
/// evaluated.
pub fn next_generation<C: Candidate>(
    population: &mut Population<C::Gene>,
    config: &Config,
    generation: u64,
    rng: &mut SmallRng,
) -> (done: Result<(), RunError>)
    requires
        config.valid(),
        old(population).well_formed(config.population_size, config.problem_size),
        all_evaluated(old(population).members@),
    ensures
        is_next_generation_of::<C>(*config, generation, *old(population), *final(population), done),
{
    let mutation_rate: i64 = config.mutation_rate_schedule.value(generation);
    let selection_rate: i64 = config.selection_rate_schedule.value(generation);
    let fitness: Vec<i64> = population.fitnesses();
    let ranking: Vec<usize> = rank(&fitness);
    let chosen: Vec<Parents> = config.selection_function.select(&ranking, selection_rate, rng);
    proof {
        lemma_chosen_are_members(fitness@, ranking@, selection_rate, chosen@);
    }
    let mut offspring: Vec<Individual<C::Gene>> = population.recombine(
        &chosen,
        config.problem_size,
        rng,
    );
    proof {
        lemma_offspring_are_a_generation(
            population.members@,
            config.problem_size as int,
            chosen@,
            offspring@,
        );
    }
    let ghost bred = offspring@;
    proof {
        lemma_bred_from_cup(
            population.members@,
            config.problem_size as int,
            ranking@,
            selection_rate as int,
            chosen@,
            bred,
            bred,
        );
    }
    match mutate::<C>(&mut offspring, mutation_rate, rng) {
        Ok(_) => {},
        Err(error) => {
            proof {
                let k = choose|k: int|
                    0 <= k < bred.len() && mutation_failed::<C>(
                        (#[trigger] bred[k]).genes@.len() as int,
                    );
                assert(bred[k].genes@.len() == config.problem_size);
            }
            return Err(error);
        },
    }
    let ghost mutated = offspring@;
    population.replace(offspring);
    let ghost replaced = population.members@;
    assert(cache_is_consistent::<C>(replaced)) by {
        assert forall|k: int| 0 <= k < replaced.len() implies (#[trigger] replaced[k]).fitness is None by {
            assert(bred[k].fitness is None);
        }
    }
    let done = evaluate::<C>(population);
    proof {
        if done is Err {
            let k = choose|k: int|
                0 <= k < replaced.len() && failed_fitness::<C>(#[trigger] replaced[k])
                    && population.members@[k] == replaced[k];
            assert(failed_fitness::<C>(population.members@[k]));
        }
        assert forall|k: int| 0 <= k < population.members@.len() implies is_bred_and_mutated::<C>(
            old(population).members@,
            config.problem_size as int,
            ranking_of(fitness_values(old(population).members@)),
            cup_size_of(selection_rate as int, old(population).members@.len() as int),
            mutation_rate as int,
            #[trigger] population.members@[k].genes@,
        ) by {
            assert(is_mutation_of::<C>(bred[k].genes@, mutated[k].genes@, mutation_rate as int));
            assert(population.members@[k].genes == mutated[k].genes);
            assert(is_bred_from_cup(
                old(population).members@,
                config.problem_size as int,
                ranking_of(fitness_values(old(population).members@)),
                cup_size_of(selection_rate as int, old(population).members@.len() as int),
                bred[k].genes@,
            ));
        }
        if mutation_rate <= 0 {
            lemma_bred_from_cup(
                old(population).members@,
                config.problem_size as int,
                ranking@,
                selection_rate as int,
                chosen@,
                bred,
                population.members@,
            );
        }
    }
    done
}

/// `log` is the progress log of a run that has made `generation`
/// generations: one entry for every `interval` generations so far, each
/// with the rates of its generation.
pub open spec fn is_progress_log(config: Config, log: Seq<ProgressEntry>, generation: u64) -> bool {
    &&& log.len() == entries_after(config.progress_log_interval, generation)
    &&& forall|k: int|
        0 <= k < log.len() ==> {
            let entry = #[trigger] log[k];
            &&& entry.generation == (k + 1) * config.progress_log_interval
            &&& entry.mutation_rate == config.mutation_rate_schedule.value_at(entry.generation as int)
            &&& entry.selection_rate == config.selection_rate_schedule.value_at(
                entry.generation as int,
            )
            &&& entry.worst <= entry.mean <= entry.best
        }
}

/// `log` is the population log of a run that has made `generation`
/// generations: one whole generation for every `interval` generations so
/// far.
pub open spec fn is_population_log<G>(config: Config, log: Seq<Snapshot<G>>, generation: u64) -> bool {
    &&& log.len() == entries_after(config.population_log_interval, generation)
    &&& forall|k: int|
        0 <= k < log.len() ==> {
            let snapshot = #[trigger] log[k];
            &&& snapshot.generation == (k + 1) * config.population_log_interval
            &&& snapshot.candidates@.len() == config.population_size
            &&& forall|c: int|
                0 <= c < snapshot.candidates@.len() ==> (#[trigger] snapshot.candidates@[c])@.len()
                    == config.problem_size
        }
}

/// What one generation adds to the logs.
#[derive(Debug)]
pub struct Report<G> {
    /// The row of the progress log, where the generation has one.
    pub progress: Option<ProgressEntry>,
    /// The generation for the population log, where it is recorded.
    pub population: Option<Snapshot<G>>,
}

/// `made` is the report of generation `generation`, whose candidates are
/// `members`: a progress entry that summarises them, with the rates of the
/// generation, and their genes, each exactly where its log is due.
pub open spec fn is_report_of<G>(
    config: Config,
    members: Seq<Individual<G>>,
    generation: u64,
    made: Report<G>,
) -> bool {
    &&& made.progress is Some <==> is_due(config.progress_log_interval, generation)
    &&& made.progress matches Some(entry) ==> {
        &&& entry.generation == generation
        &&& entry.mutation_rate == config.mutation_rate_schedule.value_at(generation as int)
        &&& entry.selection_rate == config.selection_rate_schedule.value_at(generation as int)
        &&& summarizes(entry, fitness_values(members))
        &&& entry.worst <= entry.mean <= entry.best
    }
    &&& made.population is Some <==> is_due(config.population_log_interval, generation)
    &&& made.population matches Some(snapshot) ==> {
        &&& snapshot.generation == generation
        &&& gene_rows(snapshot.candidates@) == genes_of(members)
    }
}

/// Makes the report of a generation.
pub fn report<G: Copy>(config: &Config, population: &Population<G>, generation: u64) -> (made:
    Report<G>)
    requires
        population.members@.len() > 0,
        all_evaluated(population.members@),
    ensures
        is_report_of(*config, population.members@, generation, made),
{
    let progress: Option<ProgressEntry> = if due(config.progress_log_interval, generation) {
        let fitness: Vec<i64> = population.fitnesses();
        let mutation_rate: i64 = config.mutation_rate_schedule.value(generation);
        let selection_rate: i64 = config.selection_rate_schedule.value(generation);
        Some(ProgressEntry::of(generation, &fitness, mutation_rate, selection_rate))
    } else {
        None
    };
    let snapshot: Option<Snapshot<G>> = if due(config.population_log_interval, generation) {
        Some(Snapshot { generation, candidates: population.snapshot() })
    } else {
        None
    };
    Report { progress, population: snapshot }
}

/// A run in progress: the configuration, the population of the generation
/// that was made last, evaluated, and the number of that generation.
#[derive(Debug)]
pub struct Search<G> {
    pub config: Config,
    pub population: Population<G>,
    /// The number of generations made after the first.
    pub generation: u64,
}

impl<G: Copy> Search<G> {
    /// The run can go on from here.
    pub open spec fn well_formed(&self) -> bool {
        &&& self.config.valid()
        &&& self.population.well_formed(self.config.population_size, self.config.problem_size)
        &&& all_evaluated(self.population.members@)
        &&& self.generation <= self.config.stop_criterion.generations()
    }

    /// Whether the stop criterion holds.
    pub fn finished(&self) -> (over: bool)
        ensures
            over == self.config.stop_criterion.stops_at(self.generation),
    {
        self.config.stop_criterion.should_stop(self.generation)
    }
}

/// The problem, asked for a candidate of `problem_size` genes, made none or
/// one of another size.
pub open spec fn generation_failed<C: Candidate>(problem_size: usize) -> bool {
    exists|refused: Option<Vec<C::Gene>>| #[trigger]
        was_generated::<C>(problem_size, refused) && !(refused is Some
            && refused->Some_0@.len() == problem_size)
}

/// The problem, asked for the fitness of a candidate of `size` genes, gave
/// none.
pub open spec fn fitness_failed<C: Candidate>(size: int) -> bool {
    exists|asked: Vec<C::Gene>|
        asked@.len() == size && #[trigger] call_ensures(C::fitness, (&asked,), None::<i64>)
}

/// `error` is a ground on which a run with `config` ends without a result:
/// a fault of the configuration, or an operation of a candidate that the
/// problem was asked for and failed at.
pub open spec fn is_failure_of<C: Candidate>(config: Config, error: RunError) -> bool {
    match error {
        RunError::Configuration(fault) => config.fault() == Some(fault),
        RunError::CandidateOperationFailure(CandidateOperation::Generate) => config.valid()
            && generation_failed::<C>(config.problem_size),
        RunError::CandidateOperationFailure(CandidateOperation::Fitness) => config.valid()
            && fitness_failed::<C>(config.problem_size as int),
        RunError::CandidateOperationFailure(CandidateOperation::Mutate) => config.valid()
            && mutation_failed::<C>(config.problem_size as int),
    }
}

/// Every candidate of `members` is one that the problem made when asked
/// for a candidate of `problem_size` genes.
pub open spec fn is_first_generation<C: Candidate>(
    problem_size: usize,
    members: Seq<Individual<C::Gene>>,
) -> bool {
    forall|k: int|
        0 <= k < members.len() ==> was_generated::<C>(
            problem_size,
            Some((#[trigger] members[k]).genes),
        )
}

/// Starts a run: checks the configuration, before any candidate is made,
/// then makes and evaluates the first generation.
pub fn start<C: Candidate>(config: &Config, rng: &mut SmallRng) -> (made: Result<
    Search<C::Gene>,
    RunError,
>)
    ensures
        !config.valid() ==> (made matches Err(RunError::Configuration(fault)) && config.fault()
            == Some(fault)),
        config.valid() ==> !(made matches Err(RunError::Configuration(_))),
        made matches Err(error) ==> is_failure_of::<C>(*config, error),
        made matches Ok(search) ==> {
            &&& search.config == *config
            &&& search.generation == 0
            &&& search.well_formed()
            &&& cache_is_consistent::<C>(search.population.members@)
            &&& is_first_generation::<C>(config.problem_size, search.population.members@)
        },
{
    match config.validate() {
        Err(fault) => {
            return Err(RunError::Configuration(fault));
        },
        Ok(_) => {},
    }
    let mut population: Population<C::Gene> = match spawn::<C>(
        config.population_size,
        config.problem_size,
        rng,
    ) {
        Ok(population) => population,
        Err(error) => {
            return Err(error);
        },
    };
    let ghost made = population.members@;
    match evaluate::<C>(&mut population) {
        Ok(_) => {},
        Err(error) => {
            proof {
                let k = choose|k: int|
                    0 <= k < made.len() && failed_fitness::<C>(#[trigger] made[k])
                        && population.members@[k] == made[k];
                assert(made[k].genes@.len() == config.problem_size);
            }
            return Err(error);
        },
    }
    Ok(Search { config: *config, population, generation: 0 })
}

/// `made` without its report.
pub open spec fn without_report<G>(made: Result<Report<G>, RunError>) -> Result<(), RunError> {
    match made {
        Ok(_) => Ok(()),
        Err(error) => Err(error),
    }
}

/// Makes the next generation of a run that is not over, puts it in the
/// place of the population and reports it. Where a candidate operation
/// fails, the generation is not counted.
pub fn advance<C: Candidate>(search: &mut Search<C::Gene>, rng: &mut SmallRng) -> (made: Result<
    Report<C::Gene>,
    RunError,
>)
    requires
        old(search).well_formed(),
        !old(search).config.stop_criterion.stops_at(old(search).generation),
    ensures
        final(search).config == old(search).config,
        is_next_generation_of::<C>(
            old(search).config,
            (old(search).generation + 1) as u64,
            old(search).population,
            final(search).population,
            without_report(made),
        ),
        made is Err ==> final(search).generation == old(search).generation,
        made matches Err(error) ==> is_failure_of::<C>(old(search).config, error),
        made matches Ok(report) ==> {
            &&& final(search).generation == old(search).generation + 1
            &&& final(search).well_formed()
            &&& is_report_of(
                final(search).config,
                final(search).population.members@,
                final(search).generation,
                report,
            )
        },
{
    let config: Config = search.config;
    let next: u64 = search.generation + 1;
    match next_generation::<C>(&mut search.population, &config, next, rng) {
        Ok(_) => {},
        Err(error) => {
            proof {
                if error == RunError::CandidateOperationFailure(CandidateOperation::Fitness) {
                    let k = choose|k: int|
                        0 <= k < search.population.members@.len() && failed_fitness::<C>(
                            #[trigger] search.population.members@[k],
                        );
                    assert(search.population.members@[k].genes@.len() == config.problem_size);
                }
            }
            return Err(error);
        },
    }
    search.generation = next;
    Ok(report(&config, &search.population, next))
}

/// `history` holds the generations of a run with `config`, the first at
/// index 0: the first is as the problem made it, evaluated, and every later
/// one is what making it leaves of the one before it.
pub open spec fn is_history_of<C: Candidate>(
    config: Config,
    history: Seq<Population<C::Gene>>,
) -> bool {
    &&& history.len() > 0
    &&& history[0].well_formed(config.population_size, config.problem_size)
    &&& all_evaluated(history[0].members@)
    &&& cache_is_consistent::<C>(history[0].members@)
    &&& is_first_generation::<C>(config.problem_size, history[0].members@)
    &&& forall|g: int|
        1 <= g < history.len() ==> is_next_generation_of::<C>(
            config,
            g as u64,
            history[g - 1],
            #[trigger] history[g],
            Ok(()),
        )
}

/// The two logs are those of a run that has made the generations of
/// `history`: each holds an entry for every generation at which it is due,
/// and every entry describes the generation whose number it bears.
pub open spec fn logs_follow<G>(
    config: Config,
    history: Seq<Population<G>>,
    progress_log: Seq<ProgressEntry>,
    population_log: Seq<Snapshot<G>>,
) -> bool {
    &&& is_progress_log(config, progress_log, (history.len() - 1) as u64)
    &&& is_population_log(config, population_log, (history.len() - 1) as u64)
    &&& forall|k: int|
        0 <= k < progress_log.len() ==> {
            let entry = #[trigger] progress_log[k];
            &&& 0 < entry.generation < history.len()
            &&& summarizes(entry, fitness_values(history[entry.generation as int].members@))
        }
    &&& forall|k: int|
        0 <= k < population_log.len() ==> {
            let snapshot = #[trigger] population_log[k];
            &&& 0 < snapshot.generation < history.len()
            &&& gene_rows(snapshot.candidates@) == genes_of(
                history[snapshot.generation as int].members@,
            )
        }
}

/// `history` holds the generations that led to `outcome`: as many as the
/// run has made and the first, the last of them the population that the
/// run hands back, and the logs follow them.
pub open spec fn is_history_behind<C: Candidate>(
    config: Config,
    history: Seq<Population<C::Gene>>,
    outcome: RunOutcome<C::Gene>,
) -> bool {
    &&& is_history_of::<C>(config, history)
    &&& history.len() == outcome.generations_run + 1
    &&& history.last() == outcome.population
    &&& logs_follow(config, history, outcome.progress_log@, outcome.population_log@)
}

/// What holds of the outcome of a run that was started with `config`: the
/// run has made as many generations as the stop criterion asks for; the
/// population has its configured sizes and every candidate the fitness that
/// the problem gave for its genes; where no generation was made after the
/// first, the population is as the problem made it; the solutions are
/// exactly the candidates of that population that the problem said solve
/// it; and there is a history of generations, each made from the one
/// before, that ends in that population and that the logs follow.
pub open spec fn is_outcome_of<C: Candidate>(config: Config, outcome: RunOutcome<C::Gene>) -> bool {
    &&& outcome.generations_run == config.stop_criterion.generations()
    &&& is_generation(
        outcome.population.members@,
        config.population_size as int,
        config.problem_size as int,
    )
    &&& all_evaluated(outcome.population.members@)
    &&& cache_is_consistent::<C>(outcome.population.members@)
    &&& outcome.generations_run == 0 ==> is_first_generation::<C>(
        config.problem_size,
        outcome.population.members@,
    )
    &&& are_solutions_of::<C>(outcome.population.members@, gene_rows(outcome.solutions@))
    &&& exists|history: Seq<Population<C::Gene>>| #[trigger]
        is_history_behind::<C>(config, history, outcome)
}

/// Runs the search from start to end and keeps the logs: the run is
/// started, and advanced until the stop criterion holds; then the solutions
/// are looked for in the last generation. A failing candidate operation
/// ends the run.
pub fn run<C: Candidate>(config: &Config, rng: &mut SmallRng) -> (result: Result<
    RunOutcome<C::Gene>,
    RunError,
>)
    ensures
        !config.valid() ==> (result matches Err(RunError::Configuration(fault)) && config.fault()
            == Some(fault)),
        config.valid() ==> !(result matches Err(RunError::Configuration(_))),
        result matches Err(error) ==> is_failure_of::<C>(*config, error),
        result matches Ok(outcome) ==> is_outcome_of::<C>(*config, outcome),
{
    let mut search: Search<C::Gene> = match start::<C>(config, rng) {
        Ok(search) => search,
        Err(error) => {
            return Err(error);
        },
    };
    let mut progress_log: Vec<ProgressEntry> = Vec::new();
    let mut population_log: Vec<Snapshot<C::Gene>> = Vec::new();
    let ghost mut history: Seq<Population<C::Gene>> = seq![search.population];
    while !search.finished()
        invariant
            search.config == *config,
            search.well_formed(),
            cache_is_consistent::<C>(search.population.members@),
            is_history_of::<C>(*config, history),
            history.len() == search.generation + 1,
            history.last() == search.population,
            logs_follow(*config, history, progress_log@, population_log@),
        decreases config.stop_criterion.generations() - search.generation,
    {
        let ghost generation = search.generation;
        let ghost earlier = history;
        let made: Report<C::Gene> = match advance::<C>(&mut search, rng) {
            Ok(made) => made,
            Err(error) => {
                return Err(error);
            },
        };
        proof {
            history = earlier.push(search.population);
            lemma_entries_grow_when_due(config.progress_log_interval, generation);
            lemma_entries_grow_when_due(config.population_log_interval, generation);
            assert forall|g: int| 1 <= g < history.len() implies is_next_generation_of::<C>(
                *config,
                g as u64,
                history[g - 1],
                #[trigger] history[g],
                Ok(()),
            ) by {
                if g < earlier.len() {
                    assert(history[g] == earlier[g]);
                    assert(history[g - 1] == earlier[g - 1]);
                }
            }
            assert forall|k: int| 0 <= k < progress_log@.len() implies summarizes(
                #[trigger] progress_log@[k],
                fitness_values(history[progress_log@[k].generation as int].members@),
            ) by {
                assert(history[progress_log@[k].generation as int]
                    == earlier[progress_log@[k].generation as int]);
            }
            assert forall|k: int| 0 <= k < population_log@.len() implies gene_rows(
                (#[trigger] population_log@[k]).candidates@,
            ) == genes_of(history[population_log@[k].generation as int].members@) by {
                assert(history[population_log@[k].generation as int]
                    == earlier[population_log@[k].generation as int]);
            }
        }
        let Report { progress, population } = made;
        match progress {
            Some(entry) => {
                progress_log.push(entry);
            },
            None => {},
        }
        match population {
            Some(snapshot) => {
                assert(gene_rows(snapshot.candidates@).len() == search.population.members@.len());
                assert forall|c: int| 0 <= c < snapshot.candidates@.len() implies (
                #[trigger] snapshot.candidates@[c])@.len() == config.problem_size by {
                    assert(gene_rows(snapshot.candidates@)[c] == genes_of(
                        search.population.members@,
                    )[c]);
                }
                population_log.push(snapshot);
            },
            None => {},
        }
    }
    let solutions: Vec<Vec<C::Gene>> = solutions::<C>(&search.population);
    let Search { config: _, population, generation } = search;
    let outcome = RunOutcome {
        solutions,
        generations_run: generation,
        progress_log,
        population_log,
        population,
    };
    assert(is_history_behind::<C>(*config, history, outcome));
    Ok(outcome)
}

/// Offspring of parents chosen from the cup stay bred from the cup when
/// their genes are kept.
proof fn lemma_bred_from_cup<G>(
    members: Seq<Individual<G>>,
    problem_size: int,
    ranking: Seq<usize>,
    selection_rate: int,
    chosen: Seq<Parents>,
    bred: Seq<Individual<G>>,
    later: Seq<Individual<G>>,
)
    requires
        ranking == ranking_of(fitness_values(members)),
        ranking.len() == members.len(),
        bred.len() == chosen.len(),
        later.len() == bred.len(),
        forall|k: int|
            0 <= k < chosen.len() ==> {
                let cup = cup_size_of(selection_rate, ranking.len() as int);
                &&& in_cup(ranking, cup, (#[trigger] chosen[k]).first)
                &&& in_cup(ranking, cup, chosen[k].second)
            },
        forall|k: int|
            0 <= k < bred.len() ==> is_crossed_offspring(
                members,
                problem_size,
                chosen[k],
                #[trigger] bred[k],
            ),
        forall|k: int| 0 <= k < bred.len() ==> (#[trigger] later[k]).genes@ == bred[k].genes@,
    ensures
        is_unmutated_offspring_of(members, problem_size, selection_rate, later),
{
    let cup = cup_size_of(selection_rate, members.len() as int);
    assert forall|k: int| 0 <= k < later.len() implies is_bred_from_cup(
        members,
        problem_size,
        ranking,
        cup,
        #[trigger] later[k].genes@,
    ) by {
        assert(is_crossed_offspring(members, problem_size, chosen[k], bred[k]));
        let cut = choose|cut: int|
            is_cut(problem_size, cut) && #[trigger] is_offspring_of(members, chosen[k], cut, bred[k]);
        assert(in_cup(ranking, cup, chosen[k].first));
        assert(in_cup(ranking, cup, chosen[k].second));
        assert(later[k].genes@ == crossed(
            members[chosen[k].first as int].genes@,
            members[chosen[k].second as int].genes@,
            cut,
        ));
    }
}

/// Parents chosen from the cup of a ranking are members of the population.
proof fn lemma_chosen_are_members(
    fitness: Seq<i64>,
    ranking: Seq<usize>,
    rate: i64,
    chosen: Seq<Parents>,
)
    requires
        is_ranking(fitness, ranking),
        forall|k: int|
            0 <= k < chosen.len() ==> {
                let cup = cup_size_of(rate as int, ranking.len() as int);
                &&& in_cup(ranking, cup, (#[trigger] chosen[k]).first)
                &&& in_cup(ranking, cup, chosen[k].second)
            },
    ensures
        forall|k: int|
            0 <= k < chosen.len() ==> {
                &&& (#[trigger] chosen[k]).first < fitness.len()
                &&& chosen[k].second < fitness.len()
            },
{
    let cup = cup_size_of(rate as int, ranking.len() as int);
    assert forall|k: int| 0 <= k < chosen.len() implies {
        &&& (#[trigger] chosen[k]).first < fitness.len()
        &&& chosen[k].second < fitness.len()
    } by {
        assert(in_cup(ranking, cup, chosen[k].first));
        let first_place = choose|place: int|
            0 <= place < cup && place < ranking.len() && ranking[place] == chosen[k].first;
        assert(ranking[first_place] < fitness.len());
        assert(in_cup(ranking, cup, chosen[k].second));
        let second_place = choose|place: int|
            0 <= place < cup && place < ranking.len() && ranking[place] == chosen[k].second;
        assert(ranking[second_place] < fitness.len());
    }
}

/// One offspring for each member of a generation is a generation again, and
/// every gene of it stands at the same index in one of its parents.
proof fn lemma_offspring_are_a_generation<G>(
    members: Seq<Individual<G>>,
    problem_size: int,
    chosen: Seq<Parents>,
    offspring: Seq<Individual<G>>,
)
    requires
        is_generation(members, members.len() as int, problem_size),
        chosen.len() == members.len(),
        offspring.len() == chosen.len(),
        forall|k: int|
            0 <= k < chosen.len() ==> {
                &&& (#[trigger] chosen[k]).first < members.len()
                &&& chosen[k].second < members.len()
            },
        forall|k: int|
            0 <= k < offspring.len() ==> is_crossed_offspring(
                members,
                problem_size,
                chosen[k],
                #[trigger] offspring[k],
            ),
    ensures
        is_generation(offspring, members.len() as int, problem_size),
        inherits_genes(members, offspring),
        forall|k: int| 0 <= k < offspring.len() ==> (#[trigger] offspring[k]).fitness is None,
{
    assert forall|k: int| 0 <= k < offspring.len() implies {
        &&& (#[trigger] offspring[k]).genes@.len() == problem_size
        &&& offspring[k].fitness is None
        &&& forall|index: int|
            0 <= index < offspring[k].genes@.len() ==> has_gene_at(
                members,
                index,
                #[trigger] offspring[k].genes@[index],
            )
    } by {
        assert(is_crossed_offspring(members, problem_size, chosen[k], offspring[k]));
        let cut = choose|cut: int|
            is_cut(problem_size, cut) && #[trigger] is_offspring_of(
                members,
                chosen[k],
                cut,
                offspring[k],
            );
        let first = members[chosen[k].first as int];
        let second = members[chosen[k].second as int];
        assert(first.genes@.len() == problem_size);
        assert(second.genes@.len() == problem_size);
        assert(offspring[k].genes@ == crossed(first.genes@, second.genes@, cut));
        assert forall|index: int| 0 <= index < offspring[k].genes@.len() implies has_gene_at(
            members,
            index,
            #[trigger] offspring[k].genes@[index],
        ) by {
            if index < cut {
                assert(offspring[k].genes@[index] == first.genes@[index]);
            } else {
                assert(offspring[k].genes@[index] == second.genes@[index]);
            }
        }
    }
}

/// Evaluating a population that has just been evaluated changes nothing:
/// every candidate keeps the fitness that the first evaluation gave it.
pub proof fn lemma_second_evaluation_changes_nothing<C: Candidate>(
    before: Seq<Individual<C::Gene>>,
    once: Seq<Individual<C::Gene>>,
    twice: Seq<Individual<C::Gene>>,
)
    requires
        is_evaluation_of::<C>(before, once),
        all_evaluated(once),
        is_evaluation_of::<C>(once, twice),
    ensures
        twice == once,
{
    assert(twice =~= once);
}

/// An evaluation of candidates whose fitness belongs to their genes leaves
/// candidates whose fitness belongs to their genes.
pub proof fn lemma_evaluation_keeps_consistency<C: Candidate>(
    before: Seq<Individual<C::Gene>>,
    after: Seq<Individual<C::Gene>>,
)
    requires
        is_evaluation_of::<C>(before, after),
    ensures
        cache_is_consistent::<C>(before) ==> cache_is_consistent::<C>(after),
{
    if cache_is_consistent::<C>(before) {
        assert forall|k: int| 0 <= k < after.len() implies holds_own_fitness::<C>(
            #[trigger] after[k],
        ) by {
            if before[k].fitness is Some {
                assert(holds_own_fitness::<C>(before[k]));
                assert(after[k] == before[k]);
            }
        }
    }
}

} // verus!
