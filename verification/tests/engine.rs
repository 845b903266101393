use rand::rngs::SmallRng;
use rand::Rng;
use rand::SeedableRng;
use sphere_oxigen::config::Config;
use sphere_oxigen::config::ConfigurationError;
use sphere_oxigen::engine::admitted;
use sphere_oxigen::engine::advance;
use sphere_oxigen::engine::evaluate;
use sphere_oxigen::engine::keep_flagged;
use sphere_oxigen::engine::mutate;
use sphere_oxigen::engine::mutate_candidate;
use sphere_oxigen::engine::mutate_gene;
use sphere_oxigen::engine::mutation_due;
use sphere_oxigen::engine::next_generation;
use sphere_oxigen::engine::report;
use sphere_oxigen::engine::run;
use sphere_oxigen::engine::solutions;
use sphere_oxigen::engine::spawn;
use sphere_oxigen::engine::start;
use sphere_oxigen::engine::Candidate;
use sphere_oxigen::engine::CandidateOperation;
use sphere_oxigen::engine::RunError;
use sphere_oxigen::fixed::UNIT;
use sphere_oxigen::population::Individual;
use sphere_oxigen::population::Population;
use sphere_oxigen::schedule::RateSchedule;
use sphere_oxigen::selection::SelectionFunction;
use sphere_oxigen::stop::StopCriterion;

/// Candidates of whole numbers below 1000; the fitness is their sum, and a
/// mutated gene is 5000 or more.
struct Sum;

impl Candidate for Sum {
    type Gene = i64;

    fn generate(problem_size: usize, rng: &mut SmallRng) -> Option<Vec<i64>> {
        let mut genes = Vec::new();
        for _ in 0..problem_size {
            genes.push(rng.gen_range(0, 1000));
        }
        Some(genes)
    }

    fn fitness(genes: &Vec<i64>) -> Option<i64> {
        Some(genes.iter().sum())
    }

    fn mutate(_genes: &Vec<i64>, _index: usize, rng: &mut SmallRng) -> Option<i64> {
        Some(rng.gen_range(5000, 6000))
    }

    fn is_solution(_genes: &Vec<i64>, fitness: i64) -> bool {
        fitness >= 1500
    }
}

/// A problem none of whose operations may be called.
struct Untouchable;

impl Candidate for Untouchable {
    type Gene = i64;

    fn generate(_problem_size: usize, _rng: &mut SmallRng) -> Option<Vec<i64>> {
        panic!("no candidate may be generated");
    }

    fn fitness(_genes: &Vec<i64>) -> Option<i64> {
        panic!("no candidate may be evaluated");
    }

    fn mutate(_genes: &Vec<i64>, _index: usize, _rng: &mut SmallRng) -> Option<i64> {
        panic!("no candidate may be mutated");
    }

    fn is_solution(_genes: &Vec<i64>, _fitness: i64) -> bool {
        panic!("no candidate may be tested");
    }
}

/// A problem whose candidates cannot be made.
struct NoCandidates;

impl Candidate for NoCandidates {
    type Gene = i64;

    fn generate(_problem_size: usize, _rng: &mut SmallRng) -> Option<Vec<i64>> {
        None
    }

    fn fitness(genes: &Vec<i64>) -> Option<i64> {
        Sum::fitness(genes)
    }

    fn mutate(genes: &Vec<i64>, index: usize, rng: &mut SmallRng) -> Option<i64> {
        Sum::mutate(genes, index, rng)
    }

    fn is_solution(genes: &Vec<i64>, fitness: i64) -> bool {
        Sum::is_solution(genes, fitness)
    }
}

/// A problem whose candidates have one gene too many.
struct TooLong;

impl Candidate for TooLong {
    type Gene = i64;

    fn generate(problem_size: usize, rng: &mut SmallRng) -> Option<Vec<i64>> {
        Sum::generate(problem_size + 1, rng)
    }

    fn fitness(genes: &Vec<i64>) -> Option<i64> {
        Sum::fitness(genes)
    }

    fn mutate(genes: &Vec<i64>, index: usize, rng: &mut SmallRng) -> Option<i64> {
        Sum::mutate(genes, index, rng)
    }

    fn is_solution(genes: &Vec<i64>, fitness: i64) -> bool {
        Sum::is_solution(genes, fitness)
    }
}

/// A problem in which a candidate with a mutated gene has no fitness.
struct NoFitnessAfterMutation;

impl Candidate for NoFitnessAfterMutation {
    type Gene = i64;

    fn generate(problem_size: usize, rng: &mut SmallRng) -> Option<Vec<i64>> {
        Sum::generate(problem_size, rng)
    }

    fn fitness(genes: &Vec<i64>) -> Option<i64> {
        if genes.iter().any(|gene| *gene >= 5000) {
            None
        } else {
            Sum::fitness(genes)
        }
    }

    fn mutate(genes: &Vec<i64>, index: usize, rng: &mut SmallRng) -> Option<i64> {
        Sum::mutate(genes, index, rng)
    }

    fn is_solution(genes: &Vec<i64>, fitness: i64) -> bool {
        Sum::is_solution(genes, fitness)
    }
}

/// A problem whose genes cannot be mutated.
struct NoMutation;

impl Candidate for NoMutation {
    type Gene = i64;

    fn generate(problem_size: usize, rng: &mut SmallRng) -> Option<Vec<i64>> {
        Sum::generate(problem_size, rng)
    }

    fn fitness(genes: &Vec<i64>) -> Option<i64> {
        Sum::fitness(genes)
    }

    fn mutate(_genes: &Vec<i64>, _index: usize, _rng: &mut SmallRng) -> Option<i64> {
        None
    }

    fn is_solution(genes: &Vec<i64>, fitness: i64) -> bool {
        Sum::is_solution(genes, fitness)
    }
}

fn config(population_size: usize, problem_size: usize, generations: u64) -> Config {
    Config {
        problem_size,
        population_size,
        mutation_rate_schedule: RateSchedule::Constant(0),
        selection_rate_schedule: RateSchedule::Constant(2 * UNIT),
        selection_function: SelectionFunction::Cup,
        stop_criterion: StopCriterion::Generation(generations),
        progress_log_interval: 1,
        population_log_interval: 1,
    }
}

fn initial(seed: u64, population_size: usize, problem_size: usize) -> Vec<Vec<i64>> {
    let mut rng = SmallRng::seed_from_u64(seed);
    let mut rows = Vec::new();
    for _ in 0..population_size {
        rows.push(Sum::generate(problem_size, &mut rng).unwrap());
    }
    rows
}

fn evaluated(rows: Vec<Vec<i64>>) -> Population<i64> {
    let mut members = Vec::new();
    for genes in rows {
        let fitness = Sum::fitness(&genes);
        members.push(Individual { genes, fitness });
    }
    Population { members }
}

#[test]
fn one_generation_without_mutation_keeps_parent_genes() {
    let start = initial(7, 4, 1);
    let mut rng = SmallRng::seed_from_u64(7);
    let outcome = run::<Sum>(&config(4, 1, 1), &mut rng).unwrap();
    assert_eq!(outcome.generations_run, 1);
    assert_eq!(outcome.population.members.len(), 4);
    let mut best_two: Vec<i64> = start.iter().map(|genes| genes[0]).collect();
    best_two.sort();
    best_two.reverse();
    best_two.truncate(2);
    for member in &outcome.population.members {
        assert_eq!(member.genes.len(), 1);
        assert!(best_two.contains(&member.genes[0]));
        assert_eq!(member.fitness, Some(member.genes[0]));
    }
}

#[test]
fn generations_without_mutation_only_mix_the_genes_of_the_start() {
    let start = initial(21, 10, 6);
    let mut rng = SmallRng::seed_from_u64(21);
    let mut setup = config(10, 6, 25);
    setup.selection_rate_schedule = RateSchedule::Constant(10 * UNIT);
    let outcome = run::<Sum>(&setup, &mut rng).unwrap();
    assert_eq!(outcome.generations_run, 25);
    for snapshot in &outcome.population_log {
        assert_eq!(snapshot.candidates.len(), 10);
        for genes in &snapshot.candidates {
            assert_eq!(genes.len(), 6);
            for (index, gene) in genes.iter().enumerate() {
                assert!(start.iter().any(|candidate| candidate[index] == *gene));
            }
        }
    }
}

#[test]
fn generation_zero_returns_the_initial_population() {
    let start = initial(11, 6, 3);
    let mut rng = SmallRng::seed_from_u64(11);
    let outcome = run::<Sum>(&config(6, 3, 0), &mut rng).unwrap();
    assert_eq!(outcome.generations_run, 0);
    assert!(outcome.progress_log.is_empty());
    assert!(outcome.population_log.is_empty());
    assert_eq!(outcome.population.members.len(), 6);
    for (member, genes) in outcome.population.members.iter().zip(start.iter()) {
        assert_eq!(&member.genes, genes);
        assert_eq!(member.fitness, Some(genes.iter().sum()));
    }
}

#[test]
fn population_of_one_is_refused_before_any_candidate_is_made() {
    let mut rng = SmallRng::seed_from_u64(1);
    let result = run::<Untouchable>(&config(1, 1, 5), &mut rng);
    assert_eq!(
        result.err(),
        Some(RunError::Configuration(ConfigurationError::PopulationTooSmall))
    );
}

#[test]
fn empty_problem_is_refused_before_any_candidate_is_made() {
    let mut rng = SmallRng::seed_from_u64(1);
    let result = run::<Untouchable>(&config(2, 0, 5), &mut rng);
    assert_eq!(result.err(), Some(RunError::Configuration(ConfigurationError::EmptyProblem)));
    let both = run::<Untouchable>(&config(0, 0, 5), &mut rng);
    assert_eq!(
        both.err(),
        Some(RunError::Configuration(ConfigurationError::PopulationTooSmall))
    );
}

#[test]
fn smallest_configuration_runs() {
    let mut rng = SmallRng::seed_from_u64(2);
    let outcome = run::<Sum>(&config(2, 1, 3), &mut rng).unwrap();
    assert_eq!(outcome.generations_run, 3);
    assert_eq!(outcome.population.members.len(), 2);
}

#[test]
fn population_keeps_its_size_in_every_generation() {
    let mut rng = SmallRng::seed_from_u64(5);
    let mut setup = config(12, 4, 40);
    setup.mutation_rate_schedule = RateSchedule::Constant(UNIT / 4);
    let outcome = run::<Sum>(&setup, &mut rng).unwrap();
    assert_eq!(outcome.population_log.len(), 40);
    for (index, snapshot) in outcome.population_log.iter().enumerate() {
        assert_eq!(snapshot.generation, index as u64 + 1);
        assert_eq!(snapshot.candidates.len(), 12);
        for genes in &snapshot.candidates {
            assert_eq!(genes.len(), 4);
        }
    }
    assert_eq!(outcome.population.members.len(), 12);
    assert_eq!(outcome.population.snapshot(), outcome.population_log[39].candidates);
}

#[test]
fn logs_follow_their_intervals() {
    let mut rng = SmallRng::seed_from_u64(8);
    let mut setup = config(6, 2, 10);
    setup.progress_log_interval = 3;
    setup.population_log_interval = 5;
    setup.mutation_rate_schedule =
        RateSchedule::Linear { start: 900, bound: 100, coefficient: -100 };
    setup.selection_rate_schedule =
        RateSchedule::Linear { start: 2 * UNIT, bound: 4 * UNIT, coefficient: UNIT / 4 };
    let outcome = run::<Sum>(&setup, &mut rng).unwrap();
    let logged: Vec<u64> = outcome.progress_log.iter().map(|entry| entry.generation).collect();
    assert_eq!(logged, vec![3, 6, 9]);
    let rates: Vec<(i64, i64)> =
        outcome.progress_log.iter().map(|entry| (entry.mutation_rate, entry.selection_rate)).collect();
    assert_eq!(rates, vec![(600, 2_750_000), (300, 3_500_000), (100, 4_000_000)]);
    for entry in &outcome.progress_log {
        assert!(entry.worst <= entry.mean && entry.mean <= entry.best);
    }
    let dumped: Vec<u64> = outcome.population_log.iter().map(|snapshot| snapshot.generation).collect();
    assert_eq!(dumped, vec![5, 10]);
    assert_eq!(outcome.population.snapshot(), outcome.population_log[1].candidates);
}

#[test]
fn disabled_logs_stay_empty() {
    let mut rng = SmallRng::seed_from_u64(8);
    let mut setup = config(6, 2, 10);
    setup.progress_log_interval = 0;
    setup.population_log_interval = 0;
    let outcome = run::<Sum>(&setup, &mut rng).unwrap();
    assert_eq!(outcome.generations_run, 10);
    assert!(outcome.progress_log.is_empty());
    assert!(outcome.population_log.is_empty());
}

#[test]
fn last_progress_entry_describes_the_last_population() {
    let mut rng = SmallRng::seed_from_u64(13);
    let outcome = run::<Sum>(&config(8, 3, 4), &mut rng).unwrap();
    let fitness = outcome.population.fitnesses();
    let entry = outcome.progress_log[3];
    assert_eq!(entry.generation, 4);
    assert_eq!(entry.best, *fitness.iter().max().unwrap());
    assert_eq!(entry.worst, *fitness.iter().min().unwrap());
    assert_eq!(entry.mean, fitness.iter().sum::<i64>().div_euclid(8));
}

#[test]
fn solutions_are_the_candidates_that_solve_the_problem() {
    let mut rng = SmallRng::seed_from_u64(31);
    let outcome = run::<Sum>(&config(30, 3, 2), &mut rng).unwrap();
    let mut expected = Vec::new();
    for member in &outcome.population.members {
        if member.fitness.unwrap() >= 1500 {
            expected.push(member.genes.clone());
        }
    }
    assert!(!expected.is_empty());
    assert_eq!(outcome.solutions, expected);
}

#[test]
fn run_that_stops_before_any_solution_returns_none() {
    let mut rng = SmallRng::seed_from_u64(3);
    let outcome = run::<Sum>(&config(4, 1, 3), &mut rng).unwrap();
    assert_eq!(outcome.generations_run, 3);
    assert!(outcome.solutions.is_empty());
}

#[test]
fn no_solution_gives_an_empty_set() {
    let population = evaluated(vec![vec![1, 2], vec![3, 4]]);
    assert_eq!(solutions::<Sum>(&population), Vec::<Vec<i64>>::new());
}

#[test]
fn flagged_candidates_are_kept_in_order() {
    let population = evaluated(vec![vec![1], vec![2], vec![3], vec![4]]);
    assert_eq!(keep_flagged(&population, &vec![true, false, false, true]), vec![vec![1], vec![4]]);
    assert_eq!(keep_flagged(&population, &vec![false; 4]), Vec::<Vec<i64>>::new());
    assert_eq!(keep_flagged(&population, &vec![true; 4]), vec![vec![1], vec![2], vec![3], vec![4]]);
}

#[test]
fn same_seed_gives_the_same_run() {
    let mut setup = config(10, 5, 20);
    setup.mutation_rate_schedule = RateSchedule::Constant(UNIT / 10);
    let mut first = SmallRng::seed_from_u64(77);
    let mut second = SmallRng::seed_from_u64(77);
    let one = run::<Sum>(&setup, &mut first).unwrap();
    let other = run::<Sum>(&setup, &mut second).unwrap();
    assert_eq!(one.population.snapshot(), other.population.snapshot());
    assert_eq!(one.progress_log, other.progress_log);
    assert_eq!(one.solutions, other.solutions);
}

#[test]
fn failing_generate_ends_the_run() {
    let mut rng = SmallRng::seed_from_u64(1);
    let result = run::<NoCandidates>(&config(4, 2, 3), &mut rng);
    assert_eq!(
        result.err(),
        Some(RunError::CandidateOperationFailure(CandidateOperation::Generate))
    );
}

#[test]
fn candidate_of_the_wrong_size_ends_the_run() {
    let mut rng = SmallRng::seed_from_u64(1);
    let result = run::<TooLong>(&config(4, 2, 3), &mut rng);
    assert_eq!(
        result.err(),
        Some(RunError::CandidateOperationFailure(CandidateOperation::Generate))
    );
    assert!(spawn::<TooLong>(0, 2, &mut rng).is_ok());
}

#[test]
fn failing_fitness_ends_the_run() {
    let mut rng = SmallRng::seed_from_u64(1);
    let mut setup = config(4, 2, 3);
    setup.mutation_rate_schedule = RateSchedule::Constant(UNIT);
    let result = run::<NoFitnessAfterMutation>(&setup, &mut rng);
    assert_eq!(
        result.err(),
        Some(RunError::CandidateOperationFailure(CandidateOperation::Fitness))
    );
}

#[test]
fn failing_mutation_ends_the_run() {
    let mut rng = SmallRng::seed_from_u64(1);
    let mut setup = config(4, 2, 3);
    setup.mutation_rate_schedule = RateSchedule::Constant(UNIT);
    let result = run::<NoMutation>(&setup, &mut rng);
    assert_eq!(
        result.err(),
        Some(RunError::CandidateOperationFailure(CandidateOperation::Mutate))
    );
    setup.mutation_rate_schedule = RateSchedule::Constant(0);
    assert!(run::<NoMutation>(&setup, &mut rng).is_ok());
}

#[test]
fn spawn_makes_unevaluated_candidates() {
    let mut rng = SmallRng::seed_from_u64(4);
    let population = spawn::<Sum>(5, 3, &mut rng).unwrap();
    assert_eq!(population.members.len(), 5);
    for member in &population.members {
        assert_eq!(member.genes.len(), 3);
        assert_eq!(member.fitness, None);
    }
}

#[test]
fn evaluation_fills_in_the_missing_fitness_only() {
    let mut population = Population {
        members: vec![
            Individual { genes: vec![1, 2], fitness: None },
            Individual { genes: vec![3, 4], fitness: Some(-1) },
        ],
    };
    assert_eq!(evaluate::<Sum>(&mut population), Ok(()));
    assert_eq!(population.members[0].fitness, Some(3));
    assert_eq!(population.members[1].fitness, Some(-1));
    assert_eq!(population.snapshot(), vec![vec![1, 2], vec![3, 4]]);
}

#[test]
fn evaluating_twice_gives_the_same_fitness() {
    let mut rng = SmallRng::seed_from_u64(4);
    let mut population = spawn::<Sum>(5, 3, &mut rng).unwrap();
    assert_eq!(evaluate::<Sum>(&mut population), Ok(()));
    let once = population.fitnesses();
    assert_eq!(evaluate::<Untouchable>(&mut population), Ok(()));
    assert_eq!(population.fitnesses(), once);
}

#[test]
fn failed_evaluation_keeps_what_was_evaluated() {
    let mut population = Population {
        members: vec![
            Individual { genes: vec![1, 2], fitness: None },
            Individual { genes: vec![5000, 4], fitness: None },
            Individual { genes: vec![5, 6], fitness: None },
        ],
    };
    assert_eq!(
        evaluate::<NoFitnessAfterMutation>(&mut population),
        Err(RunError::CandidateOperationFailure(CandidateOperation::Fitness))
    );
    assert_eq!(population.members[0].fitness, Some(3));
    assert_eq!(population.members[1].fitness, None);
    assert_eq!(population.snapshot(), vec![vec![1, 2], vec![5000, 4], vec![5, 6]]);
}

#[test]
fn mutation_is_due_below_the_rate() {
    assert!(mutation_due(5_000, 0));
    assert!(mutation_due(5_000, 4_999));
    assert!(!mutation_due(5_000, 5_000));
    assert!(!mutation_due(0, 0));
    assert!(!mutation_due(-1, 0));
    assert!(mutation_due(UNIT, 999_999));
    assert!(mutation_due(i64::MAX, 999_999));
}

#[test]
fn rate_of_zero_mutates_nothing() {
    let mut rng = SmallRng::seed_from_u64(6);
    let mut offspring = evaluated(vec![vec![1, 2, 3], vec![4, 5, 6]]).members;
    assert_eq!(mutate::<Untouchable>(&mut offspring, 0, &mut rng), Ok(()));
    assert_eq!(mutate::<Untouchable>(&mut offspring, -UNIT, &mut rng), Ok(()));
    assert_eq!(offspring[0].genes, vec![1, 2, 3]);
    assert_eq!(offspring[1].genes, vec![4, 5, 6]);
    assert_eq!(offspring[0].fitness, Some(6));
    assert_eq!(offspring[1].fitness, Some(15));
}

#[test]
fn rate_of_one_mutates_every_gene() {
    let mut rng = SmallRng::seed_from_u64(6);
    let mut offspring = evaluated(vec![vec![1, 2, 3], vec![4, 5, 6]]).members;
    assert_eq!(mutate::<Sum>(&mut offspring, UNIT, &mut rng), Ok(()));
    for child in &offspring {
        assert_eq!(child.genes.len(), 3);
        assert_eq!(child.fitness, None);
        for gene in &child.genes {
            assert!(*gene >= 5000);
        }
    }
}

#[test]
fn mutated_candidates_lose_their_fitness_and_others_keep_it() {
    let mut rng = SmallRng::seed_from_u64(9);
    let rows = initial(9, 40, 5);
    let mut offspring = evaluated(rows.clone()).members;
    assert_eq!(mutate::<Sum>(&mut offspring, UNIT / 10, &mut rng), Ok(()));
    let mut changed = 0;
    for (child, genes) in offspring.iter().zip(rows.iter()) {
        assert_eq!(child.genes.len(), 5);
        if child.genes == *genes {
            assert_eq!(child.fitness, Sum::fitness(genes));
        } else {
            changed += 1;
            assert_eq!(child.fitness, None);
        }
    }
    assert!(changed > 0 && changed < 40);
}

#[test]
fn next_generation_keeps_the_sizes_and_evaluates() {
    let mut rng = SmallRng::seed_from_u64(15);
    let mut population = evaluated(initial(15, 9, 4));
    let mut setup = config(9, 4, 100);
    setup.mutation_rate_schedule = RateSchedule::Constant(UNIT / 2);
    for generation in 1..20 {
        assert_eq!(next_generation::<Sum>(&mut population, &setup, generation, &mut rng), Ok(()));
        assert_eq!(population.members.len(), 9);
        for member in &population.members {
            assert_eq!(member.genes.len(), 4);
            assert_eq!(member.fitness, Sum::fitness(&member.genes));
        }
    }
}

#[test]
fn failed_mutation_leaves_the_population_as_it_was() {
    let mut rng = SmallRng::seed_from_u64(15);
    let rows = initial(15, 6, 4);
    let mut population = evaluated(rows.clone());
    let mut setup = config(6, 4, 100);
    setup.mutation_rate_schedule = RateSchedule::Constant(UNIT);
    assert_eq!(
        next_generation::<NoMutation>(&mut population, &setup, 1, &mut rng),
        Err(RunError::CandidateOperationFailure(CandidateOperation::Mutate))
    );
    assert_eq!(population.snapshot(), rows);
    assert_eq!(population.fitnesses().len(), 6);
}

#[test]
fn candidate_of_the_right_size_is_admitted_unevaluated() {
    let member = admitted(Some(vec![4, 5, 6]), 3).unwrap();
    assert_eq!(member.genes, vec![4, 5, 6]);
    assert_eq!(member.fitness, None);
    assert!(admitted(Some(Vec::<i64>::new()), 0).is_ok());
}

#[test]
fn no_candidate_or_one_of_another_size_is_a_failed_generate() {
    let failure = Some(RunError::CandidateOperationFailure(CandidateOperation::Generate));
    assert_eq!(admitted::<i64>(None, 3).err(), failure);
    assert_eq!(admitted(Some(vec![4, 5]), 3).err(), failure);
    assert_eq!(admitted(Some(vec![4, 5, 6, 7]), 3).err(), failure);
    assert_eq!(admitted(Some(vec![4]), 0).err(), failure);
}

#[test]
fn report_holds_what_is_due() {
    let population = evaluated(vec![vec![1, 2], vec![30, 40], vec![5, 6]]);
    let mut setup = config(3, 2, 100);
    setup.progress_log_interval = 2;
    setup.population_log_interval = 3;
    setup.mutation_rate_schedule =
        RateSchedule::Linear { start: 900, bound: 100, coefficient: -100 };
    let at_two = report(&setup, &population, 2);
    let entry = at_two.progress.unwrap();
    assert_eq!((entry.generation, entry.best, entry.mean, entry.worst), (2, 70, 28, 3));
    assert_eq!((entry.mutation_rate, entry.selection_rate), (700, 2 * UNIT));
    assert!(at_two.population.is_none());
    let at_three = report(&setup, &population, 3);
    assert!(at_three.progress.is_none());
    let snapshot = at_three.population.unwrap();
    assert_eq!(snapshot.generation, 3);
    assert_eq!(snapshot.candidates, vec![vec![1, 2], vec![30, 40], vec![5, 6]]);
    let at_six = report(&setup, &population, 6);
    assert!(at_six.progress.is_some() && at_six.population.is_some());
    let at_zero = report(&setup, &population, 0);
    assert!(at_zero.progress.is_none() && at_zero.population.is_none());
}

#[test]
fn start_makes_and_evaluates_the_first_generation() {
    let rows = initial(19, 5, 3);
    let mut rng = SmallRng::seed_from_u64(19);
    let search = start::<Sum>(&config(5, 3, 4), &mut rng).unwrap();
    assert_eq!(search.generation, 0);
    assert_eq!(search.config, config(5, 3, 4));
    assert!(!search.finished());
    assert_eq!(search.population.snapshot(), rows);
    for member in &search.population.members {
        assert_eq!(member.fitness, Sum::fitness(&member.genes));
    }
}

#[test]
fn start_refuses_a_bad_configuration_before_any_candidate_is_made() {
    let mut rng = SmallRng::seed_from_u64(1);
    assert_eq!(
        start::<Untouchable>(&config(1, 1, 5), &mut rng).err(),
        Some(RunError::Configuration(ConfigurationError::PopulationTooSmall))
    );
    assert_eq!(
        start::<Untouchable>(&config(2, 0, 5), &mut rng).err(),
        Some(RunError::Configuration(ConfigurationError::EmptyProblem))
    );
}

#[test]
fn run_that_stops_at_once_is_finished_at_the_start() {
    let mut rng = SmallRng::seed_from_u64(1);
    let search = start::<Sum>(&config(4, 2, 0), &mut rng).unwrap();
    assert!(search.finished());
}

#[test]
fn advancing_step_by_step_is_the_whole_run() {
    let mut setup = config(8, 3, 12);
    setup.mutation_rate_schedule = RateSchedule::Constant(UNIT / 5);
    setup.progress_log_interval = 4;
    setup.population_log_interval = 6;
    let mut whole = SmallRng::seed_from_u64(41);
    let outcome = run::<Sum>(&setup, &mut whole).unwrap();

    let mut rng = SmallRng::seed_from_u64(41);
    let mut search = start::<Sum>(&setup, &mut rng).unwrap();
    let mut progress = Vec::new();
    let mut dumped = Vec::new();
    let mut steps = 0;
    while !search.finished() {
        let made = advance::<Sum>(&mut search, &mut rng).unwrap();
        steps += 1;
        assert_eq!(search.generation, steps);
        assert_eq!(search.population.members.len(), 8);
        assert_eq!(made.progress.is_some(), steps % 4 == 0);
        assert_eq!(made.population.is_some(), steps % 6 == 0);
        if let Some(entry) = made.progress {
            progress.push(entry);
        }
        if let Some(snapshot) = made.population {
            dumped.push((snapshot.generation, snapshot.candidates));
        }
    }
    assert_eq!(steps, 12);
    assert_eq!(progress, outcome.progress_log);
    let logged: Vec<(u64, Vec<Vec<i64>>)> = outcome
        .population_log
        .into_iter()
        .map(|snapshot| (snapshot.generation, snapshot.candidates))
        .collect();
    assert_eq!(dumped, logged);
    assert_eq!(search.population.snapshot(), outcome.population.snapshot());
    assert_eq!(solutions::<Sum>(&search.population), outcome.solutions);
}

#[test]
fn failed_step_is_not_counted_and_keeps_what_was_reported() {
    let mut setup = config(4, 2, 10);
    setup.mutation_rate_schedule =
        RateSchedule::Linear { start: -2 * UNIT, bound: UNIT, coefficient: UNIT };
    let mut rng = SmallRng::seed_from_u64(3);
    let mut search = start::<NoMutation>(&setup, &mut rng).unwrap();
    let mut reported = Vec::new();
    let failure = loop {
        match advance::<NoMutation>(&mut search, &mut rng) {
            Ok(made) => reported.push(made.progress.unwrap().generation),
            Err(error) => break error,
        }
    };
    assert_eq!(failure, RunError::CandidateOperationFailure(CandidateOperation::Mutate));
    assert_eq!(reported, vec![1, 2]);
    assert_eq!(search.generation, 2);
    assert_eq!(search.population.members.len(), 4);
}

#[test]
fn solutions_are_exactly_the_candidates_that_are_accepted() {
    let population = evaluated(vec![vec![900, 700], vec![1, 2], vec![800, 700], vec![0, 1499]]);
    assert_eq!(solutions::<Sum>(&population), vec![vec![900, 700], vec![800, 700]]);
    let mut unevaluated = evaluated(vec![vec![900, 700], vec![900, 900]]);
    unevaluated.members[0].fitness = None;
    assert_eq!(solutions::<Sum>(&unevaluated), vec![vec![900, 900]]);
}

#[test]
fn run_that_stops_at_once_returns_the_solutions_of_the_first_generation() {
    let rows = initial(31, 30, 3);
    let mut expected = Vec::new();
    for genes in &rows {
        if genes.iter().sum::<i64>() >= 1500 {
            expected.push(genes.clone());
        }
    }
    let mut rng = SmallRng::seed_from_u64(31);
    let outcome = run::<Sum>(&config(30, 3, 0), &mut rng).unwrap();
    assert_eq!(outcome.generations_run, 0);
    assert!(!expected.is_empty());
    assert_eq!(outcome.solutions, expected);
}

#[test]
fn candidate_is_mutated_gene_by_gene() {
    let mut rng = SmallRng::seed_from_u64(12);
    let mut candidate = Individual { genes: vec![1, 2, 3, 4], fitness: Some(10) };
    assert_eq!(mutate_candidate::<Untouchable>(&mut candidate, 0, &mut rng), Ok(()));
    assert_eq!(candidate.genes, vec![1, 2, 3, 4]);
    assert_eq!(candidate.fitness, Some(10));
    assert_eq!(mutate_candidate::<Sum>(&mut candidate, UNIT, &mut rng), Ok(()));
    assert_eq!(candidate.genes.len(), 4);
    assert!(candidate.genes.iter().all(|gene| *gene >= 5000));
    assert_eq!(candidate.fitness, None);
}

#[test]
fn candidate_without_genes_is_left_alone() {
    let mut rng = SmallRng::seed_from_u64(12);
    let mut candidate = Individual { genes: Vec::<i64>::new(), fitness: Some(0) };
    assert_eq!(mutate_candidate::<Untouchable>(&mut candidate, UNIT, &mut rng), Ok(()));
    assert_eq!(candidate.fitness, Some(0));
}

#[test]
fn gene_that_cannot_be_mutated_ends_the_mutation() {
    let mut rng = SmallRng::seed_from_u64(12);
    let mut candidate = Individual { genes: vec![1, 2, 3, 4], fitness: Some(10) };
    assert_eq!(
        mutate_candidate::<NoMutation>(&mut candidate, UNIT, &mut rng),
        Err(RunError::CandidateOperationFailure(CandidateOperation::Mutate))
    );
    assert_eq!(candidate.genes, vec![1, 2, 3, 4]);
}

#[test]
fn mutated_genes_are_what_the_problem_gave_and_the_others_stay() {
    let mut rng = SmallRng::seed_from_u64(27);
    let genes: Vec<i64> = (0..200).collect();
    let mut candidate = Individual { genes: genes.clone(), fitness: Some(1) };
    assert_eq!(mutate_candidate::<Sum>(&mut candidate, UNIT / 4, &mut rng), Ok(()));
    let mut changed = 0;
    for (index, gene) in candidate.genes.iter().enumerate() {
        if *gene != genes[index] {
            changed += 1;
            assert!(5000 <= *gene && *gene < 6000);
        }
    }
    assert!(20 < changed && changed < 90);
    assert_eq!(candidate.fitness, None);
}

#[test]
fn draw_below_the_rate_mutates_the_gene() {
    let mut rng = SmallRng::seed_from_u64(14);
    let mut candidate = Individual { genes: vec![1, 2, 3], fitness: Some(6) };
    assert_eq!(mutate_gene::<Sum>(&mut candidate, 1, 5_000, 4_999, &mut rng), Ok(()));
    assert_eq!(candidate.genes[0], 1);
    assert!(5000 <= candidate.genes[1] && candidate.genes[1] < 6000);
    assert_eq!(candidate.genes[2], 3);
    assert_eq!(candidate.fitness, None);
}

#[test]
fn draw_at_or_above_the_rate_leaves_the_candidate() {
    let mut rng = SmallRng::seed_from_u64(14);
    let mut candidate = Individual { genes: vec![1, 2, 3], fitness: Some(6) };
    assert_eq!(mutate_gene::<Untouchable>(&mut candidate, 1, 5_000, 5_000, &mut rng), Ok(()));
    assert_eq!(mutate_gene::<Untouchable>(&mut candidate, 0, 5_000, 999_999, &mut rng), Ok(()));
    assert_eq!(mutate_gene::<Untouchable>(&mut candidate, 2, 0, 0, &mut rng), Ok(()));
    assert_eq!(mutate_gene::<Untouchable>(&mut candidate, 2, -UNIT, 0, &mut rng), Ok(()));
    assert_eq!(candidate.genes, vec![1, 2, 3]);
    assert_eq!(candidate.fitness, Some(6));
}

#[test]
fn gene_without_a_new_value_fails_and_leaves_the_candidate() {
    let mut rng = SmallRng::seed_from_u64(14);
    let mut candidate = Individual { genes: vec![1, 2, 3], fitness: Some(6) };
    assert_eq!(
        mutate_gene::<NoMutation>(&mut candidate, 1, UNIT, 0, &mut rng),
        Err(RunError::CandidateOperationFailure(CandidateOperation::Mutate))
    );
    assert_eq!(candidate.genes, vec![1, 2, 3]);
    assert_eq!(candidate.fitness, Some(6));
    assert_eq!(mutate_gene::<NoMutation>(&mut candidate, 1, 500_000, 500_000, &mut rng), Ok(()));
}

#[test]
fn every_logged_generation_is_described_by_its_entries() {
    let mut setup = config(6, 3, 9);
    setup.mutation_rate_schedule = RateSchedule::Constant(UNIT / 3);
    setup.progress_log_interval = 1;
    setup.population_log_interval = 1;
    let mut rng = SmallRng::seed_from_u64(61);
    let outcome = run::<Sum>(&setup, &mut rng).unwrap();
    assert_eq!(outcome.progress_log.len(), 9);
    assert_eq!(outcome.population_log.len(), 9);
    for (entry, snapshot) in outcome.progress_log.iter().zip(outcome.population_log.iter()) {
        assert_eq!(entry.generation, snapshot.generation);
        let fitness: Vec<i64> =
            snapshot.candidates.iter().map(|genes| genes.iter().sum()).collect();
        assert_eq!(entry.best, *fitness.iter().max().unwrap());
        assert_eq!(entry.worst, *fitness.iter().min().unwrap());
        assert_eq!(entry.mean, fitness.iter().sum::<i64>().div_euclid(6));
    }
}
