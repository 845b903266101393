//! The configuration of a run and its validity.

use crate::schedule::RateSchedule;
use crate::selection::SelectionFunction;
use crate::stop::StopCriterion;
use vstd::prelude::*;

verus! {

/// The options of a run.
#[derive(Clone, Copy, Debug, PartialEq, Eq, Structural)]
pub struct Config {
    /// The number of genes of a candidate. At least one.
    pub problem_size: usize,
    /// The number of candidates in every generation. At least two.
    pub population_size: usize,
    /// The probability that a gene of an offspring is mutated.
    pub mutation_rate_schedule: RateSchedule,
    /// The size of the cup from which parents are drawn.
    pub selection_rate_schedule: RateSchedule,
    pub selection_function: SelectionFunction,
    pub stop_criterion: StopCriterion,
    /// A progress entry is made every so many generations; zero disables them.
    pub progress_log_interval: u64,
    /// The population is recorded every so many generations; zero disables it.
    pub population_log_interval: u64,
}

/// Why a configuration is refused.
#[derive(Clone, Copy, Debug, PartialEq, Eq, Structural)]
pub enum ConfigurationError {
    /// Fewer than two candidates.
    PopulationTooSmall,
    /// Candidates without genes.
    EmptyProblem,
}

impl Config {
    /// What is wrong with the configuration, if anything. The population
    /// size is looked at first.
    pub open spec fn fault(&self) -> Option<ConfigurationError> {
        if self.population_size < 2 {
            Some(ConfigurationError::PopulationTooSmall)
        } else if self.problem_size < 1 {
            Some(ConfigurationError::EmptyProblem)
        } else {
            None
        }
    }

    /// A run can start from this configuration.
    pub open spec fn valid(&self) -> bool {
        self.population_size >= 2 && self.problem_size >= 1
    }

    /// Accepts the configuration or says what is wrong with it.
    pub fn validate(&self) -> (checked: Result<(), ConfigurationError>)
        ensures
            checked is Ok <==> self.valid(),
            checked is Err ==> self.fault() == Some(checked->Err_0),
    {
        if self.population_size < 2 {
            Err(ConfigurationError::PopulationTooSmall)
        } else if self.problem_size < 1 {
            Err(ConfigurationError::EmptyProblem)
        } else {
            Ok(())
        }
    }
}

} // verus!
