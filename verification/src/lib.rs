//! A generational evolutionary search: a population of candidates is ranked,
//! parents are drawn from the fittest, their offspring are mutated and take
//! the place of the population, until a stop criterion holds.
//!
//! The problem that is searched is a [`engine::Candidate`]; [`engine::run`]
//! searches it. Rates and fitness values are fixed-point numbers, see
//! [`fixed`]. Every function has a contract that Verus proves; `random` and
//! `stop` hold the few calls whose contracts are taken on trust.

pub mod config;
pub mod engine;
pub mod fixed;
pub mod population;
pub mod random;
pub mod rank;
pub mod report;
pub mod schedule;
pub mod selection;
pub mod sphere;
pub mod stop;
