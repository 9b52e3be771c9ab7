//! A generational evolutionary-search engine: tournament selection,
//! single-point crossover, per-gene mutation and run statistics, with
//! contracts checked by Verus.
use vstd::prelude::*;

pub mod ga;
pub mod genetics;
mod random;

pub use genetics::{run, AlgorithmConfig, AlgorithmStats, ConfigError, Individual};

verus! {

} // verus!
