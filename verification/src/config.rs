//! Simulation settings.
use vstd::prelude::*;

verus! {

/// Configuration for a simulation run.
#[derive(Debug, Clone)]
pub struct SimulationConfig {
    pub matrix_size: usize,
    pub iterations: usize,
    pub seed: Option<u64>,
}

impl Default for SimulationConfig {
    /// 1000 x 1000 matrices, 100 iterations, no fixed seed.
    fn default() -> (c: Self)
        ensures
            c.matrix_size == 1000,
            c.iterations == 100,
            c.seed == None::<u64>,
    {
        Self { matrix_size: 1000, iterations: 100, seed: None }
    }
}

} // verus!
