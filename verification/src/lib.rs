//! Verified core of a spectral toolkit around the Riemann zeta zeros.
//!
//! The library holds the exact (integer and combinatorial) parts of the
//! toolkit: prime generation and prime-gap bookkeeping, the symbolic
//! structure of the truncated Berry-Keating Hamiltonian, the layout used to
//! turn a complex Hermitian matrix into a real symmetric one, batching of
//! work items, and the configuration and result records.

pub mod error;

pub use error::RiemannError;
pub mod number_theory;
pub mod primes;

pub use primes::generate_primes;
pub mod order_stats;
pub mod hamiltonian;

pub use hamiltonian::{BerryKeatingSystem, GueSystem, MatrixEntry};
pub mod solver;

pub use solver::{GpuSolver, LapackSolver};
pub mod gpu;

pub use gpu::{GpuBatchProcessor, GpuBatchProcessorV2, GpuKernels};
pub mod analysis;
pub mod config;
pub mod output;
pub mod validation;

pub use analysis::{GueUnfolding, RiemannUnfolding, SpacingAnalyzer};
pub use config::SimulationConfig;
pub use primes::PrimeGapAnalyzer;
pub use validation::GueInstanceResult;
