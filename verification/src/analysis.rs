//! Spectrum analyzers and unfolding methods. Their statistics are floating
//! point and computed outside this library; the types live here.
use vstd::prelude::*;

verus! {

/// Analyzer for nearest-neighbor spacing statistics.
pub struct SpacingAnalyzer;

impl SpacingAnalyzer {
    pub fn new() -> (a: Self) {
        SpacingAnalyzer
    }
}

/// Unfolding of Riemann zeros through the Riemann-von Mangoldt counting
/// function.
pub struct RiemannUnfolding;

/// Unfolding of GUE eigenvalues through their local density.
pub struct GueUnfolding;

} // verus!
