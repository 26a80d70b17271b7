//! Result records written by the command-line runs, and the labels that
//! describe a Born-oscillator run of a given quantization order.
use vstd::prelude::*;

verus! {

/// Parameters of a Berry-Keating run.
#[derive(Debug, Clone)]
pub struct BerryKeatingParameters {
    pub truncation: usize,
}

/// Provenance of a Berry-Keating run.
#[derive(Debug, Clone)]
pub struct BerryKeatingMetadata {
    pub theorem: String,
    pub note: String,
}

/// Provenance of a Born-oscillator run.
#[derive(Debug, Clone)]
pub struct BornOscillatorMetadata {
    pub quantization: String,
    pub paper: String,
}

/// Parameters of a zeta-zeros run.
#[derive(Debug, Clone)]
pub struct ZetaZerosParameters {
    pub data_file: String,
    pub count: usize,
}

/// Provenance of a zeta-zeros run.
#[derive(Debug, Clone)]
pub struct ZetaZerosMetadata {
    pub phenomenon: String,
    pub conclusion: String,
}

/// How a Born-oscillator run of quantization order `order` is described on
/// screen: order 0 is semiclassical, order 1 adds the first quantum
/// correction, and higher orders are not implemented.
pub fn born_order_name(order: usize) -> (s: &'static str)
    ensures
        order == 0 ==> s@ == "semiclassical (Σ₀ only)"@,
        order == 1 ==> s@ == "first quantum correction (Σ₀ + Σ₁)"@,
        order >= 2 ==> s@ == "higher order (not implemented)"@,
{
    match order {
        0 => "semiclassical (Σ₀ only)",
        1 => "first quantum correction (Σ₀ + Σ₁)",
        _ => "higher order (not implemented)",
    }
}

/// The quantization condition solved at quantization order `order`.
pub fn born_quantization_formula(order: usize) -> (s: &'static str)
    ensures
        order == 0 ==> s@ == "n + 1/2 = Σ₀(E)/ℏ"@,
        order == 1 ==> s@ == "n + 1/2 = Σ₀(E)/ℏ + Σ₁(E)ℏ"@,
        order >= 2 ==> s@ == "n + 1/2 = Σ₀(E)/ℏ + Σ₁(E)ℏ + ..."@,
{
    match order {
        0 => "n + 1/2 = Σ₀(E)/ℏ",
        1 => "n + 1/2 = Σ₀(E)/ℏ + Σ₁(E)ℏ",
        _ => "n + 1/2 = Σ₀(E)/ℏ + Σ₁(E)ℏ + ...",
    }
}

/// The quantization recorded in the metadata of a run of order `order`.
pub fn born_quantization_label(order: usize) -> (s: &'static str)
    ensures
        order == 0 ==> s@ == "Semiclassical (Σ₀ only)"@,
        order == 1 ==> s@ == "Weyl (Σ₀ + Σ₁)"@,
        order >= 2 ==> s@ == "Not implemented"@,
{
    match order {
        0 => "Semiclassical (Σ₀ only)",
        1 => "Weyl (Σ₀ + Σ₁)",
        _ => "Not implemented",
    }
}

} // verus!
