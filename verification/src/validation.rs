//! Records of validation experiments.
use vstd::prelude::*;

verus! {

/// One GUE instance computed during a validation experiment.
#[derive(Debug, Clone)]
pub struct GueInstanceResult {
    pub id: Option<i64>,
    pub experiment_id: String,
    pub instance_id: usize,
    pub gue_size: usize,
    pub gpu_id: usize,
    pub computation_time_ms: u64,
}

} // verus!
