use riemann_solver::gpu::{make_batches, GpuBatchProcessor, GpuBatchProcessorV2};
use riemann_solver::output::{born_order_name, born_quantization_formula, born_quantization_label};
use riemann_solver::solver::{realified_source, select_every_second, RealPart, RealSource};
use riemann_solver::{GpuSolver, SimulationConfig};

#[test]
fn every_second_value() {
    assert_eq!(select_every_second(&vec![1.0, 1.0, 2.0, 2.0, 5.0, 5.0]), vec![1.0, 2.0, 5.0]);
    assert_eq!(select_every_second(&vec![1, 2, 3]), vec![1, 3]);
    assert_eq!(select_every_second(&Vec::<u8>::new()), Vec::<u8>::new());
}

#[test]
fn realified_layout_blocks() {
    // n = 2: [[A, -B], [B, A]]
    assert_eq!(realified_source(2, 0, 1), RealSource { row: 0, col: 1, part: RealPart::Re });
    assert_eq!(realified_source(2, 3, 2), RealSource { row: 1, col: 0, part: RealPart::Re });
    assert_eq!(realified_source(2, 2, 1), RealSource { row: 0, col: 1, part: RealPart::Im });
    assert_eq!(realified_source(2, 1, 2), RealSource { row: 1, col: 0, part: RealPart::NegIm });
}

#[test]
fn realified_layout_is_symmetric_for_hermitian_input() {
    // H = [[1, 0.5+0.5i], [0.5-0.5i, 2]]
    let h = [[(1.0, 0.0), (0.5, 0.5)], [(0.5, -0.5), (2.0, 0.0)]];
    let take = |s: RealSource| {
        let (re, im) = h[s.row][s.col];
        match s.part {
            RealPart::Re => re,
            RealPart::Im => im,
            RealPart::NegIm => -im,
        }
    };
    for r in 0..4 {
        for c in 0..4 {
            assert_eq!(take(realified_source(2, r, c)), take(realified_source(2, c, r)));
        }
    }
}

#[test]
fn batches_cover_items_in_order() {
    let batches = make_batches((1..=7).collect::<Vec<i32>>(), 3);
    assert_eq!(batches, vec![vec![1, 2, 3], vec![4, 5, 6], vec![7]]);
    let batches = make_batches((1..=6).collect::<Vec<i32>>(), 3);
    assert_eq!(batches, vec![vec![1, 2, 3], vec![4, 5, 6]]);
    let batches = make_batches(Vec::<i32>::new(), 4);
    assert!(batches.is_empty());
    let batches = make_batches(vec![1, 2], 10);
    assert_eq!(batches, vec![vec![1, 2]]);
}

#[test]
fn processors_run_on_cpu() {
    let p = GpuBatchProcessor::new(32).unwrap();
    assert!(!p.is_gpu_enabled());
    assert_eq!(p.batch_size(), 32);
    let p2 = GpuBatchProcessorV2::new(8).unwrap();
    assert!(!p2.is_gpu_enabled());
    assert_eq!(p2.batch_size(), 8);
    let s = GpuSolver::new(true).unwrap();
    assert!(!s.is_gpu_enabled());
}

#[test]
fn default_config() {
    let c = SimulationConfig::default();
    assert_eq!(c.matrix_size, 1000);
    assert_eq!(c.iterations, 100);
    assert_eq!(c.seed, None);
}

#[test]
fn born_labels_by_order() {
    assert_eq!(born_order_name(0), "semiclassical (Σ₀ only)");
    assert_eq!(born_order_name(1), "first quantum correction (Σ₀ + Σ₁)");
    assert_eq!(born_order_name(7), "higher order (not implemented)");
    assert_eq!(born_quantization_formula(1), "n + 1/2 = Σ₀(E)/ℏ + Σ₁(E)ℏ");
    assert_eq!(born_quantization_label(0), "Semiclassical (Σ₀ only)");
    assert_eq!(born_quantization_label(2), "Not implemented");
}
