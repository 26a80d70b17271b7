use riemann_solver::primes::{generate_primes, GapSummary, PrimeGapAnalyzer};

#[test]
fn test_prime_generation() {
    let primes = generate_primes(100);
    assert_eq!(primes, vec![2, 3, 5, 7, 11, 13, 17, 19, 23, 29, 31, 37, 41, 43, 47, 53, 59, 61, 67, 71, 73, 79, 83, 89, 97]);
}

#[test]
fn test_gap_computation() {
    let primes = vec![2, 3, 5, 7, 11, 13];
    let analyzer = PrimeGapAnalyzer::new(primes);
    let gaps = analyzer.compute_gaps();
    assert_eq!(gaps, vec![1, 2, 2, 4, 2]);
}

#[test]
fn test_gap_statistics() {
    let primes = vec![2, 3, 5, 7, 11, 13, 17, 19, 23, 29];
    let analyzer = PrimeGapAnalyzer::new(primes);
    let stats = analyzer.gap_summary();

    let mean_gap = stats.total as f64 / stats.count as f64;
    let gaps = analyzer.compute_gaps();
    let variance = gaps
        .iter()
        .map(|g| (*g as f64 - mean_gap).powi(2))
        .sum::<f64>()
        / gaps.len() as f64;
    let std_dev = variance.sqrt();

    assert!(mean_gap > 0.0);
    assert!(std_dev > 0.0);
    assert_eq!(stats.count, 9);
}

#[test]
fn generate_primes_below_two_is_empty() {
    assert_eq!(generate_primes(0), Vec::<u64>::new());
    assert_eq!(generate_primes(1), Vec::<u64>::new());
}

#[test]
fn generate_primes_small_limits() {
    assert_eq!(generate_primes(2), vec![2]);
    assert_eq!(generate_primes(3), vec![2, 3]);
    assert_eq!(generate_primes(4), vec![2, 3]);
    assert_eq!(generate_primes(9), vec![2, 3, 5, 7]);
    assert_eq!(generate_primes(25), vec![2, 3, 5, 7, 11, 13, 17, 19, 23]);
    assert_eq!(generate_primes(49), vec![2, 3, 5, 7, 11, 13, 17, 19, 23, 29, 31, 37, 41, 43, 47]);
}

#[test]
fn generate_primes_counts() {
    assert_eq!(generate_primes(1000).len(), 168);
    assert_eq!(generate_primes(10_000).len(), 1229);
    assert_eq!(generate_primes(1_000_000).len(), 78498);
    assert_eq!(*generate_primes(1_000_000).last().unwrap(), 999_983);
}

#[test]
fn gap_sum_telescopes_over_generated_primes() {
    let primes = generate_primes(1000);
    let first = primes[0];
    let last = *primes.last().unwrap();
    let analyzer = PrimeGapAnalyzer::new(primes);
    let gaps = analyzer.compute_gaps();
    assert_eq!(gaps.iter().sum::<u64>(), last - first);
    assert!(gaps.iter().all(|g| *g > 0));
    assert_eq!(analyzer.gap_summary().total, 997 - 2);
}

#[test]
fn gap_summary_exact_values() {
    // gaps: 1 2 2 4 2 4 2 4 6 ; sorted: 1 2 2 2 2 4 4 4 6
    let analyzer = PrimeGapAnalyzer::new(vec![2, 3, 5, 7, 11, 13, 17, 19, 23, 29]);
    let s = analyzer.gap_summary();
    assert_eq!(
        s,
        GapSummary { count: 9, total: 27, mode_gap: 2, p10: 1, p50: 2, p90: 6 }
    );
}

#[test]
fn gap_summary_single_prime_is_empty() {
    let analyzer = PrimeGapAnalyzer::new(vec![7]);
    assert_eq!(analyzer.compute_gaps(), Vec::<u64>::new());
    assert_eq!(analyzer.gap_summary(), GapSummary::default());
}

#[test]
fn gap_summary_mode_tie_takes_smallest() {
    // gaps: 4 2 4 2 -> 2 and 4 both occur twice
    let analyzer = PrimeGapAnalyzer::new(vec![1, 5, 7, 11, 13]);
    let s = analyzer.gap_summary();
    assert_eq!(s.mode_gap, 2);
    assert_eq!(s.count, 4);
    assert_eq!(s.total, 12);
    assert_eq!((s.p10, s.p50, s.p90), (2, 4, 4));
}

#[test]
fn gap_summary_percentiles_of_twenty_gaps() {
    // gaps 1..=20 in order: points 0, 1, 3, 6, ...
    let mut points = vec![0u64];
    for g in 1..=20u64 {
        let last = *points.last().unwrap();
        points.push(last + g);
    }
    let s = PrimeGapAnalyzer::new(points).gap_summary();
    assert_eq!(s.count, 20);
    assert_eq!(s.total, 210);
    assert_eq!(s.mode_gap, 1);
    assert_eq!(s.p10, 3);
    assert_eq!(s.p50, 11);
    assert_eq!(s.p90, 19);
}

#[test]
fn primes_near_index_window() {
    let primes = generate_primes(1000);
    let analyzer = PrimeGapAnalyzer::new(primes.clone());
    // target 100: window [90, 110)
    let near = analyzer.primes_near_index(100).gap_summary();
    let expected = PrimeGapAnalyzer::new(primes[90..110].to_vec()).gap_summary();
    assert_eq!(near, expected);
    assert_eq!(near.count, 19);
    assert_eq!(near.total, primes[109] - primes[90]);
}

#[test]
fn primes_near_index_cut_at_end() {
    let primes = generate_primes(100);
    let analyzer = PrimeGapAnalyzer::new(primes.clone());
    // target 24: window [22, 25) because the list has 25 primes
    let near = analyzer.primes_near_index(24).gap_summary();
    let expected = PrimeGapAnalyzer::new(primes[22..25].to_vec()).gap_summary();
    assert_eq!(near, expected);
}

#[test]
fn primes_near_index_empty_window_uses_all() {
    let primes = generate_primes(100);
    let analyzer = PrimeGapAnalyzer::new(primes);
    // target 40 is past the 25 primes: the window is empty
    assert_eq!(analyzer.primes_near_index(40).gap_summary(), analyzer.gap_summary());
}

#[test]
fn ordered_primes_check() {
    assert!(PrimeGapAnalyzer::new(vec![2, 3, 5]).has_ordered_primes());
    assert!(PrimeGapAnalyzer::new(vec![5, 5]).has_ordered_primes());
    assert!(!PrimeGapAnalyzer::new(vec![5, 3]).has_ordered_primes());
    assert!(!PrimeGapAnalyzer::new(vec![]).has_ordered_primes());
}

#[test]
fn gap_distribution_counts_each_gap() {
    let analyzer = PrimeGapAnalyzer::new(vec![2, 3, 5, 7, 11, 13, 17, 19, 23, 29]);
    // gaps: 1 2 2 4 2 4 2 4 6
    assert_eq!(analyzer.gap_distribution(), vec![(1, 1), (2, 4), (4, 3), (6, 1)]);
}

#[test]
fn gap_distribution_extremes_match_min_max() {
    let primes = generate_primes(100_000);
    let analyzer = PrimeGapAnalyzer::new(primes);
    let gaps = analyzer.compute_gaps();
    let dist = analyzer.gap_distribution();
    assert_eq!(dist.first().unwrap().0, *gaps.iter().min().unwrap());
    assert_eq!(dist.last().unwrap().0, *gaps.iter().max().unwrap());
    assert_eq!(dist.iter().map(|(_, c)| *c).sum::<usize>(), gaps.len());
    assert_eq!(dist.last().unwrap().0, 72);
}
