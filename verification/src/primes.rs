//! Prime generation (sieve of Eratosthenes) and prime-gap bookkeeping.
use vstd::prelude::*;

use crate::order_stats::{
    is_smallest_mode, lemma_smallest_mode_unique, lemma_sorted_values, nondecreasing, occurrences, seq_sum, smallest_mode, smallest_mode_of_sorted,
    sort_values, sorted_values, is_value_counts, value_counts, count_where, lemma_count_where_multiset,
    lemma_count_where_tail_fails, lemma_count_where_prefix_holds, lemma_smallest_mode_exists,
};
use crate::number_theory::{
    divides, is_prime, lemma_divides_transitive, lemma_multiple_vs_quotient, lemma_no_multiple_between,
    lemma_small_divisor, lemma_square_bound_below, lemma_square_vs_quotient, primes_up_to,
};

verus! {

/// While sieving with every factor below `p`: `k` is still unmarked when it
/// is at least 2 and has no divisor `d` in `[2, p)` with `d * d <= k`.
pub open spec fn unmarked(k: nat, p: nat) -> bool {
    k >= 2 && forall|d: nat| 2 <= d < p && d * d <= k ==> !#[trigger] divides(d, k)
}

/// Sieving with `p` removes exactly the multiples of `p` from `p * p` on.
proof fn lemma_unmarked_step(k: nat, p: nat)
    requires
        p >= 2,
    ensures
        unmarked(k, p + 1) == (unmarked(k, p) && !(p * p <= k && divides(p, k))),
{
    if unmarked(k, p) && !(p * p <= k && divides(p, k)) {
        assert forall|d: nat| 2 <= d < p + 1 && d * d <= k implies !#[trigger] divides(d, k) by {
            if d < p {
            } else {
                assert(d == p);
            }
        }
    }
    if unmarked(k, p + 1) {
        assert forall|d: nat| 2 <= d < p && d * d <= k implies !#[trigger] divides(d, k) by {
            assert(2 <= d < p + 1);
        }
        assert(2 <= p < p + 1);
    }
}

/// A composite `p` (marked earlier) marks nothing new.
proof fn lemma_unmarked_step_composite(k: nat, p: nat)
    requires
        p >= 2,
        !unmarked(p, p),
    ensures
        unmarked(k, p + 1) == unmarked(k, p),
{
    lemma_unmarked_step(k, p);
    if unmarked(k, p) && p * p <= k && divides(p, k) {
        let d = choose|d: nat| 2 <= d < p && d * d <= p && #[trigger] divides(d, p);
        lemma_divides_transitive(d, p, k);
        assert(p <= p * p) by (nonlinear_arith)
            requires
                p >= 2,
        ;
        assert(d * d <= k);
        assert(!divides(d, k));
    }
}

/// Once `p * p` exceeds `n`, being unmarked is being prime.
proof fn lemma_unmarked_final(k: nat, p: nat, n: nat)
    requires
        p >= 2,
        p * p > n,
        k <= n,
    ensures
        unmarked(k, p) == is_prime(k),
{
    if is_prime(k) {
        assert forall|d: nat| 2 <= d < p && d * d <= k implies !#[trigger] divides(d, k) by {
            lemma_square_bound_below(d, k);
        }
    }
    if unmarked(k, p) && !is_prime(k) {
        let d = choose|d: nat| 1 < d < k && #[trigger] divides(d, k);
        let e = lemma_small_divisor(k, d);
        assert(e < p) by (nonlinear_arith)
            requires
                e * e <= k,
                k <= n,
                p * p > n,
                e > 1,
                p >= 2,
        ;
        assert(!divides(e, k));
    }
}

/// `primes_up_to(n)` is strictly increasing, holds only primes in `[2, n]`,
/// and holds every prime in `[2, n]`.
pub proof fn lemma_primes_up_to(n: nat)
    requires
        n <= u64::MAX,
    ensures
        forall|i: int, j: int|
            0 <= i < j < primes_up_to(n).len() ==> primes_up_to(n)[i] < primes_up_to(n)[j],
        forall|i: int|
            0 <= i < primes_up_to(n).len() ==> is_prime(#[trigger] primes_up_to(n)[i] as nat)
                && primes_up_to(n)[i] <= n,
        forall|q: nat| q <= n && is_prime(q) ==> #[trigger] primes_up_to(n).contains(q as u64),
    decreases n,
{
    if n >= 2 {
        lemma_primes_up_to((n - 1) as nat);
        let prev = primes_up_to((n - 1) as nat);
        assert forall|q: nat| q <= n && is_prime(q) implies #[trigger] primes_up_to(n).contains(
            q as u64,
        ) by {
            if q < n {
                assert(prev.contains(q as u64));
                let w = choose|w: int| 0 <= w < prev.len() && prev[w] == q as u64;
                if is_prime(n) {
                    assert(primes_up_to(n)[w] == q as u64);
                }
            } else {
                assert(primes_up_to(n)[prev.len() as int] == n as u64);
            }
        }
    }
}

/// The primes up to `limit`, in increasing order (sieve of Eratosthenes).
pub fn generate_primes(limit: u64) -> (primes: Vec<u64>)
    requires
        limit < usize::MAX,
    ensures
        primes@ == primes_up_to(limit as nat),
        forall|i: int, j: int| 0 <= i < j < primes@.len() ==> primes@[i] < primes@[j],
        forall|i: int|
            0 <= i < primes@.len() ==> is_prime(#[trigger] primes@[i] as nat) && primes@[i]
                <= limit,
        forall|q: nat| q <= limit && is_prime(q) ==> #[trigger] primes@.contains(q as u64),
{
    proof {
        lemma_primes_up_to(limit as nat);
    }
    if limit < 2 {
        return Vec::new();
    }
    let n: usize = limit as usize;
    // Every index from 2 on starts unmarked.
    let mut sieve: Vec<bool> = Vec::new();
    let mut i: usize = 0;
    while i <= n
        invariant
            n == limit,
            n < usize::MAX,
            i <= n + 1,
            sieve@.len() == i,
            forall|k: int| 0 <= k < i ==> sieve@[k] == unmarked(k as nat, 2),
        decreases n + 1 - i,
    {
        sieve.push(i >= 2);
        i = i + 1;
    }
    let mut p: usize = 2;
    while p <= n / p
        invariant
            n == limit,
            n < usize::MAX,
            2 <= p,
            sieve@.len() == n + 1,
            forall|k: int| 0 <= k <= n ==> sieve@[k] == unmarked(k as nat, p as nat),
        decreases n - p,
    {
        proof {
            lemma_square_vs_quotient(p as nat, n as nat);
            lemma_square_bound_below(p as nat, n as nat);
        }
        if sieve[p] {
            // Mark p * t for t = p, p + 1, ..., n / p.
            let mut t: usize = p;
            while t <= n / p
                invariant
                    n == limit,
                    n < usize::MAX,
                    2 <= p,
                    p * p <= n,
                    p <= t,
                    t <= n / p + 1,
                    sieve@.len() == n + 1,
                    forall|k: int|
                        0 <= k <= n ==> sieve@[k] == (unmarked(k as nat, p as nat) && !(p * p <= k
                            && divides(p as nat, k as nat) && k < p * t)),
                decreases n / p + 1 - t,
            {
                proof {
                    lemma_multiple_vs_quotient(p as nat, t as nat, n as nat);
                    assert(p * p <= p * t) by (nonlinear_arith)
                        requires
                            p <= t,
                    ;
                    vstd::arithmetic::div_mod::lemma_mod_multiples_basic(t as int, p as int);
                    assert(p * t == t * p) by (nonlinear_arith);
                }
                let m: usize = p * t;
                let ghost before = sieve@;
                sieve[m] = false;
                proof {
                    assert(p * (t + 1) == p * t + p) by (nonlinear_arith);
                    assert forall|k: int| 0 <= k <= n implies sieve@[k] == (unmarked(
                        k as nat,
                        p as nat,
                    ) && !(p * p <= k && divides(p as nat, k as nat) && k < p * (t + 1))) by {
                        if k == m {
                        } else if p * t < k < p * t + p {
                            lemma_no_multiple_between(p as nat, t as nat, k as nat);
                            assert(before[k] == sieve@[k]);
                        } else {
                            assert(before[k] == sieve@[k]);
                        }
                    }
                }
                t = t + 1;
            }
            proof {
                lemma_multiple_vs_quotient(p as nat, t as nat, n as nat);
                assert forall|k: int| 0 <= k <= n implies sieve@[k] == unmarked(
                    k as nat,
                    (p + 1) as nat,
                ) by {
                    lemma_unmarked_step(k as nat, p as nat);
                }
            }
        } else {
            proof {
                assert(sieve@[p as int] == unmarked(p as nat, p as nat));
                assert forall|k: int| 0 <= k <= n implies sieve@[k] == unmarked(
                    k as nat,
                    (p + 1) as nat,
                ) by {
                    lemma_unmarked_step_composite(k as nat, p as nat);
                }
            }
        }
        p = p + 1;
    }
    proof {
        lemma_square_vs_quotient(p as nat, n as nat);
        assert forall|k: int| 0 <= k <= n implies sieve@[k] == is_prime(k as nat) by {
            lemma_unmarked_final(k as nat, p as nat, n as nat);
        }
    }
    // Collect the unmarked indices in increasing order.
    let mut primes: Vec<u64> = Vec::new();
    let mut i: usize = 2;
    while i <= n
        invariant
            n == limit,
            n < usize::MAX,
            2 <= i <= n + 1,
            sieve@.len() == n + 1,
            forall|k: int| 0 <= k <= n ==> sieve@[k] == is_prime(k as nat),
            primes@ == primes_up_to((i - 1) as nat),
        decreases n + 1 - i,
    {
        if sieve[i] {
            primes.push(i as u64);
        }
        i = i + 1;
    }
    primes
}


/// Each entry is at most the next one.
pub open spec fn adjacent_nondecreasing(s: Seq<u64>) -> bool {
    forall|i: int| 0 <= i < s.len() - 1 ==> #[trigger] s[i] <= s[i + 1]
}

/// The gaps `s[i + 1] - s[i]` between consecutive entries of `s`.
pub open spec fn gaps_of(s: Seq<u64>) -> Seq<u64> {
    if s.len() == 0 {
        Seq::empty()
    } else {
        Seq::new((s.len() - 1) as nat, |i: int| (s[i + 1] - s[i]) as u64)
    }
}

/// Integer summary of a sequence of gaps: how many there are, their sum,
/// the smallest most frequent gap, and the gaps at the 10th, 50th and 90th
/// percentile positions of the sorted gaps.
#[derive(Clone, Copy, Debug, PartialEq, Eq, Structural)]
pub struct GapSummary {
    pub count: usize,
    pub total: u64,
    pub mode_gap: u64,
    pub p10: u64,
    pub p50: u64,
    pub p90: u64,
}

/// The summary with every field zero, which stands for "no gaps".
pub open spec fn empty_summary() -> GapSummary {
    GapSummary { count: 0, total: 0, mode_gap: 0, p10: 0, p50: 0, p90: 0 }
}

/// The percentile positions used by the summary of `n` sorted gaps.
pub open spec fn p10_index(n: nat) -> int {
    (n / 10) as int
}

pub open spec fn p50_index(n: nat) -> int {
    (n / 2) as int
}

pub open spec fn p90_index(n: nat) -> int {
    ((9 * n) / 10) as int
}

/// The summary of the gaps `g` (all zero when there are none).
pub open spec fn summary_of(g: Seq<u64>) -> GapSummary {
    if g.len() == 0 {
        empty_summary()
    } else {
        GapSummary {
            count: g.len() as usize,
            total: seq_sum(g) as u64,
            mode_gap: smallest_mode(g),
            p10: sorted_values(g)[p10_index(g.len())],
            p50: sorted_values(g)[p50_index(g.len())],
            p90: sorted_values(g)[p90_index(g.len())],
        }
    }
}

/// The percentile gaps of a summary are in order, and each of them is a
/// gap that occurs.
pub proof fn lemma_summary_percentiles(g: Seq<u64>)
    requires
        g.len() > 0,
    ensures
        summary_of(g).p10 <= summary_of(g).p50 <= summary_of(g).p90,
        g.contains(summary_of(g).p10),
        g.contains(summary_of(g).p50),
        g.contains(summary_of(g).p90),
{
    broadcast use vstd::seq_lib::group_to_multiset_ensures;

    lemma_sorted_values(g);
    let t = sorted_values(g);
    let n = g.len();
    assert(p10_index(n) <= p50_index(n) <= p90_index(n) < n);
    assert(t.contains(t[p10_index(n)]));
    assert(t.contains(t[p50_index(n)]));
    assert(t.contains(t[p90_index(n)]));
    assert(t.to_multiset().count(t[p10_index(n)]) > 0);
    assert(t.to_multiset().count(t[p50_index(n)]) > 0);
    assert(t.to_multiset().count(t[p90_index(n)]) > 0);
}

/// How many of the gaps `g` are smaller than `v`.
pub open spec fn count_below(g: Seq<u64>, v: u64) -> nat {
    count_where(g, |x: u64| x < v)
}

/// How many of the gaps `g` are at most `v`.
pub open spec fn count_at_most(g: Seq<u64>, v: u64) -> nat {
    count_where(g, |x: u64| x <= v)
}

/// The value at position `k` of the sorted `t` has at most `k` entries of
/// `g` below it and more than `k` entries of `g` at or below it.
proof fn lemma_rank_of_sorted_position(g: Seq<u64>, k: int)
    requires
        0 <= k < g.len(),
    ensures
        count_below(g, sorted_values(g)[k]) <= k,
        count_at_most(g, sorted_values(g)[k]) > k,
{
    lemma_sorted_values(g);
    let t = sorted_values(g);
    let v = t[k];
    let below = |x: u64| x < v;
    let at_most = |x: u64| x <= v;
    lemma_count_where_multiset(g, below);
    lemma_count_where_multiset(t, below);
    lemma_count_where_multiset(g, at_most);
    lemma_count_where_multiset(t, at_most);
    assert forall|i: int| k <= i < t.len() implies !below(#[trigger] t[i]) by {
        assert(t[k] <= t[i]);
    }
    lemma_count_where_tail_fails(t, below, k);
    assert forall|i: int| 0 <= i < k + 1 implies at_most(#[trigger] t[i]) by {
        assert(t[i] <= t[k]);
    }
    lemma_count_where_prefix_holds(t, at_most, k + 1);
}

/// The percentile gaps of a summary rank as percentiles of all the gaps:
/// with `n` gaps, at most `n / 10` gaps are smaller than `p10` and more
/// than `n / 10` are at most `p10`; likewise `n / 2` for `p50` and
/// `9n / 10` for `p90`.
pub proof fn lemma_summary_percentile_ranks(g: Seq<u64>)
    requires
        g.len() > 0,
    ensures
        count_below(g, summary_of(g).p10) <= g.len() / 10 < count_at_most(g, summary_of(g).p10),
        count_below(g, summary_of(g).p50) <= g.len() / 2 < count_at_most(g, summary_of(g).p50),
        count_below(g, summary_of(g).p90) <= (9 * g.len()) / 10 < count_at_most(
            g,
            summary_of(g).p90,
        ),
{
    let n = g.len();
    assert((9 * n) / 10 < n) by (nonlinear_arith)
        requires
            n >= 1,
    ;
    lemma_rank_of_sorted_position(g, (n / 10) as int);
    lemma_rank_of_sorted_position(g, (n / 2) as int);
    lemma_rank_of_sorted_position(g, ((9 * n) / 10) as int);
}

/// The summary's most frequent gap is counted over all the gaps: it occurs,
/// no gap occurs more often, and every smaller gap occurs less often.
pub proof fn lemma_summary_mode(g: Seq<u64>)
    requires
        g.len() > 0,
    ensures
        g.to_multiset().count(summary_of(g).mode_gap) > 0,
        forall|v: u64|
            #[trigger] g.to_multiset().count(v) <= g.to_multiset().count(summary_of(g).mode_gap),
        forall|v: u64|
            v < summary_of(g).mode_gap ==> #[trigger] g.to_multiset().count(v)
                < g.to_multiset().count(summary_of(g).mode_gap),
{
    lemma_smallest_mode_exists(g);
    let m = summary_of(g).mode_gap;
    assert(is_smallest_mode(g, m));
    assert forall|v: u64| #[trigger] g.to_multiset().count(v) <= g.to_multiset().count(m) by {
        assert(occurrences(g, v) <= occurrences(g, m));
    }
    assert forall|v: u64| v < m implies #[trigger] g.to_multiset().count(v)
        < g.to_multiset().count(m) by {
        assert(occurrences(g, v) < occurrences(g, m));
    }
}

impl Default for GapSummary {
    fn default() -> (s: GapSummary)
        ensures
            s == empty_summary(),
    {
        GapSummary { count: 0, total: 0, mode_gap: 0, p10: 0, p50: 0, p90: 0 }
    }
}

/// The sum of the first `i` gaps of a nondecreasing-adjacent `s` is
/// `s[i] - s[0]`.
proof fn lemma_gap_prefix_sum(s: Seq<u64>, i: int)
    requires
        s.len() >= 1,
        adjacent_nondecreasing(s),
        0 <= i < s.len(),
    ensures
        seq_sum(gaps_of(s).subrange(0, i)) == s[i] - s[0],
    decreases i,
{
    if i > 0 {
        lemma_gap_prefix_sum(s, i - 1);
        assert(gaps_of(s).subrange(0, i).drop_last() == gaps_of(s).subrange(0, i - 1));
        assert(s[i - 1] <= s[i]);
    }
}

/// The gaps of a sequence whose entries never decrease add up to its last
/// entry minus its first.
pub proof fn lemma_gap_sum_telescopes(s: Seq<u64>)
    requires
        s.len() >= 1,
        adjacent_nondecreasing(s),
    ensures
        seq_sum(gaps_of(s)) == s[s.len() - 1] - s[0],
{
    lemma_gap_prefix_sum(s, s.len() - 1);
    assert(gaps_of(s).subrange(0, s.len() - 1) == gaps_of(s));
}

/// The primes up to any bound can be handed to `PrimeGapAnalyzer`: their
/// entries increase, so every gap between consecutive primes is positive.
pub proof fn lemma_prime_gaps_positive(n: nat)
    requires
        2 <= n <= u64::MAX,
    ensures
        primes_up_to(n).len() >= 1,
        adjacent_nondecreasing(primes_up_to(n)),
        forall|i: int| 0 <= i < gaps_of(primes_up_to(n)).len() ==> #[trigger] gaps_of(primes_up_to(n))[i] > 0,
{
    lemma_primes_up_to(n);
    assert(is_prime(2)) by {
        assert forall|d: nat| 1 < d < 2 implies !#[trigger] divides(d, 2) by {}
    }
    let two: nat = 2;
    assert(primes_up_to(n).contains(two as u64));
    let s = primes_up_to(n);
    assert forall|i: int| 0 <= i < s.len() - 1 implies #[trigger] s[i] <= s[i + 1] by {
        assert(s[i] < s[i + 1]);
    }
    assert forall|i: int| 0 <= i < gaps_of(s).len() implies #[trigger] gaps_of(s)[i] > 0 by {
        assert(s[i] < s[i + 1]);
    }
}

/// Spacing statistics of a list of primes.
pub struct PrimeGapAnalyzer {
    primes: Vec<u64>,
}

impl View for PrimeGapAnalyzer {
    type V = Seq<u64>;

    /// The primes the analyzer was made with.
    closed spec fn view(&self) -> Seq<u64> {
        self.primes@
    }
}

impl PrimeGapAnalyzer {
    /// An analyzer over `primes`, kept in the given order.
    pub fn new(primes: Vec<u64>) -> (a: Self)
        ensures
            a@ == primes@,
    {
        Self { primes }
    }

    /// The gaps `g_n = p_{n+1} - p_n` between consecutive primes.
    pub fn compute_gaps(&self) -> (gaps: Vec<u64>)
        requires
            self@.len() >= 1,
            adjacent_nondecreasing(self@),
        ensures
            gaps@ == gaps_of(self@),
            gaps@.len() == self@.len() - 1,
            forall|i: int| 0 <= i < gaps@.len() ==> #[trigger] gaps@[i] == self@[i + 1] - self@[i],
    {
        let mut gaps: Vec<u64> = Vec::new();
        let n = self.primes.len();
        let mut i: usize = 0;
        while i < n - 1
            invariant
                n == self@.len(),
                n >= 1,
                self@ == self.primes@,
                adjacent_nondecreasing(self@),
                i <= n - 1,
                gaps@ == gaps_of(self@).subrange(0, i as int),
            decreases n - 1 - i,
        {
            assert(self.primes@[i as int] <= self.primes@[i + 1]);
            gaps.push(self.primes[i + 1] - self.primes[i]);
            i = i + 1;
        }
        assert(gaps_of(self@).subrange(0, (n - 1) as int) == gaps_of(self@));
        gaps
    }

    /// Count, sum, smallest most frequent gap and percentile gaps of the
    /// gaps between consecutive primes; all zero when there is one prime.
    pub fn gap_summary(&self) -> (s: GapSummary)
        requires
            self@.len() >= 1,
            adjacent_nondecreasing(self@),
        ensures
            s == summary_of(gaps_of(self@)),
            s.count == self@.len() - 1,
            s.total == self@[self@.len() - 1] - self@[0],
            s.count > 0 ==> count_below(gaps_of(self@), s.p10) <= s.count / 10 < count_at_most(
                gaps_of(self@),
                s.p10,
            ),
            s.count > 0 ==> count_below(gaps_of(self@), s.p50) <= s.count / 2 < count_at_most(
                gaps_of(self@),
                s.p50,
            ),
            s.count > 0 ==> count_below(gaps_of(self@), s.p90) <= (9 * s.count) / 10
                < count_at_most(gaps_of(self@), s.p90),
            s.count > 0 ==> is_smallest_mode(gaps_of(self@), s.mode_gap),
    {
        let gaps = self.compute_gaps();
        let count = gaps.len();
        proof {
            lemma_gap_sum_telescopes(self@);
            if count > 0 {
                lemma_summary_percentile_ranks(gaps@);
                lemma_smallest_mode_exists(gaps@);
            }
        }
        if count == 0 {
            return GapSummary { count: 0, total: 0, mode_gap: 0, p10: 0, p50: 0, p90: 0 };
        }
        let mut total: u64 = 0;
        let mut i: usize = 0;
        while i < count
            invariant
                count == gaps@.len(),
                gaps@ == gaps_of(self@),
                self@.len() == count + 1,
                adjacent_nondecreasing(self@),
                i <= count,
                total == seq_sum(gaps@.subrange(0, i as int)),
            decreases count - i,
        {
            proof {
                lemma_gap_prefix_sum(self@, i + 1);
                assert(gaps@.subrange(0, i + 1).drop_last() == gaps@.subrange(0, i as int));
            }
            total = total + gaps[i];
            i = i + 1;
        }
        proof {
            assert(gaps@.subrange(0, count as int) == gaps@);
        }
        let ghost g = gaps@;
        let sorted = sort_values(gaps);
        proof {
            lemma_sorted_values(g);
            assert(sorted@.to_multiset() == g.to_multiset());
        }
        let mode_gap = smallest_mode_of_sorted(&sorted);
        proof {
            assert forall|v: u64| #[trigger] occurrences(g, v) == occurrences(sorted@, v) by {}
            assert(is_smallest_mode(g, mode_gap));
            lemma_smallest_mode_unique(g, mode_gap);
            assert(9 * count / 10 < count) by (nonlinear_arith)
                requires
                    count >= 1,
            ;
        }
        let p90_at = count / 10 * 9 + count % 10 * 9 / 10;
        proof {
            assert(p90_at == 9 * count / 10) by (nonlinear_arith)
                requires
                    p90_at == count / 10 * 9 + count % 10 * 9 / 10,
            ;
        }
        GapSummary {
            count,
            total,
            mode_gap,
            p10: sorted[count / 10],
            p50: sorted[count / 2],
            p90: sorted[p90_at],
        }
    }

    /// Each gap size that occurs, in increasing order, with how many times
    /// it occurs.
    pub fn gap_distribution(&self) -> (h: Vec<(u64, usize)>)
        requires
            self@.len() >= 1,
            adjacent_nondecreasing(self@),
        ensures
            is_value_counts(h@, gaps_of(self@)),
    {
        let gaps = self.compute_gaps();
        let ghost g = gaps@;
        let sorted = sort_values(gaps);
        proof {
            lemma_sorted_values(g);
        }
        let h = value_counts(&sorted);
        proof {
            assert forall|v: u64| #[trigger] occurrences(g, v) == occurrences(sorted@, v) by {}
        }
        h
    }

    /// How many primes the analyzer holds.
    pub fn len(&self) -> (n: usize)
        ensures
            n == self@.len(),
    {
        self.primes.len()
    }

    /// Whether the gaps are defined: there is at least one prime and the
    /// primes never decrease.
    pub fn has_ordered_primes(&self) -> (b: bool)
        ensures
            b == (self@.len() >= 1 && adjacent_nondecreasing(self@)),
    {
        let n = self.primes.len();
        if n == 0 {
            return false;
        }
        let mut i: usize = 0;
        while i < n - 1
            invariant
                n == self@.len(),
                n >= 1,
                self@ == self.primes@,
                i <= n - 1,
                forall|k: int| 0 <= k < i ==> #[trigger] self@[k] <= self@[k + 1],
            decreases n - 1 - i,
        {
            if self.primes[i] > self.primes[i + 1] {
                return false;
            }
            i = i + 1;
        }
        true
    }

    /// The analyzer of the primes with index within a tenth of `target_n`
    /// around `target_n` (cut at the end of the list); this analyzer itself
    /// when that window is empty.
    pub fn primes_near_index(&self, target_n: usize) -> (a: PrimeGapAnalyzer)
        requires
            target_n + target_n / 10 <= usize::MAX,
        ensures
            ({
                let (start, end) = near_window(target_n as nat, self@.len());
                if end <= start {
                    a@ == self@
                } else {
                    a@ == self@.subrange(start, end)
                }
            }),
            adjacent_nondecreasing(self@) ==> adjacent_nondecreasing(a@),
            self@.len() >= 1 ==> a@.len() >= 1,
            target_n - target_n / 10 < target_n + target_n / 10 && target_n - target_n / 10
                < self@.len() ==> a@ == self@.subrange(
                target_n - target_n / 10,
                if target_n + target_n / 10 < self@.len() {
                    target_n + target_n / 10
                } else {
                    self@.len() as int
                },
            ),
    {
        let range = target_n / 10;
        let start = target_n - range;
        let end = if target_n + range < self.primes.len() {
            target_n + range
        } else {
            self.primes.len()
        };
        let mut subset: Vec<u64> = Vec::new();
        if end <= start {
            let mut i: usize = 0;
            while i < self.primes.len()
                invariant
                    i <= self@.len(),
                    self@ == self.primes@,
                    subset@ == self@.subrange(0, i as int),
                decreases self@.len() - i,
            {
                subset.push(self.primes[i]);
                i = i + 1;
            }
            assert(subset@ == self@);
            return PrimeGapAnalyzer::new(subset);
        }
        let mut i: usize = start;
        while i < end
            invariant
                start <= i <= end,
                end <= self@.len(),
                self@ == self.primes@,
                subset@ == self@.subrange(start as int, i as int),
            decreases end - i,
        {
            subset.push(self.primes[i]);
            i = i + 1;
        }
        proof {
            let w = self@.subrange(start as int, end as int);
            if adjacent_nondecreasing(self@) {
                assert forall|k: int| 0 <= k < w.len() - 1 implies #[trigger] w[k] <= w[k + 1] by {
                    assert(self@[start + k] <= self@[start + k + 1]);
                }
            }
        }
        PrimeGapAnalyzer::new(subset)
    }
}

/// The index window `[start, end)` that `primes_near_index` looks at: a tenth
/// of `target_n` on either side of it, cut at `len`.
pub open spec fn near_window(target_n: nat, len: nat) -> (int, int) {
    let range = target_n / 10;
    let start = target_n - range;
    let end: int = if target_n + range < len {
        (target_n + range) as int
    } else {
        len as int
    };
    (start, end)
}

/// The window is centred on `target_n` with half-width a tenth of it: it
/// starts `h` before `target_n`, where `10 h <= target_n < 10 (h + 1)`, and
/// ends `h` after it or at `len`, whichever comes first.
pub proof fn lemma_near_window_half_width(target_n: nat, len: nat)
    ensures
        ({
            let (start, end) = near_window(target_n, len);
            let h = target_n - start;
            &&& 0 <= h
            &&& 10 * h <= target_n < 10 * (h + 1)
            &&& end == if target_n + h < len {
                target_n + h
            } else {
                len as int
            }
        }),
{
}

} // verus!
