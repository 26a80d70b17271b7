//! Sorting and order statistics on sequences of `u64`: merge sort, the
//! most frequent value, and sums.
use vstd::prelude::*;
use vstd::relations::{sorted_by, total_ordering};

verus! {

broadcast use {vstd::seq_lib::group_to_multiset_ensures, vstd::multiset::group_multiset_axioms};

/// The natural order on `u64`, as a relation.
pub open spec fn u64_leq() -> spec_fn(u64, u64) -> bool {
    |a: u64, b: u64| a <= b
}

/// `s` is in nondecreasing order.
pub open spec fn nondecreasing(s: Seq<u64>) -> bool {
    forall|p: int, q: int| 0 <= p <= q < s.len() ==> s[p] <= s[q]
}

/// The values of `s` in nondecreasing order.
pub open spec fn sorted_values(s: Seq<u64>) -> Seq<u64> {
    s.sort_by(u64_leq())
}

/// How many times `v` occurs in `s`.
pub open spec fn occurrences(s: Seq<u64>, v: u64) -> nat {
    s.to_multiset().count(v)
}

/// `m` is the smallest of the most frequent values of the nonempty `s`.
pub open spec fn is_smallest_mode(s: Seq<u64>, m: u64) -> bool {
    &&& occurrences(s, m) > 0
    &&& forall|v: u64| #[trigger] occurrences(s, v) <= occurrences(s, m)
    &&& forall|v: u64| v < m ==> #[trigger] occurrences(s, v) < occurrences(s, m)
}

/// The smallest of the most frequent values of `s` (0 for an empty `s`).
pub open spec fn smallest_mode(s: Seq<u64>) -> u64 {
    if s.len() == 0 {
        0
    } else {
        choose|m: u64| is_smallest_mode(s, m)
    }
}

/// The sum of the values of `s`.
pub open spec fn seq_sum(s: Seq<u64>) -> int
    decreases s.len(),
{
    if s.len() == 0 {
        0
    } else {
        seq_sum(s.drop_last()) + s.last()
    }
}

proof fn lemma_u64_leq_total()
    ensures
        total_ordering(u64_leq()),
{
}

/// Any nondecreasing rearrangement of `s` is `sorted_values(s)`.
pub proof fn lemma_sorted_values_unique(s: Seq<u64>, r: Seq<u64>)
    requires
        nondecreasing(r),
        r.to_multiset() == s.to_multiset(),
    ensures
        r == sorted_values(s),
{
    lemma_u64_leq_total();
    s.lemma_sort_by_ensures(u64_leq());
    assert(sorted_by(r, u64_leq())) by {
        assert forall|i: int, j: int| 0 <= i < j < r.len() implies #[trigger] (u64_leq())(
            r[i],
            r[j],
        ) by {
            assert(r[i] <= r[j]);
        }
    }
    vstd::seq_lib::lemma_sorted_unique(r, sorted_values(s), u64_leq());
}

/// `sorted_values(s)` is nondecreasing and a rearrangement of `s`.
pub proof fn lemma_sorted_values(s: Seq<u64>)
    ensures
        nondecreasing(sorted_values(s)),
        sorted_values(s).to_multiset() == s.to_multiset(),
        sorted_values(s).len() == s.len(),
{
    lemma_u64_leq_total();
    s.lemma_sort_by_ensures(u64_leq());
    let t = sorted_values(s);
    assert forall|p: int, q: int| 0 <= p <= q < t.len() implies t[p] <= t[q] by {
        if p < q {
            assert((u64_leq())(t[p], t[q]));
        }
    }
    assert(t.len() == t.to_multiset().len());
    assert(s.len() == s.to_multiset().len());
}

/// A smallest most frequent value, when one exists, is `smallest_mode(s)`.
pub proof fn lemma_smallest_mode_unique(s: Seq<u64>, m: u64)
    requires
        s.len() > 0,
        is_smallest_mode(s, m),
    ensures
        smallest_mode(s) == m,
{
    let c = choose|c: u64| is_smallest_mode(s, c);
    assert(is_smallest_mode(s, c));
    if c < m {
        assert(occurrences(s, c) < occurrences(s, m));
        assert(occurrences(s, m) <= occurrences(s, c));
    } else if m < c {
        assert(occurrences(s, m) < occurrences(s, c));
        assert(occurrences(s, c) <= occurrences(s, m));
    }
}

/// Every nonempty sequence has a smallest most frequent value.
pub proof fn lemma_smallest_mode_exists(s: Seq<u64>)
    requires
        s.len() > 0,
    ensures
        exists|m: u64| is_smallest_mode(s, m),
        is_smallest_mode(s, smallest_mode(s)),
    decreases s.len(),
{
    let p = s.drop_last();
    let x = s.last();
    assert(s == p.push(x));
    assert forall|v: u64| #[trigger] occurrences(s, v) == occurrences(p, v) + (if v == x {
        1int
    } else {
        0int
    }) by {}
    if p.len() == 0 {
        assert forall|v: u64| #[trigger] occurrences(p, v) == 0 by {}
        assert(is_smallest_mode(s, x));
    } else {
        lemma_smallest_mode_exists(p);
        let mp = smallest_mode(p);
        assert(is_smallest_mode(p, mp));
        if occurrences(s, x) > occurrences(p, mp) {
            assert forall|v: u64| #[trigger] occurrences(s, v) <= occurrences(s, x) by {
                assert(occurrences(p, v) <= occurrences(p, mp));
            }
            assert forall|v: u64| v < x implies #[trigger] occurrences(s, v) < occurrences(s, x) by {
                assert(occurrences(p, v) <= occurrences(p, mp));
            }
            assert(is_smallest_mode(s, x));
        } else if occurrences(s, x) == occurrences(p, mp) && x < mp {
            assert forall|v: u64| #[trigger] occurrences(s, v) <= occurrences(s, x) by {
                assert(occurrences(p, v) <= occurrences(p, mp));
            }
            assert forall|v: u64| v < x implies #[trigger] occurrences(s, v) < occurrences(s, x) by {
                assert(occurrences(p, v) < occurrences(p, mp));
            }
            assert(is_smallest_mode(s, x));
        } else {
            assert(x != mp);
            assert forall|v: u64| #[trigger] occurrences(s, v) <= occurrences(s, mp) by {
                assert(occurrences(p, v) <= occurrences(p, mp));
            }
            assert forall|v: u64| v < mp implies #[trigger] occurrences(s, v) < occurrences(s, mp) by {
                assert(occurrences(p, v) < occurrences(p, mp));
            }
            assert(is_smallest_mode(s, mp));
        }
    }
}

/// How many entries of `s` satisfy `p`.
pub open spec fn count_where(s: Seq<u64>, p: spec_fn(u64) -> bool) -> nat
    decreases s.len(),
{
    if s.len() == 0 {
        0
    } else {
        count_where(s.drop_last(), p) + if p(s.last()) {
            1nat
        } else {
            0nat
        }
    }
}

/// The count depends only on the values of `s`, not on their order.
pub proof fn lemma_count_where_multiset(s: Seq<u64>, p: spec_fn(u64) -> bool)
    ensures
        count_where(s, p) == s.to_multiset().filter(p).len(),
    decreases s.len(),
{
    if s.len() == 0 {
        assert(s.to_multiset().filter(p) =~= vstd::multiset::Multiset::empty());
    } else {
        let d = s.drop_last();
        let x = s.last();
        lemma_count_where_multiset(d, p);
        assert(s == d.push(x));
        let m = d.to_multiset();
        assert(s.to_multiset() =~= m.insert(x));
        if p(x) {
            assert(m.insert(x).filter(p) =~= m.filter(p).insert(x));
            vstd::multiset::lemma_insert_len(m.filter(p), x);
        } else {
            assert(m.insert(x).filter(p) =~= m.filter(p));
        }
    }
}

/// At most `s.len()` entries satisfy anything.
pub proof fn lemma_count_where_le_len(s: Seq<u64>, p: spec_fn(u64) -> bool)
    ensures
        count_where(s, p) <= s.len(),
    decreases s.len(),
{
    if s.len() > 0 {
        lemma_count_where_le_len(s.drop_last(), p);
    }
}

/// When no entry from position `k` on satisfies `p`, at most `k` do.
pub proof fn lemma_count_where_tail_fails(s: Seq<u64>, p: spec_fn(u64) -> bool, k: int)
    requires
        0 <= k,
        forall|i: int| k <= i < s.len() ==> !p(#[trigger] s[i]),
    ensures
        count_where(s, p) <= k,
    decreases s.len(),
{
    if s.len() > 0 {
        if s.len() - 1 >= k {
            let d = s.drop_last();
            assert(!p(s[s.len() - 1]));
            assert forall|i: int| k <= i < d.len() implies !p(#[trigger] d[i]) by {
                assert(d[i] == s[i]);
            }
            lemma_count_where_tail_fails(d, p, k);
        } else {
            lemma_count_where_le_len(s, p);
        }
    }
}

/// When every entry before position `m` satisfies `p`, at least `m` do.
pub proof fn lemma_count_where_prefix_holds(s: Seq<u64>, p: spec_fn(u64) -> bool, m: int)
    requires
        0 <= m <= s.len(),
        forall|i: int| 0 <= i < m ==> p(#[trigger] s[i]),
    ensures
        count_where(s, p) >= m,
    decreases s.len(),
{
    if s.len() > 0 {
        let d = s.drop_last();
        if m == s.len() {
            assert(p(s[s.len() - 1]));
            assert forall|i: int| 0 <= i < m - 1 implies p(#[trigger] d[i]) by {
                assert(d[i] == s[i]);
                assert(p(s[i]));
            }
            lemma_count_where_prefix_holds(d, p, m - 1);
        } else {
            assert forall|i: int| 0 <= i < m implies p(#[trigger] d[i]) by {
                assert(d[i] == s[i]);
                assert(p(s[i]));
            }
            lemma_count_where_prefix_holds(d, p, m);
        }
    }
}

/// Merge two nondecreasing vectors into one.
fn merge(a: &Vec<u64>, b: &Vec<u64>) -> (r: Vec<u64>)
    requires
        nondecreasing(a@),
        nondecreasing(b@),
    ensures
        nondecreasing(r@),
        r@.to_multiset() == a@.to_multiset().add(b@.to_multiset()),
        r@.len() == a@.len() + b@.len(),
{
    let mut r: Vec<u64> = Vec::new();
    let mut i: usize = 0;
    let mut j: usize = 0;
    while i < a.len() || j < b.len()
        invariant
            nondecreasing(a@),
            nondecreasing(b@),
            i <= a.len(),
            j <= b.len(),
            r@.len() == i + j,
            nondecreasing(r@),
            r@.to_multiset() == a@.subrange(0, i as int).to_multiset().add(
                b@.subrange(0, j as int).to_multiset(),
            ),
            forall|k: int| 0 <= k < r@.len() ==> (i < a.len() ==> r@[k] <= a@[i as int]),
            forall|k: int| 0 <= k < r@.len() ==> (j < b.len() ==> r@[k] <= b@[j as int]),
        decreases a.len() + b.len() - i - j,
    {
        if j >= b.len() || (i < a.len() && a[i] <= b[j]) {
            let x = a[i];
            proof {
                assert(a@.subrange(0, i + 1) == a@.subrange(0, i as int).push(x));
            }
            r.push(x);
            i = i + 1;
        } else {
            let x = b[j];
            proof {
                assert(b@.subrange(0, j + 1) == b@.subrange(0, j as int).push(x));
            }
            r.push(x);
            j = j + 1;
        }
    }
    proof {
        assert(a@.subrange(0, i as int) == a@);
        assert(b@.subrange(0, j as int) == b@);
    }
    r
}

/// The values of `v` in nondecreasing order (merge sort).
pub fn sort_values(v: Vec<u64>) -> (r: Vec<u64>)
    ensures
        r@ == sorted_values(v@),
{
    let r = merge_sort(v);
    proof {
        lemma_sorted_values_unique(v@, r@);
    }
    r
}

fn merge_sort(v: Vec<u64>) -> (r: Vec<u64>)
    ensures
        nondecreasing(r@),
        r@.to_multiset() == v@.to_multiset(),
    decreases v@.len(),
{
    if v.len() <= 1 {
        return v;
    }
    let mut left = v;
    let mid = left.len() / 2;
    let right = left.split_off(mid);
    proof {
        assert(v@ == left@ + right@);
        vstd::seq_lib::lemma_multiset_commutative(left@, right@);
    }
    let ls = merge_sort(left);
    let rs = merge_sort(right);
    merge(&ls, &rs)
}

/// The smallest of the most frequent values of a nonempty nondecreasing `s`,
/// by counting runs of equal values.
pub fn smallest_mode_of_sorted(s: &Vec<u64>) -> (m: u64)
    requires
        s@.len() > 0,
        nondecreasing(s@),
    ensures
        is_smallest_mode(s@, m),
        m == smallest_mode(s@),
{
    let n = s.len();
    let mut best: u64 = s[0];
    let mut best_count: usize = 1;
    let mut run_count: usize = 1;
    let mut i: usize = 1;
    proof {
        assert(s@.subrange(0, 1) == Seq::<u64>::empty().push(s@[0]));
        assert forall|v: u64| v != s@[0] implies #[trigger] occurrences(s@.subrange(0, 1), v)
            == 0 by {
            assert(!s@.subrange(0, 1).contains(v));
        }
    }
    while i < n
        invariant
            n == s@.len(),
            nondecreasing(s@),
            1 <= i <= n,
            1 <= run_count <= i,
            1 <= best_count <= i,
            run_count == occurrences(s@.subrange(0, i as int), s@[i - 1]),
            best_count == occurrences(s@.subrange(0, i as int), best),
            forall|v: u64| #[trigger]
                occurrences(s@.subrange(0, i as int), v) <= best_count,
            forall|v: u64|
                v < best ==> #[trigger] occurrences(s@.subrange(0, i as int), v) < best_count,
        decreases n - i,
    {
        let ghost prev = s@.subrange(0, i as int);
        let x = s[i];
        proof {
            assert(s@.subrange(0, i + 1) == prev.push(x));
            assert(best <= x) by {
                assert(prev.contains(best));
                let w = choose|w: int| 0 <= w < prev.len() && prev[w] == best;
                assert(s@[w] <= s@[i as int]);
            }
        }
        if x == s[i - 1] {
            run_count = run_count + 1;
        } else {
            proof {
                assert(s@[i - 1] <= x);
                assert(!prev.contains(x)) by {
                    if prev.contains(x) {
                        let w = choose|w: int| 0 <= w < prev.len() && prev[w] == x;
                        assert(s@[w] <= s@[i - 1]);
                    }
                }
            }
            run_count = 1;
        }
        let ghost next = s@.subrange(0, i + 1);
        proof {
            assert(next.to_multiset() == prev.to_multiset().insert(x));
            assert forall|v: u64| #[trigger] occurrences(next, v) == occurrences(prev, v) + (if v
                == x {
                1int
            } else {
                0int
            }) by {}
        }
        let ghost old_best = best;
        let ghost old_best_count = best_count;
        if run_count > best_count {
            best = x;
            best_count = run_count;
        }
        proof {
            assert forall|v: u64| #[trigger] occurrences(next, v) <= best_count by {
                assert(occurrences(next, v) == occurrences(prev, v) + (if v == x {
                    1int
                } else {
                    0int
                }));
            }
            assert forall|v: u64| v < best implies #[trigger] occurrences(next, v) < best_count by {
                assert(occurrences(next, v) == occurrences(prev, v) + (if v == x {
                    1int
                } else {
                    0int
                }));
                if v < old_best {
                    assert(occurrences(prev, v) < old_best_count);
                }
            }
        }
        i = i + 1;
    }
    proof {
        assert(s@.subrange(0, n as int) == s@);
        lemma_smallest_mode_unique(s@, best);
    }
    best
}

/// `h` lists each value of `g` once, in increasing order, with the number
/// of times it occurs in `g`.
pub open spec fn is_value_counts(h: Seq<(u64, usize)>, g: Seq<u64>) -> bool {
    &&& forall|i: int, j: int| 0 <= i < j < h.len() ==> h[i].0 < h[j].0
    &&& forall|i: int|
        0 <= i < h.len() ==> #[trigger] h[i].1 == occurrences(g, h[i].0) && h[i].1 > 0
    &&& forall|v: u64|
        #[trigger] occurrences(g, v) > 0 ==> exists|k: int| 0 <= k < h.len() && h[k].0 == v
}

/// The first listed value is the smallest of `g` and the last the largest.
pub proof fn lemma_value_counts_extremes(h: Seq<(u64, usize)>, g: Seq<u64>)
    requires
        is_value_counts(h, g),
        g.len() > 0,
    ensures
        h.len() > 0,
        g.contains(h[0].0),
        g.contains(h[h.len() - 1].0),
        forall|i: int| 0 <= i < g.len() ==> h[0].0 <= #[trigger] g[i] <= h[h.len() - 1].0,
{
    assert(g.contains(g[0]));
    assert(occurrences(g, g[0]) > 0);
    let k0 = choose|k: int| 0 <= k < h.len() && h[k].0 == g[0];
    assert(h[0].1 > 0);
    assert(h[h.len() - 1].1 > 0);
    assert(occurrences(g, h[0].0) > 0);
    assert(occurrences(g, h[h.len() - 1].0) > 0);
    assert forall|i: int| 0 <= i < g.len() implies h[0].0 <= #[trigger] g[i] <= h[h.len()
        - 1].0 by {
        assert(g.contains(g[i]));
        assert(occurrences(g, g[i]) > 0);
        let k = choose|k: int| 0 <= k < h.len() && h[k].0 == g[i];
        if k > 0 {
            assert(h[0].0 < h[k].0);
        }
        if k < h.len() - 1 {
            assert(h[k].0 < h[h.len() - 1].0);
        }
    }
}

/// The distinct values of a nondecreasing `s`, in increasing order, each
/// with the number of times it occurs.
pub fn value_counts(s: &Vec<u64>) -> (h: Vec<(u64, usize)>)
    requires
        nondecreasing(s@),
    ensures
        is_value_counts(h@, s@),
{
    let n = s.len();
    let mut h: Vec<(u64, usize)> = Vec::new();
    let mut i: usize = 0;
    while i < n
        invariant
            n == s@.len(),
            nondecreasing(s@),
            i <= n,
            i == 0 <==> h@.len() == 0,
            i > 0 ==> h@[h@.len() - 1].0 == s@[i - 1],
            h@.len() <= i,
            is_value_counts(h@, s@.subrange(0, i as int)),
        decreases n - i,
    {
        let ghost prev = s@.subrange(0, i as int);
        let ghost old_h = h@;
        let x = s[i];
        proof {
            assert(s@.subrange(0, i + 1) == prev.push(x));
            assert(s@.subrange(0, i + 1).to_multiset() == prev.to_multiset().insert(x));
        }
        let ghost next = s@.subrange(0, i + 1);
        if i > 0 && x == s[i - 1] {
            let last = h.len() - 1;
            let (v, c) = h[last];
            proof {
                assert(occurrences(next, v) == occurrences(prev, v) + 1);
                assert(c == occurrences(prev, v));
                assert(c < i + 1) by {
                    assert(prev.len() == prev.to_multiset().len());
                    assert(prev.to_multiset().count(v) <= prev.to_multiset().len()) by {
                        
                    }
                }
            }
            h[last] = (v, c + 1);
            proof {
                assert forall|k: int| 0 <= k < h@.len() implies #[trigger] h@[k].1 == occurrences(
                    next,
                    h@[k].0,
                ) && h@[k].1 > 0 by {
                    if k < last {
                        assert(old_h[k].0 < old_h[last as int].0);
                    }
                }
                assert forall|w: u64| #[trigger] occurrences(next, w) > 0 implies exists|k: int|
                    0 <= k < h@.len() && h@[k].0 == w by {
                    if w == x {
                        assert(h@[last as int].0 == w);
                    } else {
                        assert(occurrences(prev, w) > 0);
                        let k = choose|k: int| 0 <= k < old_h.len() && old_h[k].0 == w;
                        assert(h@[k].0 == w);
                    }
                }
            }
        } else {
            proof {
                if i > 0 {
                    assert(s@[i - 1] <= x);
                }
                assert(occurrences(prev, x) == 0) by {
                    if occurrences(prev, x) > 0 {
                        assert(prev.contains(x));
                        let w = choose|w: int| 0 <= w < prev.len() && prev[w] == x;
                        assert(s@[w] <= s@[i - 1]);
                    }
                }
                assert forall|k: int| 0 <= k < old_h.len() implies old_h[k].0 < x by {
                    assert(old_h[k].1 > 0);
                    assert(occurrences(prev, old_h[k].0) > 0);
                    assert(prev.contains(old_h[k].0));
                    let w = choose|w: int| 0 <= w < prev.len() && prev[w] == old_h[k].0;
                    assert(s@[w] <= s@[i - 1]);
                }
            }
            h.push((x, 1));
            proof {
                assert forall|k: int| 0 <= k < h@.len() implies #[trigger] h@[k].1 == occurrences(
                    next,
                    h@[k].0,
                ) && h@[k].1 > 0 by {
                    if k < old_h.len() {
                        assert(old_h[k].0 < x);
                    }
                }
                assert forall|w: u64| #[trigger] occurrences(next, w) > 0 implies exists|k: int|
                    0 <= k < h@.len() && h@[k].0 == w by {
                    if w == x {
                        assert(h@[old_h.len() as int].0 == w);
                    } else {
                        assert(occurrences(prev, w) > 0);
                        let k = choose|k: int| 0 <= k < old_h.len() && old_h[k].0 == w;
                        assert(h@[k].0 == w);
                    }
                }
            }
        }
        i = i + 1;
    }
    proof {
        assert(s@.subrange(0, n as int) == s@);
    }
    h
}

} // verus!
