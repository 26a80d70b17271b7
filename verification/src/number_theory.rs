//! Divisibility and primality: the definitions the prime sieve is proved
//! against, and the arithmetic facts its proof uses.
use vstd::prelude::*;

verus! {

/// `d` is a positive divisor of `k`.
pub open spec fn divides(d: nat, k: nat) -> bool {
    d > 0 && k % d == 0
}

/// `n` is prime: at least 2 and without a divisor strictly between 1 and `n`.
pub open spec fn is_prime(n: nat) -> bool {
    n >= 2 && forall|d: nat| 1 < d < n ==> !#[trigger] divides(d, n)
}

/// The primes in `[2, n]`, in increasing order.
pub open spec fn primes_up_to(n: nat) -> Seq<u64>
    decreases n,
{
    if n < 2 {
        Seq::empty()
    } else if is_prime(n) {
        primes_up_to((n - 1) as nat).push(n as u64)
    } else {
        primes_up_to((n - 1) as nat)
    }
}

/// Divisibility is transitive.
pub proof fn lemma_divides_transitive(d: nat, p: nat, k: nat)
    requires
        divides(d, p),
        divides(p, k),
    ensures
        divides(d, k),
{
    let a = p / d;
    let b = k / p;
    assert(p == d * a) by {
        vstd::arithmetic::div_mod::lemma_fundamental_div_mod(p as int, d as int);
    }
    assert(k == p * b) by {
        vstd::arithmetic::div_mod::lemma_fundamental_div_mod(k as int, p as int);
    }
    assert(k == (a * b) * d) by (nonlinear_arith)
        requires
            p == d * a,
            k == p * b,
    ;
    vstd::arithmetic::div_mod::lemma_mod_multiples_basic((a * b) as int, d as int);
}

/// A number with a divisor strictly between 1 and itself also has one whose
/// square does not exceed it.
pub proof fn lemma_small_divisor(k: nat, d: nat) -> (e: nat)
    requires
        1 < d < k,
        divides(d, k),
    ensures
        1 < e,
        e * e <= k,
        divides(e, k),
{
    let q = k / d;
    assert(k == d * q) by {
        vstd::arithmetic::div_mod::lemma_fundamental_div_mod(k as int, d as int);
    }
    assert(q >= 2) by (nonlinear_arith)
        requires
            k == d * q,
            1 < d < k,
    ;
    if d * d <= k {
        d
    } else {
        assert(q * q <= k) by (nonlinear_arith)
            requires
                k == d * q,
                d * d > k,
                q >= 2,
                d > 1,
        ;
        assert(k == d * q);
        assert(k % q == 0) by {
            vstd::arithmetic::div_mod::lemma_mod_multiples_basic(d as int, q as int);
        }
        q
    }
}

/// Between two consecutive multiples of `p` there is no multiple of `p`.
pub proof fn lemma_no_multiple_between(p: nat, t: nat, k: nat)
    requires
        p > 0,
        p * t < k < p * t + p,
    ensures
        !divides(p, k),
{
    if divides(p, k) {
        let b = k / p;
        assert(k == p * b) by {
            vstd::arithmetic::div_mod::lemma_fundamental_div_mod(k as int, p as int);
        }
        assert(false) by (nonlinear_arith)
            requires
                p > 0,
                p * t < k < p * t + p,
                k == p * b,
        ;
    }
}

/// A divisor of `k` whose square does not exceed `k` is smaller than `k`
/// when `k` is at least 2.
pub proof fn lemma_square_bound_below(d: nat, k: nat)
    requires
        1 < d,
        d * d <= k,
    ensures
        d < k,
{
    assert(d < k) by (nonlinear_arith)
        requires
            1 < d,
            d * d <= k,
    ;
}

/// `p <= n / p` exactly when `p * p <= n`.
pub proof fn lemma_square_vs_quotient(p: nat, n: nat)
    requires
        p > 0,
    ensures
        (p <= n / p) <==> (p * p <= n),
{
    let q = n / p;
    let r = n % p;
    assert(n == p * q + r && 0 <= r < p) by {
        vstd::arithmetic::div_mod::lemma_fundamental_div_mod(n as int, p as int);
        vstd::arithmetic::div_mod::lemma_mod_bound(n as int, p as int);
    }
    if p <= q {
        assert(p * p <= n) by (nonlinear_arith)
            requires
                p <= q,
                n == p * q + r,
                0 <= r,
                p > 0,
        ;
    } else {
        assert(p * p > n) by (nonlinear_arith)
            requires
                p > q,
                n == p * q + r,
                r < p,
                p > 0,
        ;
    }
}

/// `t <= n / p` exactly when `p * t <= n`.
pub proof fn lemma_multiple_vs_quotient(p: nat, t: nat, n: nat)
    requires
        p > 0,
    ensures
        (t <= n / p) <==> (p * t <= n),
{
    let q = n / p;
    let r = n % p;
    assert(n == p * q + r && 0 <= r < p) by {
        vstd::arithmetic::div_mod::lemma_fundamental_div_mod(n as int, p as int);
        vstd::arithmetic::div_mod::lemma_mod_bound(n as int, p as int);
    }
    if t <= q {
        assert(p * t <= n) by (nonlinear_arith)
            requires
                t <= q,
                n == p * q + r,
                0 <= r,
                p > 0,
        ;
    } else {
        assert(p * t > n) by (nonlinear_arith)
            requires
                t > q,
                n == p * q + r,
                r < p,
                p > 0,
        ;
    }
}

} // verus!
