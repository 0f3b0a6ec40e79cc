//! Binomial coefficients, the binomial theorem for `(x + 1)^n`, and what
//! becomes of it modulo a prime exponent.

use vstd::prelude::*;
use vstd::arithmetic::div_mod::{
    lemma_add_mod_noop, lemma_mod_multiples_vanish, lemma_mul_mod_noop_left, lemma_small_mod,
};
use vstd::arithmetic::power::pow;
use crate::primes::{is_prime, lemma_prime_divides_factor};

verus! {

/// The number of `k`-element subsets of an `n`-element set, by Pascal's rule.
pub open spec fn binomial(n: nat, k: nat) -> nat
    decreases n,
{
    if k == 0 {
        1
    } else if n == 0 {
        0
    } else {
        binomial((n - 1) as nat, (k - 1) as nat) + binomial((n - 1) as nat, k)
    }
}

/// The first `k + 1` terms of the expansion of `(x + 1)^n`:
/// the sum of `binomial(n, j) * x^j` for `j` from 0 to `k`.
pub open spec fn binomial_sum(n: nat, x: int, k: nat) -> int
    decreases k,
{
    binomial(n, k) * pow(x, k) + if k == 0 {
        0
    } else {
        binomial_sum(n, x, (k - 1) as nat)
    }
}

/// No subset is larger than the set.
pub proof fn lemma_binomial_beyond(n: nat, k: nat)
    requires
        k > n,
    ensures
        binomial(n, k) == 0,
    decreases n,
{
    if n > 0 {
        lemma_binomial_beyond((n - 1) as nat, (k - 1) as nat);
        lemma_binomial_beyond((n - 1) as nat, k);
    }
}

/// Only the whole set has as many elements as the set.
pub proof fn lemma_binomial_full(n: nat)
    ensures
        binomial(n, n) == 1,
    decreases n,
{
    if n > 0 {
        lemma_binomial_full((n - 1) as nat);
        lemma_binomial_beyond((n - 1) as nat, n);
    }
}

/// The absorption identity `k * C(n, k) == n * C(n - 1, k - 1)`.
pub proof fn lemma_binomial_absorption(n: nat, k: nat)
    requires
        n >= 1,
        k >= 1,
    ensures
        k * binomial(n, k) == n * binomial((n - 1) as nat, (k - 1) as nat),
    decreases n,
{
    let m = (n - 1) as nat;
    let j = (k - 1) as nat;
    let upper = binomial(m, j);
    let lower = binomial(m, k);
    assert(binomial(n, k) == upper + lower);
    if m == 0 {
        assert(lower == 0);
        if j == 0 {
            assert(upper == 1);
        } else {
            assert(upper == 0);
        }
        assert(k * binomial(n, k) == n * upper) by (nonlinear_arith)
            requires
                binomial(n, k) == upper,
                n == 1,
                upper == 0 || (upper == 1 && k == 1),
        ;
    } else {
        // k * lower == m * C(m - 1, j)
        lemma_binomial_absorption(m, k);
        let below = binomial((m - 1) as nat, j);
        if j == 0 {
            assert(upper == 1);
            assert(below == 1);
            assert(k * binomial(n, k) == n * upper) by (nonlinear_arith)
                requires
                    binomial(n, k) == upper + lower,
                    k * lower == m * below,
                    k == 1,
                    upper == 1,
                    below == 1,
                    n == m + 1,
            ;
        } else {
            // j * upper == m * C(m - 1, j - 1)
            lemma_binomial_absorption(m, j);
            let left = binomial((m - 1) as nat, (j - 1) as nat);
            assert(upper == left + below);
            assert(k * binomial(n, k) == n * upper) by (nonlinear_arith)
                requires
                    binomial(n, k) == upper + lower,
                    k * lower == m * below,
                    j * upper == m * left,
                    upper == left + below,
                    k == j + 1,
                    n == m + 1,
            ;
        }
    }
}

/// One step of the binomial theorem: multiplying a partial sum for `n` by
/// `x + 1` gives the partial sum for `n + 1`, and one term that overshoots.
pub proof fn lemma_binomial_sum_step(n: nat, x: int, k: nat)
    ensures
        (x + 1) * binomial_sum(n, x, k) == binomial_sum(n + 1, x, k) + binomial(n, k) * pow(
            x,
            k + 1,
        ),
    decreases k,
{
    reveal(pow);
    let c = binomial(n, k) as int;
    let xk = pow(x, k);
    assert(pow(x, k + 1) == x * xk);
    if k == 0 {
        assert(xk == 1);
        assert(binomial_sum(n, x, 0) == 1) by (nonlinear_arith)
            requires
                binomial_sum(n, x, 0) == 1 * xk + 0,
                xk == 1,
        ;
        assert(binomial_sum(n + 1, x, 0) == 1) by (nonlinear_arith)
            requires
                binomial_sum(n + 1, x, 0) == 1 * xk + 0,
                xk == 1,
        ;
        assert((x + 1) * 1 == 1 + 1 * (x * 1)) by (nonlinear_arith);
    } else {
        let j = (k - 1) as nat;
        let b = binomial(n, j) as int;
        let rest = binomial_sum(n, x, j);
        let rest_up = binomial_sum(n + 1, x, j);
        lemma_binomial_sum_step(n, x, j);
        assert(pow(x, j + 1) == xk);
        assert(binomial(n + 1, k) == b + c);
        assert((x + 1) * (c * xk + rest) == ((b + c) * xk + rest_up) + c * (x * xk))
            by (nonlinear_arith)
            requires
                (x + 1) * rest == rest_up + b * xk,
        ;
    }
}

/// The binomial theorem for `(x + 1)^n`.
pub proof fn lemma_binomial_theorem(n: nat, x: int)
    ensures
        pow(x + 1, n) == binomial_sum(n, x, n),
    decreases n,
{
    reveal(pow);
    if n == 0 {
        assert(binomial_sum(0, x, 0) == 1) by (nonlinear_arith)
            requires
                binomial_sum(0, x, 0) == 1 * pow(x, 0) + 0,
                pow(x, 0) == 1,
        ;
    } else {
        let m = (n - 1) as nat;
        lemma_binomial_theorem(m, x);
        lemma_binomial_sum_step(m, x, m);
        lemma_binomial_full(m);
        lemma_binomial_full(n);
        assert(binomial_sum(n, x, n) == binomial(n, n) * pow(x, n) + binomial_sum(n, x, m));
    }
}

/// A prime divides each of its binomial coefficients but the first and last.
pub proof fn lemma_prime_divides_binomial(p: nat, k: nat)
    requires
        is_prime(p as int),
        0 < k < p,
    ensures
        binomial(p, k) % p == 0,
{
    let c = binomial(p, k) as int;
    let d = binomial((p - 1) as nat, (k - 1) as nat) as int;
    lemma_binomial_absorption(p, k);
    assert(k * c == p * d + 0);
    lemma_mod_multiples_vanish(d, 0, p as int);
    lemma_small_mod(0, p);
    lemma_small_mod(k, p);
    lemma_prime_divides_factor(p as int, k as int, c);
}

/// Modulo a prime `p`, every proper partial sum of `(x + 1)^p` is 1.
pub proof fn lemma_binomial_sum_mod_prime(p: nat, x: int, k: nat)
    requires
        is_prime(p as int),
        k < p,
    ensures
        binomial_sum(p, x, k) % (p as int) == 1,
    decreases k,
{
    reveal(pow);
    let m = p as int;
    lemma_small_mod(1, p);
    if k == 0 {
        assert(binomial_sum(p, x, 0) == 1) by (nonlinear_arith)
            requires
                binomial_sum(p, x, 0) == 1 * pow(x, 0) + 0,
                pow(x, 0) == 1,
        ;
    } else {
        let term = binomial(p, k) * pow(x, k);
        let rest = binomial_sum(p, x, (k - 1) as nat);
        lemma_binomial_sum_mod_prime(p, x, (k - 1) as nat);
        lemma_prime_divides_binomial(p, k);
        lemma_mul_mod_noop_left(binomial(p, k) as int, pow(x, k), m);
        assert(0 * pow(x, k) == 0);
        lemma_small_mod(0, p);
        assert(term % m == 0);
        lemma_add_mod_noop(term, rest, m);
    }
}

/// Modulo a prime `p`, raising to the power `p` commutes with adding one.
pub proof fn lemma_power_of_successor(p: nat, x: int)
    requires
        is_prime(p as int),
    ensures
        pow(x + 1, p) % (p as int) == (pow(x, p) + 1) % (p as int),
{
    let m = p as int;
    let top = binomial(p, p) * pow(x, p);
    let rest = binomial_sum(p, x, (p - 1) as nat);
    lemma_binomial_theorem(p, x);
    lemma_binomial_full(p);
    lemma_binomial_sum_mod_prime(p, x, (p - 1) as nat);
    assert(top == pow(x, p)) by (nonlinear_arith)
        requires
            top == 1 * pow(x, p),
    ;
    assert(pow(x + 1, p) == pow(x, p) + rest);
    lemma_small_mod(1, p);
    lemma_add_mod_noop(pow(x, p), rest, m);
    lemma_add_mod_noop(pow(x, p), 1, m);
}

} // verus!
