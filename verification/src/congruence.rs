//! Congruence of integers modulo a positive modulus, and the rules by which
//! congruences are combined.

use vstd::prelude::*;
use vstd::arithmetic::div_mod::{
    lemma_add_mod_noop, lemma_mod_equivalence, lemma_mod_twice, lemma_mul_mod_noop,
    lemma_small_mod, lemma_sub_mod_noop,
};
use crate::primes::{is_prime, lemma_prime_divides_factor};

verus! {

/// `x` and `y` leave the same remainder on division by `m`.
pub open spec fn congruent(x: int, y: int, m: int) -> bool {
    x % m == y % m
}

/// Congruences may be added.
pub proof fn lemma_congruent_sum(x1: int, y1: int, x2: int, y2: int, m: int)
    requires
        0 < m,
        congruent(x1, y1, m),
        congruent(x2, y2, m),
    ensures
        congruent(x1 + x2, y1 + y2, m),
{
    lemma_add_mod_noop(x1, x2, m);
    lemma_add_mod_noop(y1, y2, m);
}

/// Congruences may be subtracted.
pub proof fn lemma_congruent_difference(x1: int, y1: int, x2: int, y2: int, m: int)
    requires
        0 < m,
        congruent(x1, y1, m),
        congruent(x2, y2, m),
    ensures
        congruent(x1 - x2, y1 - y2, m),
{
    lemma_sub_mod_noop(x1, x2, m);
    lemma_sub_mod_noop(y1, y2, m);
}

/// Congruences may be multiplied.
pub proof fn lemma_congruent_product(x1: int, y1: int, x2: int, y2: int, m: int)
    requires
        0 < m,
        congruent(x1, y1, m),
        congruent(x2, y2, m),
    ensures
        congruent(x1 * x2, y1 * y2, m),
{
    lemma_mul_mod_noop(x1, x2, m);
    lemma_mul_mod_noop(y1, y2, m);
}

/// A remainder is congruent to what it is the remainder of.
pub proof fn lemma_congruent_remainder(x: int, m: int)
    requires
        0 < m,
    ensures
        congruent(x % m, x, m),
{
    lemma_mod_twice(x, m);
}

/// Two congruent residues are the same number.
pub proof fn lemma_congruent_residues(x: int, y: int, m: int)
    requires
        0 <= x < m,
        0 <= y < m,
        congruent(x, y, m),
    ensures
        x == y,
{
    lemma_small_mod(x as nat, m as nat);
    lemma_small_mod(y as nat, m as nat);
}

/// Modulo a prime, a common factor that the prime does not divide may be
/// cancelled from both sides of a congruence.
pub proof fn lemma_congruent_cancel(s: int, t: int, v: int, p: int)
    requires
        is_prime(p),
        v % p != 0,
        congruent(s * v, t * v, p),
    ensures
        congruent(s, t, p),
{
    lemma_mod_equivalence(s * v, t * v, p);
    assert(v * (s - t) == s * v - t * v) by (nonlinear_arith);
    lemma_prime_divides_factor(p, v, s - t);
    lemma_mod_equivalence(s, t, p);
}

} // verus!
