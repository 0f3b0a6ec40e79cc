//! Prime moduli: what it means for a modulus to be prime, and the two facts
//! about primes on which field division rests.

use vstd::prelude::*;
use vstd::arithmetic::div_mod::{
    lemma_fundamental_div_mod, lemma_mod_bound, lemma_mod_multiples_vanish,
    lemma_mul_mod_noop_left, lemma_mul_mod_noop_right, lemma_small_mod,
};

verus! {

/// `p` is at least two and no number strictly between one and `p` divides it.
pub open spec fn is_prime(p: int) -> bool {
    p >= 2 && forall|d: int| 1 < d < p ==> #[trigger] (p % d) != 0
}

/// Every nonzero residue of a prime has a multiplicative inverse.
///
/// By descent: with `p == q * k + r` and `0 < r < k`, an inverse of `r`
/// multiplied by `-q` is an inverse of `k`.
pub proof fn lemma_inverse_exists(p: int, k: int) -> (u: int)
    requires
        is_prime(p),
        0 < k < p,
    ensures
        0 < u < p,
        (k * u) % p == 1,
    decreases k,
{
    if k == 1 {
        lemma_small_mod(1, p as nat);
        1
    } else {
        let q = p / k;
        let r = p % k;
        lemma_fundamental_div_mod(p, k);
        lemma_mod_bound(p, k);
        assert(r != 0);
        let v = lemma_inverse_exists(p, r);
        let t = -(q * v);
        let u = t % p;
        lemma_mod_bound(t, p);
        assert(k * t == p * (-v) + r * v) by (nonlinear_arith)
            requires
                p == k * q + r,
                t == -(q * v),
        ;
        lemma_mod_multiples_vanish(-v, r * v, p);
        lemma_mul_mod_noop_right(k, t, p);
        assert((k * u) % p == 1);
        if u == 0 {
            assert(k * 0 == 0);
            lemma_small_mod(0, p as nat);
        }
        u
    }
}

/// Euclid's lemma: a prime that divides a product divides one of the factors.
pub proof fn lemma_prime_divides_factor(p: int, x: int, y: int)
    requires
        is_prime(p),
        (x * y) % p == 0,
        x % p != 0,
    ensures
        y % p == 0,
{
    let k = x % p;
    lemma_mod_bound(x, p);
    let u = lemma_inverse_exists(p, k);
    // k * y is a multiple of p, because x * y is
    lemma_mul_mod_noop_left(x, y, p);
    assert((k * y) % p == 0);
    // hence so is u * (k * y)
    lemma_mul_mod_noop_right(u, k * y, p);
    assert(u * 0 == 0);
    lemma_small_mod(0, p as nat);
    assert((u * (k * y)) % p == 0);
    // which is (k * u) * y, congruent to y
    assert(u * (k * y) == (k * u) * y) by (nonlinear_arith);
    lemma_mul_mod_noop_left(k * u, y, p);
    assert(1 * y == y);
}

} // verus!
