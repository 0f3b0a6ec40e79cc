//! Fermat's little theorem, from the binomial theorem modulo a prime.

use vstd::prelude::*;
use vstd::arithmetic::div_mod::{lemma_add_mod_noop, lemma_mod_equivalence, lemma_small_mod};
use vstd::arithmetic::power::{lemma0_pow, pow};
use crate::binomial::lemma_power_of_successor;
use crate::primes::{is_prime, lemma_prime_divides_factor};

verus! {

/// Modulo a prime `p`, raising to the power `p` changes nothing.
pub proof fn lemma_power_of_prime(p: nat, a: nat)
    requires
        is_prime(p as int),
    ensures
        pow(a as int, p) % (p as int) == a % p,
    decreases a,
{
    let m = p as int;
    if a == 0 {
        lemma0_pow(p);
    } else {
        let b = (a - 1) as nat;
        lemma_power_of_prime(p, b);
        lemma_power_of_successor(p, b as int);
        lemma_add_mod_noop(pow(b as int, p), 1, m);
        lemma_add_mod_noop(b as int, 1, m);
    }
}

/// Fermat's little theorem: modulo a prime `p`, the power `p - 1` of anything
/// that `p` does not divide is 1.
pub proof fn lemma_fermat_little(p: nat, a: nat)
    requires
        is_prime(p as int),
        a % p != 0,
    ensures
        pow(a as int, (p - 1) as nat) % (p as int) == 1,
{
    let m = p as int;
    let x = a as int;
    let rest = pow(x, (p - 1) as nat);
    assert(pow(x, p) == x * rest) by {
        reveal(pow);
    }
    lemma_power_of_prime(p, a);
    lemma_mod_equivalence(x * rest, x, m);
    assert(x * (rest - 1) == x * rest - x) by (nonlinear_arith);
    lemma_prime_divides_factor(m, x, rest - 1);
    lemma_mod_equivalence(rest, 1, m);
    lemma_small_mod(1, p);
}

} // verus!
