//! Arithmetic on residues of a machine-word modulus: the four operations on
//! canonical residues, and exponentiation by repeated squaring.

use vstd::prelude::*;
use vstd::arithmetic::div_mod::{
    lemma_fundamental_div_mod, lemma_fundamental_div_mod_converse, lemma_mod_bound,
    lemma_mul_mod_noop_left, lemma_mul_mod_noop_right, lemma_small_mod,
};
use vstd::arithmetic::power::{lemma_pow_mod_noop, lemma_pow_multiplies, lemma_square_is_pow2, pow};

verus! {

/// A value at least `m` and below `2 * m` is reduced by subtracting `m` once.
pub proof fn lemma_mod_after_one_wrap(x: int, m: int)
    requires
        0 < m,
        m <= x < 2 * m,
    ensures
        x % m == x - m,
{
    lemma_fundamental_div_mod_converse(x, m, 1, x - m);
}

/// A value at least `-m` and below zero is reduced by adding `m` once.
pub proof fn lemma_mod_of_small_negative(x: int, m: int)
    requires
        0 < m,
        -m <= x < 0,
    ensures
        x % m == x + m,
{
    lemma_fundamental_div_mod_converse(x, m, -1, x + m);
}

/// The remainder of a negated positive number.
pub proof fn lemma_mod_of_negation(x: int, m: int)
    requires
        0 < m,
        0 <= x,
    ensures
        (-x) % m == if x % m == 0 {
            0
        } else {
            m - x % m
        },
{
    let q = x / m;
    let r = x % m;
    lemma_fundamental_div_mod(x, m);
    lemma_mod_bound(x, m);
    if r == 0 {
        assert(-x == (-q) * m + 0) by (nonlinear_arith)
            requires
                x == m * q + 0,
        ;
        lemma_fundamental_div_mod_converse(-x, m, -q, 0);
    } else {
        assert(-x == (-q - 1) * m + (m - r)) by (nonlinear_arith)
            requires
                x == m * q + r,
        ;
        lemma_fundamental_div_mod_converse(-x, m, -q - 1, m - r);
    }
}

/// One round of repeated squaring keeps `acc * base^e` the same modulo `m`.
pub proof fn lemma_square_and_multiply(acc: int, b: int, e: nat, m: int)
    requires
        0 < m,
        0 < e,
    ensures
        e % 2 == 1 ==> (((acc * b) % m) * pow((b * b) % m, e / 2)) % m == (acc * pow(b, e)) % m,
        e % 2 == 0 ==> (acc * pow((b * b) % m, e / 2)) % m == (acc * pow(b, e)) % m,
{
    let half = e / 2;
    let squared = pow(b * b, half);
    let reduced = pow((b * b) % m, half);
    // squaring the base halves the exponent
    lemma_square_is_pow2(b);
    lemma_pow_multiplies(b, 2, half);
    assert(squared == pow(b, 2 * half));
    // and the base may be reduced first
    lemma_pow_mod_noop(b * b, half, m);
    assert(reduced % m == squared % m);
    if e % 2 == 1 {
        assert(pow(b, e) == b * pow(b, (e - 1) as nat)) by {
            reveal(pow);
        }
        assert(e - 1 == 2 * half);
        lemma_mul_mod_noop_left(acc * b, reduced, m);
        lemma_mul_mod_noop_right(acc * b, reduced, m);
        lemma_mul_mod_noop_right(acc * b, squared, m);
        assert((acc * b) * squared == acc * (b * squared)) by (nonlinear_arith);
    } else {
        assert(e == 2 * half);
        lemma_mul_mod_noop_right(acc, reduced, m);
        lemma_mul_mod_noop_right(acc, squared, m);
    }
}

/// The sum of two residues, reduced.
pub fn add_mod(a: usize, b: usize, modulus: usize) -> (r: usize)
    requires
        a < modulus,
        b < modulus,
    ensures
        r == (a + b) % (modulus as int),
{
    let room: usize = modulus - b;
    if a >= room {
        proof {
            lemma_mod_after_one_wrap(a + b, modulus as int);
        }
        a - room
    } else {
        proof {
            lemma_small_mod((a + b) as nat, modulus as nat);
        }
        a + b
    }
}

/// The difference of two residues, reduced. No intermediate value is
/// negative: where `a < b`, the modulus is added before `b` is taken away.
pub fn sub_mod(a: usize, b: usize, modulus: usize) -> (r: usize)
    requires
        a < modulus,
        b < modulus,
    ensures
        r == (a - b) % (modulus as int),
{
    if a >= b {
        proof {
            lemma_small_mod((a - b) as nat, modulus as nat);
        }
        a - b
    } else {
        proof {
            lemma_mod_of_small_negative(a - b, modulus as int);
        }
        modulus - b + a
    }
}

/// The product of two machine words, reduced. The product is formed in
/// double width, so it cannot overflow.
pub fn mul_mod(a: usize, b: usize, modulus: usize) -> (r: usize)
    requires
        modulus > 0,
    ensures
        r == (a * b) % (modulus as int),
{
    assert(a * b <= 0xffff_ffff_ffff_ffff * 0xffff_ffff_ffff_ffff) by (nonlinear_arith)
        requires
            0 <= a <= 0xffff_ffff_ffff_ffff,
            0 <= b <= 0xffff_ffff_ffff_ffff,
    ;
    let wide: u128 = (a as u128) * (b as u128);
    let reduced: u128 = wide % (modulus as u128);
    reduced as usize
}

/// `base` to the power `exponent`, reduced, by repeated squaring: the number
/// of multiplications grows with the length of the exponent, not its size.
pub fn pow_mod(base: usize, exponent: usize, modulus: usize) -> (r: usize)
    requires
        modulus > 0,
    ensures
        r == pow(base as int, exponent as nat) % (modulus as int),
{
    let ghost m = modulus as int;
    let mut acc: usize = 1 % modulus;
    let mut b: usize = base % modulus;
    let mut e: usize = exponent;
    proof {
        let whole = pow(base as int, exponent as nat);
        lemma_pow_mod_noop(base as int, exponent as nat, m);
        lemma_mul_mod_noop_left(1, pow(b as int, e as nat), m);
        assert(1 * pow(b as int, e as nat) == pow(b as int, e as nat));
        assert(1 * whole == whole);
    }
    while e > 0
        invariant
            m == modulus,
            0 < modulus,
            acc < modulus,
            b < modulus,
            (acc * pow(b as int, e as nat)) % m == pow(base as int, exponent as nat) % m,
        decreases e,
    {
        proof {
            lemma_square_and_multiply(acc as int, b as int, e as nat, m);
        }
        if e % 2 == 1 {
            acc = mul_mod(acc, b, modulus);
        }
        b = mul_mod(b, b, modulus);
        e = e / 2;
    }
    proof {
        assert(pow(b as int, 0) == 1) by {
            reveal(pow);
        }
        assert(acc * 1 == acc);
        lemma_small_mod(acc as nat, modulus as nat);
    }
    acc
}

} // verus!
