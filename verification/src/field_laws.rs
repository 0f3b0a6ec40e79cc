//! What holds of the arithmetic of field elements: the laws of a commutative
//! ring for every modulus, and those of a field for a prime one.

use vstd::prelude::*;
use vstd::arithmetic::div_mod::{
    lemma_add_mod_noop_right, lemma_fundamental_div_mod, lemma_mod_bound,
    lemma_mul_mod_noop_general, lemma_small_mod, lemma_sub_mod_noop,
};
use vstd::arithmetic::power::{
    lemma1_pow, lemma_pow_adds, lemma_pow_mod_noop, lemma_pow_multiplies, pow,
};
use crate::coordinate::Coordinate;
use crate::error::EccError;
use crate::fermat::lemma_fermat_little;
use crate::finite_field::{normalized_exponent, FiniteField};
use crate::primes::is_prime;

verus! {

/// Modulo a prime `p`, the power `p - 2` of a nonzero residue is its inverse.
pub proof fn lemma_inverse_by_power(p: nat, v: nat)
    requires
        is_prime(p as int),
        0 < v < p,
    ensures
        (v * (pow(v as int, (p - 2) as nat) % (p as int))) % (p as int) == 1,
{
    let m = p as int;
    let x = v as int;
    let inverse = pow(x, (p - 2) as nat);
    lemma_small_mod(v, p);
    lemma_fermat_little(p, v);
    assert(pow(x, (p - 1) as nat) == x * inverse) by {
        reveal(pow);
    }
    lemma_mul_mod_noop_general(x, inverse, m);
}

/// Fermat's little theorem in the field: a nonzero element of a field of
/// prime order `p`, raised to the power `p - 1`, is one.
pub proof fn lemma_power_of_order_is_one(e: FiniteField)
    requires
        e.valid(),
        is_prime(e.prime as int),
        e.num != 0,
    ensures
        e.power(e.prime - 1) == (FiniteField { num: 1, prime: e.prime }),
{
    lemma_small_mod(e.num as nat, e.prime as nat);
    lemma_fermat_little(e.prime as nat, e.num as nat);
}

/// Addition is commutative, whatever the operands.
pub proof fn lemma_sum_commutes(a: FiniteField, b: FiniteField)
    ensures
        a.sum(b) == b.sum(a),
{
}

/// Addition is associative on elements of one field.
pub proof fn lemma_sum_associates(a: FiniteField, b: FiniteField, c: FiniteField)
    requires
        a.valid(),
        b.valid(),
        c.valid(),
        a.prime == b.prime,
        b.prime == c.prime,
    ensures
        a.sum(b) matches Ok(ab) && b.sum(c) matches Ok(bc) && ab.sum(c) is Ok && ab.sum(c)
            == a.sum(bc),
{
    let m = a.prime as int;
    lemma_mod_bound(a.num + b.num, m);
    lemma_mod_bound(b.num + c.num, m);
    lemma_add_mod_noop_right(c.num as int, a.num + b.num, m);
    lemma_add_mod_noop_right(a.num as int, b.num + c.num, m);
}

/// Multiplication is commutative, whatever the operands.
pub proof fn lemma_product_commutes(a: FiniteField, b: FiniteField)
    ensures
        a.product(b) == b.product(a),
{
    assert(a.num * b.num == b.num * a.num) by (nonlinear_arith);
}

/// Multiplication is associative on elements of one field.
pub proof fn lemma_product_associates(a: FiniteField, b: FiniteField, c: FiniteField)
    requires
        a.valid(),
        b.valid(),
        c.valid(),
        a.prime == b.prime,
        b.prime == c.prime,
    ensures
        a.product(b) matches Ok(ab) && b.product(c) matches Ok(bc) && ab.product(c) is Ok
            && ab.product(c) == a.product(bc),
{
    let m = a.prime as int;
    lemma_mod_bound(a.num * b.num, m);
    lemma_mod_bound(b.num * c.num, m);
    lemma_mul_mod_noop_general(a.num * b.num, c.num as int, m);
    lemma_mul_mod_noop_general(a.num as int, b.num * c.num, m);
    assert((a.num * b.num) * c.num == a.num * (b.num * c.num)) by (nonlinear_arith);
}

/// Subtraction undoes addition: `(a + b) - b == a` in every field.
pub proof fn lemma_difference_undoes_sum(a: FiniteField, b: FiniteField)
    requires
        a.valid(),
        b.valid(),
        a.prime == b.prime,
    ensures
        a.sum(b) matches Ok(s) && s.difference(b) == Ok::<FiniteField, EccError>(a),
{
    let m = a.prime as int;
    lemma_mod_bound(a.num + b.num, m);
    lemma_small_mod(a.num as nat, a.prime as nat);
    lemma_small_mod(b.num as nat, a.prime as nat);
    lemma_sub_mod_noop(a.num + b.num, b.num as int, m);
}

/// Division by the zero element is refused as out of the domain.
pub proof fn lemma_quotient_by_zero(a: FiniteField, b: FiniteField)
    requires
        a.prime == b.prime,
        b.num == 0,
    ensures
        a.quotient(b) == Err::<FiniteField, EccError>(EccError::Domain),
{
}

/// In a field of prime order, division is exact: the quotient of `a` by a
/// nonzero `b`, multiplied by `b`, is `a`.
pub proof fn lemma_product_undoes_quotient(a: FiniteField, b: FiniteField)
    requires
        a.valid(),
        b.valid(),
        a.prime == b.prime,
        is_prime(a.prime as int),
        b.num != 0,
    ensures
        a.quotient(b) matches Ok(q) && q.valid() && q.product(b) == Ok::<FiniteField, EccError>(
            a,
        ),
{
    let m = a.prime as int;
    let inverse = pow(b.num as int, (a.prime - 2) as nat) % m;
    let q = (a.num * inverse) % m;
    lemma_mod_bound(pow(b.num as int, (a.prime - 2) as nat), m);
    lemma_mod_bound(a.num * inverse, m);
    lemma_inverse_by_power(a.prime as nat, b.num as nat);
    // q * b is congruent to a * (inverse * b), and inverse * b to one
    lemma_mul_mod_noop_general(a.num * inverse, b.num as int, m);
    assert((a.num * inverse) * b.num == a.num * (b.num * inverse)) by (nonlinear_arith);
    lemma_mul_mod_noop_general(a.num as int, b.num * inverse, m);
    assert(a.num * 1 == a.num);
    lemma_small_mod(a.num as nat, a.prime as nat);
    assert((q * b.num) % m == a.num);
}

/// In a field of prime order, division undoes multiplication:
/// `(a * b) / b == a` for a nonzero `b`.
pub proof fn lemma_quotient_undoes_product(a: FiniteField, b: FiniteField)
    requires
        a.valid(),
        b.valid(),
        a.prime == b.prime,
        is_prime(a.prime as int),
        b.num != 0,
    ensures
        a.product(b) matches Ok(ab) && ab.quotient(b) == Ok::<FiniteField, EccError>(a),
{
    let m = a.prime as int;
    let inverse = pow(b.num as int, (a.prime - 2) as nat) % m;
    let ab = (a.num * b.num) % m;
    lemma_mod_bound(pow(b.num as int, (a.prime - 2) as nat), m);
    lemma_mod_bound(a.num * b.num, m);
    lemma_inverse_by_power(a.prime as nat, b.num as nat);
    lemma_mul_mod_noop_general(a.num * b.num, inverse, m);
    assert((a.num * b.num) * inverse == a.num * (b.num * inverse)) by (nonlinear_arith);
    lemma_mul_mod_noop_general(a.num as int, b.num * inverse, m);
    assert(a.num * 1 == a.num);
    lemma_small_mod(a.num as nat, a.prime as nat);
    assert((ab * inverse) % m == a.num);
}

/// Modulo a prime `p`, a power of a nonzero residue whose exponent is a
/// multiple of `p - 1` is one.
pub proof fn lemma_power_of_multiple_of_order(p: nat, v: nat, t: nat)
    requires
        is_prime(p as int),
        0 < v < p,
    ensures
        0 <= (p - 1) * t,
        pow(v as int, ((p - 1) * t) as nat) % (p as int) == 1,
{
    let m = p as int;
    let unit = pow(v as int, (p - 1) as nat);
    lemma_small_mod(v, p);
    lemma_small_mod(1, p);
    lemma_fermat_little(p, v);
    lemma_pow_multiplies(v as int, (p - 1) as nat, t);
    lemma_pow_mod_noop(unit, t, m);
    lemma1_pow(t);
}

/// In a field of prime order, the powers of a nonzero element with opposite
/// exponents are inverse to each other.
pub proof fn lemma_powers_with_opposite_exponents(e: FiniteField, k: int)
    requires
        e.valid(),
        is_prime(e.prime as int),
        e.num != 0,
    ensures
        e.power(k).product(e.power(-k)) == Ok::<FiniteField, EccError>(
            FiniteField { num: 1, prime: e.prime },
        ),
{
    let m = e.prime as int;
    let a = e.num as int;
    let period = m - 1;
    let up = normalized_exponent(k, m);
    let down = normalized_exponent(-k, m);
    let total = up as int + down as int;
    // the two exponents add up to a multiple of the order less one
    lemma_mod_bound(k, period);
    lemma_mod_bound(-k, period);
    lemma_add_mod_noop_right(k, -k, period);
    lemma_add_mod_noop_right(-k, k, period);
    lemma_small_mod(0, period as nat);
    assert(total % period == 0);
    let t = total / period;
    lemma_fundamental_div_mod(total, period);
    assert(t >= 0) by (nonlinear_arith)
        requires
            total == period * t,
            total >= 0,
            period > 0,
    ;
    lemma_power_of_multiple_of_order(e.prime as nat, e.num as nat, t as nat);
    // and the product of the powers is the power of the sum
    lemma_pow_adds(a, up, down);
    lemma_mod_bound(pow(a, up), m);
    lemma_mod_bound(pow(a, down), m);
    lemma_mul_mod_noop_general(pow(a, up), pow(a, down), m);
}

} // verus!
