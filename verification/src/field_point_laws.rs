//! What holds of the group law over a field of prime order: the sum of two
//! points of a curve is a point of the curve again, and does not depend on
//! the order of the two.

use vstd::prelude::*;
use vstd::arithmetic::div_mod::{lemma_mod_bound, lemma_mod_equivalence, lemma_small_mod};
use crate::congruence::{
    congruent, lemma_congruent_cancel, lemma_congruent_difference, lemma_congruent_product,
    lemma_congruent_remainder, lemma_congruent_residues, lemma_congruent_sum,
};
use crate::coordinate::Coordinate;
use crate::curve_algebra::{
    defect, lemma_chord_remainder, lemma_defect_along_line, lemma_tangent_remainder,
    line_remainder, sum_abscissa, sum_ordinate,
};
use crate::error::EccError;
use crate::field_laws::lemma_product_undoes_quotient;
use crate::finite_field::FiniteField;
use crate::point::{chord_slope, on_curve, tangent_slope, third_point, Point};
use crate::primes::{is_prime, lemma_prime_divides_factor};

verus! {

/// Congruent coordinates miss the curve by congruent amounts.
pub proof fn lemma_defect_respects_congruence(
    x: int,
    y: int,
    u: int,
    v: int,
    a: int,
    b: int,
    m: int,
)
    requires
        0 < m,
        congruent(x, u, m),
        congruent(y, v, m),
    ensures
        congruent(defect(x, y, a, b), defect(u, v, a, b), m),
{
    lemma_congruent_product(y, v, y, v, m);
    lemma_congruent_product(x, u, x, u, m);
    lemma_congruent_product(x * x, u * u, x, u, m);
    lemma_congruent_product(a, a, x, u, m);
    lemma_congruent_sum(x * x * x, u * u * u, a * x, a * u, m);
    lemma_congruent_sum(x * x * x + a * x, u * u * u + a * u, b, b, m);
    lemma_congruent_difference(y * y, v * v, x * x * x + a * x + b, u * u * u + a * u + b, m);
}

/// In one field, the curve equation holds of `(x, y)` exactly where the
/// modulus divides the amount by which the numbers miss the curve.
pub proof fn lemma_curve_equation_in_field(
    x: FiniteField,
    y: FiniteField,
    a: FiniteField,
    b: FiniteField,
)
    requires
        x.valid(),
        y.valid(),
        a.valid(),
        b.valid(),
        x.prime == y.prime,
        x.prime == a.prime,
        x.prime == b.prime,
    ensures
        on_curve(x, y, a, b) == Ok::<bool, EccError>(
            congruent(
                defect(x.num as int, y.num as int, a.num as int, b.num as int),
                0,
                x.prime as int,
            ),
        ),
{
    let p = x.prime as int;
    let xi = x.num as int;
    let yi = y.num as int;
    let ai = a.num as int;
    let bi = b.num as int;
    let lhs = (yi * yi) % p;
    let square = (xi * xi) % p;
    let cube = (square * xi) % p;
    let linear = (ai * xi) % p;
    let partial = (cube + linear) % p;
    let rhs = (partial + bi) % p;
    let cubic = xi * xi * xi + ai * xi + bi;
    lemma_mod_bound(yi * yi, p);
    lemma_mod_bound(xi * xi, p);
    lemma_mod_bound(square * xi, p);
    lemma_mod_bound(ai * xi, p);
    lemma_mod_bound(cube + linear, p);
    lemma_mod_bound(partial + bi, p);
    lemma_congruent_remainder(yi * yi, p);
    lemma_congruent_remainder(xi * xi, p);
    lemma_congruent_remainder(square * xi, p);
    lemma_congruent_remainder(ai * xi, p);
    lemma_congruent_remainder(cube + linear, p);
    lemma_congruent_remainder(partial + bi, p);
    lemma_congruent_product(square, xi * xi, xi, xi, p);
    lemma_congruent_sum(cube, xi * xi * xi, linear, ai * xi, p);
    lemma_congruent_sum(partial, xi * xi * xi + ai * xi, bi, bi, p);
    assert(congruent(rhs, cubic, p));
    assert(congruent(lhs, yi * yi, p));
    if congruent(yi * yi, cubic, p) {
        lemma_congruent_residues(lhs, rhs, p);
    }
    lemma_mod_equivalence(yi * yi, cubic, p);
    lemma_small_mod(0, p as nat);
}

/// In one field, the coordinates in which a line leads to the sum are
/// congruent to `s^2 - x1 - x2` and `s * (x1 - x3) - y1`.
pub proof fn lemma_third_point_in_field(
    slope: FiniteField,
    x1: FiniteField,
    y1: FiniteField,
    x2: FiniteField,
)
    requires
        slope.valid(),
        x1.valid(),
        y1.valid(),
        x2.valid(),
        slope.prime == x1.prime,
        x1.prime == y1.prime,
        x1.prime == x2.prime,
    ensures
        third_point(slope, x1, y1, x2) matches Ok(c) && c.0.valid() && c.1.valid() && c.0.prime
            == x1.prime && c.1.prime == x1.prime && congruent(
            c.0.num as int,
            sum_abscissa(slope.num as int, x1.num as int, x2.num as int),
            x1.prime as int,
        ) && congruent(
            c.1.num as int,
            sum_ordinate(
                slope.num as int,
                x1.num as int,
                y1.num as int,
                sum_abscissa(slope.num as int, x1.num as int, x2.num as int),
            ),
            x1.prime as int,
        ),
{
    let p = x1.prime as int;
    let s = slope.num as int;
    let x1i = x1.num as int;
    let y1i = y1.num as int;
    let x2i = x2.num as int;
    let square = (s * s) % p;
    let partial = (square - x1i) % p;
    let x3 = (partial - x2i) % p;
    let back = (x1i - x3) % p;
    let fall = (s * back) % p;
    let y3 = (fall - y1i) % p;
    let far = sum_abscissa(s, x1i, x2i);
    lemma_mod_bound(s * s, p);
    lemma_mod_bound(square - x1i, p);
    lemma_mod_bound(partial - x2i, p);
    lemma_mod_bound(x1i - x3, p);
    lemma_mod_bound(s * back, p);
    lemma_mod_bound(fall - y1i, p);
    lemma_congruent_remainder(s * s, p);
    lemma_congruent_remainder(square - x1i, p);
    lemma_congruent_remainder(partial - x2i, p);
    lemma_congruent_remainder(x1i - x3, p);
    lemma_congruent_remainder(s * back, p);
    lemma_congruent_remainder(fall - y1i, p);
    lemma_congruent_difference(square, s * s, x1i, x1i, p);
    lemma_congruent_difference(partial, s * s - x1i, x2i, x2i, p);
    assert(congruent(x3, far, p));
    lemma_congruent_difference(x1i, x1i, x3, far, p);
    lemma_congruent_product(s, s, back, x1i - far, p);
    lemma_congruent_difference(fall, s * (x1i - far), y1i, y1i, p);
    assert(congruent(y3, sum_ordinate(s, x1i, y1i, far), p));
}


/// In a field of prime order, the slope of the chord through two points of
/// different abscissas exists, does not depend on the order of the points,
/// and multiplied by the run gives the rise.
pub proof fn lemma_chord_slope_symmetric(
    x1: FiniteField,
    y1: FiniteField,
    x2: FiniteField,
    y2: FiniteField,
)
    requires
        x1.valid(),
        y1.valid(),
        x2.valid(),
        y2.valid(),
        x1.prime == y1.prime,
        x1.prime == x2.prime,
        x1.prime == y2.prime,
        is_prime(x1.prime as int),
        x1 != x2,
    ensures
        chord_slope(x1, y1, x2, y2) == chord_slope(x2, y2, x1, y1),
        chord_slope(x1, y1, x2, y2) matches Ok(slope) && slope.valid() && slope.prime == x1.prime
            && congruent(
            slope.num * (x2.num - x1.num),
            y2.num - y1.num,
            x1.prime as int,
        ),
{
    let p = x1.prime as int;
    let rise = (y2.num - y1.num) % p;
    let run = (x2.num - x1.num) % p;
    let back_rise = (y1.num - y2.num) % p;
    let back_run = (x1.num - x2.num) % p;
    lemma_mod_bound(y2.num - y1.num, p);
    lemma_mod_bound(x2.num - x1.num, p);
    lemma_mod_bound(y1.num - y2.num, p);
    lemma_mod_bound(x1.num - x2.num, p);
    lemma_congruent_remainder(y2.num - y1.num, p);
    lemma_congruent_remainder(x2.num - x1.num, p);
    lemma_congruent_remainder(y1.num - y2.num, p);
    lemma_congruent_remainder(x1.num - x2.num, p);
    lemma_small_mod(rise as nat, p as nat);
    lemma_small_mod(run as nat, p as nat);
    lemma_small_mod(back_rise as nat, p as nat);
    lemma_small_mod(back_run as nat, p as nat);
    lemma_small_mod(0, p as nat);
    // the abscissas differ, so neither run is zero
    if run == 0 {
        lemma_congruent_difference(x2.num - x1.num, 0, -(x1.num as int), -(x1.num as int), p);
        lemma_congruent_residues(x2.num as int, x1.num as int, p);
    }
    if back_run == 0 {
        lemma_congruent_difference(x1.num - x2.num, 0, -(x2.num as int), -(x2.num as int), p);
        lemma_congruent_residues(x1.num as int, x2.num as int, p);
    }
    let rise_e = FiniteField { num: rise as usize, prime: x1.prime };
    let run_e = FiniteField { num: run as usize, prime: x1.prime };
    let back_rise_e = FiniteField { num: back_rise as usize, prime: x1.prime };
    let back_run_e = FiniteField { num: back_run as usize, prime: x1.prime };
    // both quotients are exact
    lemma_product_undoes_quotient(rise_e, run_e);
    lemma_product_undoes_quotient(back_rise_e, back_run_e);
    let s = rise_e.quotient(run_e).unwrap().num as int;
    let t = back_rise_e.quotient(back_run_e).unwrap().num as int;
    assert(congruent(s * run, rise, p));
    assert(congruent(t * back_run, back_rise, p));
    // the second slope, multiplied by the first run, gives the first rise
    lemma_congruent_difference(0, 0, back_run, x1.num - x2.num, p);
    assert(congruent(run, -back_run, p));
    lemma_congruent_product(t, t, run, -back_run, p);
    assert(t * (-back_run) == -(t * back_run)) by (nonlinear_arith);
    lemma_congruent_difference(0, 0, t * back_run, back_rise, p);
    lemma_congruent_difference(0, 0, back_rise, y1.num - y2.num, p);
    assert(congruent(t * run, rise, p));
    // so the two slopes are the same
    lemma_congruent_cancel(s, t, run, p);
    lemma_congruent_residues(s, t, p);
    // and the slope times the true difference of abscissas is the true rise
    lemma_congruent_product(s, s, run, x2.num - x1.num, p);
}

/// In one field, the point in which the chord through two points leads to
/// their sum does not depend on the order of the points.
pub proof fn lemma_third_point_symmetric(
    slope: FiniteField,
    x1: FiniteField,
    y1: FiniteField,
    x2: FiniteField,
    y2: FiniteField,
)
    requires
        slope.valid(),
        x1.valid(),
        y1.valid(),
        x2.valid(),
        y2.valid(),
        slope.prime == x1.prime,
        x1.prime == y1.prime,
        x1.prime == x2.prime,
        x1.prime == y2.prime,
        congruent(slope.num * (x2.num - x1.num), y2.num - y1.num, x1.prime as int),
    ensures
        third_point(slope, x1, y1, x2) == third_point(slope, x2, y2, x1),
{
    let p = x1.prime as int;
    let s = slope.num as int;
    let far = sum_abscissa(s, x1.num as int, x2.num as int);
    lemma_third_point_in_field(slope, x1, y1, x2);
    lemma_third_point_in_field(slope, x2, y2, x1);
    let c = third_point(slope, x1, y1, x2).unwrap();
    let d = third_point(slope, x2, y2, x1).unwrap();
    assert(sum_abscissa(s, x2.num as int, x1.num as int) == far);
    lemma_congruent_residues(c.0.num as int, d.0.num as int, p);
    // the two ordinates differ by the rise less the slope times the run
    assert(s * (x2.num - far) - y2.num == (s * (x1.num - far) - y1.num) + (s * (x2.num - x1.num)
        - (y2.num - y1.num))) by (nonlinear_arith);
    lemma_congruent_difference(
        s * (x2.num - x1.num),
        y2.num - y1.num,
        y2.num - y1.num,
        y2.num - y1.num,
        p,
    );
    lemma_small_mod(0, p as nat);
    lemma_congruent_difference(
        s * (x2.num - far) - y2.num,
        s * (x2.num - far) - y2.num,
        s * (x2.num - x1.num) - (y2.num - y1.num),
        0,
        p,
    );
    lemma_congruent_residues(c.1.num as int, d.1.num as int, p);
}

/// Over a field of prime order the group law is commutative: in whichever
/// order two points are added, the outcome is the same point, or the same
/// refusal.
pub proof fn lemma_group_sum_commutes(p: Point<FiniteField>, q: Point<FiniteField>)
    requires
        p.valid(),
        q.valid(),
        is_prime(p.a.prime as int),
    ensures
        p.group_sum(q) == q.group_sum(p),
{
    if p.a == q.a && p.b == q.b {
        match (p.coordinates, q.coordinates) {
            (Some((x1, y1)), Some((x2, y2))) => {
                if x1 != x2 {
                    lemma_chord_slope_symmetric(x1, y1, x2, y2);
                    let slope = chord_slope(x1, y1, x2, y2).unwrap();
                    lemma_third_point_symmetric(slope, x1, y1, x2, y2);
                }
            },
            _ => {},
        }
    }
}

/// In one field, a line that meets the curve in `(x1, y1)` and whose
/// remainder at the abscissa of the sum is a multiple of the modulus leads to
/// a point of the curve.
proof fn lemma_line_leads_to_curve(
    slope: FiniteField,
    x1: FiniteField,
    y1: FiniteField,
    x2: FiniteField,
    a: FiniteField,
    b: FiniteField,
)
    requires
        slope.valid(),
        x1.valid(),
        y1.valid(),
        x2.valid(),
        a.valid(),
        b.valid(),
        slope.prime == x1.prime,
        x1.prime == y1.prime,
        x1.prime == x2.prime,
        x1.prime == a.prime,
        x1.prime == b.prime,
        on_curve(x1, y1, a, b) == Ok::<bool, EccError>(true),
        congruent(
            line_remainder(
                slope.num as int,
                x1.num as int,
                y1.num as int,
                sum_abscissa(slope.num as int, x1.num as int, x2.num as int),
                a.num as int,
            ),
            0,
            x1.prime as int,
        ),
    ensures
        third_point(slope, x1, y1, x2) matches Ok(c) && Point::located(c.0, c.1, a, b) matches Ok(
            r,
        ) && r.valid(),
{
    let p = x1.prime as int;
    let s = slope.num as int;
    let x1i = x1.num as int;
    let y1i = y1.num as int;
    let ai = a.num as int;
    let bi = b.num as int;
    let far = sum_abscissa(s, x1i, x2.num as int);
    let down = sum_ordinate(s, x1i, y1i, far);
    let rest = line_remainder(s, x1i, y1i, far, ai);
    lemma_small_mod(0, p as nat);
    lemma_third_point_in_field(slope, x1, y1, x2);
    let c = third_point(slope, x1, y1, x2).unwrap();
    // the defect of the sum is that of (x1, y1) and a multiple of the remainder
    lemma_curve_equation_in_field(x1, y1, a, b);
    lemma_defect_along_line(s, x1i, y1i, far, ai, bi);
    lemma_congruent_product(far - x1i, far - x1i, rest, 0, p);
    assert((far - x1i) * 0 == 0);
    lemma_congruent_sum(defect(x1i, y1i, ai, bi), 0, (far - x1i) * rest, 0, p);
    assert(congruent(defect(far, down, ai, bi), 0, p));
    // and the coordinates computed in the field are congruent to those
    lemma_defect_respects_congruence(c.0.num as int, c.1.num as int, far, down, ai, bi, p);
    lemma_curve_equation_in_field(c.0, c.1, a, b);
}

/// In a field of prime order, the chord through two points of the curve
/// with different abscissas leads to a point of the curve: the sum exists.
pub proof fn lemma_chord_sum_on_curve(
    x1: FiniteField,
    y1: FiniteField,
    x2: FiniteField,
    y2: FiniteField,
    a: FiniteField,
    b: FiniteField,
)
    requires
        x1.valid(),
        y1.valid(),
        x2.valid(),
        y2.valid(),
        a.valid(),
        b.valid(),
        x1.prime == y1.prime,
        x1.prime == x2.prime,
        x1.prime == y2.prime,
        x1.prime == a.prime,
        x1.prime == b.prime,
        is_prime(x1.prime as int),
        x1 != x2,
        on_curve(x1, y1, a, b) == Ok::<bool, EccError>(true),
        on_curve(x2, y2, a, b) == Ok::<bool, EccError>(true),
    ensures
        Point::chord_sum(x1, y1, x2, y2, a, b) matches Ok(r) && r.valid(),
{
    let p = x1.prime as int;
    let x1i = x1.num as int;
    let y1i = y1.num as int;
    let x2i = x2.num as int;
    let y2i = y2.num as int;
    let ai = a.num as int;
    let bi = b.num as int;
    lemma_small_mod(0, p as nat);
    lemma_chord_slope_symmetric(x1, y1, x2, y2);
    let slope = chord_slope(x1, y1, x2, y2).unwrap();
    let s = slope.num as int;
    let run = x2i - x1i;
    let far = sum_abscissa(s, x1i, x2i);
    let rest = line_remainder(s, x1i, y1i, far, ai);
    // the slope is exact, and both points are on the curve
    let slack = s * run - (y2i - y1i);
    lemma_mod_equivalence(s * run, y2i - y1i, p);
    lemma_curve_equation_in_field(x1, y1, a, b);
    lemma_curve_equation_in_field(x2, y2, a, b);
    // so the run times the remainder is a multiple of the modulus
    lemma_chord_remainder(s, x1i, y1i, x2i, y2i, ai, bi);
    let weight = y1i + y2i + s * run;
    lemma_congruent_product(slack, 0, weight, weight, p);
    assert(0 * weight == 0);
    lemma_congruent_sum(slack * weight, 0, defect(x2i, y2i, ai, bi), 0, p);
    lemma_congruent_difference(
        slack * weight + defect(x2i, y2i, ai, bi),
        0,
        defect(x1i, y1i, ai, bi),
        0,
        p,
    );
    assert(congruent(run * rest, 0, p));
    // and the run is not
    if run % p == 0 {
        lemma_congruent_sum(run, 0, x1i, x1i, p);
        lemma_congruent_residues(x2i, x1i, p);
    }
    lemma_prime_divides_factor(p, run, rest);
    lemma_line_leads_to_curve(slope, x1, y1, x2, a, b);
}

/// In a field of odd prime order, the slope of the tangent at a point whose
/// ordinate is not zero exists and, multiplied by twice the ordinate, gives
/// `3*x^2 + a`.
pub proof fn lemma_tangent_slope_exact(x: FiniteField, y: FiniteField, a: FiniteField)
    requires
        x.valid(),
        y.valid(),
        a.valid(),
        x.prime == y.prime,
        x.prime == a.prime,
        is_prime(x.prime as int),
        x.prime != 2,
        y.num != 0,
    ensures
        tangent_slope(x, y, a) matches Ok(slope) && slope.valid() && slope.prime == x.prime
            && congruent(
            slope.num * (2 * y.num),
            3 * (x.num * x.num) + a.num,
            x.prime as int,
        ),
{
    let p = x.prime as int;
    let xi = x.num as int;
    let yi = y.num as int;
    let ai = a.num as int;
    let square = (xi * xi) % p;
    let double = (square + square) % p;
    let triple = (double + square) % p;
    let rise = (triple + ai) % p;
    let run = (yi + yi) % p;
    lemma_mod_bound(xi * xi, p);
    lemma_mod_bound(square + square, p);
    lemma_mod_bound(double + square, p);
    lemma_mod_bound(triple + ai, p);
    lemma_mod_bound(yi + yi, p);
    lemma_congruent_remainder(xi * xi, p);
    lemma_congruent_remainder(square + square, p);
    lemma_congruent_remainder(double + square, p);
    lemma_congruent_remainder(triple + ai, p);
    lemma_congruent_remainder(yi + yi, p);
    lemma_small_mod(rise as nat, p as nat);
    lemma_small_mod(0, p as nat);
    // twice the ordinate is not zero, the modulus being odd
    if run == 0 {
        lemma_small_mod(2, p as nat);
        lemma_small_mod(yi as nat, p as nat);
        lemma_prime_divides_factor(p, 2, yi);
    }
    let rise_e = FiniteField { num: rise as usize, prime: x.prime };
    let run_e = FiniteField { num: run as usize, prime: x.prime };
    lemma_product_undoes_quotient(rise_e, run_e);
    let s = rise_e.quotient(run_e).unwrap().num as int;
    assert(congruent(s * run, rise, p));
    // the run is congruent to 2*y, the rise to 3*x^2 + a
    lemma_congruent_product(s, s, run, 2 * yi, p);
    lemma_congruent_sum(square, xi * xi, square, xi * xi, p);
    lemma_congruent_sum(double, xi * xi + xi * xi, square, xi * xi, p);
    lemma_congruent_sum(triple, xi * xi + xi * xi + xi * xi, ai, ai, p);
}

/// In a field of odd prime order, the tangent at a point of the curve whose
/// ordinate is not zero leads to a point of the curve: the double exists.
pub proof fn lemma_doubled_on_curve(x: FiniteField, y: FiniteField, a: FiniteField, b: FiniteField)
    requires
        x.valid(),
        y.valid(),
        a.valid(),
        b.valid(),
        x.prime == y.prime,
        x.prime == a.prime,
        x.prime == b.prime,
        is_prime(x.prime as int),
        x.prime != 2,
        y.num != 0,
        on_curve(x, y, a, b) == Ok::<bool, EccError>(true),
    ensures
        Point::doubled(x, y, a, b) matches Ok(r) && r.valid(),
{
    let p = x.prime as int;
    lemma_tangent_slope_exact(x, y, a);
    let slope = tangent_slope(x, y, a).unwrap();
    let s = slope.num as int;
    lemma_tangent_remainder(s, x.num as int, y.num as int, a.num as int);
    lemma_mod_equivalence(s * (2 * y.num), 3 * (x.num * x.num) + a.num, p);
    lemma_small_mod(0, p as nat);
    lemma_line_leads_to_curve(slope, x, y, x, a, b);
}

/// Over a field of odd prime order the points of a curve are closed under
/// the group law: the sum of two points of one curve always exists, and is a
/// point of that curve.
pub proof fn lemma_group_sum_closed(p: Point<FiniteField>, q: Point<FiniteField>)
    requires
        p.valid(),
        q.valid(),
        p.a == q.a,
        p.b == q.b,
        is_prime(p.a.prime as int),
        p.a.prime != 2,
    ensures
        p.group_sum(q) matches Ok(r) && r.valid(),
{
    match (p.coordinates, q.coordinates) {
        (Some((x1, y1)), Some((x2, y2))) => {
            if x1 != x2 {
                lemma_chord_sum_on_curve(x1, y1, x2, y2, p.a, p.b);
            } else if y1 == y2 && !y1.vanishes() {
                lemma_doubled_on_curve(x1, y1, p.a, p.b);
            }
        },
        _ => {},
    }
}

/// Over the field of order two no tangent has a slope: twice the ordinate
/// is zero, and the division is refused.
pub proof fn lemma_no_tangent_in_characteristic_two(x: FiniteField, y: FiniteField, a: FiniteField)
    requires
        x.valid(),
        y.valid(),
        a.valid(),
        x.prime == 2,
        y.prime == 2,
        a.prime == 2,
    ensures
        tangent_slope(x, y, a) == Err::<FiniteField, EccError>(EccError::Domain),
{
    let xi = x.num as int;
    let yi = y.num as int;
    let square = (xi * xi) % 2;
    let double = (square + square) % 2;
    let triple = (double + square) % 2;
    lemma_mod_bound(xi * xi, 2);
    assert((yi + yi) % 2 == 0);
}

/// Over the field of order two the sum of two points of one curve exists
/// unless it is the double of a finite point whose ordinate is not zero,
/// which is refused as out of the domain.
pub proof fn lemma_group_sum_in_characteristic_two(p: Point<FiniteField>, q: Point<FiniteField>)
    requires
        p.valid(),
        q.valid(),
        p.a == q.a,
        p.b == q.b,
        p.a.prime == 2,
    ensures
        match p.group_sum(q) {
            Ok(r) => r.valid(),
            Err(e) => e == EccError::Domain && p == q && p.coordinates is Some,
        },
{
    assert(is_prime(2)) by {
        assert forall|d: int| 1 < d < 2 implies #[trigger] (2int % d) != 0 by {}
    }
    match (p.coordinates, q.coordinates) {
        (Some((x1, y1)), Some((x2, y2))) => {
            lemma_curve_equation_in_field(x1, y1, p.a, p.b);
            if x1 != x2 {
                lemma_chord_sum_on_curve(x1, y1, x2, y2, p.a, p.b);
            } else if y1 == y2 && !y1.vanishes() {
                lemma_no_tangent_in_characteristic_two(x1, y1, p.a);
            }
        },
        _ => {},
    }
}

} // verus!
