//! What holds of the group law over machine integers: whatever sum is
//! returned is a point of the curve, and does not depend on the order of the
//! two points.

use vstd::prelude::*;
use crate::coordinate::{fits_isize, lemma_exact_quotient, lemma_quotient_from_product, Coordinate};
use crate::curve_algebra::{
    defect, lemma_chord_remainder, lemma_defect_along_line, lemma_tangent_remainder,
    line_remainder, sum_abscissa, sum_ordinate,
};
use crate::error::EccError;
use crate::point::{chord_slope, on_curve, tangent_slope, third_point, Point};

verus! {

/// A number whose square fits the machine word is at most half the largest
/// word in size, so that two such numbers can be added and subtracted.
pub proof fn lemma_root_is_small(v: int)
    requires
        fits_isize(v * v),
    ensures
        -(isize::MAX as int) <= 2 * v <= isize::MAX,
{
    assert(-(isize::MAX as int) <= 2 * v <= isize::MAX) by (nonlinear_arith)
        requires
            v * v <= isize::MAX,
            isize::MAX >= 2,
    ;
}

/// Over machine integers the curve equation, where it can be evaluated, says
/// that the point misses the curve by nothing; and it can be evaluated only
/// where the squares of both coordinates fit the machine word.
pub proof fn lemma_integer_curve_equation(x: isize, y: isize, a: isize, b: isize)
    ensures
        on_curve(x, y, a, b) matches Ok(holds) ==> holds == (defect(
            x as int,
            y as int,
            a as int,
            b as int,
        ) == 0) && fits_isize(x * x) && fits_isize(y * y),
        on_curve(x, y, a, b) matches Err(e) ==> e == EccError::Domain,
{
}

/// Over machine integers, where the chord through two points of the curve
/// leads to a sum at all, it leads to the same sum in either order, and what
/// it is refused for is never that the sum would miss the curve.
pub proof fn lemma_integer_chord_sum(x1: isize, y1: isize, x2: isize, y2: isize, a: isize, b: isize)
    requires
        x1 != x2,
        on_curve(x1, y1, a, b) == Ok::<bool, EccError>(true),
        on_curve(x2, y2, a, b) == Ok::<bool, EccError>(true),
    ensures
        Point::chord_sum(x1, y1, x2, y2, a, b) matches Ok(r) ==> Point::chord_sum(
            x2,
            y2,
            x1,
            y1,
            a,
            b,
        ) == Ok::<Point<isize>, EccError>(r),
        Point::chord_sum(x1, y1, x2, y2, a, b) matches Err(e) ==> e == EccError::Domain,
{
    let x1i = x1 as int;
    let y1i = y1 as int;
    let x2i = x2 as int;
    let y2i = y2 as int;
    let ai = a as int;
    let bi = b as int;
    lemma_integer_curve_equation(x1, y1, a, b);
    lemma_integer_curve_equation(x2, y2, a, b);
    lemma_root_is_small(x1i);
    lemma_root_is_small(y1i);
    lemma_root_is_small(x2i);
    lemma_root_is_small(y2i);
    let rise = y2i - y1i;
    let run = x2i - x1i;
    if chord_slope(x1, y1, x2, y2) is Ok {
        let slope = chord_slope(x1, y1, x2, y2).unwrap();
        let s = slope as int;
        lemma_exact_quotient(rise, run);
        assert(s * run == rise);
        if third_point(slope, x1, y1, x2) is Ok {
            let c = third_point(slope, x1, y1, x2).unwrap();
            let x3 = c.0 as int;
            let y3 = c.1 as int;
            assert(x3 == sum_abscissa(s, x1i, x2i));
            assert(y3 == sum_ordinate(s, x1i, y1i, x3));
            // the sum is on the curve
            let rest = line_remainder(s, x1i, y1i, x3, ai);
            lemma_chord_remainder(s, x1i, y1i, x2i, y2i, ai, bi);
            assert(rest == 0) by (nonlinear_arith)
                requires
                    run != 0,
                    run * rest == (s * run - rise) * (y1i + y2i + s * run) + 0 - 0,
                    s * run == rise,
            ;
            lemma_defect_along_line(s, x1i, y1i, x3, ai, bi);
            assert((x3 - x1i) * 0 == 0);
            assert(defect(x3, y3, ai, bi) == 0);
            lemma_integer_curve_equation(c.0, c.1, a, b);
            if Point::located(c.0, c.1, a, b) is Ok {
                // and the other order leads to it too
                lemma_root_is_small(x3);
                lemma_root_is_small(y3);
                assert(s * (-run) == -rise) by (nonlinear_arith)
                    requires
                        s * run == rise,
                ;
                lemma_quotient_from_product(-rise, -run, s);
                assert(chord_slope(x2, y2, x1, y1) == Ok::<isize, EccError>(slope));
                assert(s * (x2i - x3) == y3 + y2i) by (nonlinear_arith)
                    requires
                        y3 == s * (x1i - x3) - y1i,
                        s * (x2i - x1i) == y2i - y1i,
                ;
                assert(third_point(slope, x2, y2, x1) == Ok::<(isize, isize), EccError>(c));
            }
        }
    }
}

/// Over machine integers, what the tangent at a point of the curve is
/// refused for is never that the double would miss the curve.
pub proof fn lemma_integer_doubled(x: isize, y: isize, a: isize, b: isize)
    requires
        on_curve(x, y, a, b) == Ok::<bool, EccError>(true),
    ensures
        Point::doubled(x, y, a, b) matches Err(e) ==> e == EccError::Domain,
{
    let xi = x as int;
    let yi = y as int;
    let ai = a as int;
    let bi = b as int;
    lemma_integer_curve_equation(x, y, a, b);
    if tangent_slope(x, y, a) is Ok {
        let slope = tangent_slope(x, y, a).unwrap();
        let s = slope as int;
        let rise = 3 * (xi * xi) + ai;
        let run = 2 * yi;
        lemma_exact_quotient(rise, run);
        assert(s * run == rise);
        if third_point(slope, x, y, x) is Ok {
            let c = third_point(slope, x, y, x).unwrap();
            let x3 = c.0 as int;
            let y3 = c.1 as int;
            assert(x3 == sum_abscissa(s, xi, xi));
            assert(y3 == sum_ordinate(s, xi, yi, x3));
            lemma_tangent_remainder(s, xi, yi, ai);
            lemma_defect_along_line(s, xi, yi, x3, ai, bi);
            assert((x3 - xi) * 0 == 0);
            lemma_integer_curve_equation(c.0, c.1, a, b);
        }
    }
}

/// Over machine integers the sum of two points of one curve, where it is
/// returned, is a point of that curve; and where it is refused, then as out
/// of the domain: an exact value did not fit the machine word, or a slope was
/// not a whole number.
pub proof fn lemma_integer_sum_on_curve(p: Point<isize>, q: Point<isize>)
    requires
        p.valid(),
        q.valid(),
        p.a == q.a,
        p.b == q.b,
    ensures
        match p.group_sum(q) {
            Ok(r) => r.valid(),
            Err(e) => e == EccError::Domain,
        },
{
    match (p.coordinates, q.coordinates) {
        (Some((x1, y1)), Some((x2, y2))) => {
            if x1 != x2 {
                lemma_integer_chord_sum(x1, y1, x2, y2, p.a, p.b);
            } else if y1 == y2 && !y1.vanishes() {
                lemma_integer_doubled(x1, y1, p.a, p.b);
            }
        },
        _ => {},
    }
}

/// Over machine integers the group law is commutative: in whichever order
/// two points are added, the outcome is the same point, or the same refusal.
pub proof fn lemma_integer_sum_commutes(p: Point<isize>, q: Point<isize>)
    requires
        p.valid(),
        q.valid(),
    ensures
        p.group_sum(q) == q.group_sum(p),
{
    if p.a == q.a && p.b == q.b {
        match (p.coordinates, q.coordinates) {
            (Some((x1, y1)), Some((x2, y2))) => {
                if x1 != x2 {
                    lemma_integer_chord_sum(x1, y1, x2, y2, p.a, p.b);
                    lemma_integer_chord_sum(x2, y2, x1, y1, p.a, p.b);
                }
            },
            _ => {},
        }
    }
}

} // verus!
