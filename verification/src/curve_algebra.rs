//! The two polynomial identities behind the group law: why the third point
//! of a chord, and the second point of a tangent, lie on the curve again.

use vstd::prelude::*;

verus! {

/// By how much `(x, y)` misses the curve `y^2 = x^3 + a*x + b`.
pub open spec fn defect(x: int, y: int, a: int, b: int) -> int {
    y * y - (x * x * x + a * x + b)
}

/// The abscissa `s^2 - x1 - x2` of the sum.
pub open spec fn sum_abscissa(s: int, x1: int, x2: int) -> int {
    s * s - x1 - x2
}

/// The ordinate `s * (x1 - x3) - y1` of the sum.
pub open spec fn sum_ordinate(s: int, x1: int, y1: int, x3: int) -> int {
    s * (x1 - x3) - y1
}

/// The defect of the sum along a line of slope `s` through `(x1, y1)`, in
/// terms of the defect of `(x1, y1)` and of what is left of the line's
/// intersection with the curve.
pub proof fn lemma_defect_along_line(s: int, x1: int, y1: int, x3: int, a: int, b: int)
    ensures
        defect(x3, sum_ordinate(s, x1, y1, x3), a, b) == defect(x1, y1, a, b) + (x3 - x1)
            * line_remainder(s, x1, y1, x3, a),
{
    let t = x3 - x1;
    let y3 = s * (x1 - x3) - y1;
    assert(y3 * y3 == y1 * y1 + t * (s * s * t + 2 * s * y1)) by (nonlinear_arith)
        requires
            y3 == s * (x1 - x3) - y1,
            t == x3 - x1,
    ;
    assert(x3 * x3 * x3 + a * x3 == x1 * x1 * x1 + a * x1 + t * (x3 * x3 + x1 * x3 + x1 * x1 + a))
        by (nonlinear_arith)
        requires
            t == x3 - x1,
    ;
    assert(t * (s * s * t + 2 * s * y1) - t * (x3 * x3 + x1 * x3 + x1 * x1 + a) == t * (s * s * t
        + 2 * s * y1 - (x3 * x3 + x1 * x3 + x1 * x1 + a))) by (nonlinear_arith);
}

/// What is left of a line's intersection with the curve, for the abscissa
/// `x3` of the sum: `s^2 * (x3 - x1) + 2*s*y1 - (x3^2 + x1*x3 + x1^2 + a)`.
pub open spec fn line_remainder(s: int, x1: int, y1: int, x3: int, a: int) -> int {
    s * s * (x3 - x1) + 2 * s * y1 - (x3 * x3 + x1 * x3 + x1 * x1 + a)
}

/// For a chord, the remainder times the run is made up of the defects of the
/// two points and of the slope.
pub proof fn lemma_chord_remainder(s: int, x1: int, y1: int, x2: int, y2: int, a: int, b: int)
    ensures
        (x2 - x1) * line_remainder(s, x1, y1, sum_abscissa(s, x1, x2), a) == (s * (x2 - x1) - (y2
            - y1)) * (y1 + y2 + s * (x2 - x1)) + defect(x2, y2, a, b) - defect(x1, y1, a, b),
{
    let d = x2 - x1;
    let w = s * s;
    let x3 = w - x1 - x2;
    let k = w * (x3 - x1) + 2 * s * y1 - (x3 * x3 + x1 * x3 + x1 * x1 + a);
    // with s^2 == x1 + x2 + x3 the remainder loses its terms in x3
    assert(k == 2 * s * y1 + w * d - (x2 * x2 + x1 * x2 + x1 * x1 + a)) by (nonlinear_arith)
        requires
            x3 == w - x1 - x2,
            d == x2 - x1,
            k == w * (x3 - x1) + 2 * s * y1 - (x3 * x3 + x1 * x3 + x1 * x1 + a),
    ;
    // the run times that, term by term
    let u = s * d;
    let q = x2 * x2 + x1 * x2 + x1 * x1;
    assert(d * (2 * s * y1 + w * d - (q + a)) == 2 * u * y1 + u * u - d * q - d * a)
        by (nonlinear_arith)
        requires
            u == s * d,
            w == s * s,
    ;
    assert(d * q == x2 * x2 * x2 - x1 * x1 * x1) by (nonlinear_arith)
        requires
            d == x2 - x1,
            q == x2 * x2 + x1 * x2 + x1 * x1,
    ;
    assert(d * a == a * x2 - a * x1) by (nonlinear_arith)
        requires
            d == x2 - x1,
    ;
    // and the defect of the slope times the sum of the ordinates
    assert((u - (y2 - y1)) * (y1 + y2 + u) == u * u + 2 * u * y1 + y1 * y1 - y2 * y2)
        by (nonlinear_arith);
}

/// For a tangent, the remainder is the defect of the slope.
pub proof fn lemma_tangent_remainder(s: int, x1: int, y1: int, a: int)
    ensures
        line_remainder(s, x1, y1, sum_abscissa(s, x1, x1), a) == s * (2 * y1) - (3 * (x1 * x1)
            + a),
{
    let w = s * s;
    let x3 = w - x1 - x1;
    assert(w * (x3 - x1) + 2 * s * y1 - (x3 * x3 + x1 * x3 + x1 * x1 + a) == s * (2 * y1) - (3 * (
    x1 * x1) + a)) by (nonlinear_arith)
        requires
            x3 == w - x1 - x1,
    ;
}

} // verus!
