//! What holds of the group law over every kind of coordinate.

use vstd::prelude::*;
use crate::coordinate::Coordinate;
use crate::error::EccError;
use crate::point::Point;

verus! {

/// The point at infinity is the identity on both sides.
pub proof fn lemma_identity_is_neutral<T: Coordinate>(p: Point<T>)
    ensures
        p.group_sum(Point::identity(p.a, p.b)) == Ok::<Point<T>, EccError>(p),
        Point::identity(p.a, p.b).group_sum(p) == Ok::<Point<T>, EccError>(p),
{
}

/// Adding a finite point whose ordinate is not zero to itself follows the
/// doubling formula.
pub proof fn lemma_sum_with_self_is_doubling<T: Coordinate>(p: Point<T>)
    requires
        p.coordinates matches Some(c) && !c.1.vanishes(),
    ensures
        p.coordinates matches Some(c) && p.group_sum(p) == Point::doubled(c.0, c.1, p.a, p.b),
{
}

/// A finite point whose ordinate is zero, added to itself, gives infinity.
pub proof fn lemma_vertical_tangent<T: Coordinate>(p: Point<T>)
    requires
        p.coordinates matches Some(c) && c.1.vanishes(),
    ensures
        p.group_sum(p) == Ok::<Point<T>, EccError>(Point::identity(p.a, p.b)),
{
}

/// Two finite points of one curve with the same abscissa and different
/// ordinates add up to infinity.
pub proof fn lemma_mirror_images_cancel<T: Coordinate>(p: Point<T>, q: Point<T>)
    requires
        p.a == q.a,
        p.b == q.b,
        p.coordinates matches Some(c) && q.coordinates matches Some(d) && c.0 == d.0 && c.1
            != d.1,
    ensures
        p.group_sum(q) == Ok::<Point<T>, EccError>(Point::identity(p.a, p.b)),
{
}

} // verus!
