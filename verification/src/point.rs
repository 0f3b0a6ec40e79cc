//! Points of a curve `y^2 = x^3 + a*x + b`, and their group law.

use vstd::prelude::*;
use vstd::string::StringExecFns;
use crate::coordinate::Coordinate;
use crate::error::EccError;

verus! {

/// A point of the curve with parameters `a` and `b`: either the point at
/// infinity, which is the identity of the group, or a finite point, whose
/// coordinates `(x, y)` satisfy the curve equation in the arithmetic of `T`.
#[derive(Debug, Copy, PartialEq, Eq)]
pub struct Point<T: Coordinate> {
    /// `None` for the point at infinity, `Some((x, y))` for a finite point.
    pub coordinates: Option<(T, T)>,
    pub a: T,
    pub b: T,
}

impl<T: Coordinate> Clone for Point<T> {
    fn clone(&self) -> (r: Self)
        ensures
            r == *self,
    {
        *self
    }
}

/// The right-hand side `x^3 + a*x + b` of the curve equation, formed as
/// `((x*x)*x + a*x) + b`; the first operation that is refused decides.
pub open spec fn curve_rhs<T: Coordinate>(x: T, a: T, b: T) -> Result<T, EccError> {
    match x.product(x) {
        Err(e) => Err(e),
        Ok(square) => match square.product(x) {
            Err(e) => Err(e),
            Ok(cube) => match a.product(x) {
                Err(e) => Err(e),
                Ok(linear) => match cube.sum(linear) {
                    Err(e) => Err(e),
                    Ok(partial) => partial.sum(b),
                },
            },
        },
    }
}

/// Whether `y^2 == x^3 + a*x + b`, the left side formed first.
pub open spec fn on_curve<T: Coordinate>(x: T, y: T, a: T, b: T) -> Result<bool, EccError> {
    match y.product(y) {
        Err(e) => Err(e),
        Ok(lhs) => match curve_rhs(x, a, b) {
            Err(e) => Err(e),
            Ok(rhs) => Ok(lhs == rhs),
        },
    }
}

/// The slope `(y2 - y1) / (x2 - x1)` of the line through two points.
pub open spec fn chord_slope<T: Coordinate>(x1: T, y1: T, x2: T, y2: T) -> Result<T, EccError> {
    match y2.difference(y1) {
        Err(e) => Err(e),
        Ok(rise) => match x2.difference(x1) {
            Err(e) => Err(e),
            Ok(run) => rise.quotient(run),
        },
    }
}

/// The slope `(3*x^2 + a) / (2*y)` of the tangent at a point, with `3*x^2`
/// formed as `(x^2 + x^2) + x^2` and `2*y` as `y + y`.
pub open spec fn tangent_slope<T: Coordinate>(x: T, y: T, a: T) -> Result<T, EccError> {
    match x.product(x) {
        Err(e) => Err(e),
        Ok(square) => match square.sum(square) {
            Err(e) => Err(e),
            Ok(double) => match double.sum(square) {
                Err(e) => Err(e),
                Ok(triple) => match triple.sum(a) {
                    Err(e) => Err(e),
                    Ok(rise) => match y.sum(y) {
                        Err(e) => Err(e),
                        Ok(run) => rise.quotient(run),
                    },
                },
            },
        },
    }
}

/// The coordinates in which a line of the given slope through `(x1, y1)` and
/// a point of abscissa `x2` leads to the sum: `x3 = slope^2 - x1 - x2` and
/// `y3 = slope * (x1 - x3) - y1`.
pub open spec fn third_point<T: Coordinate>(slope: T, x1: T, y1: T, x2: T) -> Result<
    (T, T),
    EccError,
> {
    match slope.product(slope) {
        Err(e) => Err(e),
        Ok(square) => match square.difference(x1) {
            Err(e) => Err(e),
            Ok(partial) => match partial.difference(x2) {
                Err(e) => Err(e),
                Ok(x3) => match x1.difference(x3) {
                    Err(e) => Err(e),
                    Ok(back) => match slope.product(back) {
                        Err(e) => Err(e),
                        Ok(fall) => match fall.difference(y1) {
                            Err(e) => Err(e),
                            Ok(y3) => Ok((x3, y3)),
                        },
                    },
                },
            },
        },
    }
}

/// Computes `curve_rhs`.
fn eval_curve_rhs<T: Coordinate>(x: T, a: T, b: T) -> (r: Result<T, EccError>)
    requires
        x.valid(),
        a.valid(),
        b.valid(),
    ensures
        r == curve_rhs(x, a, b),
        r matches Ok(v) ==> v.valid(),
{
    let square = x.mul(x)?;
    let cube = square.mul(x)?;
    let linear = a.mul(x)?;
    let partial = cube.add(linear)?;
    partial.add(b)
}

/// Computes `on_curve`.
fn eval_on_curve<T: Coordinate>(x: T, y: T, a: T, b: T) -> (r: Result<bool, EccError>)
    requires
        x.valid(),
        y.valid(),
        a.valid(),
        b.valid(),
    ensures
        r == on_curve(x, y, a, b),
{
    let lhs = y.mul(y)?;
    let rhs = eval_curve_rhs(x, a, b)?;
    Ok(lhs.equals(rhs))
}

/// Computes `chord_slope`.
fn eval_chord_slope<T: Coordinate>(x1: T, y1: T, x2: T, y2: T) -> (r: Result<T, EccError>)
    requires
        x1.valid(),
        y1.valid(),
        x2.valid(),
        y2.valid(),
    ensures
        r == chord_slope(x1, y1, x2, y2),
        r matches Ok(v) ==> v.valid(),
{
    let rise = y2.sub(y1)?;
    let run = x2.sub(x1)?;
    rise.div(run)
}

/// Computes `tangent_slope`.
fn eval_tangent_slope<T: Coordinate>(x: T, y: T, a: T) -> (r: Result<T, EccError>)
    requires
        x.valid(),
        y.valid(),
        a.valid(),
    ensures
        r == tangent_slope(x, y, a),
        r matches Ok(v) ==> v.valid(),
{
    let square = x.mul(x)?;
    let double = square.add(square)?;
    let triple = double.add(square)?;
    let rise = triple.add(a)?;
    let run = y.add(y)?;
    rise.div(run)
}

/// Computes `third_point`.
fn eval_third_point<T: Coordinate>(slope: T, x1: T, y1: T, x2: T) -> (r: Result<(T, T), EccError>)
    requires
        slope.valid(),
        x1.valid(),
        y1.valid(),
        x2.valid(),
    ensures
        r == third_point(slope, x1, y1, x2),
        r matches Ok(c) ==> c.0.valid() && c.1.valid(),
{
    let square = slope.mul(slope)?;
    let partial = square.sub(x1)?;
    let x3 = partial.sub(x2)?;
    let back = x1.sub(x3)?;
    let fall = slope.mul(back)?;
    let y3 = fall.sub(y1)?;
    Ok((x3, y3))
}

impl<T: Coordinate> Point<T> {
    /// Whether the point is one that the constructors give: its parameters
    /// and coordinates are valid values, and a finite point satisfies the
    /// curve equation.
    pub open spec fn valid(self) -> bool {
        &&& self.a.valid()
        &&& self.b.valid()
        &&& match self.coordinates {
            None => true,
            Some((x, y)) => x.valid() && y.valid() && on_curve(x, y, self.a, self.b) == Ok::<
                bool,
                EccError,
            >(true),
        }
    }

    /// The identity of the curve with parameters `a` and `b`.
    pub open spec fn identity(a: T, b: T) -> Point<T> {
        Point { coordinates: None, a, b }
    }

    /// The outcome of placing a finite point at `(x, y)` on the curve with
    /// parameters `a` and `b`: the point where the curve equation holds,
    /// `NotOnCurve` where it fails, and the error of the arithmetic where the
    /// equation cannot be evaluated.
    pub open spec fn located(x: T, y: T, a: T, b: T) -> Result<Point<T>, EccError> {
        match on_curve(x, y, a, b) {
            Err(e) => Err(e),
            Ok(holds) => if holds {
                Ok(Point { coordinates: Some((x, y)), a, b })
            } else {
                Err(EccError::NotOnCurve)
            },
        }
    }

    /// The outcome of adding two finite points of one curve whose abscissas
    /// differ: the third point of the curve on the line through both,
    /// mirrored. With the slope of that line, `x3 = slope^2 - x1 - x2` and
    /// `y3 = slope * (x1 - x3) - y1`.
    pub open spec fn chord_sum(x1: T, y1: T, x2: T, y2: T, a: T, b: T) -> Result<
        Point<T>,
        EccError,
    > {
        match chord_slope(x1, y1, x2, y2) {
            Err(e) => Err(e),
            Ok(slope) => match third_point(slope, x1, y1, x2) {
                Err(e) => Err(e),
                Ok(c) => Self::located(c.0, c.1, a, b),
            },
        }
    }

    /// The outcome of doubling a finite point whose ordinate is not zero:
    /// the second point of the curve on the tangent at the point, mirrored.
    /// With the slope of the tangent, `x3 = slope^2 - x - x` and
    /// `y3 = slope * (x - x3) - y`.
    pub open spec fn doubled(x: T, y: T, a: T, b: T) -> Result<Point<T>, EccError> {
        match tangent_slope(x, y, a) {
            Err(e) => Err(e),
            Ok(slope) => match third_point(slope, x, y, x) {
                Err(e) => Err(e),
                Ok(c) => Self::located(c.0, c.1, a, b),
            },
        }
    }

    /// The outcome of the group law on `self` and `other`.
    pub open spec fn group_sum(self, other: Point<T>) -> Result<Point<T>, EccError> {
        if self.a != other.a || self.b != other.b {
            Err(EccError::DifferentCurve)
        } else {
            match (self.coordinates, other.coordinates) {
                (None, _) => Ok(other),
                (Some(_), None) => Ok(self),
                (Some((x1, y1)), Some((x2, y2))) => {
                    if x1 != x2 {
                        Self::chord_sum(x1, y1, x2, y2, self.a, self.b)
                    } else if y1 != y2 || y1.vanishes() {
                        Ok(Self::identity(self.a, self.b))
                    } else {
                        Self::doubled(x1, y1, self.a, self.b)
                    }
                },
            }
        }
    }

    /// The canonical display form: `Point(x, y)_a_b` for a finite point and
    /// `Point(Infinity)_a_b` for the identity.
    pub open spec fn text(self) -> Seq<char> {
        match self.coordinates {
            None => "Point(Infinity)_"@ + self.a.text() + "_"@ + self.b.text(),
            Some((x, y)) => "Point("@ + x.text() + ", "@ + y.text() + ")_"@ + self.a.text() + "_"@
                + self.b.text(),
        }
    }

    /// The finite point `(x, y)` of the curve with parameters `a` and `b`.
    ///
    /// Refused with `NotOnCurve` where `y^2 != x^3 + a*x + b`, and with the
    /// error of the coordinate arithmetic where that refuses an operation of
    /// the equation.
    pub fn new(x: T, y: T, a: T, b: T) -> (r: Result<Point<T>, EccError>)
        requires
            x.valid(),
            y.valid(),
            a.valid(),
            b.valid(),
        ensures
            r == Self::located(x, y, a, b),
            r matches Ok(p) ==> p.valid(),
    {
        if eval_on_curve(x, y, a, b)? {
            Ok(Point { coordinates: Some((x, y)), a, b })
        } else {
            Err(EccError::NotOnCurve)
        }
    }

    /// The point at infinity of the curve with parameters `a` and `b`.
    pub fn infinity(a: T, b: T) -> (r: Point<T>)
        requires
            a.valid(),
            b.valid(),
        ensures
            r == Self::identity(a, b),
            r.valid(),
    {
        Point { coordinates: None, a, b }
    }

    /// Tells whether the point is the point at infinity.
    pub fn is_infinity(self) -> (r: bool)
        ensures
            r == (self.coordinates is None),
    {
        self.coordinates.is_none()
    }

    /// Tells whether two points are the same: both at infinity on one curve,
    /// or both finite with the same coordinates on one curve.
    pub fn equals(self, other: Point<T>) -> (r: bool)
        ensures
            r == (self == other),
    {
        if !(self.a.equals(other.a) && self.b.equals(other.b)) {
            return false;
        }
        match (self.coordinates, other.coordinates) {
            (None, None) => true,
            (Some((x1, y1)), Some((x2, y2))) => x1.equals(x2) && y1.equals(y2),
            _ => false,
        }
    }

    /// The sum of two points under the group law of their curve.
    ///
    /// Refused with `DifferentCurve` where the parameters of the two points
    /// differ. The point at infinity is the identity; two finite points with
    /// one abscissa and different ordinates, or with ordinate zero, add up to
    /// infinity; otherwise the sum lies on the chord through the two points,
    /// or on the tangent where they are the same. Where the coordinate
    /// arithmetic refuses an operation on the way, its error is returned.
    /// Where it leads off the curve, so is `NotOnCurve`; over machine integers
    /// and over fields of prime order it never does.
    pub fn add(self, other: Point<T>) -> (r: Result<Point<T>, EccError>)
        requires
            self.valid(),
            other.valid(),
        ensures
            r == self.group_sum(other),
            r matches Ok(p) ==> p.valid(),
    {
        if !(self.a.equals(other.a) && self.b.equals(other.b)) {
            return Err(EccError::DifferentCurve);
        }
        match (self.coordinates, other.coordinates) {
            (None, _) => Ok(other),
            (Some(_), None) => Ok(self),
            (Some((x1, y1)), Some((x2, y2))) => {
                if !x1.equals(x2) {
                    let slope = eval_chord_slope(x1, y1, x2, y2)?;
                    let (x3, y3) = eval_third_point(slope, x1, y1, x2)?;
                    Self::new(x3, y3, self.a, self.b)
                } else if !y1.equals(y2) || y1.is_zero() {
                    Ok(Self::infinity(self.a, self.b))
                } else {
                    let slope = eval_tangent_slope(x1, y1, self.a)?;
                    let (x3, y3) = eval_third_point(slope, x1, y1, x1)?;
                    Self::new(x3, y3, self.a, self.b)
                }
            },
        }
    }

    /// Renders the canonical display form.
    pub fn display(self) -> (r: String)
        ensures
            r@ == self.text(),
    {
        let mut out = match self.coordinates {
            None => String::from_str("Point(Infinity)_"),
            Some((x, y)) => {
                let mut head = String::from_str("Point(");
                head.append(x.display().as_str());
                head.append(", ");
                head.append(y.display().as_str());
                head.append(")_");
                head
            },
        };
        out.append(self.a.display().as_str());
        out.append("_");
        out.append(self.b.display().as_str());
        out
    }
}

} // verus!
