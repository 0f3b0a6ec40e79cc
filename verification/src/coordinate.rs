//! What a type must offer to serve as the coordinate of a curve point, and
//! plain machine integers as the simplest such type.

use vstd::prelude::*;
use vstd::arithmetic::div_mod::{lemma_fundamental_div_mod, lemma_fundamental_div_mod_converse};
use crate::decimal::{append_signed_decimal, signed_decimal};
use crate::error::EccError;

verus! {

/// The arithmetic that the group law of a curve needs from its coordinates:
/// the four operations, equality, and a test for the additive identity.
///
/// Every operation is partial: it may refuse its operands, and says so with
/// an error. The `spec` functions give the exact outcome of each operation;
/// the executable methods compute it.
pub trait Coordinate: Copy {
    /// Whether the value is one that its domain admits.
    spec fn valid(self) -> bool;

    /// The outcome of `self + rhs`.
    spec fn sum(self, rhs: Self) -> Result<Self, EccError>;

    /// The outcome of `self - rhs`.
    spec fn difference(self, rhs: Self) -> Result<Self, EccError>;

    /// The outcome of `self * rhs`.
    spec fn product(self, rhs: Self) -> Result<Self, EccError>;

    /// The outcome of `self / rhs`.
    spec fn quotient(self, rhs: Self) -> Result<Self, EccError>;

    /// Whether the value is the additive identity of its domain.
    spec fn vanishes(self) -> bool;

    /// The canonical display form of the value.
    spec fn text(self) -> Seq<char>;

    /// Adds `rhs` to `self`.
    fn add(self, rhs: Self) -> (r: Result<Self, EccError>)
        requires
            self.valid(),
            rhs.valid(),
        ensures
            r == self.sum(rhs),
            r matches Ok(v) ==> v.valid(),
    ;

    /// Subtracts `rhs` from `self`.
    fn sub(self, rhs: Self) -> (r: Result<Self, EccError>)
        requires
            self.valid(),
            rhs.valid(),
        ensures
            r == self.difference(rhs),
            r matches Ok(v) ==> v.valid(),
    ;

    /// Multiplies `self` by `rhs`.
    fn mul(self, rhs: Self) -> (r: Result<Self, EccError>)
        requires
            self.valid(),
            rhs.valid(),
        ensures
            r == self.product(rhs),
            r matches Ok(v) ==> v.valid(),
    ;

    /// Divides `self` by `rhs`.
    fn div(self, rhs: Self) -> (r: Result<Self, EccError>)
        requires
            self.valid(),
            rhs.valid(),
        ensures
            r == self.quotient(rhs),
            r matches Ok(v) ==> v.valid(),
    ;

    /// Tells whether `self` is the additive identity.
    fn is_zero(self) -> (r: bool)
        requires
            self.valid(),
        ensures
            r == self.vanishes(),
    ;

    /// Tells whether `self` and `rhs` are the same value.
    fn equals(self, rhs: Self) -> (r: bool)
        ensures
            r == (self == rhs),
    ;

    /// Renders the canonical display form.
    fn display(self) -> (r: String)
        ensures
            r@ == self.text(),
    ;
}

/// Whether an integer fits the machine's signed word.
pub open spec fn fits_isize(v: int) -> bool {
    isize::MIN <= v <= isize::MAX
}

/// Integer division that rounds towards zero, as machine division does.
pub open spec fn truncated_quotient(x: int, d: int) -> int
    recommends
        d != 0,
{
    if x >= 0 && d > 0 {
        x / d
    } else if x >= 0 {
        -(x / (-d))
    } else if d > 0 {
        -((-x) / d)
    } else {
        (-x) / (-d)
    }
}

/// A number that multiplied by the divisor gives the dividend is the
/// quotient, and the division leaves no remainder.
pub proof fn lemma_quotient_from_product(x: int, d: int, q: int)
    requires
        d != 0,
        q * d == x,
    ensures
        x % d == 0,
        x / d == q,
{
    if d > 0 {
        lemma_fundamental_div_mod_converse(x, d, q, 0);
    } else {
        let k = x / d;
        let r = x % d;
        lemma_fundamental_div_mod(x, d);
        assert(0 <= r < -d) by (nonlinear_arith)
            requires
                d < 0,
                r == x % d,
        ;
        assert(q == k && r == 0) by (nonlinear_arith)
            requires
                d < 0,
                0 <= r < -d,
                q * d == d * k + r,
        ;
    }
}

/// Where a division leaves no remainder, rounding towards zero changes
/// nothing, and the quotient multiplied by the divisor gives the dividend.
pub proof fn lemma_exact_quotient(x: int, d: int)
    requires
        d != 0,
        x % d == 0,
    ensures
        truncated_quotient(x, d) == x / d,
        (x / d) * d == x,
{
    let k = x / d;
    lemma_fundamental_div_mod(x, d);
    assert(k * d == d * k) by (nonlinear_arith);
    if x >= 0 && d > 0 {
    } else if x >= 0 {
        assert((-k) * (-d) == x) by (nonlinear_arith)
            requires
                x == d * k,
        ;
        lemma_quotient_from_product(x, -d, -k);
    } else if d > 0 {
        assert((-k) * d == -x) by (nonlinear_arith)
            requires
                x == d * k,
        ;
        lemma_quotient_from_product(-x, d, -k);
    } else {
        assert(k * (-d) == -x) by (nonlinear_arith)
            requires
                x == d * k,
        ;
        lemma_quotient_from_product(-x, -d, k);
    }
}

/// Machine integers as coordinates. An operation whose exact result does not
/// fit the machine word is refused as out of the domain, and so is a division
/// that has no exact result: by zero, or by a number that does not divide the
/// dividend. So whatever an operation returns is the true sum, difference,
/// product or quotient of its operands.
impl Coordinate for isize {
    open spec fn valid(self) -> bool {
        true
    }

    open spec fn sum(self, rhs: Self) -> Result<Self, EccError> {
        if fits_isize(self + rhs) {
            Ok((self + rhs) as isize)
        } else {
            Err(EccError::Domain)
        }
    }

    open spec fn difference(self, rhs: Self) -> Result<Self, EccError> {
        if fits_isize(self - rhs) {
            Ok((self - rhs) as isize)
        } else {
            Err(EccError::Domain)
        }
    }

    open spec fn product(self, rhs: Self) -> Result<Self, EccError> {
        if fits_isize(self * rhs) {
            Ok((self * rhs) as isize)
        } else {
            Err(EccError::Domain)
        }
    }

    open spec fn quotient(self, rhs: Self) -> Result<Self, EccError> {
        if rhs != 0 && (self as int) % (rhs as int) == 0 && fits_isize((self as int) / (rhs as int)) {
            Ok(((self as int) / (rhs as int)) as isize)
        } else {
            Err(EccError::Domain)
        }
    }

    open spec fn vanishes(self) -> bool {
        self == 0
    }

    open spec fn text(self) -> Seq<char> {
        signed_decimal(self as int)
    }

    fn add(self, rhs: Self) -> (r: Result<Self, EccError>) {
        match self.checked_add(rhs) {
            Some(v) => Ok(v),
            None => Err(EccError::Domain),
        }
    }

    fn sub(self, rhs: Self) -> (r: Result<Self, EccError>) {
        match self.checked_sub(rhs) {
            Some(v) => Ok(v),
            None => Err(EccError::Domain),
        }
    }

    fn mul(self, rhs: Self) -> (r: Result<Self, EccError>) {
        match self.checked_mul(rhs) {
            Some(v) => Ok(v),
            None => Err(EccError::Domain),
        }
    }

    fn div(self, rhs: Self) -> (r: Result<Self, EccError>) {
        if rhs == 0 {
            return Err(EccError::Domain);
        }
        proof {
            if (self as int) % (rhs as int) == 0 {
                lemma_exact_quotient(self as int, rhs as int);
            }
        }
        match self.checked_div(rhs) {
            Some(q) => match q.checked_mul(rhs) {
                Some(back) => {
                    if back == self {
                        proof {
                            lemma_quotient_from_product(self as int, rhs as int, q as int);
                        }
                        Ok(q)
                    } else {
                        Err(EccError::Domain)
                    }
                },
                None => Err(EccError::Domain),
            },
            None => Err(EccError::Domain),
        }
    }

    fn is_zero(self) -> (r: bool) {
        self == 0
    }

    fn equals(self, rhs: Self) -> (r: bool) {
        self == rhs
    }

    fn display(self) -> (r: String) {
        let mut out = String::new();
        append_signed_decimal(&mut out, self);
        out
    }
}

/// Integer division is the inverse of multiplication, and nothing else: the
/// quotient of `x` by `d` is `q` exactly where `d` is not zero and `q` times
/// `d` is `x`.
pub proof fn lemma_integer_quotient(x: isize, d: isize, q: isize)
    ensures
        x.quotient(d) == Ok::<isize, EccError>(q) <==> d != 0 && q * d == x,
{
    if d != 0 {
        if q * d == x {
            lemma_quotient_from_product(x as int, d as int, q as int);
        }
        if (x as int) % (d as int) == 0 {
            lemma_exact_quotient(x as int, d as int);
        }
    }
}

} // verus!
