//! Elements of the field of integers modulo a prime.

use vstd::prelude::*;
use vstd::arithmetic::div_mod::lemma_mod_bound;
use vstd::arithmetic::power::pow;
use vstd::string::StringExecFns;
use crate::coordinate::Coordinate;
use crate::decimal::{append_decimal, decimal};
use crate::error::EccError;
use crate::modular::{add_mod, lemma_mod_of_negation, mul_mod, pow_mod, sub_mod};

verus! {

/// The residue `num` modulo `prime`.
///
/// The modulus is meant to be a prime, and the caller sees to that: nothing
/// here tests it. With a composite modulus every operation still returns what
/// its contract says, but division is no longer the inverse of multiplication.
#[derive(Debug, Clone, Copy, PartialEq, Eq, Structural)]
pub struct FiniteField {
    /// The value, at least zero and below the modulus.
    pub num: usize,
    /// The modulus, at least two.
    pub prime: usize,
}

/// The exponent that a power is computed with: a negative one is raised by
/// multiples of `prime - 1` to the least value that is not negative. In a
/// field of prime order that leaves the power of a nonzero element as it is,
/// since its power `prime - 1` is one.
pub open spec fn normalized_exponent(exponent: int, prime: int) -> nat
    recommends
        prime >= 2,
{
    if exponent >= 0 {
        exponent as nat
    } else {
        (exponent % (prime - 1)) as nat
    }
}

impl FiniteField {
    /// The element to the power `exponent`, which may be negative, in the
    /// element's field.
    pub open spec fn power(self, exponent: int) -> FiniteField {
        let e = normalized_exponent(exponent, self.prime as int);
        FiniteField {
            num: (pow(self.num as int, e) % (self.prime as int)) as usize,
            prime: self.prime,
        }
    }

    /// The element `num` of the field of order `prime`.
    ///
    /// Refused as out of the domain unless `prime >= 2` and `num < prime`.
    pub fn new(num: usize, prime: usize) -> (r: Result<FiniteField, EccError>)
        ensures
            r == if prime >= 2 && num < prime {
                Ok::<FiniteField, EccError>(FiniteField { num, prime })
            } else {
                Err::<FiniteField, EccError>(EccError::Domain)
            },
            r matches Ok(e) ==> e.valid(),
    {
        if prime < 2 || num >= prime {
            Err(EccError::Domain)
        } else {
            Ok(FiniteField { num, prime })
        }
    }

    /// Raises the element to the power `exponent`, which may be negative, by
    /// repeated squaring.
    pub fn pow(self, exponent: i32) -> (r: FiniteField)
        requires
            self.valid(),
        ensures
            r == self.power(exponent as int),
            r.valid(),
    {
        let period: usize = self.prime - 1;
        let e: usize = if exponent >= 0 {
            exponent as usize
        } else {
            let magnitude: u64 = (-(exponent as i64)) as u64;
            let excess: u64 = magnitude % (period as u64);
            proof {
                lemma_mod_of_negation(magnitude as int, period as int);
            }
            if excess == 0 {
                0
            } else {
                period - (excess as usize)
            }
        };
        proof {
            lemma_mod_bound(pow(self.num as int, e as nat), self.prime as int);
        }
        FiniteField { num: pow_mod(self.num, e, self.prime), prime: self.prime }
    }
}

impl Coordinate for FiniteField {
    open spec fn valid(self) -> bool {
        self.prime >= 2 && self.num < self.prime
    }

    open spec fn sum(self, rhs: Self) -> Result<Self, EccError> {
        if self.prime != rhs.prime {
            Err(EccError::IncompatibleField)
        } else {
            Ok(
                FiniteField {
                    num: ((self.num + rhs.num) % (self.prime as int)) as usize,
                    prime: self.prime,
                },
            )
        }
    }

    open spec fn difference(self, rhs: Self) -> Result<Self, EccError> {
        if self.prime != rhs.prime {
            Err(EccError::IncompatibleField)
        } else {
            Ok(
                FiniteField {
                    num: ((self.num - rhs.num) % (self.prime as int)) as usize,
                    prime: self.prime,
                },
            )
        }
    }

    open spec fn product(self, rhs: Self) -> Result<Self, EccError> {
        if self.prime != rhs.prime {
            Err(EccError::IncompatibleField)
        } else {
            Ok(
                FiniteField {
                    num: ((self.num * rhs.num) % (self.prime as int)) as usize,
                    prime: self.prime,
                },
            )
        }
    }

    open spec fn quotient(self, rhs: Self) -> Result<Self, EccError> {
        if self.prime != rhs.prime {
            Err(EccError::IncompatibleField)
        } else if rhs.num == 0 {
            Err(EccError::Domain)
        } else {
            self.product(rhs.power(self.prime - 2))
        }
    }

    open spec fn vanishes(self) -> bool {
        self.num == 0
    }

    open spec fn text(self) -> Seq<char> {
        "FieldElement_"@ + decimal(self.prime as nat) + "("@ + decimal(self.num as nat) + ")"@
    }

    /// The sum in the field. Refused as incompatible where the moduli differ.
    fn add(self, rhs: Self) -> (r: Result<Self, EccError>) {
        if self.prime != rhs.prime {
            return Err(EccError::IncompatibleField);
        }
        proof {
            lemma_mod_bound(self.num + rhs.num, self.prime as int);
        }
        Ok(FiniteField { num: add_mod(self.num, rhs.num, self.prime), prime: self.prime })
    }

    /// The difference in the field. Refused as incompatible where the moduli
    /// differ.
    fn sub(self, rhs: Self) -> (r: Result<Self, EccError>) {
        if self.prime != rhs.prime {
            return Err(EccError::IncompatibleField);
        }
        proof {
            lemma_mod_bound(self.num - rhs.num, self.prime as int);
        }
        Ok(FiniteField { num: sub_mod(self.num, rhs.num, self.prime), prime: self.prime })
    }

    /// The product in the field. Refused as incompatible where the moduli
    /// differ.
    fn mul(self, rhs: Self) -> (r: Result<Self, EccError>) {
        if self.prime != rhs.prime {
            return Err(EccError::IncompatibleField);
        }
        proof {
            lemma_mod_bound(self.num * rhs.num, self.prime as int);
        }
        Ok(FiniteField { num: mul_mod(self.num, rhs.num, self.prime), prime: self.prime })
    }

    /// The quotient in the field: `self` times `rhs` to the power
    /// `prime - 2`, which for a prime modulus is the inverse of `rhs`.
    /// Refused as incompatible where the moduli differ, and as out of the
    /// domain where `rhs` is zero.
    fn div(self, rhs: Self) -> (r: Result<Self, EccError>) {
        if self.prime != rhs.prime {
            return Err(EccError::IncompatibleField);
        }
        if rhs.num == 0 {
            return Err(EccError::Domain);
        }
        let inverse: usize = pow_mod(rhs.num, self.prime - 2, self.prime);
        proof {
            lemma_mod_bound(pow(rhs.num as int, (self.prime - 2) as nat), self.prime as int);
            lemma_mod_bound(self.num * inverse, self.prime as int);
        }
        Ok(FiniteField { num: mul_mod(self.num, inverse, self.prime), prime: self.prime })
    }

    fn is_zero(self) -> (r: bool) {
        self.num == 0
    }

    fn equals(self, rhs: Self) -> (r: bool) {
        self.num == rhs.num && self.prime == rhs.prime
    }

    fn display(self) -> (r: String) {
        let mut out = String::from_str("FieldElement_");
        append_decimal(&mut out, self.prime);
        out.append("(");
        append_decimal(&mut out, self.num);
        out.append(")");
        out
    }
}

} // verus!
