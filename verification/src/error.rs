//! The ways in which an operation of this library can be refused.

use vstd::prelude::*;

verus! {

/// Why a construction or an arithmetic operation was refused.
///
/// Every operation either returns a valid value or one of these; nothing is
/// ever partially done.
#[derive(Debug, Clone, Copy, PartialEq, Eq, Structural)]
pub enum EccError {
    /// A value lies outside its domain: a field value that is not below the
    /// modulus, a modulus below two, a machine integer that would overflow,
    /// or a division by zero.
    Domain,
    /// Two field elements of different moduli met in one operation.
    IncompatibleField,
    /// The coordinates of a finite point do not satisfy the curve equation.
    NotOnCurve,
    /// Two points of different curves met in one addition.
    DifferentCurve,
}

} // verus!
