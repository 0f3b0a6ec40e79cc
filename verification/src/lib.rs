//! Finite-field arithmetic and the group law of points on a Weierstrass
//! curve `y^2 = x^3 + a*x + b`, with machine-checked contracts.
//!
//! [`finite_field::FiniteField`] is an integer modulo a prime, and
//! [`point::Point`] a point of a curve over any kind of coordinate that
//! offers the arithmetic of [`coordinate::Coordinate`]: field elements, or
//! plain machine integers. Every operation returns a valid value or an
//! [`error::EccError`], and its contract says exactly which.
//!
//! The modules of laws state what holds of these operations beyond the
//! contract of each: [`field_laws`] for the arithmetic of field elements,
//! [`point_laws`] for the group law over every coordinate,
//! [`field_point_laws`] and [`integer_point_laws`] for the group law over
//! fields of prime order and over machine integers. They rest on the number
//! theory of [`primes`], [`binomial`], [`fermat`] and [`congruence`] and on
//! the identities of [`curve_algebra`].

pub mod binomial;
pub mod congruence;
pub mod coordinate;
pub mod curve_algebra;
pub mod decimal;
pub mod error;
pub mod fermat;
pub mod field_laws;
pub mod field_point_laws;
pub mod finite_field;
pub mod integer_point_laws;
pub mod modular;
pub mod point;
pub mod point_laws;
pub mod primes;

pub use error::EccError;
pub use finite_field::FiniteField;
