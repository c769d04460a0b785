//! Dense row-major matrices of binary64 scalars and a small feed-forward
//! network built on them.
//!
//! A scalar is held by its 64-bit IEEE 754 pattern. Everything that can be
//! decided on the pattern alone (sign, magnitude order, the pivot tolerance,
//! equality of values) is computed and proved here. Rounded arithmetic is
//! supplied by the caller as an [`lin_alg::arithmetic::Arithmetic`] unit, and
//! every contract says which outcomes of that unit a result is made of.

pub mod lin_alg;
pub mod net;
