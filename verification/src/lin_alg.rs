//! The matrix engine.

pub mod algebra;
pub mod arithmetic;
pub mod determinacy;
pub mod elimination;
pub mod equality;
pub mod error;
pub mod laws;
pub mod layout;
pub mod matrix;
pub mod random;
pub mod scalar;
pub mod structure;
pub mod zero_row;
