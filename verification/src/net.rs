//! The feed-forward network.

pub mod activations;
pub mod determinacy;
pub mod layer;
pub mod nn;
pub mod propagation;
