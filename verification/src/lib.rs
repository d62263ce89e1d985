//! A genetic-algorithm engine whose hyperparameters are steered by a learned
//! policy, together with the rank-based loop that trains that policy.
//!
//! Every quantity is a fixed-point number, so each rule of the engine and of
//! the training loop has an exact meaning that the contracts state.

pub mod algogen;
pub mod fixed;
pub mod graphics;
pub mod hyper;
pub mod params;
pub mod problems;
pub mod rank;
pub mod reilearn;
pub mod rng;
pub mod stats;
