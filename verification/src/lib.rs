//! A small feedforward neural network engine: dense matrices and vectors over
//! an abstract scalar, differentiable layers, and a network trained sample by
//! sample with plain gradient descent.
//!
//! The engine never names a concrete number format. Everything is generic over
//! [`Scalar`], and [`Fixed`] is the instance that ships with the crate.
pub mod algebra;
pub mod error;
pub mod fixed;
pub mod layer;
pub mod matrix;
pub mod network;
pub mod scalar;
pub mod snapshot;

pub use error::Error;
pub use fixed::Fixed;
pub use layer::{Activation, Dense, Layer, Stage};
pub use matrix::{Matrix, Transpose, Vector};
pub use network::Network;
pub use scalar::Scalar;
