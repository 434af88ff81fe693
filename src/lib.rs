//! A small feed-forward network trained by central finite differences.
//!
//! The network is generic over a scalar type implementing [`scalar::Scalar`];
//! [`fixed::Fixed`] is a verified instance of it.
pub mod fixed;
pub mod gradient;
pub mod layer;
pub mod network;
pub mod scalar;
pub mod train;
