//! Dense vectors and matrices over an abstract scalar, and small feed-forward
//! networks trained by mini-batch gradient descent on top of them.
//!
//! Every container is generic over a [`narray::scalar::Scalar`], so the shape
//! rules, the index arithmetic and the propagation recurrences are proved once,
//! for whatever number type is plugged in.

pub mod narray;
pub mod network;
