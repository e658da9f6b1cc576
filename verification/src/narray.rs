//! One- and two-dimensional numeric containers.

pub mod errors;
pub mod scalar;
pub mod vector;
pub mod matrix;
pub mod laws;
