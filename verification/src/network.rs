//! Layers and networks built from the numeric containers.

pub mod layer;
pub mod propagation;
pub mod shuffle;
pub mod descent;
pub mod network;
