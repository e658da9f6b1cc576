use vstd::prelude::*;

verus! {

/// The ways in which an operation on a container, a layer or a network can
/// be turned down. Errors are returned as values; nothing here aborts.
#[derive(Debug, Clone, Copy, PartialEq, Eq, Structural)]
pub enum NErrors {
    /// The operands' dimensions do not fit each other.
    ShapeMismatch,
    /// An element outside the container was asked for.
    IndexError,
    /// The selected activation or initializer has no implementation.
    UnsupportedOperation,
}

} // verus!
