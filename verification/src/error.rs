//! Error taxonomy for the model core. Every failure a public operation can
//! report is one of these; each contract states exactly when it is returned.

use vstd::prelude::*;

verus! {

/// An error reported by a public operation of the core.
#[derive(Clone, Copy, Debug, PartialEq, Eq, Structural)]
pub enum GptError {
    /// A matrix multiplication or addition was attempted on operands
    /// whose dimensions are incompatible.
    ShapeMismatch,
    /// A matrix element access lay outside the matrix bounds.
    IndexOutOfRange,
    /// A context token id did not index into the embedding table.
    InvalidToken,
    /// An argument outside the operation's documented domain,
    /// such as a context of the wrong length.
    InvalidArgument,
}

} // verus!
