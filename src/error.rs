use vstd::prelude::*;

verus! {

/// The ways an operation on a matrix or vector can be refused.
#[derive(Debug, Clone, Copy, PartialEq, Eq, Structural)]
pub enum MatError {
    /// A length or a region disagrees with the shape it is meant for.
    DimensionMismatch,
    /// A coordinate lies outside the logical shape.
    IndexOutOfBounds,
    /// A reduction was asked of an empty vector.
    EmptyInputError,
}

} // verus!
