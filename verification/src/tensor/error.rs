//! Errors raised by tensor construction and indexing.

use vstd::prelude::*;

use crate::tensor::shape::Shape;

verus! {

/// A buffer did not hold as many elements as its shape asks for.
#[derive(Clone, Copy, Debug, PartialEq, Eq)]
pub struct ElementCountMismatch {
    pub expected: usize,
    pub actual: usize,
}

/// Two shapes that an operation needs to agree did not.
#[derive(Clone, Debug, PartialEq, Eq)]
pub struct ShapeMismatch {
    pub lhs: Vec<usize>,
    pub rhs: Vec<usize>,
}

/// An index or a tile fell outside a matrix, or tile sizes did not suit a kernel.
#[derive(Clone, Copy, Debug, PartialEq, Eq)]
pub enum MatrixError {
    OutOfBounds(Shape<2>),
    InvalidTileSize((usize, usize, usize), (usize, usize, usize)),
}

} // verus!
