//! Compute backends over tensors.

use vstd::prelude::*;

use crate::element::Element;
use crate::kernel::KernelError;
use crate::tensor::error::{ElementCountMismatch, MatrixError, ShapeMismatch};

pub mod host;
pub mod launch;
pub mod naive;
pub mod simd;
pub mod stride;
pub mod tile;

verus! {

/// Everything that can go wrong in a backend operation.
#[derive(Debug)]
pub enum ModelError {
    ElementCountMismatch(ElementCountMismatch),
    ShapeMismatch(ShapeMismatch),
    KernelError(KernelError),
    TensorTooLarge { elements: usize },
    InvalidCudaBlockDimensions { x: u32, y: u32, z: u32 },
    MatrixError(MatrixError),
    InvalidTileShape { matrix: Vec<usize>, tile: Vec<usize> },
}

/// How a computed value is combined with the value already in the output.
#[derive(Clone, Copy, Debug, PartialEq, Eq, Structural)]
pub enum OutputMode {
    /// The computed value replaces the old one.
    Overwrite,
    /// The computed value is added to the old one.
    Accumulate,
}

impl OutputMode {
    pub open spec fn apply_spec<F: Element>(self, current: F, value: F) -> F {
        match self {
            OutputMode::Overwrite => value,
            OutputMode::Accumulate => current.plus_spec(value),
        }
    }

    /// The new output value given the old one and the computed one.
    pub fn apply<F: Element>(self, current: F, value: F) -> (r: F)
        ensures
            r == self.apply_spec(current, value),
    {
        match self {
            OutputMode::Overwrite => value,
            OutputMode::Accumulate => current.plus(value),
        }
    }
}

} // verus!
