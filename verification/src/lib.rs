//! Verified dense tensors, tiled matrix multiplication and benchmark bookkeeping.

pub mod element;
pub mod tensor;
pub mod model;
pub mod kernel;
pub mod generator;
pub mod instrument;
pub mod args;
