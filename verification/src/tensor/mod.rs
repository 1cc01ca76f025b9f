//! Tensors: shapes, host-resident storage and shape validation.

pub mod error;
pub mod host;
pub mod layout;
pub mod naive;
pub mod shape;
pub mod traits;
