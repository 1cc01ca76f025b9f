//! Timing captures and benchmark bookkeeping.

pub mod benchmark;
pub mod cuda;
pub mod operation;
pub mod registry;
pub mod timeline;
