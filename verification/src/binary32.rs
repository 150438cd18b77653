//! Single-precision (IEEE 754 binary32) arithmetic on bit patterns.
//!
//! Scale factors are stored and computed in single precision. Every operation here is proved to
//! return the correctly rounded result of the exact operation on the values, ties to even.

pub mod laws;
pub mod model;
pub mod ops;
pub mod order;
mod round;
pub mod rounding_laws;

pub use model::Binary32;
