//! Fixed-point arithmetic modelling for hardware-oriented numeric algorithms.
//!
//! Every value is an integer count of least significant bits of its format;
//! quantization, saturation and range tracking are exact integer computations.

pub mod error;
pub mod format;
mod power;
pub mod rounding;
pub mod dyadic;
pub mod quantization;
pub mod range;
pub mod types;
pub mod utils;
pub mod compare;
pub mod analysis;
