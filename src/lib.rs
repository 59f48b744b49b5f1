//! A small state-vector simulator: complex amplitudes, gates as square
//! matrices, and registers evolved by matrix-vector products.
//!
//! Amplitudes are exact fixed-point values: each component is an `i64`
//! counting units of `1 / ONE`, so `ONE` stands for the real number 1.

pub mod complex;
pub mod gate;
pub mod laws;
pub mod register;
