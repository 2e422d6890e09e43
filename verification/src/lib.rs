//! Dimension-checked vector arithmetic over IEEE 754 binary32 values.
//!
//! Every number is carried as the `u32` bit pattern of a binary32 value (what
//! `to_bits` gives for a single-precision value and `from_bits` takes), and
//! all arithmetic is done on those patterns with integer operations, rounding
//! to nearest with ties to even. Each result is stated exactly in the
//! contracts, over the model in [`binary32`] and [`model`], and proved.
//!
//! An operation on two vectors first checks that their dimensions agree and
//! otherwise returns [`Error::UnevenVectorLengths`]; nothing is truncated or
//! padded, and nothing is changed when the check fails.

pub mod arith;
pub mod binary32;
pub mod compare;
pub mod equality;
pub mod error;
pub mod laws;
pub mod matrix;
pub mod model;
pub mod operators;
pub mod order;
pub mod root;
pub mod rounding;
pub mod vector;

pub use error::Error;
pub use matrix::Matrix;
pub use vector::Vector;
