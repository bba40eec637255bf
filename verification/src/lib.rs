//! A dynamically typed, multidimensional tensor core.
//!
//! A [`tensor::Tensor`] holds a flat, row-major buffer of elements of one of a
//! closed set of element kinds ([`datum::DatumType`]), together with its shape
//! and the natural strides derived from it.  Shape changes (reshape, axis
//! insertion and removal, broadcasting), slicing, slice assignment, axis
//! permutation, stacking and kind casts are all specified and verified here.
//!
//! The three float kinds are carried by their bit patterns: every operation
//! that moves, compares or hashes elements without interpreting them covers
//! them too, while conversions that read float values as numbers live with
//! the callers that need real float arithmetic.

pub mod cast;
pub mod datum;
pub mod error;
pub mod laws;
pub mod render;
pub mod shape;
pub mod tensor;
pub mod view;
pub mod text;
pub mod transform;
