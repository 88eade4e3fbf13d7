//! Ownership-tracked wrappers over reference-counted objects: immutable numbers
//! and immutable byte buffers.

pub mod base;
pub mod data;
pub mod ieee;
pub mod number;
