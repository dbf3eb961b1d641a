//! A minimal columnar in-memory array library: raw byte buffers, bit-packed
//! validity bitmaps, typed fixed-width and variable-width (UTF-8) arrays with
//! their incremental builders, and a type-erased descriptor for constructing
//! arrays from raw buffers and introspecting their physical layout.

pub mod bitmap;
pub mod buffer;
pub mod create_arrays;
pub mod data;
pub mod datatype;
pub mod error;
pub mod fixed;
pub mod low_level_api;
pub mod variable;
