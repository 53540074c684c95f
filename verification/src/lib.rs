//! Plasma: a genetic procedural-image library.
//!
//! A genome (two fixed-length chromosomes of byte genes) decodes into
//! color-gradient control points and field-formula parameters.  A renderer
//! evaluates a scalar field per pixel and time step, maps field values to
//! colors through a precomputed gradient lookup table (optionally dithered),
//! and fills an RGB image buffer.  An asynchronous render scheduler issues
//! monotonically increasing request identifiers and surfaces only the most
//! recently requested result.
//!
//! All numeric work is exact: positions and times are rational numbers,
//! field values are fixed-point integers, so rendering is bit-for-bit
//! deterministic across runs and platforms.

pub mod asyncrenderer;
pub mod base64;
pub mod color;
pub mod colormapper;
pub mod fastmath;
pub mod formulas;
pub mod renderer;
pub mod genetics;
pub mod settings;

pub use fastmath::Frac;
