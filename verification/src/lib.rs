//! Escape-time fractals over an exact decimal fixed-point scalar.
//!
//! The crate computes Julia sets and the Mandelbrot set over a rectangular
//! region of the complex plane, maps escape counts to colors, and keeps a
//! zoomable viewport.  All arithmetic is exact integer arithmetic on scaled
//! decimals, so every function carries a full functional contract.

pub mod colors;
pub mod complex;
pub mod kernel;
pub mod render;
pub mod scalar;
pub mod viewport;

use vstd::prelude::*;

verus! {

} // verus!
