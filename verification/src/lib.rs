//! Isosurface extraction: converts a 3D scalar field into triangle meshes
//! by table-driven marching cubes over fixed-size chunks.
//!
//! All scalar samples, isovalues and mesh coordinates are signed 64-bit
//! fixed-point numbers with 16 fractional bits, so every computation is
//! exact integer arithmetic and results are reproducible bit for bit.

use vstd::prelude::*;

pub mod extract;
pub mod field;
pub mod laws;
pub mod mesh;
pub mod parse;
pub mod tables;

verus! {

/// One whole unit in the 16-bit-fraction fixed-point representation.
pub const FP_ONE: i64 = 65536;

/// One half in the fixed-point representation.
pub const FP_HALF: i64 = 32768;

/// Largest magnitude a sample or isovalue may have, in raw fixed-point
/// units; keeps interpolation arithmetic inside 64 bits.
pub const SAMPLE_MAX: i64 = 0x10000000000;

/// Largest allowed cell-to-world scale factor, in raw fixed-point units.
pub const SCALE_MAX: i64 = 0x4000000;

} // verus!
