//! A software rasterizer for triangulated 3D meshes.
//!
//! The pipeline converts a mesh into a 2D raster image, either a shaded,
//! depth-correct rendering or a wireframe projection.  All geometry is
//! carried in signed fixed-point integer coordinates, so every stage of the
//! pipeline — camera framing, projection, triangle scan-conversion with a
//! depth buffer, barycentric interpolation, shading, and line rasterization —
//! is exact integer arithmetic with a verified contract.

pub mod bounding_box;
pub mod drawers;
pub mod image;
pub mod line_drawer;
pub mod linear_algebra;

pub mod maths_utils;
pub mod mesh;
pub mod obj_importer;

use vstd::prelude::*;

verus! {

/// Fixed-point scale: one world unit is `SCALE` integer steps.  A unit
/// normal has components in `[-SCALE, SCALE]`.
pub const SCALE: i64 = 1024;

/// Bound on world-space coordinates (positions, camera bounds), chosen so
/// that every intermediate product of the pipeline fits its integer type.
pub const COORD_LIMIT: i64 = 0x2000_0000;

/// Bound on vertex-normal components: normals are near-unit vectors, so
/// their fixed-point components stay far below this.
pub const NORMAL_LIMIT: i64 = 0x8000;

} // verus!
