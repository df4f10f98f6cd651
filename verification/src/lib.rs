//! Procedural terrain meshes and surface point scattering.
//!
//! The crate builds a heightmap-driven terrain mesh (positions, averaged
//! vertex normals, tiled texture coordinates, triangle indices) from a grid
//! of noise samples, and scatters uniformly distributed, slope-filtered
//! points across any triangle-list mesh, weighted by triangle area, for
//! instance placement such as grass blades.  All coordinates are fixed-point
//! integers (see `fixed`); the host converts at the boundary.

pub mod fixed;
pub mod geom;
pub mod laws;
pub mod mesh;
pub mod randomness;
pub mod sampling;
pub mod terrain;
