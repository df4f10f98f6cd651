//! The mesh artifact: positions, unit normals, texture coordinates and
//! triangle indices, together with its well-formedness invariant.

use vstd::prelude::*;

use crate::geom::{bounded3, Vec2, Vec3};

verus! {

/// Largest coordinate magnitude a well-formed mesh may hold (4096.0 in
/// fixed point), chosen so that every edge, cross product and squared
/// length computed from mesh data fits its machine integer.
pub const MAX_COORD: i64 = 0x1000_0000;

/// Largest normal-component magnitude a well-formed mesh may hold (2.0 in
/// fixed point; generated meshes stay within 1.0).
pub const MAX_NORMAL: i64 = 131072;

/// Cap on the index count of a well-formed mesh, so that the total surface
/// area of all its triangles fits the sampler's accumulator.
pub const MAX_INDICES: usize = 0xC000_0000;

/// How the index buffer is to be read.
#[derive(Clone, Copy, Debug, PartialEq, Eq, Structural)]
pub enum Topology {
    PointList,
    LineList,
    LineStrip,
    TriangleList,
    TriangleStrip,
}

/// A triangulated surface mesh.  One vertex is one entry in each of
/// `positions`, `normals` and `uvs`; `indices` refer into the vertex
/// arrays.
#[derive(Clone, Debug)]
pub struct Mesh {
    pub topology: Topology,
    pub positions: Vec<Vec3>,
    pub normals: Vec<Vec3>,
    pub uvs: Vec<Vec2>,
    pub indices: Vec<u32>,
}

impl Mesh {
    /// The mesh invariant: one normal and one texture coordinate per
    /// position, indices in bounds, a whole number of triangles for a
    /// triangle list, and bounded coordinates.
    pub open spec fn wf(self) -> bool {
        &&& self.normals@.len() == self.positions@.len()
        &&& self.uvs@.len() == self.positions@.len()
        &&& self.indices@.len() <= MAX_INDICES
        &&& (self.topology is TriangleList ==> self.indices@.len() % 3 == 0)
        &&& forall|k: int|
            0 <= k < self.indices@.len() ==> (#[trigger] self.indices@[k]) < self.positions@.len()
        &&& forall|k: int|
            0 <= k < self.positions@.len() ==> bounded3(
                (#[trigger] self.positions@[k])@,
                MAX_COORD as int,
            )
        &&& forall|k: int|
            0 <= k < self.normals@.len() ==> bounded3(
                (#[trigger] self.normals@[k])@,
                MAX_NORMAL as int,
            )
    }
}

} // verus!
