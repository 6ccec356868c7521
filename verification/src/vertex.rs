//! Vertex and triangle records of level geometry, in 16.16 fixed point.

use vstd::prelude::*;

verus! {

/// A vertex of a material's main buffer.
#[derive(Copy, Clone, Debug)]
pub struct ModelVertex {
    pub position: [i32; 3],
    pub normal: [i32; 3],
    pub binormal: [i32; 3],
    pub tangent: [i32; 3],
    pub texture_coords: [i32; 2],
}

/// A vertex of the parallel lightmap-coordinate buffer.
#[derive(Copy, Clone, Debug)]
pub struct LightmapVertex {
    pub lightmap_texture_coords: [i32; 2],
}

/// One triangle, as three indices into a material's vertex buffer.
#[derive(Copy, Clone, Debug)]
pub struct ModelTriangle {
    pub indices: [u16; 3],
}

} // verus!
