//! Per-material vertex and index buffers, checked against each other before
//! the backend is ever handed a byte.

use vstd::prelude::*;
use crate::error::{Error, MResult};
use crate::text::push_str;
use crate::vertex::{LightmapVertex, ModelTriangle, ModelVertex};

verus! {

/// The largest vertex count a 16-bit index buffer can address.
pub const MAX_VERTEX_LIMIT: usize = 65535;

/// Buffers for one material: vertices, texture coordinates, an optional
/// parallel lightmap-coordinate buffer, and a flattened triangle list.
pub struct MaterialVertexBuffers {
    pub vertices: Vec<ModelVertex>,
    pub lightmap_coords: Option<Vec<[i32; 2]>>,
    pub indices: Vec<u16>,
}

/// What a well-formed buffer set promises.
pub open spec fn buffers_ok(
    vertices: Seq<ModelVertex>,
    lightmap_vertices: Option<Seq<LightmapVertex>>,
    indices: Seq<ModelTriangle>,
) -> bool {
    &&& vertices.len() <= MAX_VERTEX_LIMIT
    &&& (lightmap_vertices matches Some(l) ==> l.len() == vertices.len())
    &&& forall|k: int, c: int|
        0 <= k < indices.len() && 0 <= c < 3 ==> (#[trigger] indices[k].indices[c]) < vertices.len()
}

impl MaterialVertexBuffers {
    /// Build the buffer set, rejecting oversized vertex lists, mismatched
    /// lightmap buffers, and out-of-bounds triangle indices.
    pub fn new(
        vertices: Vec<ModelVertex>,
        lightmap_vertices: Option<Vec<LightmapVertex>>,
        indices: Vec<ModelTriangle>,
    ) -> (r: MResult<MaterialVertexBuffers>)
        ensures
            r is Ok <==> buffers_ok(
                vertices@,
                match lightmap_vertices {
                    Some(l) => Some(l@),
                    None => None,
                },
                indices@,
            ),
            r matches Ok(b) ==> {
                &&& b.vertices@ == vertices@
                &&& (match (&b.lightmap_coords, &lightmap_vertices) {
                    (Some(lc), Some(lv)) => lc@.len() == lv@.len()
                        && forall|k: int| 0 <= k < lv@.len()
                            ==> (#[trigger] lc@[k]) == lv@[k].lightmap_texture_coords,
                    (None, None) => true,
                    _ => false,
                })
                &&& b.indices@.len() == 3 * indices@.len()
                &&& forall|k: int, c: int|
                    0 <= k < indices@.len() && 0 <= c < 3
                        ==> (#[trigger] b.indices@[3 * k + c]) == indices@[k].indices[c]
            },
            r matches Err(e) ==> e is DataError,
    {
        let vertex_count = vertices.len();
        if vertex_count > MAX_VERTEX_LIMIT {
            let mut m = String::new();
            push_str(&mut m, "Vertex list exceeds the vertex limit of 65535");
            return Err(Error::DataError { error: m });
        }

        let lightmap_coords: Option<Vec<[i32; 2]>> = match &lightmap_vertices {
            Some(lv) => {
                if lv.len() != vertex_count {
                    let mut m = String::new();
                    push_str(&mut m, "Lightmap vertex count differs from the vertex count");
                    return Err(Error::DataError { error: m });
                }
                let mut lc: Vec<[i32; 2]> = Vec::new();
                let mut i: usize = 0;
                while i < lv.len()
                    invariant
                        0 <= i <= lv@.len(),
                        lc@.len() == i,
                        forall|k: int| 0 <= k < i
                            ==> (#[trigger] lc@[k]) == lv@[k].lightmap_texture_coords,
                    decreases lv@.len() - i,
                {
                    lc.push(lv[i].lightmap_texture_coords);
                    i = i + 1;
                }
                Some(lc)
            },
            None => None,
        };

        let mut flat: Vec<u16> = Vec::new();
        let mut k: usize = 0;
        while k < indices.len()
            invariant
                0 <= k <= indices@.len(),
                vertex_count == vertices@.len(),
                flat@.len() == 3 * k,
                forall|t: int, c: int|
                    0 <= t < k && 0 <= c < 3
                        ==> (#[trigger] flat@[3 * t + c]) == indices@[t].indices[c],
                forall|t: int, c: int|
                    0 <= t < k && 0 <= c < 3
                        ==> (#[trigger] indices@[t].indices[c]) < vertex_count,
            decreases indices@.len() - k,
        {
            let tri = indices[k];
            let a = tri.indices[0];
            let b = tri.indices[1];
            let c = tri.indices[2];
            if a as usize >= vertex_count || b as usize >= vertex_count
                || c as usize >= vertex_count {
                let mut m = String::new();
                push_str(&mut m, "A triangle points at a vertex that is out of bounds");
                return Err(Error::DataError { error: m });
            }
            flat.push(a);
            flat.push(b);
            flat.push(c);
            k = k + 1;
        }

        Ok(MaterialVertexBuffers { vertices, lightmap_coords, indices: flat })
    }
}

/// A loaded standalone geometry.
pub struct Geometry {
    pub buffers: MaterialVertexBuffers,
}

} // verus!
