//! A loaded level: the validated partition, one geometry batch per
//! (lightmap set, material) pair, the per-cluster surface tables derived
//! from subclusters, and the draw distance from the vertex bounding box.

use vstd::prelude::*;
use crate::bitmap::Bitmap;
use crate::bsp::BSPData;
use crate::error::{Error, MResult};
use crate::fixed::{isqrt, isqrt_spec, FX_ONE};
use crate::shader::{Shader, ShaderType};
use crate::sky::Sky;
use crate::sort::{sort_dedup, strictly_sorted};
use crate::table::Table;
use crate::text::{lex_lt, push_str, push_usize};
use crate::vertex::{LightmapVertex, ModelTriangle, ModelVertex};

verus! {

/// No level draws closer than this (16.16 world units).
pub const MIN_DRAW_DISTANCE_LIMIT: i32 = 6553600;

/// No level draws farther than this (16.16 world units).
pub const MAX_DRAW_DISTANCE_LIMIT: i32 = 147456000;

/// Extra draw distance past the bounding-box diagonal, for a camera
/// slightly outside the level (16.16 world units).
pub const DRAW_DISTANCE_LEEWAY: i32 = 655360;

/// One material of one lightmap set.
pub struct AddBSPParameterLightmapMaterial {
    /// The material's vertices.
    pub shader_vertices: Vec<ModelVertex>,

    /// Lightmap vertices; must be absent or exactly as many as
    /// `shader_vertices`.
    pub lightmap_vertices: Option<Vec<LightmapVertex>>,

    /// The material's triangles.
    pub surfaces: Vec<ModelTriangle>,

    /// The shader drawing this material, which must already be loaded.
    pub shader: String,
}

/// One lightmap set: an optional sub-bitmap of the level's lightmap, and
/// the materials lit by it.
pub struct AddBSPParameterLightmapSet {
    /// The sub-bitmap index of the lightmap; requires `lightmap_bitmap` on
    /// the level.
    pub lightmap_index: Option<usize>,

    /// All materials of this set.
    pub materials: Vec<AddBSPParameterLightmapMaterial>,
}

/// Parameters for adding a level.
pub struct AddBSPParameter {
    /// The lightmap bitmap, which must already be loaded.
    pub lightmap_bitmap: Option<String>,

    /// All geometry of the level.
    pub lightmap_sets: Vec<AddBSPParameterLightmapSet>,

    /// The spatial partition.
    pub bsp_data: BSPData,
}

/// Triangles of the materials before `mi` in one set.
pub open spec fn mats_tri_count(ms: Seq<AddBSPParameterLightmapMaterial>, mi: int) -> int
    decreases mi,
{
    if mi <= 0 {
        0
    } else {
        mats_tri_count(ms, mi - 1) + ms[mi - 1].surfaces@.len()
    }
}

/// Triangles of the sets before `si`.
pub open spec fn sets_tri_count(ss: Seq<AddBSPParameterLightmapSet>, si: int) -> int
    decreases si,
{
    if si <= 0 {
        0
    } else {
        sets_tri_count(ss, si - 1) + mats_tri_count(
            ss[si - 1].materials@,
            ss[si - 1].materials@.len() as int,
        )
    }
}

impl AddBSPParameter {
    /// The total triangle count over all sets and materials: the space
    /// subcluster surface indices point into.
    pub open spec fn spec_total_surfaces(&self) -> int {
        sets_tri_count(self.lightmap_sets@, self.lightmap_sets@.len() as int)
    }

    /// One material's cross-references check out.
    pub open spec fn material_valid(
        &self,
        shaders: Table<Shader>,
        si: int,
        mi: int,
    ) -> bool {
        let m = self.lightmap_sets@[si].materials@[mi];
        &&& (m.lightmap_vertices matches Some(lv) ==> {
            &&& lv@.len() == m.shader_vertices@.len()
            &&& self.lightmap_bitmap is Some
        })
        &&& (match shaders.spec_get(m.shader@) {
            None => false,
            Some(s) => s.shader_type != ShaderType::Model,
        })
    }

    /// One set's lightmap reference checks out.
    pub open spec fn set_lightmap_valid(&self, bitmaps: Table<Bitmap>, si: int) -> bool {
        match self.lightmap_sets@[si].lightmap_index {
            None => true,
            Some(bitmap_index) => match self.lightmap_bitmap {
                None => false,
                Some(path) => match bitmaps.spec_get(path@) {
                    None => false,
                    Some(b) => bitmap_index < b.bitmaps@.len(),
                },
            },
        }
    }

    /// Everything `validate` checks.
    pub open spec fn valid(
        &self,
        bitmaps: Table<Bitmap>,
        shaders: Table<Shader>,
        skies: Table<Sky>,
    ) -> bool {
        &&& (self.lightmap_bitmap matches Some(p) ==> bitmaps.spec_get(p@) is Some)
        &&& forall|si: int| 0 <= si < self.lightmap_sets@.len()
            ==> self.set_lightmap_valid(bitmaps, si)
        &&& forall|si: int, mi: int|
            0 <= si < self.lightmap_sets@.len()
                && 0 <= mi < self.lightmap_sets@[si].materials@.len()
                ==> self.material_valid(shaders, si, mi)
        &&& self.spec_total_surfaces() <= usize::MAX
        &&& self.bsp_data.bsp_valid(skies, self.spec_total_surfaces() as nat)
    }

    /// Check lightmap references, lightmap vertex counts, shader references
    /// and shader kinds, then validate the partition itself.
    pub fn validate(
        &self,
        bitmaps: &Table<Bitmap>,
        shaders: &Table<Shader>,
        skies: &Table<Sky>,
    ) -> (r: MResult<()>)
        ensures
            r is Ok <==> self.valid(*bitmaps, *shaders, *skies),
            r matches Err(e) ==> e is DataError,
    {
        let lightmap_count: Option<usize> = match self.lightmap_bitmap.as_ref() {
            Some(path) => match bitmaps.get(path.as_str()) {
                None => {
                    let mut m = String::new();
                    push_str(&mut m, "BSP refers to lightmap bitmap ");
                    push_str(&mut m, path.as_str());
                    push_str(&mut m, " which is not loaded in the renderer");
                    return Err(Error::DataError { error: m });
                },
                Some(b) => Some(b.bitmaps.len()),
            },
            None => None,
        };

        let mut si: usize = 0;
        while si < self.lightmap_sets.len()
            invariant
                forall|i: int| 0 <= i < si ==> self.set_lightmap_valid(*bitmaps, i),
                forall|i: int, mi: int|
                    0 <= i < si && 0 <= mi < self.lightmap_sets@[i].materials@.len()
                        ==> self.material_valid(*shaders, i, mi),
                (match lightmap_count {
                    Some(c) => self.lightmap_bitmap matches Some(p)
                        && (bitmaps.spec_get(p@) matches Some(b) && b.bitmaps@.len() == c),
                    None => self.lightmap_bitmap is None,
                }),
            decreases self.lightmap_sets@.len() - si,
        {
            let set = &self.lightmap_sets[si];
            if let Some(bitmap_index) = set.lightmap_index {
                match lightmap_count {
                    None => {
                        proof {
                            assert(!self.set_lightmap_valid(*bitmaps, si as int));
                        }
                        let mut m = String::new();
                        push_str(&mut m, "BSP lightmap #");
                        push_usize(&mut m, si);
                        push_str(&mut m, " has a bitmap index, but no lightmap bitmap is set");
                        return Err(Error::DataError { error: m });
                    },
                    Some(count) => {
                        if bitmap_index >= count {
                            proof {
                                assert(!self.set_lightmap_valid(*bitmaps, si as int));
                            }
                            let mut m = String::new();
                            push_str(&mut m, "BSP lightmap #");
                            push_usize(&mut m, si);
                            push_str(&mut m, " refers to bitmap #");
                            push_usize(&mut m, bitmap_index);
                            push_str(&mut m, ", but the referenced bitmap has only ");
                            push_usize(&mut m, count);
                            push_str(&mut m, " bitmap(s)");
                            return Err(Error::DataError { error: m });
                        }
                    },
                }
            }

            let mut mi: usize = 0;
            while mi < set.materials.len()
                invariant
                    *set == self.lightmap_sets@[si as int],
                    si < self.lightmap_sets@.len(),
                    forall|k: int| 0 <= k < mi ==> self.material_valid(*shaders, si as int, k),
                    (match lightmap_count {
                        Some(c) => self.lightmap_bitmap matches Some(p)
                            && (bitmaps.spec_get(p@) matches Some(b) && b.bitmaps@.len() == c),
                        None => self.lightmap_bitmap is None,
                    }),
                decreases set.materials@.len() - mi,
            {
                let material = &set.materials[mi];
                let vertex_count = material.shader_vertices.len();
                if let Some(lv) = material.lightmap_vertices.as_ref() {
                    if lv.len() != vertex_count {
                        proof {
                            assert(!self.material_valid(*shaders, si as int, mi as int));
                        }
                        let mut m = String::new();
                        push_str(&mut m, "BSP material #");
                        push_usize(&mut m, mi);
                        push_str(&mut m, " of lightmap #");
                        push_usize(&mut m, si);
                        push_str(&mut m, " has a different lightmap vertex count");
                        return Err(Error::DataError { error: m });
                    }
                    if lightmap_count.is_none() {
                        proof {
                            assert(!self.material_valid(*shaders, si as int, mi as int));
                        }
                        let mut m = String::new();
                        push_str(&mut m, "BSP material #");
                        push_usize(&mut m, mi);
                        push_str(&mut m, " of lightmap #");
                        push_usize(&mut m, si);
                        push_str(&mut m, " has lightmap vertices when no lightmap bitmap is set");
                        return Err(Error::DataError { error: m });
                    }
                }
                match shaders.get(material.shader.as_str()) {
                    None => {
                        proof {
                            assert(!self.material_valid(*shaders, si as int, mi as int));
                        }
                        let mut m = String::new();
                        push_str(&mut m, "BSP material #");
                        push_usize(&mut m, mi);
                        push_str(&mut m, " of lightmap #");
                        push_usize(&mut m, si);
                        push_str(&mut m, " references pipeline ");
                        push_str(&mut m, material.shader.as_str());
                        push_str(&mut m, " which is not loaded");
                        return Err(Error::DataError { error: m });
                    },
                    Some(shader) => {
                        if shader_type_is_model(shader.shader_type) {
                            proof {
                                assert(!self.material_valid(*shaders, si as int, mi as int));
                            }
                            let mut m = String::new();
                            push_str(&mut m, "BSP material #");
                            push_usize(&mut m, mi);
                            push_str(&mut m, " of lightmap #");
                            push_usize(&mut m, si);
                            push_str(&mut m, " references pipeline ");
                            push_str(&mut m, material.shader.as_str());
                            push_str(&mut m, ", a model type which isn't allowed for BSPs");
                            return Err(Error::DataError { error: m });
                        }
                    },
                }
                mi = mi + 1;
            }
            si = si + 1;
        }

        let total = match self.count_total_surfaces() {
            Some(t) => t,
            None => {
                let mut m = String::new();
                push_str(&mut m, "BSP has more surfaces than this platform can index");
                return Err(Error::DataError { error: m });
            },
        };
        self.bsp_data.validate(skies, total)
    }

    /// The total triangle count, if it fits the platform.
    fn count_total_surfaces(&self) -> (r: Option<usize>)
        ensures
            r matches Some(t) ==> t == self.spec_total_surfaces(),
            r is None ==> self.spec_total_surfaces() > usize::MAX,
    {
        let mut total: usize = 0;
        let mut si: usize = 0;
        while si < self.lightmap_sets.len()
            invariant
                total == sets_tri_count(self.lightmap_sets@, si as int),
                0 <= si <= self.lightmap_sets@.len(),
            decreases self.lightmap_sets@.len() - si,
        {
            let set = &self.lightmap_sets[si];
            let mut mi: usize = 0;
            let mut set_total: usize = 0;
            while mi < set.materials.len()
                invariant
                    *set == self.lightmap_sets@[si as int],
                    si < self.lightmap_sets@.len(),
                    total == sets_tri_count(self.lightmap_sets@, si as int),
                    set_total == mats_tri_count(set.materials@, mi as int),
                    0 <= mi <= set.materials@.len(),
                decreases set.materials@.len() - mi,
            {
                let c = set.materials[mi].surfaces.len();
                set_total = match set_total.checked_add(c) {
                    Some(t) => t,
                    None => {
                        proof {
                            lemma_mats_tri_count_mono(
                                set.materials@,
                                mi as int + 1,
                                set.materials@.len() as int,
                            );
                            lemma_sets_tri_count_mono(
                                self.lightmap_sets@,
                                si as int + 1,
                                self.lightmap_sets@.len() as int,
                            );
                        }
                        return None;
                    },
                };
                mi = mi + 1;
            }
            total = match total.checked_add(set_total) {
                Some(t) => t,
                None => {
                    proof {
                        lemma_sets_tri_count_mono(
                            self.lightmap_sets@,
                            si as int + 1,
                            self.lightmap_sets@.len() as int,
                        );
                    }
                    return None;
                },
            };
            si = si + 1;
        }
        Some(total)
    }
}

/// Triangle counts only grow with more materials.
proof fn lemma_mats_tri_count_mono(ms: Seq<AddBSPParameterLightmapMaterial>, a: int, b: int)
    requires
        a <= b,
    ensures
        mats_tri_count(ms, a) <= mats_tri_count(ms, b),
    decreases b - a,
{
    if a < b {
        lemma_mats_tri_count_mono(ms, a, b - 1);
    }
}

/// Triangle counts only grow with more sets.
proof fn lemma_sets_tri_count_mono(ss: Seq<AddBSPParameterLightmapSet>, a: int, b: int)
    requires
        a <= b,
    ensures
        sets_tri_count(ss, a) <= sets_tri_count(ss, b),
    decreases b - a,
{
    if a < b {
        lemma_sets_tri_count_mono(ss, a, b - 1);
        let ms = ss[b - 1].materials@;
        lemma_mats_tri_count_mono(ms, 0, ms.len() as int);
    }
}

/// Whether a shader kind is the model-only kind.
fn shader_type_is_model(t: ShaderType) -> (r: bool)
    ensures
        r == (t == ShaderType::Model),
{
    match t {
        ShaderType::Model => true,
        _ => false,
    }
}

/// One geometry batch: the buffers of one material of one lightmap set.
pub struct BSPGeometry {
    /// The material's vertices.
    pub vertices: Vec<ModelVertex>,

    /// Lightmap texture coordinates, present when the material has lightmap
    /// vertices and its set names a lightmap sub-bitmap.
    pub lightmap_coords: Option<Vec<[i32; 2]>>,

    /// The material's triangles, flattened to an index list.
    pub index_buffer: Vec<u16>,

    /// The shader drawing this batch.
    pub shader: String,

    /// The lightmap sub-bitmap lighting this batch, if any.
    pub lightmap_index: Option<usize>,

    /// Which material of its set this batch came from.
    pub material_reflexive_index: usize,

    /// Which lightmap set this batch came from.
    pub lightmap_reflexive_index: usize,
}

/// Materials in the sets before `si`: the flattened batch index space.
pub open spec fn mats_before(ss: Seq<AddBSPParameterLightmapSet>, si: int) -> int
    decreases si,
{
    if si <= 0 {
        0
    } else {
        mats_before(ss, si - 1) + ss[si - 1].materials@.len()
    }
}

proof fn lemma_mats_before_mono(ss: Seq<AddBSPParameterLightmapSet>, a: int, b: int)
    requires
        a <= b,
    ensures
        mats_before(ss, a) <= mats_before(ss, b),
    decreases b - a,
{
    if a < b {
        lemma_mats_before_mono(ss, a, b - 1);
    }
}

/// The batch at flat position `mats_before(ss, si) + mi` is built from
/// material `mi` of set `si`.
pub open spec fn geometry_matches(
    g: BSPGeometry,
    ss: Seq<AddBSPParameterLightmapSet>,
    si: int,
    mi: int,
) -> bool {
    let m = ss[si].materials@[mi];
    &&& g.vertices@ == m.shader_vertices@
    &&& g.shader == m.shader
    &&& g.index_buffer@.len() == 3 * m.surfaces@.len()
    &&& forall|t: int, c: int| 0 <= t < m.surfaces@.len() && 0 <= c < 3
        ==> (#[trigger] g.index_buffer@[3 * t + c]) == m.surfaces@[t].indices[c]
    &&& g.lightmap_index == (if m.lightmap_vertices is Some {
        ss[si].lightmap_index
    } else {
        None::<usize>
    })
    &&& (match (m.lightmap_vertices, ss[si].lightmap_index) {
        (Some(lv), Some(_)) => g.lightmap_coords matches Some(lc) && lc@.len() == lv@.len()
            && forall|k: int| 0 <= k < lv@.len()
                ==> (#[trigger] lc@[k]) == lv@[k].lightmap_texture_coords,
        _ => g.lightmap_coords is None,
    })
    &&& g.material_reflexive_index == mi
    &&& g.lightmap_reflexive_index == si
}

/// All batches of a parameter, in set-major order.
pub open spec fn geometries_match(
    gs: Seq<BSPGeometry>,
    ss: Seq<AddBSPParameterLightmapSet>,
) -> bool {
    &&& gs.len() == mats_before(ss, ss.len() as int)
    &&& forall|si: int, mi: int|
        0 <= si < ss.len() && 0 <= mi < ss[si].materials@.len()
            ==> #[trigger] geometry_matches(gs[mats_before(ss, si) + mi], ss, si, mi)
}

/// Build the batch for one material.
fn geometry_from_material(
    m: &AddBSPParameterLightmapMaterial,
    set_lightmap_index: Option<usize>,
    si: usize,
    mi: usize,
    Ghost(ss): Ghost<Seq<AddBSPParameterLightmapSet>>,
) -> (g: BSPGeometry)
    requires
        0 <= si < ss.len(),
        0 <= mi < ss[si as int].materials@.len(),
        *m == ss[si as int].materials@[mi as int],
        set_lightmap_index == ss[si as int].lightmap_index,
    ensures
        geometry_matches(g, ss, si as int, mi as int),
{
    let mut index_buffer: Vec<u16> = Vec::new();
    let mut t: usize = 0;
    while t < m.surfaces.len()
        invariant
            index_buffer@.len() == 3 * t,
            0 <= t <= m.surfaces@.len(),
            forall|k: int, c: int| 0 <= k < t && 0 <= c < 3
                ==> (#[trigger] index_buffer@[3 * k + c]) == m.surfaces@[k].indices[c],
        decreases m.surfaces@.len() - t,
    {
        let tri = m.surfaces[t];
        index_buffer.push(tri.indices[0]);
        index_buffer.push(tri.indices[1]);
        index_buffer.push(tri.indices[2]);
        t = t + 1;
    }

    let lightmap_index: Option<usize> = if m.lightmap_vertices.is_some() {
        set_lightmap_index
    } else {
        None
    };

    let lightmap_coords: Option<Vec<[i32; 2]>> = match (
        m.lightmap_vertices.as_ref(),
        set_lightmap_index,
    ) {
        (Some(lv), Some(_)) => {
            let mut lc: Vec<[i32; 2]> = Vec::new();
            let mut k: usize = 0;
            while k < lv.len()
                invariant
                    lc@.len() == k,
                    0 <= k <= lv@.len(),
                    forall|j: int| 0 <= j < k
                        ==> (#[trigger] lc@[j]) == lv@[j].lightmap_texture_coords,
                decreases lv@.len() - k,
            {
                lc.push(lv[k].lightmap_texture_coords);
                k = k + 1;
            }
            Some(lc)
        },
        _ => None,
    };

    let mut vertices: Vec<ModelVertex> = Vec::new();
    let mut v: usize = 0;
    while v < m.shader_vertices.len()
        invariant
            vertices@.len() == v,
            0 <= v <= m.shader_vertices@.len(),
            forall|j: int| 0 <= j < v ==> (#[trigger] vertices@[j]) == m.shader_vertices@[j],
        decreases m.shader_vertices@.len() - v,
    {
        vertices.push(m.shader_vertices[v]);
        v = v + 1;
    }
    proof {
        assert(vertices@ =~= m.shader_vertices@);
    }

    let shader = m.shader.clone();

    let g = BSPGeometry {
        vertices,
        lightmap_coords,
        index_buffer,
        shader,
        lightmap_index,
        material_reflexive_index: mi,
        lightmap_reflexive_index: si,
    };
    proof {
        assert(g.vertices@ == m.shader_vertices@);
        assert(g.shader == m.shader);
        assert(geometry_matches(g, ss, si as int, mi as int));
    }
    g
}

/// Flatten every (lightmap set, material) pair into the batch list.
fn build_geometries(param: &AddBSPParameter) -> (r: Option<Vec<BSPGeometry>>)
    ensures
        r matches Some(gs) ==> geometries_match(gs@, param.lightmap_sets@),
        r is Some ==> mats_before(param.lightmap_sets@, param.lightmap_sets@.len() as int)
            <= usize::MAX,
        r is None ==> mats_before(param.lightmap_sets@, param.lightmap_sets@.len() as int)
            > usize::MAX,
{
    let ghost ss = param.lightmap_sets@;
    let mut gs: Vec<BSPGeometry> = Vec::new();
    let mut si: usize = 0;
    while si < param.lightmap_sets.len()
        invariant
            ss == param.lightmap_sets@,
            0 <= si <= ss.len(),
            gs@.len() == mats_before(ss, si as int),
            forall|s2: int, m2: int|
                0 <= s2 < si && 0 <= m2 < ss[s2].materials@.len()
                    ==> #[trigger] geometry_matches(gs@[mats_before(ss, s2) + m2], ss, s2, m2),
        decreases ss.len() - si,
    {
        let set = &param.lightmap_sets[si];
        let mut mi: usize = 0;
        while mi < set.materials.len()
            invariant
                ss == param.lightmap_sets@,
                *set == ss[si as int],
                0 <= si < ss.len(),
                0 <= mi <= set.materials@.len(),
                gs@.len() == mats_before(ss, si as int) + mi,
                forall|s2: int, m2: int|
                    0 <= s2 < si && 0 <= m2 < ss[s2].materials@.len()
                        ==> #[trigger] geometry_matches(gs@[mats_before(ss, s2) + m2], ss, s2, m2),
                forall|m2: int| 0 <= m2 < mi
                    ==> #[trigger] geometry_matches(
                        gs@[mats_before(ss, si as int) + m2], ss, si as int, m2),
            decreases set.materials@.len() - mi,
        {
            if gs.len() == usize::MAX {
                proof {
                    lemma_mats_before_mono(ss, si as int + 1, ss.len() as int);
                }
                return None;
            }
            let g = geometry_from_material(
                &set.materials[mi],
                set.lightmap_index,
                si,
                mi,
                Ghost(ss),
            );
            let ghost pregs = gs@;
            gs.push(g);
            proof {
                assert(gs@[mats_before(ss, si as int) + mi] == g);
                assert forall|s2: int, m2: int|
                    0 <= s2 < si && 0 <= m2 < ss[s2].materials@.len()
                        implies #[trigger] geometry_matches(
                            gs@[mats_before(ss, s2) + m2], ss, s2, m2) by {
                    lemma_mats_before_mono(ss, 0, s2);
                    lemma_mats_before_mono(ss, s2 + 1, si as int);
                    assert(mats_before(ss, s2 + 1) == mats_before(ss, s2)
                        + ss[s2].materials@.len());
                    assert(mats_before(ss, s2) + m2 < mats_before(ss, si as int));
                    assert(gs@[mats_before(ss, s2) + m2] == pregs[mats_before(ss, s2) + m2]);
                }
                assert forall|m2: int| 0 <= m2 < mi + 1
                    implies #[trigger] geometry_matches(
                        gs@[mats_before(ss, si as int) + m2], ss, si as int, m2) by {
                    if m2 < mi {
                        lemma_mats_before_mono(ss, 0, si as int);
                        assert(gs@[mats_before(ss, si as int) + m2]
                            == pregs[mats_before(ss, si as int) + m2]);
                    }
                }
            }
            mi = mi + 1;
        }
        proof {
            assert(mats_before(ss, si as int + 1) == mats_before(ss, si as int)
                + ss[si as int].materials@.len());
            assert forall|s2: int, m2: int|
                0 <= s2 < si + 1 && 0 <= m2 < ss[s2].materials@.len()
                    implies #[trigger] geometry_matches(
                        gs@[mats_before(ss, s2) + m2], ss, s2, m2) by {
                if s2 == si as int {
                    assert(geometry_matches(
                        gs@[mats_before(ss, si as int) + m2], ss, si as int, m2));
                }
            }
        }
        si = si + 1;
    }
    let n = gs.len();
    proof {
        assert(n == mats_before(ss, ss.len() as int));
    }
    Some(gs)
}

/// `a` draws before `b`: its shader sorts earlier, or they share a shader
/// and `a` is the earlier batch.
pub open spec fn geom_order(gs: Seq<BSPGeometry>, a: usize, b: usize) -> bool {
    lex_lt(gs[a as int].shader@, gs[b as int].shader@)
        || (gs[a as int].shader@ == gs[b as int].shader@ && a < b)
}

/// Lexicographic order is transitive.
proof fn lemma_lex_trans(a: Seq<char>, b: Seq<char>, c: Seq<char>)
    requires
        lex_lt(a, b),
        lex_lt(b, c),
    ensures
        lex_lt(a, c),
    decreases a.len(),
{
    if a.len() > 0 && b.len() > 0 && c.len() > 0 {
        if a[0] == b[0] && b[0] == c[0] {
            lemma_lex_trans(a.drop_first(), b.drop_first(), c.drop_first());
        }
    }
}

/// The batch order, sorted by shader then by batch index: drawing in this
/// order groups consecutive draws under one shader.
fn sort_geometry_indices(gs: &Vec<BSPGeometry>) -> (r: Vec<usize>)
    ensures
        r@.len() == gs@.len(),
        forall|p: int, q: int| 0 <= p < q < r@.len()
            ==> geom_order(gs@, #[trigger] r@[p], #[trigger] r@[q]),
        forall|x: usize| r@.contains(x) <==> x < gs@.len(),
{
    let mut out: Vec<usize> = Vec::new();
    let mut i: usize = 0;
    while i < gs.len()
        invariant
            0 <= i <= gs@.len(),
            out@.len() == i,
            forall|p: int, q: int| 0 <= p < q < out@.len()
                ==> geom_order(gs@, #[trigger] out@[p], #[trigger] out@[q]),
            forall|x: usize| out@.contains(x) <==> x < i,
            forall|p: int| 0 <= p < out@.len() ==> (#[trigger] out@[p]) < i,
        decreases gs@.len() - i,
    {
        let n = out.len();
        let mut j: usize = 0;
        let mut placed: bool = false;
        while j < n && !placed
            invariant
                0 <= j <= n,
                n == out@.len(),
                i < gs@.len(),
                forall|p: int| 0 <= p < out@.len() ==> (#[trigger] out@[p]) < i,
                forall|p: int, q: int| 0 <= p < q < out@.len()
                    ==> geom_order(gs@, #[trigger] out@[p], #[trigger] out@[q]),
                forall|k: int| 0 <= k < j ==> geom_order(gs@, #[trigger] out@[k], i),
                placed ==> j < n && lex_lt(gs@[i as int].shader@, gs@[out@[j as int] as int].shader@),
            decreases n - j, (if placed { 0int } else { 1int }),
        {
            let key_j = &gs[out[j]].shader;
            let key_i = &gs[i].shader;
            if !crate::text::str_lt(key_i.as_str(), key_j.as_str()) {
                proof {
                    crate::text::lemma_lex_trichotomy(
                        gs@[out@[j as int] as int].shader@,
                        gs@[i as int].shader@,
                    );
                    assert(out@[j as int] < i);
                    assert(geom_order(gs@, out@[j as int], i));
                }
                j = j + 1;
            } else {
                placed = true;
            }
        }
        proof {
            if j < n {
                assert(placed);
                assert(lex_lt(gs@[i as int].shader@, gs@[out@[j as int] as int].shader@));
            }
        }
        let ghost pre = out@;
        out.insert(j, i);
        proof {
            assert(forall|k: int| 0 <= k < j ==> out@[k] == pre[k]);
            assert(out@[j as int] == i);
            assert(forall|k: int| j < k < out@.len() ==> out@[k] == pre[k - 1]);
            assert forall|p: int, q: int| 0 <= p < q < out@.len()
                implies geom_order(gs@, #[trigger] out@[p], #[trigger] out@[q]) by {
                if q == j as int {
                    assert(geom_order(gs@, pre[p], i));
                } else if p == j as int {
                    let b = out@[q];
                    assert(b == pre[q - 1]);
                    if j as int <= q - 1 - 1 {
                        assert(geom_order(gs@, pre[j as int], pre[q - 1]));
                    }
                    if lex_lt(gs@[i as int].shader@, gs@[pre[j as int] as int].shader@) {
                        if lex_lt(
                            gs@[pre[j as int] as int].shader@,
                            gs@[pre[q - 1] as int].shader@,
                        ) {
                            lemma_lex_trans(
                                gs@[i as int].shader@,
                                gs@[pre[j as int] as int].shader@,
                                gs@[pre[q - 1] as int].shader@,
                            );
                        }
                    }
                    assert(geom_order(gs@, i, b));
                } else if p < j as int && q > j as int {
                    assert(geom_order(gs@, pre[p], pre[q - 1]));
                } else if p > j as int {
                    assert(geom_order(gs@, pre[p - 1], pre[q - 1]));
                } else {
                    assert(geom_order(gs@, pre[p], pre[q]));
                }
            }
            assert forall|x: usize| out@.contains(x) <==> x < i + 1 by {
                if out@.contains(x) {
                    let w = choose|w: int| 0 <= w < out@.len() && out@[w] == x;
                    if w < j as int {
                        assert(pre.contains(x));
                    } else if w == j as int {
                    } else {
                        assert(pre[w - 1] == x);
                        assert(pre.contains(x));
                    }
                }
                if x < i + 1 {
                    if x < i {
                        assert(pre.contains(x));
                        let w = choose|w: int| 0 <= w < pre.len() && pre[w] == x;
                        if w < j as int {
                            assert(out@[w] == x);
                        } else {
                            assert(out@[w + 1] == x);
                        }
                    } else {
                        assert(out@[j as int] == x);
                    }
                }
            }
        }
        i = i + 1;
    }
    out
}

/// All positions of a vertex list.
pub open spec fn vert_positions(vs: Seq<ModelVertex>) -> Seq<[i32; 3]> {
    vs.map_values(|v: ModelVertex| v.position)
}

/// All positions of all batches.
pub open spec fn geoms_positions(gs: Seq<BSPGeometry>) -> Seq<[i32; 3]>
    decreases gs.len(),
{
    if gs.len() == 0 {
        Seq::empty()
    } else {
        geoms_positions(gs.drop_last()) + vert_positions(gs.last().vertices@)
    }
}

/// Smallest coordinate `c` in a nonempty position list.
pub open spec fn min_c(s: Seq<[i32; 3]>, c: int) -> int
    recommends
        s.len() > 0,
    decreases s.len(),
{
    if s.len() <= 1 {
        s[0][c] as int
    } else {
        let m = min_c(s.drop_last(), c);
        if (s.last()[c] as int) < m {
            s.last()[c] as int
        } else {
            m
        }
    }
}

/// Largest coordinate `c` in a nonempty position list.
pub open spec fn max_c(s: Seq<[i32; 3]>, c: int) -> int
    recommends
        s.len() > 0,
    decreases s.len(),
{
    if s.len() <= 1 {
        s[0][c] as int
    } else {
        let m = max_c(s.drop_last(), c);
        if (s.last()[c] as int) > m {
            s.last()[c] as int
        } else {
            m
        }
    }
}

/// Clamp to the draw-distance window.
pub open spec fn clamp_draw_distance(x: int) -> int {
    if x < MIN_DRAW_DISTANCE_LIMIT {
        MIN_DRAW_DISTANCE_LIMIT as int
    } else if x > MAX_DRAW_DISTANCE_LIMIT {
        MAX_DRAW_DISTANCE_LIMIT as int
    } else {
        x
    }
}

/// The draw distance a batch list calls for: the diagonal of the vertex
/// bounding box plus a little leeway, clamped to the window; the floor when
/// there are no vertices at all.
pub open spec fn draw_distance_spec(gs: Seq<BSPGeometry>) -> int {
    let ps = geoms_positions(gs);
    if ps.len() == 0 {
        MIN_DRAW_DISTANCE_LIMIT as int
    } else {
        let dx = max_c(ps, 0) - min_c(ps, 0);
        let dy = max_c(ps, 1) - min_c(ps, 1);
        let dz = max_c(ps, 2) - min_c(ps, 2);
        clamp_draw_distance(
            isqrt_spec((dx * dx + dy * dy + dz * dz) as nat) + DRAW_DISTANCE_LEEWAY,
        )
    }
}

/// The minimum stays the minimum over each appended position.
proof fn lemma_minmax_push(s: Seq<[i32; 3]>, p: [i32; 3], c: int)
    requires
        s.len() > 0,
    ensures
        min_c(s.push(p), c) == if (p[c] as int) < min_c(s, c) {
            p[c] as int
        } else {
            min_c(s, c)
        },
        max_c(s.push(p), c) == if (p[c] as int) > max_c(s, c) {
            p[c] as int
        } else {
            max_c(s, c)
        },
{
    assert(s.push(p).drop_last() =~= s);
    assert(s.push(p).last() == p);
    assert(s.push(p).len() == s.len() + 1);
}

/// Compute the draw distance of a batch list.
fn compute_draw_distance(gs: &Vec<BSPGeometry>) -> (r: i32)
    ensures
        r == draw_distance_spec(gs@),
        MIN_DRAW_DISTANCE_LIMIT <= r <= MAX_DRAW_DISTANCE_LIMIT,
{
    let mut found: bool = false;
    let mut min_x: i32 = 0;
    let mut min_y: i32 = 0;
    let mut min_z: i32 = 0;
    let mut max_x: i32 = 0;
    let mut max_y: i32 = 0;
    let mut max_z: i32 = 0;
    let mut gi: usize = 0;
    proof {
        assert(gs@.take(0) =~= Seq::<BSPGeometry>::empty());
        assert(geoms_positions(gs@.take(0)) =~= Seq::<[i32; 3]>::empty());
    }
    while gi < gs.len()
        invariant
            0 <= gi <= gs@.len(),
            found <==> geoms_positions(gs@.take(gi as int)).len() > 0,
            found ==> {
                let ps = geoms_positions(gs@.take(gi as int));
                &&& min_x == min_c(ps, 0)
                &&& min_y == min_c(ps, 1)
                &&& min_z == min_c(ps, 2)
                &&& max_x == max_c(ps, 0)
                &&& max_y == max_c(ps, 1)
                &&& max_z == max_c(ps, 2)
            },
        decreases gs@.len() - gi,
    {
        let g = &gs[gi];
        let ghost base = geoms_positions(gs@.take(gi as int));
        let mut vi: usize = 0;
        proof {
            assert(vert_positions(g.vertices@.take(0)) =~= Seq::<[i32; 3]>::empty());
            assert(base + vert_positions(g.vertices@.take(0)) =~= base);
        }
        while vi < g.vertices.len()
            invariant
                0 <= vi <= g.vertices@.len(),
                *g == gs@[gi as int],
                gi < gs@.len(),
                base == geoms_positions(gs@.take(gi as int)),
                found <==> (base + vert_positions(g.vertices@.take(vi as int))).len() > 0,
                found ==> {
                    let ps = base + vert_positions(g.vertices@.take(vi as int));
                    &&& min_x == min_c(ps, 0)
                    &&& min_y == min_c(ps, 1)
                    &&& min_z == min_c(ps, 2)
                    &&& max_x == max_c(ps, 0)
                    &&& max_y == max_c(ps, 1)
                    &&& max_z == max_c(ps, 2)
                },
            decreases g.vertices@.len() - vi,
        {
            let p = g.vertices[vi].position;
            let ghost ps_old = base + vert_positions(g.vertices@.take(vi as int));
            proof {
                assert(vert_positions(g.vertices@.take(vi as int + 1)) =~= vert_positions(
                    g.vertices@.take(vi as int),
                ).push(g.vertices@[vi as int].position));
                assert(base + vert_positions(g.vertices@.take(vi as int + 1)) =~= ps_old.push(p));
                if ps_old.len() > 0 {
                    lemma_minmax_push(ps_old, p, 0);
                    lemma_minmax_push(ps_old, p, 1);
                    lemma_minmax_push(ps_old, p, 2);
                }
            }
            if !found {
                found = true;
                min_x = p[0];
                min_y = p[1];
                min_z = p[2];
                max_x = p[0];
                max_y = p[1];
                max_z = p[2];
                proof {
                    assert(ps_old.len() == 0);
                    assert(ps_old.push(p)[0] == p);
                    assert(ps_old.push(p).len() == 1);
                }
            } else {
                if p[0] < min_x {
                    min_x = p[0];
                }
                if p[1] < min_y {
                    min_y = p[1];
                }
                if p[2] < min_z {
                    min_z = p[2];
                }
                if p[0] > max_x {
                    max_x = p[0];
                }
                if p[1] > max_y {
                    max_y = p[1];
                }
                if p[2] > max_z {
                    max_z = p[2];
                }
            }
            vi = vi + 1;
        }
        proof {
            assert(g.vertices@.take(g.vertices@.len() as int) =~= g.vertices@);
            assert(gs@.take(gi as int + 1).drop_last() =~= gs@.take(gi as int));
            assert(gs@.take(gi as int + 1).last() == gs@[gi as int]);
            if gs@.take(gi as int + 1).len() > 0 {
                lemma_geoms_positions_step(gs@, gi as int);
            }
            assert(geoms_positions(gs@.take(gi as int + 1)) =~= base + vert_positions(
                g.vertices@,
            ));
        }
        gi = gi + 1;
    }
    proof {
        assert(gs@.take(gs@.len() as int) =~= gs@);
    }
    if !found {
        return MIN_DRAW_DISTANCE_LIMIT;
    }
    let dx: i128 = (max_x as i128) - (min_x as i128);
    let dy: i128 = (max_y as i128) - (min_y as i128);
    let dz: i128 = (max_z as i128) - (min_z as i128);
    proof {
        lemma_min_le_max(geoms_positions(gs@), 0);
        lemma_min_le_max(geoms_positions(gs@), 1);
        lemma_min_le_max(geoms_positions(gs@), 2);
        assert(dx * dx <= 0x1_0000_0000_0000_0000 && dy * dy <= 0x1_0000_0000_0000_0000
            && dz * dz <= 0x1_0000_0000_0000_0000 && dx * dx >= 0 && dy * dy >= 0
            && dz * dz >= 0) by (nonlinear_arith)
            requires
                0 <= dx <= 0x1_0000_0000, 0 <= dy <= 0x1_0000_0000, 0 <= dz <= 0x1_0000_0000;
    }
    let d2: u128 = ((dx * dx) as u128) + ((dy * dy) as u128) + ((dz * dz) as u128);
    let diagonal: u64 = isqrt(d2);
    proof {
        crate::fixed::lemma_isqrt_bounds(d2 as nat);
        assert(isqrt_spec(d2 as nat) * isqrt_spec(d2 as nat) <= d2);
        assert(diagonal <= 0x4_0000_0000u64) by (nonlinear_arith)
            requires
                (diagonal as nat) * (diagonal as nat) <= d2,
                d2 < 0x4_0000_0000_0000_0000u128;
    }
    let with_leeway: u64 = diagonal + (DRAW_DISTANCE_LEEWAY as u64);
    if with_leeway < (MIN_DRAW_DISTANCE_LIMIT as u64) {
        MIN_DRAW_DISTANCE_LIMIT
    } else if with_leeway > (MAX_DRAW_DISTANCE_LIMIT as u64) {
        MAX_DRAW_DISTANCE_LIMIT
    } else {
        with_leeway as i32
    }
}

/// Peeling the last batch off the position list.
proof fn lemma_geoms_positions_step(gs: Seq<BSPGeometry>, gi: int)
    requires
        0 <= gi < gs.len(),
    ensures
        geoms_positions(gs.take(gi + 1)) == geoms_positions(gs.take(gi)) + vert_positions(
            gs[gi].vertices@,
        ),
{
    assert(gs.take(gi + 1).drop_last() =~= gs.take(gi));
    assert(gs.take(gi + 1).last() == gs[gi]);
}

/// The minimum coordinate never exceeds the maximum.
proof fn lemma_min_le_max(s: Seq<[i32; 3]>, c: int)
    requires
        s.len() > 0,
    ensures
        min_c(s, c) <= max_c(s, c),
        -0x8000_0000 <= min_c(s, c) <= 0x7FFF_FFFF,
        -0x8000_0000 <= max_c(s, c) <= 0x7FFF_FFFF,
    decreases s.len(),
{
    if s.len() > 1 {
        lemma_min_le_max(s.drop_last(), c);
    }
}

/// Triangles of the batches before `g`: each batch's share of the flat
/// surface-index space.
pub open spec fn geoms_tri_before(gs: Seq<BSPGeometry>, g: int) -> int
    decreases g,
{
    if g <= 0 {
        0
    } else {
        geoms_tri_before(gs, g - 1) + gs[g - 1].index_buffer@.len() / 3
    }
}

proof fn lemma_geoms_tri_before_mono(gs: Seq<BSPGeometry>, a: int, b: int)
    requires
        a <= b,
    ensures
        geoms_tri_before(gs, a) <= geoms_tri_before(gs, b),
    decreases b - a,
{
    if a < b {
        lemma_geoms_tri_before_mono(gs, a, b - 1);
    }
}

/// The flat batch list covers exactly the surface-index space of the
/// parameter's sets.
proof fn lemma_flat_tri_counts(
    gs: Seq<BSPGeometry>,
    ss: Seq<AddBSPParameterLightmapSet>,
    si: int,
    mi: int,
)
    requires
        geometries_match(gs, ss),
        0 <= si <= ss.len(),
        si < ss.len() ==> 0 <= mi <= ss[si].materials@.len(),
        si == ss.len() ==> mi == 0,
    ensures
        geoms_tri_before(gs, mats_before(ss, si) + mi) == sets_tri_count(ss, si)
            + if si < ss.len() {
            mats_tri_count(ss[si].materials@, mi)
        } else {
            0
        },
    decreases si, mi,
{
    if si == 0 && mi == 0 {
    } else if mi > 0 {
        lemma_flat_tri_counts(gs, ss, si, mi - 1);
        lemma_mats_before_mono(ss, 0, si);
        let idx = mats_before(ss, si) + mi - 1;
        assert(geometry_matches(gs[mats_before(ss, si) + (mi - 1)], ss, si, mi - 1));
        assert(gs[idx].index_buffer@.len() == 3 * ss[si].materials@[mi - 1].surfaces@.len());
        assert(3 * ss[si].materials@[mi - 1].surfaces@.len() / 3 == ss[si].materials@[mi
            - 1].surfaces@.len());
    } else {
        lemma_flat_tri_counts(gs, ss, si - 1, ss[si - 1].materials@.len() as int);
        assert(mats_before(ss, si) == mats_before(ss, si - 1) + ss[si - 1].materials@.len());
        assert(sets_tri_count(ss, si) == sets_tri_count(ss, si - 1) + mats_tri_count(
            ss[si - 1].materials@,
            ss[si - 1].materials@.len() as int,
        ));
    }
}

/// The surface indices of `cs` that fall in `[start, end)`, in order.
pub open spec fn sel_in_range(cs: Seq<usize>, start: int, end: int) -> Seq<usize>
    decreases cs.len(),
{
    if cs.len() == 0 {
        Seq::empty()
    } else {
        sel_in_range(cs.drop_last(), start, end) + if start <= cs.last() < end {
            seq![cs.last()]
        } else {
            Seq::empty()
        }
    }
}

/// The index triples of the selected surfaces, rebased into the batch's own
/// triangle list.
pub open spec fn sel_triangles(sel: Seq<usize>, ib: Seq<u16>, start: int) -> Seq<u16>
    decreases sel.len(),
{
    if sel.len() == 0 {
        Seq::empty()
    } else {
        let t = sel.last() - start;
        sel_triangles(sel.drop_last(), ib, start) + seq![ib[3 * t], ib[3 * t + 1], ib[3 * t + 2]]
    }
}

/// Extending the scanned prefix by one surface index extends the selection
/// exactly when the index falls in the range.
proof fn lemma_sel_step(cs: Seq<usize>, k: int, start: int, end: int)
    requires
        0 <= k < cs.len(),
    ensures
        sel_in_range(cs.take(k + 1), start, end) == sel_in_range(cs.take(k), start, end)
            + (if start <= cs[k] < end {
            seq![cs[k]]
        } else {
            Seq::<usize>::empty()
        }),
{
    let p = cs.take(k + 1);
    assert(p.len() == k + 1);
    assert(p.drop_last() =~= cs.take(k));
    assert(p.last() == cs[k]);
    assert(sel_in_range(p, start, end) == sel_in_range(p.drop_last(), start, end)
        + (if start <= p.last() < end {
        seq![p.last()]
    } else {
        Seq::<usize>::empty()
    }));
}

/// Appending one in-range index appends its triangle's three entries.
proof fn lemma_sel_tri_step(sel: Seq<usize>, x: usize, ib: Seq<u16>, start: int)
    ensures
        sel_triangles(sel.push(x), ib, start) == sel_triangles(sel, ib, start) + seq![
            ib[3 * (x - start)],
            ib[3 * (x - start) + 1],
            ib[3 * (x - start) + 2],
        ],
{
    let p = sel.push(x);
    assert(p.len() == sel.len() + 1);
    assert(p.drop_last() =~= sel);
    assert(p.last() == x);
    assert(sel_triangles(p, ib, start) == sel_triangles(p.drop_last(), ib, start) + seq![
        ib[3 * (p.last() - start)],
        ib[3 * (p.last() - start) + 1],
        ib[3 * (p.last() - start) + 2],
    ]);
}

/// The per-cluster buffer of one batch: the cluster's surfaces that fall in
/// the batch's range, as an index list, or nothing when the cut is empty.
pub open spec fn cluster_buffer_ok(
    cs: Seq<usize>,
    gs: Seq<BSPGeometry>,
    g: int,
    buf: Option<Vec<u16>>,
) -> bool {
    let start = geoms_tri_before(gs, g);
    let end = geoms_tri_before(gs, g + 1);
    let sel = sel_in_range(cs, start, end);
    if sel.len() == 0 {
        buf is None
    } else {
        buf matches Some(b) && b@ == sel_triangles(sel, gs[g].index_buffer@, start)
    }
}

/// A loaded level.
pub struct BSP {
    /// One batch per (lightmap set, material) pair, in set-major order.
    pub geometries: Vec<BSPGeometry>,

    /// The validated partition, with subcluster surface lists normalized to
    /// sorted, duplicate-free form.
    pub bsp_data: BSPData,

    /// Per cluster, the sorted, duplicate-free union of its subclusters'
    /// surface indices.
    pub cluster_surfaces: Vec<Vec<usize>>,

    /// Batch indices ordered by shader: drawing in this order minimizes
    /// pipeline rebinding.
    pub geometry_indices_sorted_by_material: Vec<usize>,

    /// Per cluster and batch, the cluster's triangles of that batch.
    pub cluster_index_buffers: Vec<Vec<Option<Vec<u16>>>>,

    /// Diagonal of the vertex bounding box with leeway, clamped to the
    /// draw-distance window (16.16 world units).
    pub draw_distance: i32,

    /// The level's lightmap bitmap.
    pub lightmap_bitmap: Option<String>,
}

impl BSP {
    /// Internal consistency of a loaded level: the partition is traversable,
    /// every derived table lines up with the batch list, and the draw
    /// distance is the one its vertices call for.
    pub open spec fn wf(&self) -> bool {
        &&& self.bsp_data.nodes@.len() > 0
        &&& self.bsp_data.nodes_in_bounds()
        &&& self.bsp_data.acyclic()
        &&& self.bsp_data.leaves_in_bounds()
        &&& self.bsp_data.cluster_portals_ok()
        &&& self.bsp_data.portals_in_bounds()
        &&& self.cluster_surfaces@.len() == self.bsp_data.clusters@.len()
        &&& forall|c: int| 0 <= c < self.cluster_surfaces@.len()
            ==> strictly_sorted(#[trigger] self.cluster_surfaces@[c]@)
        &&& self.geometry_indices_sorted_by_material@.len() == self.geometries@.len()
        &&& forall|p: int, q: int| 0 <= p < q < self.geometry_indices_sorted_by_material@.len()
            ==> geom_order(
                self.geometries@,
                #[trigger] self.geometry_indices_sorted_by_material@[p],
                #[trigger] self.geometry_indices_sorted_by_material@[q],
            )
        &&& forall|x: usize| self.geometry_indices_sorted_by_material@.contains(x)
            <==> x < self.geometries@.len()
        &&& self.cluster_index_buffers@.len() == self.bsp_data.clusters@.len()
        &&& forall|c: int| 0 <= c < self.cluster_index_buffers@.len()
            ==> (#[trigger] self.cluster_index_buffers@[c])@.len() == self.geometries@.len()
        &&& forall|c: int, g: int|
            0 <= c < self.cluster_index_buffers@.len() && 0 <= g < self.geometries@.len()
                ==> cluster_buffer_ok(
                    self.cluster_surfaces@[c]@,
                    self.geometries@,
                    g,
                    #[trigger] self.cluster_index_buffers@[c]@[g],
                )
        &&& MIN_DRAW_DISTANCE_LIMIT <= self.draw_distance <= MAX_DRAW_DISTANCE_LIMIT
        &&& self.draw_distance == draw_distance_spec(self.geometries@)
    }
}

/// Copy a plain index list.
fn copy_usize_vec(v: &Vec<usize>) -> (r: Vec<usize>)
    ensures
        r@ == v@,
{
    let mut r: Vec<usize> = Vec::new();
    let mut i: usize = 0;
    while i < v.len()
        invariant
            0 <= i <= v@.len(),
            r@ =~= v@.take(i as int),
        decreases v@.len() - i,
    {
        r.push(v[i]);
        proof {
            assert(r@ =~= v@.take(i as int + 1));
        }
        i = i + 1;
    }
    proof {
        assert(v@.take(v@.len() as int) =~= v@);
    }
    r
}

/// The sorted, duplicate-free union of a cluster's subcluster surface
/// lists.
fn cluster_surface_union(cluster: &crate::bsp::BSPCluster) -> (r: Vec<usize>)
    ensures
        strictly_sorted(r@),
        forall|x: usize| r@.contains(x) <==> exists|sc: int, k: int|
            0 <= sc < cluster.subclusters@.len()
                && 0 <= k < cluster.subclusters@[sc].surface_indices@.len()
                && (#[trigger] cluster.subclusters@[sc].surface_indices@[k]) == x,
{
    let mut all: Vec<usize> = Vec::new();
    let mut sc: usize = 0;
    while sc < cluster.subclusters.len()
        invariant
            0 <= sc <= cluster.subclusters@.len(),
            forall|x: usize| all@.contains(x) <==> exists|s2: int, k: int|
                0 <= s2 < sc && 0 <= k < cluster.subclusters@[s2].surface_indices@.len()
                    && (#[trigger] cluster.subclusters@[s2].surface_indices@[k]) == x,
        decreases cluster.subclusters@.len() - sc,
    {
        let sub = &cluster.subclusters[sc];
        let ghost preall = all@;
        let mut k: usize = 0;
        while k < sub.surface_indices.len()
            invariant
                *sub == cluster.subclusters@[sc as int],
                sc < cluster.subclusters@.len(),
                0 <= k <= sub.surface_indices@.len(),
                all@ =~= preall + sub.surface_indices@.take(k as int),
            decreases sub.surface_indices@.len() - k,
        {
            all.push(sub.surface_indices[k]);
            proof {
                assert(all@ =~= preall + sub.surface_indices@.take(k as int + 1));
            }
            k = k + 1;
        }
        proof {
            assert(sub.surface_indices@.take(sub.surface_indices@.len() as int)
                =~= sub.surface_indices@);
            assert forall|x: usize| all@.contains(x) <==> exists|s2: int, k2: int|
                0 <= s2 < sc + 1 && 0 <= k2 < cluster.subclusters@[s2].surface_indices@.len()
                    && (#[trigger] cluster.subclusters@[s2].surface_indices@[k2]) == x by {
                let cur = sub.surface_indices@;
                if all@.contains(x) {
                    let w = choose|w: int| 0 <= w < all@.len() && all@[w] == x;
                    if w < preall.len() {
                        assert(preall[w] == x);
                        assert(preall.contains(x));
                    } else {
                        assert(cur[w - preall.len()] == x);
                        assert(cluster.subclusters@[sc as int].surface_indices@[w
                            - preall.len()] == x);
                    }
                }
                if exists|s2: int, k2: int|
                    0 <= s2 < sc + 1 && 0 <= k2
                        < cluster.subclusters@[s2].surface_indices@.len()
                        && (#[trigger] cluster.subclusters@[s2].surface_indices@[k2]) == x {
                    let (s2, k2) = choose|s2: int, k2: int|
                        0 <= s2 < sc + 1 && 0 <= k2
                            < cluster.subclusters@[s2].surface_indices@.len()
                            && (#[trigger] cluster.subclusters@[s2].surface_indices@[k2]) == x;
                    if s2 < sc as int {
                        assert(preall.contains(x));
                        let w = choose|w: int| 0 <= w < preall.len() && preall[w] == x;
                        assert(all@[w] == x);
                    } else {
                        assert(all@[preall.len() + k2] == x);
                    }
                }
            }
        }
        sc = sc + 1;
    }
    sort_dedup(&all)
}

/// Build one cluster's per-batch index buffers.
fn cluster_buffers_for(cs: &Vec<usize>, gs: &Vec<BSPGeometry>) -> (bufs: Vec<Option<Vec<u16>>>)
    requires
        geoms_tri_before(gs@, gs@.len() as int) <= usize::MAX,
    ensures
        bufs@.len() == gs@.len(),
        forall|g: int| 0 <= g < gs@.len()
            ==> cluster_buffer_ok(cs@, gs@, g, #[trigger] bufs@[g]),
{
    let mut bufs: Vec<Option<Vec<u16>>> = Vec::new();
    let mut g: usize = 0;
    let mut start: usize = 0;
    while g < gs.len()
        invariant
            0 <= g <= gs@.len(),
            bufs@.len() == g,
            start == geoms_tri_before(gs@, g as int),
            geoms_tri_before(gs@, gs@.len() as int) <= usize::MAX,
            forall|g2: int| 0 <= g2 < g
                ==> cluster_buffer_ok(cs@, gs@, g2, #[trigger] bufs@[g2]),
        decreases gs@.len() - g,
    {
        let ib = &gs[g].index_buffer;
        let ib_len = ib.len();
        let tris = ib_len / 3;
        proof {
            lemma_geoms_tri_before_mono(gs@, g as int + 1, gs@.len() as int);
            lemma_geoms_tri_before_mono(gs@, 0, g as int);
            assert(geoms_tri_before(gs@, g as int + 1) == geoms_tri_before(gs@, g as int)
                + tris);
        }
        let end = start + tris;
        let ghost sstart = start as int;
        let ghost send = end as int;
        let mut buf: Vec<u16> = Vec::new();
        let mut any: bool = false;
        let mut k: usize = 0;
        proof {
            assert(cs@.take(0) =~= Seq::<usize>::empty());
        }
        while k < cs.len()
            invariant
                0 <= k <= cs@.len(),
                start == geoms_tri_before(gs@, g as int),
                end == geoms_tri_before(gs@, g as int + 1),
                g < gs@.len(),
                *ib == gs@[g as int].index_buffer,
                ib_len == ib@.len(),
                end - start == ib@.len() / 3,
                sstart == start as int,
                send == end as int,
                any <==> sel_in_range(cs@.take(k as int), sstart, send).len() > 0,
                buf@ == sel_triangles(sel_in_range(cs@.take(k as int), sstart, send), ib@, sstart),
            decreases cs@.len() - k,
        {
            let x = cs[k];
            let ghost presel = sel_in_range(cs@.take(k as int), sstart, send);
            proof {
                lemma_sel_step(cs@, k as int, sstart, send);
                assert(sel_in_range(cs@.take(k as int + 1), sstart, send) == presel
                    + (if sstart <= cs@[k as int] < send {
                    seq![cs@[k as int]]
                } else {
                    Seq::<usize>::empty()
                }));
            }
            if x >= start && x < end {
                let t = x - start;
                proof {
                    assert(t < end - start);
                    assert(3 * t + 2 < ib_len) by (nonlinear_arith)
                        requires t < ib_len / 3, ib_len == ib@.len(), end - start == ib@.len() / 3,
                            t >= 0;
                    assert(x == cs@[k as int]);
                    assert(sstart <= cs@[k as int] < send);
                    assert(sel_in_range(cs@.take(k as int + 1), sstart, send)
                        =~= presel.push(x));
                    lemma_sel_tri_step(presel, x, ib@, sstart);
                }
                let ghost prebuf = buf@;
                buf.push(ib[3 * t]);
                buf.push(ib[3 * t + 1]);
                buf.push(ib[3 * t + 2]);
                any = true;
                proof {
                    assert(prebuf == sel_triangles(presel, ib@, sstart));
                    assert(buf@ =~= prebuf + seq![
                        ib@[3 * (t as int)],
                        ib@[3 * (t as int) + 1],
                        ib@[3 * (t as int) + 2],
                    ]);
                    assert(buf@ == sel_triangles(
                        sel_in_range(cs@.take(k as int + 1), sstart, send),
                        ib@,
                        sstart,
                    ));
                }
            } else {
                proof {
                    assert(sel_in_range(cs@.take(k as int + 1), sstart, send) =~= presel);
                }
            }
            k = k + 1;
        }
        proof {
            assert(cs@.take(cs@.len() as int) =~= cs@);
        }
        if any {
            bufs.push(Some(buf));
        } else {
            bufs.push(None);
        }
        start = end;
        g = g + 1;
    }
    bufs
}

/// Copy an optional path.
fn clone_opt_string(o: &Option<String>) -> (r: Option<String>)
    ensures
        r == *o,
{
    match o.as_ref() {
        None => None,
        Some(s) => Some(s.clone()),
    }
}

/// The normalized clusters keep everything except that each subcluster's
/// surface list is now sorted and duplicate-free, with the same members.
pub open spec fn clusters_normalized(
    new: Seq<crate::bsp::BSPCluster>,
    old: Seq<crate::bsp::BSPCluster>,
) -> bool {
    &&& new.len() == old.len()
    &&& forall|c: int| 0 <= c < old.len() ==> {
        &&& (#[trigger] new[c]).sky == old[c].sky
        &&& new[c].cluster_portals@ == old[c].cluster_portals@
        &&& new[c].subclusters@.len() == old[c].subclusters@.len()
        &&& forall|sc: int| 0 <= sc < old[c].subclusters@.len() ==> {
            &&& (#[trigger] new[c].subclusters@[sc]).world_bounds_from
                == old[c].subclusters@[sc].world_bounds_from
            &&& new[c].subclusters@[sc].world_bounds_to
                == old[c].subclusters@[sc].world_bounds_to
            &&& strictly_sorted(new[c].subclusters@[sc].surface_indices@)
            &&& forall|x: usize| new[c].subclusters@[sc].surface_indices@.contains(x)
                <==> old[c].subclusters@[sc].surface_indices@.contains(x)
        }
    }
}

/// The per-cluster surface tables list exactly the surfaces the old
/// clusters' subclusters named.
pub open spec fn cluster_surfaces_match(
    cs: Seq<Vec<usize>>,
    old: Seq<crate::bsp::BSPCluster>,
) -> bool {
    &&& cs.len() == old.len()
    &&& forall|c: int, x: usize| 0 <= c < old.len()
        ==> ((#[trigger] cs[c]@.contains(x)) <==> exists|sc: int, k: int|
            0 <= sc < old[c].subclusters@.len()
                && 0 <= k < old[c].subclusters@[sc].surface_indices@.len()
                && (#[trigger] old[c].subclusters@[sc].surface_indices@[k]) == x)
}

impl BSP {
    /// Load a level: validate everything, build one batch per material,
    /// order batches by shader, derive the per-cluster surface tables and
    /// index buffers, and compute the draw distance.
    pub fn load_from_parameters(
        bitmaps: &Table<Bitmap>,
        shaders: &Table<Shader>,
        skies: &Table<Sky>,
        param: AddBSPParameter,
    ) -> (r: MResult<BSP>)
        ensures
            r is Ok <==> param.valid(*bitmaps, *shaders, *skies)
                && mats_before(param.lightmap_sets@, param.lightmap_sets@.len() as int)
                    <= usize::MAX,
            r matches Ok(b) ==> {
                &&& b.wf()
                &&& geometries_match(b.geometries@, param.lightmap_sets@)
                &&& b.lightmap_bitmap == param.lightmap_bitmap
                &&& b.bsp_data.nodes == param.bsp_data.nodes
                &&& b.bsp_data.planes == param.bsp_data.planes
                &&& b.bsp_data.leaves == param.bsp_data.leaves
                &&& b.bsp_data.portals == param.bsp_data.portals
                &&& clusters_normalized(b.bsp_data.clusters@, param.bsp_data.clusters@)
                &&& cluster_surfaces_match(b.cluster_surfaces@, param.bsp_data.clusters@)
            },
            r matches Err(e) ==> e is DataError,
    {
        match param.validate(bitmaps, shaders, skies) {
            Ok(()) => {},
            Err(e) => {
                return Err(e);
            },
        }
        let gs = match build_geometries(&param) {
            Some(g) => g,
            None => {
                let mut m = String::new();
                push_str(&mut m, "BSP has more materials than this platform can index");
                return Err(Error::DataError { error: m });
            },
        };
        let geometry_indices_sorted_by_material = sort_geometry_indices(&gs);
        let draw_distance = compute_draw_distance(&gs);
        proof {
            lemma_flat_tri_counts(
                gs@,
                param.lightmap_sets@,
                param.lightmap_sets@.len() as int,
                0,
            );
            assert(geoms_tri_before(gs@, gs@.len() as int) == param.spec_total_surfaces());
        }

        let ghost old_data = param.bsp_data;
        let ghost total = param.spec_total_surfaces();
        let lightmap_bitmap = param.lightmap_bitmap;
        let bsp_data = param.bsp_data;
        let nodes = bsp_data.nodes;
        let planes = bsp_data.planes;
        let leaves = bsp_data.leaves;
        let clusters = bsp_data.clusters;
        let portals = bsp_data.portals;

        let mut new_clusters: Vec<crate::bsp::BSPCluster> = Vec::new();
        let mut cluster_surfaces: Vec<Vec<usize>> = Vec::new();
        let mut cluster_index_buffers: Vec<Vec<Option<Vec<u16>>>> = Vec::new();
        let mut ci: usize = 0;
        while ci < clusters.len()
            invariant
                0 <= ci <= clusters@.len(),
                clusters@ == old_data.clusters@,
                geoms_tri_before(gs@, gs@.len() as int) <= usize::MAX,
                new_clusters@.len() == ci,
                cluster_surfaces@.len() == ci,
                cluster_index_buffers@.len() == ci,
                forall|c: int| 0 <= c < ci ==> {
                    &&& (#[trigger] new_clusters@[c]).sky == clusters@[c].sky
                    &&& new_clusters@[c].cluster_portals@ == clusters@[c].cluster_portals@
                    &&& new_clusters@[c].subclusters@.len() == clusters@[c].subclusters@.len()
                    &&& forall|sc: int| 0 <= sc < clusters@[c].subclusters@.len() ==> {
                        &&& (#[trigger] new_clusters@[c].subclusters@[sc]).world_bounds_from
                            == clusters@[c].subclusters@[sc].world_bounds_from
                        &&& new_clusters@[c].subclusters@[sc].world_bounds_to
                            == clusters@[c].subclusters@[sc].world_bounds_to
                        &&& strictly_sorted(
                            new_clusters@[c].subclusters@[sc].surface_indices@)
                        &&& forall|x: usize|
                            new_clusters@[c].subclusters@[sc].surface_indices@.contains(x)
                                <==> clusters@[c].subclusters@[sc].surface_indices@.contains(x)
                    }
                },
                forall|c: int| 0 <= c < ci
                    ==> strictly_sorted((#[trigger] cluster_surfaces@[c])@),
                forall|c: int, x: usize| 0 <= c < ci
                    ==> ((#[trigger] cluster_surfaces@[c]@.contains(x)) <==> exists|
                        sc: int,
                        k: int,
                    |
                        0 <= sc < clusters@[c].subclusters@.len()
                            && 0 <= k < clusters@[c].subclusters@[sc].surface_indices@.len()
                            && (#[trigger] clusters@[c].subclusters@[sc].surface_indices@[k])
                                == x),
                forall|c: int| 0 <= c < ci
                    ==> (#[trigger] cluster_index_buffers@[c])@.len() == gs@.len(),
                forall|c: int, g: int| 0 <= c < ci && 0 <= g < gs@.len()
                    ==> cluster_buffer_ok(
                        cluster_surfaces@[c]@,
                        gs@,
                        g,
                        #[trigger] cluster_index_buffers@[c]@[g],
                    ),
            decreases clusters@.len() - ci,
        {
            let c_ref = &clusters[ci];
            let sky = clone_opt_string(&c_ref.sky);
            let cluster_portals = copy_usize_vec(&c_ref.cluster_portals);
            let mut subclusters: Vec<crate::bsp::BSPSubcluster> = Vec::new();
            let mut sc: usize = 0;
            while sc < c_ref.subclusters.len()
                invariant
                    *c_ref == clusters@[ci as int],
                    ci < clusters@.len(),
                    0 <= sc <= c_ref.subclusters@.len(),
                    subclusters@.len() == sc,
                    forall|s2: int| 0 <= s2 < sc ==> {
                        &&& (#[trigger] subclusters@[s2]).world_bounds_from
                            == c_ref.subclusters@[s2].world_bounds_from
                        &&& subclusters@[s2].world_bounds_to
                            == c_ref.subclusters@[s2].world_bounds_to
                        &&& strictly_sorted(subclusters@[s2].surface_indices@)
                        &&& forall|x: usize| subclusters@[s2].surface_indices@.contains(x)
                            <==> c_ref.subclusters@[s2].surface_indices@.contains(x)
                    },
                decreases c_ref.subclusters@.len() - sc,
            {
                let sub = &c_ref.subclusters[sc];
                let normalized = sort_dedup(&sub.surface_indices);
                subclusters.push(crate::bsp::BSPSubcluster {
                    surface_indices: normalized,
                    world_bounds_from: sub.world_bounds_from,
                    world_bounds_to: sub.world_bounds_to,
                });
                sc = sc + 1;
            }
            let union = cluster_surface_union(c_ref);
            let bufs = cluster_buffers_for(&union, &gs);
            new_clusters.push(crate::bsp::BSPCluster { sky, subclusters, cluster_portals });
            cluster_surfaces.push(union);
            cluster_index_buffers.push(bufs);
            ci = ci + 1;
        }

        let new_data = BSPData { nodes, planes, leaves, clusters: new_clusters, portals };
        let b = BSP {
            geometries: gs,
            bsp_data: new_data,
            cluster_surfaces,
            geometry_indices_sorted_by_material,
            cluster_index_buffers,
            draw_distance,
            lightmap_bitmap,
        };
        proof {
            let skies_t = *skies;
            assert(old_data.bsp_valid(skies_t, total as nat));
            assert(b.bsp_data.nodes@ == old_data.nodes@);
            assert(b.bsp_data.clusters@.len() == old_data.clusters@.len());
            assert forall|i: int| 0 <= i < b.bsp_data.nodes@.len() implies {
                &&& (#[trigger] b.bsp_data.nodes@[i]).plane < b.bsp_data.planes@.len()
                &&& b.bsp_data.child_ok(b.bsp_data.nodes@[i].front_child)
                &&& b.bsp_data.child_ok(b.bsp_data.nodes@[i].back_child)
            } by {
                assert(old_data.nodes@[i].plane < old_data.planes@.len());
                assert(old_data.child_ok(old_data.nodes@[i].front_child));
                assert(old_data.child_ok(old_data.nodes@[i].back_child));
            }
            assert(b.bsp_data.nodes_in_bounds());
            let rank = choose|rank: Seq<nat>| old_data.rank_ok(rank);
            assert forall|i: int, j: int|
                0 <= i < rank.len() && 0 <= j < rank.len() && b.bsp_data.is_node_child(i, j)
                    implies (#[trigger] rank[j]) < (#[trigger] rank[i]) by {
                assert(old_data.is_node_child(i, j));
            }
            assert(b.bsp_data.rank_ok(rank));
            assert(b.bsp_data.acyclic());
            assert forall|i: int| 0 <= i < b.bsp_data.leaves@.len()
                implies (#[trigger] b.bsp_data.leaves@[i]).cluster
                    < b.bsp_data.clusters@.len() by {
                assert(old_data.leaves@[i].cluster < old_data.clusters@.len());
            }
            old_data.lemma_valid_cluster_portals(skies_t, total as nat);
            assert forall|c: int, k: int|
                0 <= c < b.bsp_data.clusters@.len()
                    && 0 <= k < b.bsp_data.clusters@[c].cluster_portals@.len()
                    implies (#[trigger] b.bsp_data.clusters@[c].cluster_portals@[k])
                        < b.bsp_data.portals@.len() by {
                assert(b.bsp_data.clusters@[c].cluster_portals@
                    == old_data.clusters@[c].cluster_portals@);
                assert(old_data.clusters@[c].cluster_portals@[k] < old_data.portals@.len());
            }
            assert forall|p: int| 0 <= p < b.bsp_data.portals@.len() implies {
                &&& (#[trigger] b.bsp_data.portals@[p]).front_cluster
                    < b.bsp_data.clusters@.len()
                &&& b.bsp_data.portals@[p].back_cluster < b.bsp_data.clusters@.len()
            } by {
                assert(old_data.portals@[p].front_cluster < old_data.clusters@.len());
                assert(old_data.portals@[p].back_cluster < old_data.clusters@.len());
            }
            assert(b.wf());
        }
        Ok(b)
    }
}

impl Default for BSPData {
    /// One childless node over a single upward-facing plane through the
    /// origin: an empty but traversable partition.
    fn default() -> (r: Self)
        ensures
            r.nodes@.len() == 1,
            r.nodes@[0].front_child is None,
            r.nodes@[0].back_child is None,
            r.nodes@[0].plane == 0,
            r.planes@.len() == 1,
            r.planes@[0].angle == [0i32, FX_ONE, 0i32],
            r.planes@[0].offset == 0,
            r.leaves@.len() == 0,
            r.clusters@.len() == 0,
            r.portals@.len() == 0,
    {
        let mut nodes: Vec<crate::bsp::BSP3DNode> = Vec::new();
        nodes.push(crate::bsp::BSP3DNode { front_child: None, back_child: None, plane: 0 });
        let mut planes: Vec<crate::bsp::BSP3DPlane> = Vec::new();
        planes.push(crate::bsp::BSP3DPlane { angle: [0, FX_ONE, 0], offset: 0 });
        BSPData { nodes, planes, leaves: Vec::new(), clusters: Vec::new(), portals: Vec::new() }
    }
}

impl Default for BSP {
    /// An empty, well-formed level drawing nothing, at the minimum draw
    /// distance.
    fn default() -> (r: Self)
        ensures
            r.wf(),
            r.geometries@.len() == 0,
            r.geometry_indices_sorted_by_material@.len() == 0,
            r.bsp_data.clusters@.len() == 0,
            r.bsp_data.nodes@.len() == 1,
            r.bsp_data.nodes@[0].front_child is None,
            r.bsp_data.nodes@[0].back_child is None,
            r.draw_distance == MIN_DRAW_DISTANCE_LIMIT,
            r.lightmap_bitmap is None,
    {
        let bsp_data = BSPData::default();
        let r = BSP {
            geometries: Vec::new(),
            bsp_data,
            cluster_surfaces: Vec::new(),
            geometry_indices_sorted_by_material: Vec::new(),
            cluster_index_buffers: Vec::new(),
            draw_distance: MIN_DRAW_DISTANCE_LIMIT,
            lightmap_bitmap: None,
        };
        proof {
            let rank: Seq<nat> = seq![0nat];
            assert(r.bsp_data.rank_ok(rank));
            assert(r.bsp_data.acyclic());
            assert(geoms_positions(r.geometries@).len() == 0);
            assert(r.wf());
        }
        r
    }
}

} // verus!
