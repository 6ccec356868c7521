//! The renderer: asset tables, viewports and cameras, and the swapchain
//! model the frame composer draws against.

use vstd::prelude::*;
use crate::bitmap::{AddBitmapBitmapParameter, AddBitmapParameter, Bitmap, BitmapFormat,
    BitmapSequence, BitmapType, DefaultBitmaps};
use crate::error::{Error, MResult};
use crate::fixed::{isqrt, isqrt_spec, FX_ONE};
use crate::geometry::Geometry;
use crate::level::{AddBSPParameter, BSP};
use crate::params::{RendererParameters, Resolution, MSAA};
use crate::shader::{AddShaderParameter, Shader};
use crate::sky::{AddSkyParameter, Sky};
use crate::table::Table;
use crate::text::push_str;

verus! {

/// Pi in 16.16 fixed point: the exclusive upper bound of a field of view.
pub const PI_FX: i32 = 205887;

/// The default field of view: seventy degrees, in 16.16 radians.
pub const DEFAULT_FOV: i32 = 80075;

/// A viewport's camera.
#[derive(Copy, Clone, Debug)]
pub struct Camera {
    /// Field of view in 16.16 radians; must be strictly between 0 and pi.
    pub fov: i32,

    /// Position in the level, 16.16 world units.
    pub position: [i32; 3],

    /// Forward vector; normalized on entry to the renderer.
    pub rotation: [i32; 3],

    /// Draw lightmaps.
    pub lightmaps: bool,

    /// Apply the current cluster's fog.
    pub fog: bool,
}

impl Default for Camera {
    /// Seventy-degree view along the positive Y axis with lightmaps and fog
    /// on.
    fn default() -> (r: Self)
        ensures
            r.fov == DEFAULT_FOV,
            r.position == [0i32, 0i32, 0i32],
            r.rotation == [0i32, FX_ONE, 0i32],
            r.lightmaps,
            r.fog,
    {
        Camera {
            fov: DEFAULT_FOV,
            position: [0, 0, 0],
            rotation: [0, FX_ONE, 0],
            lightmaps: true,
            fog: true,
        }
    }
}

/// One player's share of the screen, in 16.16 fractions of the render
/// target.
#[derive(Copy, Clone, Debug)]
pub struct PlayerViewport {
    pub rel_x: i32,
    pub rel_y: i32,
    pub rel_width: i32,
    pub rel_height: i32,
    pub camera: Camera,
}

/// The screen rectangle of viewport `i` when `count` viewports are shown:
/// one fills the screen; two stack; three put one across the top half and
/// two in the bottom quarters; four make quarters.
pub open spec fn layout_rect(count: int, i: int) -> (int, int, int, int) {
    let half = FX_ONE as int / 2;
    let one = FX_ONE as int;
    if count == 1 {
        (0, 0, one, one)
    } else if count == 2 {
        if i == 0 {
            (0, 0, one, half)
        } else {
            (0, half, one, half)
        }
    } else if count == 3 {
        if i == 0 {
            (0, 0, one, half)
        } else if i == 1 {
            (0, half, half, half)
        } else {
            (half, half, half, half)
        }
    } else {
        if i == 0 {
            (0, 0, half, half)
        } else if i == 1 {
            (half, 0, half, half)
        } else if i == 2 {
            (0, half, half, half)
        } else {
            (half, half, half, half)
        }
    }
}

/// A viewport sits exactly where the layout puts it.
pub open spec fn viewport_rect_ok(v: PlayerViewport, count: int, i: int) -> bool {
    let (x, y, w, h) = layout_rect(count, i);
    v.rel_x == x && v.rel_y == y && v.rel_width == w && v.rel_height == h
}

/// What holds of a camera stored in the renderer.
pub open spec fn camera_ok(c: Camera) -> bool {
    0 < c.fov < PI_FX
}

/// The model of the swapchain: what the backend's is rebuilt to match.
#[derive(Copy, Clone, Debug)]
pub struct SwapchainState {
    pub resolution: Resolution,
}

/// The renderer.
pub struct Renderer {
    pub swapchain: SwapchainState,
    pub vsync: bool,
    pub msaa: MSAA,
    pub player_viewports: Vec<PlayerViewport>,

    pub bitmaps: Table<Bitmap>,
    pub shaders: Table<Shader>,
    pub geometries: Table<Geometry>,
    pub skies: Table<Sky>,
    pub bsps: Table<BSP>,

    pub default_bitmaps: DefaultBitmaps,
    pub current_bsp: Option<String>,
}

/// A bitmap fit to stand in for unset texture slots: exactly four
/// sub-bitmaps of one dimensionality class, under plain (non-sprite)
/// sequences.
pub open spec fn default_bitmap_ok(b: Bitmap, class: BitmapType) -> bool {
    &&& b.bitmaps@.len() == 4
    &&& forall|i: int| 0 <= i < b.bitmaps@.len()
        ==> (#[trigger] b.bitmaps@[i]).bitmap_type.same_class(class)
    &&& b.sequences@.len() == 4
    &&& forall|i: int| 0 <= i < b.sequences@.len()
        ==> (#[trigger] b.sequences@[i]) matches BitmapSequence::Bitmap { .. }
}

impl Renderer {
    /// The renderer's invariant: the tables are consistent, every loaded
    /// level is well formed with resolvable shaders, the viewports sit on
    /// the layout grid, and the default bitmaps resolve.
    pub open spec fn wf(&self) -> bool {
        &&& 1 <= self.player_viewports@.len() <= 4
        &&& forall|i: int| 0 <= i < self.player_viewports@.len()
            ==> viewport_rect_ok(
                #[trigger] self.player_viewports@[i],
                self.player_viewports@.len() as int,
                i,
            )
        &&& forall|i: int| 0 <= i < self.player_viewports@.len()
            ==> camera_ok((#[trigger] self.player_viewports@[i]).camera)
        &&& self.bitmaps.wf()
        &&& self.shaders.wf()
        &&& self.geometries.wf()
        &&& self.skies.wf()
        &&& self.bsps.wf()
        &&& (self.current_bsp matches Some(p) ==> self.bsps.spec_get(p@) is Some)
        &&& forall|i: int| 0 <= i < self.bsps@.len() ==> (#[trigger] self.bsps@[i]).1.wf()
        &&& forall|i: int, g: int|
            0 <= i < self.bsps@.len() && 0 <= g < self.bsps@[i].1.geometries@.len()
                ==> self.shaders.spec_get(
                    (#[trigger] self.bsps@[i].1.geometries@[g]).shader@,
                ) is Some
        &&& (match self.bitmaps.spec_get(self.default_bitmaps.default_2d@) {
            Some(b) => default_bitmap_ok(b, BitmapType::Dim2D),
            None => false,
        })
        &&& (match self.bitmaps.spec_get(self.default_bitmaps.default_3d@) {
            Some(b) => default_bitmap_ok(b, BitmapType::Dim3D { depth: 1 }),
            None => false,
        })
        &&& (match self.bitmaps.spec_get(self.default_bitmaps.default_cubemap@) {
            Some(b) => default_bitmap_ok(b, BitmapType::Cubemap),
            None => false,
        })
    }

    /// Get the number of viewports.
    pub fn get_viewport_count(&self) -> (r: usize)
        ensures
            r == self.player_viewports@.len(),
    {
        self.player_viewports.len()
    }

    /// Get the camera data for the given viewport.
    pub fn get_camera_for_viewport(&self, viewport: usize) -> (r: Camera)
        requires
            viewport < self.player_viewports@.len(),
        ensures
            r == self.player_viewports@[viewport as int].camera,
    {
        self.player_viewports[viewport].camera
    }

    /// Set the position, rotation, and field of view of one viewport's
    /// camera. The rotation is normalized; a zero rotation falls back to
    /// the default forward vector.
    pub fn set_camera_for_viewport(&mut self, viewport: usize, camera: Camera)
        requires
            viewport < old(self).player_viewports@.len(),
            0 < camera.fov < PI_FX,
        ensures
            final(self).player_viewports@.len() == old(self).player_viewports@.len(),
            final(self).player_viewports@[viewport as int].camera == (Camera {
                rotation: rot_norm_spec(camera.rotation),
                ..camera
            }),
            forall|i: int|
                0 <= i < old(self).player_viewports@.len() && i != viewport
                    ==> (#[trigger] final(self).player_viewports@[i])
                        == old(self).player_viewports@[i],
            forall|i: int|
                0 <= i < old(self).player_viewports@.len() && i != viewport
                    ==> (#[trigger] final(self).player_viewports@[i]).rel_x
                        == old(self).player_viewports@[i].rel_x,
            final(self).player_viewports@[viewport as int].rel_x
                == old(self).player_viewports@[viewport as int].rel_x,
            final(self).player_viewports@[viewport as int].rel_y
                == old(self).player_viewports@[viewport as int].rel_y,
            final(self).player_viewports@[viewport as int].rel_width
                == old(self).player_viewports@[viewport as int].rel_width,
            final(self).player_viewports@[viewport as int].rel_height
                == old(self).player_viewports@[viewport as int].rel_height,
            final(self).swapchain == old(self).swapchain,
            final(self).bitmaps == old(self).bitmaps,
            final(self).shaders == old(self).shaders,
            final(self).geometries == old(self).geometries,
            final(self).skies == old(self).skies,
            final(self).bsps == old(self).bsps,
            final(self).default_bitmaps == old(self).default_bitmaps,
            final(self).current_bsp == old(self).current_bsp,
            final(self).vsync == old(self).vsync,
            final(self).msaa == old(self).msaa,
            old(self).wf() ==> final(self).wf(),
    {
        let rotation = normalize_rotation(camera.rotation);
        let old_vp = self.player_viewports[viewport];
        let new_vp = PlayerViewport {
            rel_x: old_vp.rel_x,
            rel_y: old_vp.rel_y,
            rel_width: old_vp.rel_width,
            rel_height: old_vp.rel_height,
            camera: Camera {
                position: camera.position,
                rotation,
                fov: camera.fov,
                lightmaps: camera.lightmaps,
                fog: camera.fog,
            },
        };
        self.player_viewports.set(viewport, new_vp);
        proof {
            if old(self).wf() {
                assert forall|i: int| 0 <= i < self.player_viewports@.len()
                    implies viewport_rect_ok(
                        #[trigger] self.player_viewports@[i],
                        self.player_viewports@.len() as int,
                        i,
                    ) && camera_ok(self.player_viewports@[i].camera) by {
                    if i != viewport as int {
                        assert(self.player_viewports@[i]
                            == old(self).player_viewports@[i]);
                    }
                }
            }
        }
    }

    /// Rebuild the swapchain for a new resolution, rejecting a zero-area
    /// target and leaving everything unchanged on failure.
    pub fn rebuild_swapchain(&mut self, parameters: RendererParameters) -> (r: MResult<()>)
        ensures
            r is Ok <==> parameters.resolution.width > 0 && parameters.resolution.height > 0,
            r is Ok ==> final(self).swapchain == (SwapchainState {
                resolution: parameters.resolution,
            }),
            r matches Err(e) ==> e is DataError && *final(self) == *old(self),
            final(self).player_viewports == old(self).player_viewports,
            final(self).bitmaps == old(self).bitmaps,
            final(self).shaders == old(self).shaders,
            final(self).geometries == old(self).geometries,
            final(self).skies == old(self).skies,
            final(self).bsps == old(self).bsps,
            final(self).default_bitmaps == old(self).default_bitmaps,
            final(self).current_bsp == old(self).current_bsp,
            old(self).wf() ==> final(self).wf(),
    {
        if parameters.resolution.height == 0 || parameters.resolution.width == 0 {
            let mut m = String::new();
            push_str(&mut m, "resolution has 0 on one or more dimensions");
            return Err(Error::DataError { error: m });
        }
        self.swapchain = SwapchainState { resolution: parameters.resolution };
        Ok(())
    }

    /// Set the current level. `None` unloads; a path must name a loaded
    /// level.
    pub fn set_current_bsp(&mut self, path: Option<&str>) -> (r: MResult<()>)
        ensures
            r is Ok <==> (match path {
                Some(p) => old(self).bsps.spec_get(p@) is Some,
                None => true,
            }),
            r is Ok ==> (match path {
                Some(p) => final(self).current_bsp matches Some(q) && q@ == p@,
                None => final(self).current_bsp is None,
            }),
            r matches Err(e) ==> e is DataError && *final(self) == *old(self),
            final(self).player_viewports == old(self).player_viewports,
            final(self).swapchain == old(self).swapchain,
            final(self).bitmaps == old(self).bitmaps,
            final(self).shaders == old(self).shaders,
            final(self).geometries == old(self).geometries,
            final(self).skies == old(self).skies,
            final(self).bsps == old(self).bsps,
            final(self).default_bitmaps == old(self).default_bitmaps,
            old(self).wf() ==> final(self).wf(),
    {
        match path {
            Some(p) => {
                if !self.bsps.contains_key(p) {
                    let mut m = String::new();
                    push_str(&mut m, "Can't set current BSP to ");
                    push_str(&mut m, p);
                    push_str(&mut m, ": that BSP is not loaded");
                    return Err(Error::DataError { error: m });
                }
                self.current_bsp = Some(p.to_owned());
            },
            None => {
                self.current_bsp = None;
            },
        }
        Ok(())
    }
}

/// `g` is the flat index of material `m2` of set `s2`.
spec fn is_flat_index(
    ss: Seq<crate::level::AddBSPParameterLightmapSet>,
    s2: int,
    m2: int,
    g: int,
) -> bool {
    0 <= s2 < ss.len() && 0 <= m2 < ss[s2].materials@.len()
        && g == crate::level::mats_before(ss, s2) + m2
}

/// Flat batch indices decompose into a set and a material.
proof fn lemma_flat_decompose(
    ss: Seq<crate::level::AddBSPParameterLightmapSet>,
    g: int,
    si: int,
)
    requires
        0 <= si <= ss.len(),
        0 <= g < crate::level::mats_before(ss, si),
    ensures
        exists|s2: int, m2: int| #[trigger] is_flat_index(ss, s2, m2, g),
    decreases si,
{
    if si > 0 {
        if g >= crate::level::mats_before(ss, si - 1) {
            let m2 = g - crate::level::mats_before(ss, si - 1);
            assert(is_flat_index(ss, si - 1, m2, g));
        } else {
            lemma_flat_decompose(ss, g, si - 1);
        }
    }
}

impl Renderer {
    /// Add a bitmap under a new path, validating it first; a failed call
    /// leaves the renderer unchanged.
    pub fn add_bitmap(&mut self, path: &str, bitmap: AddBitmapParameter) -> (r: MResult<()>)
        requires
            old(self).bitmaps.wf(),
        ensures
            final(self).bitmaps.wf(),
            old(self).wf() ==> final(self).wf(),
            r is Ok <==> old(self).bitmaps.spec_get(path@) is None && bitmap.valid(),
            r is Ok ==> (final(self).bitmaps.spec_get(path@) matches Some(b) && {
                &&& b.bitmaps@.len() == bitmap.bitmaps@.len()
                &&& forall|i: int| 0 <= i < bitmap.bitmaps@.len() ==> {
                    &&& (#[trigger] b.bitmaps@[i]).format == bitmap.bitmaps@[i].format
                    &&& b.bitmaps@[i].resolution == bitmap.bitmaps@[i].resolution
                    &&& b.bitmaps@[i].bitmap_type == bitmap.bitmaps@[i].bitmap_type
                    &&& b.bitmaps@[i].data == bitmap.bitmaps@[i].data
                }
                &&& b.sequences == bitmap.sequences
            }),
            r is Ok ==> forall|k: Seq<char>| k != path@
                ==> final(self).bitmaps.spec_get(k) == old(self).bitmaps.spec_get(k),
            r is Ok ==> final(self).shaders == old(self).shaders
                && final(self).skies == old(self).skies
                && final(self).bsps == old(self).bsps
                && final(self).geometries == old(self).geometries
                && final(self).player_viewports == old(self).player_viewports
                && final(self).swapchain == old(self).swapchain
                && final(self).current_bsp == old(self).current_bsp
                && final(self).default_bitmaps == old(self).default_bitmaps
                && final(self).vsync == old(self).vsync
                && final(self).msaa == old(self).msaa,
            r matches Err(e) ==> e is DataError && *final(self) == *old(self),
    {
        if self.bitmaps.contains_key(path) {
            let mut m = String::new();
            push_str(&mut m, path);
            push_str(&mut m, " already exists (replacing bitmaps is not yet supported)");
            return Err(Error::DataError { error: m });
        }
        let loaded = match Bitmap::load_from_parameters(bitmap) {
            Ok(b) => b,
            Err(e) => {
                return Err(e);
            },
        };
        let key: String = path.to_owned();
        proof {
            crate::table::lemma_seq_get_push(self.bitmaps@, (key, loaded), path@);
        }
        let ghost prebitmaps = self.bitmaps;
        self.bitmaps.insert(key, loaded);
        proof {
            assert forall|k: Seq<char>| k != path@
                implies self.bitmaps.spec_get(k) == prebitmaps.spec_get(k) by {
                crate::table::lemma_seq_get_push(prebitmaps@, (key, loaded), k);
            }
            if old(self).wf() {
                assert(self.wf());
            }
        }
        Ok(())
    }

    /// Add a shader under a new path, validating its bitmap references; a
    /// failed call leaves the renderer unchanged.
    pub fn add_shader(&mut self, path: &str, shader: AddShaderParameter) -> (r: MResult<()>)
        requires
            old(self).shaders.wf(),
        ensures
            final(self).shaders.wf(),
            old(self).wf() ==> final(self).wf(),
            r is Ok <==> old(self).shaders.spec_get(path@) is None
                && shader.valid(old(self).bitmaps),
            r is Ok ==> (final(self).shaders.spec_get(path@) matches Some(s)
                && s.shader_type == (match shader.data {
                    crate::shader::AddShaderData::BasicShader(b) => b.shader_type,
                    crate::shader::AddShaderData::ShaderEnvironment(_) =>
                        crate::shader::ShaderType::Environment,
                })),
            r is Ok ==> forall|k: Seq<char>| k != path@
                ==> final(self).shaders.spec_get(k) == old(self).shaders.spec_get(k),
            r is Ok ==> final(self).bitmaps == old(self).bitmaps
                && final(self).skies == old(self).skies
                && final(self).bsps == old(self).bsps
                && final(self).geometries == old(self).geometries
                && final(self).player_viewports == old(self).player_viewports
                && final(self).swapchain == old(self).swapchain
                && final(self).current_bsp == old(self).current_bsp
                && final(self).default_bitmaps == old(self).default_bitmaps
                && final(self).vsync == old(self).vsync
                && final(self).msaa == old(self).msaa,
            r matches Err(e) ==> e is DataError && *final(self) == *old(self),
    {
        if self.shaders.contains_key(path) {
            let mut m = String::new();
            push_str(&mut m, path);
            push_str(&mut m, " already exists (replacing shaders is not yet supported)");
            return Err(Error::DataError { error: m });
        }
        let loaded = match Shader::load_from_parameters(&self.bitmaps, shader) {
            Ok(s) => s,
            Err(e) => {
                return Err(e);
            },
        };
        let key: String = path.to_owned();
        proof {
            crate::table::lemma_seq_get_push(self.shaders@, (key, loaded), path@);
        }
        let ghost preshaders = self.shaders;
        self.shaders.insert(key, loaded);
        proof {
            assert forall|k: Seq<char>| k != path@
                implies self.shaders.spec_get(k) == preshaders.spec_get(k) by {
                crate::table::lemma_seq_get_push(preshaders@, (key, loaded), k);
            }
            if old(self).wf() {
                assert forall|i: int, g: int|
                    0 <= i < self.bsps@.len() && 0 <= g < self.bsps@[i].1.geometries@.len()
                        implies self.shaders.spec_get(
                            (#[trigger] self.bsps@[i].1.geometries@[g]).shader@,
                        ) is Some by {
                    assert(preshaders.spec_get(
                        self.bsps@[i].1.geometries@[g].shader@) is Some);
                }
                assert(self.wf());
            }
        }
        Ok(())
    }

    /// Add a sky under a new path, validating its fog ranges; a failed call
    /// leaves the renderer unchanged.
    pub fn add_sky(&mut self, path: &str, sky: AddSkyParameter) -> (r: MResult<()>)
        requires
            old(self).skies.wf(),
        ensures
            final(self).skies.wf(),
            old(self).wf() ==> final(self).wf(),
            r is Ok <==> old(self).skies.spec_get(path@) is None
                && sky.valid(old(self).geometries),
            r is Ok ==> (final(self).skies.spec_get(path@) matches Some(s) && {
                &&& s.geometry == sky.geometry
                &&& s.outdoor_fog_color == sky.outdoor_fog_color
                &&& s.outdoor_fog_maximum_density == sky.outdoor_fog_maximum_density
                &&& s.outdoor_fog_start_distance == sky.outdoor_fog_start_distance
                &&& s.outdoor_fog_opaque_distance == sky.outdoor_fog_opaque_distance
                &&& s.indoor_fog_color == sky.indoor_fog_color
                &&& s.indoor_fog_maximum_density == sky.indoor_fog_maximum_density
                &&& s.indoor_fog_start_distance == sky.indoor_fog_start_distance
                &&& s.indoor_fog_opaque_distance == sky.indoor_fog_opaque_distance
            }),
            r is Ok ==> forall|k: Seq<char>| k != path@
                ==> final(self).skies.spec_get(k) == old(self).skies.spec_get(k),
            r is Ok ==> final(self).bitmaps == old(self).bitmaps
                && final(self).shaders == old(self).shaders
                && final(self).bsps == old(self).bsps
                && final(self).geometries == old(self).geometries
                && final(self).player_viewports == old(self).player_viewports
                && final(self).swapchain == old(self).swapchain
                && final(self).current_bsp == old(self).current_bsp
                && final(self).default_bitmaps == old(self).default_bitmaps
                && final(self).vsync == old(self).vsync
                && final(self).msaa == old(self).msaa,
            r matches Err(e) ==> e is DataError && *final(self) == *old(self),
    {
        if self.skies.contains_key(path) {
            let mut m = String::new();
            push_str(&mut m, path);
            push_str(&mut m, " already exists (replacing skies is not yet supported)");
            return Err(Error::DataError { error: m });
        }
        match sky.validate(&self.geometries) {
            Ok(()) => {},
            Err(e) => {
                return Err(e);
            },
        }
        let loaded = Sky {
            geometry: sky.geometry,
            outdoor_fog_color: sky.outdoor_fog_color,
            outdoor_fog_maximum_density: sky.outdoor_fog_maximum_density,
            outdoor_fog_start_distance: sky.outdoor_fog_start_distance,
            outdoor_fog_opaque_distance: sky.outdoor_fog_opaque_distance,
            indoor_fog_color: sky.indoor_fog_color,
            indoor_fog_maximum_density: sky.indoor_fog_maximum_density,
            indoor_fog_start_distance: sky.indoor_fog_start_distance,
            indoor_fog_opaque_distance: sky.indoor_fog_opaque_distance,
        };
        let key: String = path.to_owned();
        proof {
            crate::table::lemma_seq_get_push(self.skies@, (key, loaded), path@);
        }
        let ghost preskies = self.skies;
        self.skies.insert(key, loaded);
        proof {
            assert forall|k: Seq<char>| k != path@
                implies self.skies.spec_get(k) == preskies.spec_get(k) by {
                crate::table::lemma_seq_get_push(preskies@, (key, loaded), k);
            }
            if old(self).wf() {
                assert(self.wf());
            }
        }
        Ok(())
    }

    /// Add a level under a new path, validating everything it references; a
    /// failed call leaves the renderer unchanged.
    pub fn add_bsp(&mut self, path: &str, bsp: AddBSPParameter) -> (r: MResult<()>)
        requires
            old(self).bsps.wf(),
        ensures
            final(self).bsps.wf(),
            old(self).wf() ==> final(self).wf(),
            r is Ok <==> old(self).bsps.spec_get(path@) is None
                && bsp.valid(old(self).bitmaps, old(self).shaders, old(self).skies)
                && crate::level::mats_before(bsp.lightmap_sets@, bsp.lightmap_sets@.len() as int)
                    <= usize::MAX,
            r is Ok ==> (final(self).bsps.spec_get(path@) matches Some(b) && {
                &&& b.wf()
                &&& crate::level::geometries_match(b.geometries@, bsp.lightmap_sets@)
                &&& b.lightmap_bitmap == bsp.lightmap_bitmap
                &&& crate::level::clusters_normalized(
                    b.bsp_data.clusters@,
                    bsp.bsp_data.clusters@,
                )
                &&& crate::level::cluster_surfaces_match(
                    b.cluster_surfaces@,
                    bsp.bsp_data.clusters@,
                )
            }),
            r is Ok ==> forall|k: Seq<char>| k != path@
                ==> final(self).bsps.spec_get(k) == old(self).bsps.spec_get(k),
            r is Ok ==> final(self).bitmaps == old(self).bitmaps
                && final(self).shaders == old(self).shaders
                && final(self).skies == old(self).skies
                && final(self).geometries == old(self).geometries
                && final(self).player_viewports == old(self).player_viewports
                && final(self).swapchain == old(self).swapchain
                && final(self).current_bsp == old(self).current_bsp
                && final(self).default_bitmaps == old(self).default_bitmaps
                && final(self).vsync == old(self).vsync
                && final(self).msaa == old(self).msaa,
            r matches Err(e) ==> e is DataError && *final(self) == *old(self),
    {
        if self.bsps.contains_key(path) {
            let mut m = String::new();
            push_str(&mut m, path);
            push_str(&mut m, " already exists (replacing BSPs is not yet supported)");
            return Err(Error::DataError { error: m });
        }
        let ghost sets = bsp.lightmap_sets@;
        let ghost param0 = bsp;
        let loaded = match BSP::load_from_parameters(
            &self.bitmaps,
            &self.shaders,
            &self.skies,
            bsp,
        ) {
            Ok(b) => b,
            Err(e) => {
                return Err(e);
            },
        };
        let key: String = path.to_owned();
        proof {
            crate::table::lemma_seq_get_push(self.bsps@, (key, loaded), path@);
        }
        let ghost prebsps = self.bsps;
        self.bsps.insert(key, loaded);
        proof {
            assert forall|k: Seq<char>| k != path@
                implies self.bsps.spec_get(k) == prebsps.spec_get(k) by {
                crate::table::lemma_seq_get_push(prebsps@, (key, loaded), k);
            }
            if old(self).wf() {
            if self.current_bsp is Some {
                let p = self.current_bsp->0;
                assert(prebsps.spec_get(p@) is Some);
                assert(self.bsps.spec_get(p@) is Some);
            }
            let n = self.bsps@.len();
            assert(self.bsps@[n - 1].1 == loaded);
            assert forall|i: int| 0 <= i < n implies (#[trigger] self.bsps@[i]).1.wf() by {
                if i < n - 1 {
                    assert(self.bsps@[i] == prebsps@[i]);
                }
            }
            assert forall|i: int, g: int|
                0 <= i < n && 0 <= g < self.bsps@[i].1.geometries@.len()
                    implies self.shaders.spec_get(
                        (#[trigger] self.bsps@[i].1.geometries@[g]).shader@,
                    ) is Some by {
                if i < n - 1 {
                    assert(self.bsps@[i] == prebsps@[i]);
                } else {
                    assert(crate::level::mats_before(sets, sets.len() as int)
                        == loaded.geometries@.len());
                    lemma_flat_decompose(sets, g, sets.len() as int);
                    let (s2, m2) = choose|s2: int, m2: int|
                        #[trigger] is_flat_index(sets, s2, m2, g);
                    assert(crate::level::geometry_matches(
                        loaded.geometries@[crate::level::mats_before(sets, s2) + m2],
                        sets,
                        s2,
                        m2,
                    ));
                    assert(param0.material_valid(self.shaders, s2, m2));
                    assert(loaded.geometries@[g].shader
                        == sets[s2].materials@[m2].shader);
                }
            }
            assert(self.wf());
            }
        }
        Ok(())
    }
}

impl Renderer {
    /// The designated fallback sub-bitmap of the given kind for 2D slots.
    pub fn get_default_2d(&self, default_type: crate::bitmap::DefaultType) -> (r:
        &crate::bitmap::BitmapBitmap)
        requires
            self.wf(),
        ensures
            self.bitmaps.spec_get(self.default_bitmaps.default_2d@) matches Some(b) && *r
                == b.bitmaps@[default_type.spec_index()],
    {
        let b = match self.bitmaps.get(self.default_bitmaps.default_2d.as_str()) {
            Some(b) => b,
            None => {
                proof {
                    assert(false);
                }
                loop
                    invariant
                        false,
                    decreases 0int,
                {
                }
            },
        };
        &b.bitmaps[default_type.index()]
    }

    /// The designated fallback sub-bitmap of the given kind for 3D slots.
    pub fn get_default_3d(&self, default_type: crate::bitmap::DefaultType) -> (r:
        &crate::bitmap::BitmapBitmap)
        requires
            self.wf(),
        ensures
            self.bitmaps.spec_get(self.default_bitmaps.default_3d@) matches Some(b) && *r
                == b.bitmaps@[default_type.spec_index()],
    {
        let b = match self.bitmaps.get(self.default_bitmaps.default_3d.as_str()) {
            Some(b) => b,
            None => {
                proof {
                    assert(false);
                }
                loop
                    invariant
                        false,
                    decreases 0int,
                {
                }
            },
        };
        &b.bitmaps[default_type.index()]
    }

    /// The designated fallback sub-bitmap of the given kind for cubemap
    /// slots.
    pub fn get_default_cubemap(&self, default_type: crate::bitmap::DefaultType) -> (r:
        &crate::bitmap::BitmapBitmap)
        requires
            self.wf(),
        ensures
            self.bitmaps.spec_get(self.default_bitmaps.default_cubemap@) matches Some(b)
                && *r == b.bitmaps@[default_type.spec_index()],
    {
        let b = match self.bitmaps.get(self.default_bitmaps.default_cubemap.as_str()) {
            Some(b) => b,
            None => {
                proof {
                    assert(false);
                }
                loop
                    invariant
                        false,
                    decreases 0int,
                {
                }
            },
        };
        &b.bitmaps[default_type.index()]
    }
}

impl Renderer {
    /// A named sub-bitmap, or the 2D fallback of the given kind when no
    /// bitmap is named.
    pub fn get_or_default_2d(
        &self,
        bitmap: &Option<String>,
        bitmap_index: usize,
        default_type: crate::bitmap::DefaultType,
    ) -> (r: &crate::bitmap::BitmapBitmap)
        requires
            self.wf(),
            (bitmap matches Some(p) ==> self.bitmaps.spec_get(p@) matches Some(b)
                && bitmap_index < b.bitmaps@.len()),
        ensures
            match bitmap {
                Some(p) => self.bitmaps.spec_get(p@) matches Some(b) && *r
                    == b.bitmaps@[bitmap_index as int],
                None => self.bitmaps.spec_get(self.default_bitmaps.default_2d@)
                    matches Some(b) && *r == b.bitmaps@[default_type.spec_index()],
            },
    {
        match bitmap.as_ref() {
            Some(n) => match self.bitmaps.get(n.as_str()) {
                Some(b) => &b.bitmaps[bitmap_index],
                None => {
                    proof {
                        assert(false);
                    }
                    self.get_default_2d(default_type)
                },
            },
            None => self.get_default_2d(default_type),
        }
    }

    /// A named sub-bitmap, or the 3D fallback of the given kind.
    pub fn get_or_default_3d(
        &self,
        bitmap: &Option<String>,
        bitmap_index: usize,
        default_type: crate::bitmap::DefaultType,
    ) -> (r: &crate::bitmap::BitmapBitmap)
        requires
            self.wf(),
            (bitmap matches Some(p) ==> self.bitmaps.spec_get(p@) matches Some(b)
                && bitmap_index < b.bitmaps@.len()),
        ensures
            match bitmap {
                Some(p) => self.bitmaps.spec_get(p@) matches Some(b) && *r
                    == b.bitmaps@[bitmap_index as int],
                None => self.bitmaps.spec_get(self.default_bitmaps.default_3d@)
                    matches Some(b) && *r == b.bitmaps@[default_type.spec_index()],
            },
    {
        match bitmap.as_ref() {
            Some(n) => match self.bitmaps.get(n.as_str()) {
                Some(b) => &b.bitmaps[bitmap_index],
                None => {
                    proof {
                        assert(false);
                    }
                    self.get_default_3d(default_type)
                },
            },
            None => self.get_default_3d(default_type),
        }
    }

    /// A named sub-bitmap, or the cubemap fallback of the given kind.
    pub fn get_or_default_cubemap(
        &self,
        bitmap: &Option<String>,
        bitmap_index: usize,
        default_type: crate::bitmap::DefaultType,
    ) -> (r: &crate::bitmap::BitmapBitmap)
        requires
            self.wf(),
            (bitmap matches Some(p) ==> self.bitmaps.spec_get(p@) matches Some(b)
                && bitmap_index < b.bitmaps@.len()),
        ensures
            match bitmap {
                Some(p) => self.bitmaps.spec_get(p@) matches Some(b) && *r
                    == b.bitmaps@[bitmap_index as int],
                None => self.bitmaps.spec_get(self.default_bitmaps.default_cubemap@)
                    matches Some(b) && *r == b.bitmaps@[default_type.spec_index()],
            },
    {
        match bitmap.as_ref() {
            Some(n) => match self.bitmaps.get(n.as_str()) {
                Some(b) => &b.bitmaps[bitmap_index],
                None => {
                    proof {
                        assert(false);
                    }
                    self.get_default_cubemap(default_type)
                },
            },
            None => self.get_default_cubemap(default_type),
        }
    }
}

/// One character sequence occurs inside another.
pub open spec fn contains_sub(hay: Seq<char>, needle: Seq<char>) -> bool {
    exists|i: int|
        0 <= i && i + needle.len() <= hay.len() && #[trigger] hay.subrange(
            i,
            i + needle.len(),
        ) == needle
}

/// Exact equality of bitmap dimensionality classes.
fn class_eq(a: BitmapType, b: BitmapType) -> (r: bool)
    ensures
        r == a.same_class(b),
{
    match (a, b) {
        (BitmapType::Dim2D, BitmapType::Dim2D) => true,
        (BitmapType::Cubemap, BitmapType::Cubemap) => true,
        (BitmapType::Dim3D { .. }, BitmapType::Dim3D { .. }) => true,
        _ => false,
    }
}

/// Check one designated default bitmap: it must resolve and hold exactly
/// four sub-bitmaps of the class, under four plain sequences. A failure
/// names the bitmap.
fn check_default_bitmap(bitmaps: &Table<Bitmap>, path: &str, class: BitmapType) -> (r: MResult<
    (),
>)
    ensures
        r is Ok <==> (match bitmaps.spec_get(path@) {
            Some(b) => default_bitmap_ok(b, class),
            None => false,
        }),
        r matches Err(e) ==> e is DataError && contains_sub(e.data_msg(), path@),
{
    let b = match bitmaps.get(path) {
        Some(b) => b,
        None => {
            let mut m = String::new();
            push_str(&mut m, "default bitmap ");
            push_str(&mut m, path);
            push_str(&mut m, " is not loaded");
            proof {
                lemma_concat_contains(m@, "default bitmap "@, path@, " is not loaded"@);
            }
            return Err(Error::DataError { error: m });
        },
    };
    if b.bitmaps.len() != 4 {
        let mut m = String::new();
        push_str(&mut m, "default bitmap ");
        push_str(&mut m, path);
        push_str(&mut m, " does not have exactly 4 bitmaps");
        proof {
            lemma_concat_contains(
                m@,
                "default bitmap "@,
                path@,
                " does not have exactly 4 bitmaps"@,
            );
        }
        return Err(Error::DataError { error: m });
    }
    let mut i: usize = 0;
    while i < b.bitmaps.len()
        invariant
            bitmaps.spec_get(path@) == Some(*b),
            forall|k: int| 0 <= k < i
                ==> (#[trigger] b.bitmaps@[k]).bitmap_type.same_class(class),
        decreases b.bitmaps@.len() - i,
    {
        if !class_eq(b.bitmaps[i].bitmap_type, class) {
            let mut m = String::new();
            push_str(&mut m, "default bitmap ");
            push_str(&mut m, path);
            push_str(&mut m, " has a bitmap of the wrong dimensionality");
            proof {
                lemma_concat_contains(
                    m@,
                    "default bitmap "@,
                    path@,
                    " has a bitmap of the wrong dimensionality"@,
                );
            }
            return Err(Error::DataError { error: m });
        }
        i = i + 1;
    }
    if b.sequences.len() != 4 {
        let mut m = String::new();
        push_str(&mut m, "default bitmap ");
        push_str(&mut m, path);
        push_str(&mut m, " does not have exactly 4 sequences");
        proof {
            lemma_concat_contains(
                m@,
                "default bitmap "@,
                path@,
                " does not have exactly 4 sequences"@,
            );
        }
        return Err(Error::DataError { error: m });
    }
    let mut j: usize = 0;
    while j < b.sequences.len()
        invariant
            bitmaps.spec_get(path@) == Some(*b),
            forall|k: int| 0 <= k < j
                ==> (#[trigger] b.sequences@[k]) matches BitmapSequence::Bitmap { .. },
        decreases b.sequences@.len() - j,
    {
        match &b.sequences[j] {
            BitmapSequence::Bitmap { .. } => {},
            BitmapSequence::Sprites { .. } => {
                let mut m = String::new();
                push_str(&mut m, "default bitmap ");
                push_str(&mut m, path);
                push_str(&mut m, " has a sprite sequence; simple sequences are required");
                proof {
                    lemma_concat_contains(
                        m@,
                        "default bitmap "@,
                        path@,
                        " has a sprite sequence; simple sequences are required"@,
                    );
                }
                return Err(Error::DataError { error: m });
            },
        }
        j = j + 1;
    }
    Ok(())
}

/// The middle of a three-part concatenation occurs in the whole.
proof fn lemma_concat_contains(
    whole: Seq<char>,
    prefix: Seq<char>,
    mid: Seq<char>,
    suffix: Seq<char>,
)
    requires
        whole == prefix + mid + suffix,
    ensures
        contains_sub(whole, mid),
{
    let i = prefix.len() as int;
    assert(whole.subrange(i, i + mid.len()) =~= mid);
}

impl Renderer {
    /// Designate the three default bitmaps, one per dimensionality class,
    /// after checking each: four sub-bitmaps of the right class under four
    /// plain sequences. A failed call names the offending bitmap and
    /// leaves the renderer unchanged.
    pub fn set_default_bitmaps(
        &mut self,
        default_2d: &str,
        default_3d: &str,
        default_cubemap: &str,
    ) -> (r: MResult<()>)
        ensures
            r is Ok <==> {
                &&& (match old(self).bitmaps.spec_get(default_2d@) {
                    Some(b) => default_bitmap_ok(b, BitmapType::Dim2D),
                    None => false,
                })
                &&& (match old(self).bitmaps.spec_get(default_3d@) {
                    Some(b) => default_bitmap_ok(b, BitmapType::Dim3D { depth: 1 }),
                    None => false,
                })
                &&& (match old(self).bitmaps.spec_get(default_cubemap@) {
                    Some(b) => default_bitmap_ok(b, BitmapType::Cubemap),
                    None => false,
                })
            },
            r is Ok ==> {
                &&& final(self).default_bitmaps.default_2d@ == default_2d@
                &&& final(self).default_bitmaps.default_3d@ == default_3d@
                &&& final(self).default_bitmaps.default_cubemap@ == default_cubemap@
            },
            r matches Err(e) ==> e is DataError && *final(self) == *old(self),
            final(self).bitmaps == old(self).bitmaps,
            final(self).shaders == old(self).shaders,
            final(self).geometries == old(self).geometries,
            final(self).skies == old(self).skies,
            final(self).bsps == old(self).bsps,
            final(self).player_viewports == old(self).player_viewports,
            final(self).swapchain == old(self).swapchain,
            final(self).current_bsp == old(self).current_bsp,
            final(self).vsync == old(self).vsync,
            final(self).msaa == old(self).msaa,
    {
        match check_default_bitmap(&self.bitmaps, default_2d, BitmapType::Dim2D) {
            Ok(()) => {},
            Err(e) => {
                return Err(e);
            },
        }
        match check_default_bitmap(&self.bitmaps, default_3d, BitmapType::Dim3D { depth: 1 }) {
            Ok(()) => {},
            Err(e) => {
                return Err(e);
            },
        }
        match check_default_bitmap(&self.bitmaps, default_cubemap, BitmapType::Cubemap) {
            Ok(()) => {},
            Err(e) => {
                return Err(e);
            },
        }
        self.default_bitmaps = DefaultBitmaps {
            default_2d: default_2d.to_owned(),
            default_3d: default_3d.to_owned(),
            default_cubemap: default_cubemap.to_owned(),
        };
        Ok(())
    }
}

/// The little-endian float bytes of one of the four fixed texel patterns:
/// all-zero, all-one, neutral gray, or a neutral normal vector.
pub open spec fn texel_bytes(pattern: int) -> Seq<u8> {
    if pattern == 0 {
        seq![0u8, 0, 0, 0, 0, 0, 0, 0, 0, 0, 0, 0, 0, 0, 0, 0]
    } else if pattern == 1 {
        seq![0u8, 0, 0x80, 0x3F, 0, 0, 0x80, 0x3F, 0, 0, 0x80, 0x3F, 0, 0, 0x80, 0x3F]
    } else if pattern == 2 {
        seq![0u8, 0, 0, 0x3F, 0, 0, 0, 0x3F, 0, 0, 0, 0x3F, 0, 0, 0x80, 0x3F]
    } else {
        seq![0u8, 0, 0, 0x3F, 0, 0, 0, 0x3F, 0, 0, 0x80, 0x3F, 0, 0, 0x80, 0x3F]
    }
}

/// Append one texel pattern's sixteen bytes.
fn push_texel(data: &mut Vec<u8>, pattern: usize)
    ensures
        final(data)@ == old(data)@ + texel_bytes(pattern as int),
        final(data)@.len() == old(data)@.len() + 16,
{
    let bytes: [u8; 16] = match pattern {
        0 => [0, 0, 0, 0, 0, 0, 0, 0, 0, 0, 0, 0, 0, 0, 0, 0],
        1 => [0, 0, 0x80, 0x3F, 0, 0, 0x80, 0x3F, 0, 0, 0x80, 0x3F, 0, 0, 0x80, 0x3F],
        2 => [0, 0, 0, 0x3F, 0, 0, 0, 0x3F, 0, 0, 0, 0x3F, 0, 0, 0x80, 0x3F],
        _ => [0, 0, 0, 0x3F, 0, 0, 0, 0x3F, 0, 0, 0x80, 0x3F, 0, 0, 0x80, 0x3F],
    };
    proof {
        assert(bytes@ =~= texel_bytes(pattern as int));
    }
    let mut i: usize = 0;
    while i < 16
        invariant
            i <= 16,
            bytes@ == texel_bytes(pattern as int),
            data@ == old(data)@ + texel_bytes(pattern as int).take(i as int),
        decreases 16 - i,
    {
        data.push(bytes[i]);
        proof {
            assert(data@ =~= old(data)@ + texel_bytes(pattern as int).take(i as int + 1));
        }
        i = i + 1;
    }
    proof {
        assert(texel_bytes(pattern as int).take(16) =~= texel_bytes(pattern as int));
    }
}

/// One singleton sub-bitmap of a default texture.
fn default_sub_bitmap(bitmap_type: BitmapType, pattern: usize) -> (r: AddBitmapBitmapParameter)
    ensures
        r.format == BitmapFormat::R32G32B32A32SFloat,
        r.bitmap_type == bitmap_type,
        r.resolution == (Resolution { width: 1, height: 1 }),
        r.mipmap_count == 0,
        r.data@.len() == (if bitmap_type is Cubemap { 96int } else { 16int }),
{
    let faces: usize = match bitmap_type {
        BitmapType::Cubemap => 6,
        _ => 1,
    };
    let mut data: Vec<u8> = Vec::new();
    let mut f: usize = 0;
    while f < faces
        invariant
            data@.len() == f * 16,
            f <= faces,
            faces == (if bitmap_type is Cubemap { 6int } else { 1int }),
        decreases faces - f,
    {
        push_texel(&mut data, pattern);
        f = f + 1;
    }
    AddBitmapBitmapParameter {
        format: BitmapFormat::R32G32B32A32SFloat,
        bitmap_type,
        resolution: Resolution { width: 1, height: 1 },
        mipmap_count: 0,
        data,
    }
}

/// The default-texture parameter for one dimensionality class: the four
/// singleton patterns under four plain sequences.
fn default_bitmap_parameter(bitmap_type: BitmapType) -> (r: AddBitmapParameter)
    requires
        bitmap_type == BitmapType::Dim2D || bitmap_type == (BitmapType::Dim3D { depth: 1 })
            || bitmap_type == BitmapType::Cubemap,
    ensures
        r.valid(),
        r.bitmaps@.len() == 4,
        forall|i: int| 0 <= i < 4 ==> (#[trigger] r.bitmaps@[i]).bitmap_type == bitmap_type,
        r.sequences@.len() == 4,
        forall|i: int| 0 <= i < 4
            ==> (#[trigger] r.sequences@[i]) matches BitmapSequence::Bitmap { .. },
{
    let mut bitmaps: Vec<AddBitmapBitmapParameter> = Vec::new();
    bitmaps.push(default_sub_bitmap(bitmap_type, 0));
    bitmaps.push(default_sub_bitmap(bitmap_type, 1));
    bitmaps.push(default_sub_bitmap(bitmap_type, 2));
    bitmaps.push(default_sub_bitmap(bitmap_type, 3));
    let mut sequences: Vec<BitmapSequence> = Vec::new();
    sequences.push(BitmapSequence::Bitmap { first: 0, count: 1 });
    sequences.push(BitmapSequence::Bitmap { first: 1, count: 1 });
    sequences.push(BitmapSequence::Bitmap { first: 2, count: 1 });
    sequences.push(BitmapSequence::Bitmap { first: 3, count: 1 });
    let r = AddBitmapParameter { bitmaps, sequences };
    proof {
        assert forall|i: int| 0 <= i < r.sequences@.len()
            implies crate::bitmap::sequence_valid(
                #[trigger] r.sequences@[i],
                r.bitmaps@.len() as nat,
            ) by {}
        assert forall|i: int| 0 <= i < r.bitmaps@.len()
            implies (#[trigger] r.bitmaps@[i]).entry_valid() by {
            let b = r.bitmaps@[i];
            assert(b.spec_highest_dimension() == 1);
            assert(crate::bitmap::floor_log2(1) == 0);
            assert(crate::bitmap::pow2(0) == 1);
            assert(b.spec_max_mipmap_count() == 0);
            assert(crate::bitmap::ldim(1, 0) == 1);
            assert(crate::bitmap::ceil_div(1, 1) == 1);
            assert(b.spec_level_depth(0) == 1);
            let bw = crate::bitmap::ceil_div(
                crate::bitmap::ldim(b.resolution.width as nat, 0),
                b.format.spec_block_pixel_length() as nat,
            );
            let bh = crate::bitmap::ceil_div(
                crate::bitmap::ldim(b.resolution.height as nat, 0),
                b.format.spec_block_pixel_length() as nat,
            );
            assert(bw == 1 && bh == 1);
            assert(b.spec_level_bytes(0) == bw * bh * b.spec_level_depth(0) * (
            b.format.spec_block_byte_size() as nat) * b.spec_faces());
            assert(bw * bh * b.spec_level_depth(0) * (b.format.spec_block_byte_size() as nat)
                * b.spec_faces() == (if b.bitmap_type is Cubemap { 96int } else { 16int }))
                by (nonlinear_arith)
                requires
                    bw == 1,
                    bh == 1,
                    b.spec_level_depth(0) == 1,
                    b.format.spec_block_byte_size() == 16,
                    b.spec_faces() == (if b.bitmap_type is Cubemap { 6nat } else { 1nat });
            assert(b.spec_total_bytes(1) == b.spec_total_bytes(0) + b.spec_level_bytes(0));
            assert(b.spec_total_bytes(0) == 0);
        }
    }
    r
}

impl Renderer {
    /// Create and register the three default textures, then designate them
    /// as the fallbacks for unset texture slots.
    fn populate_default_bitmaps(&mut self) -> (r: MResult<()>)
        requires
            old(self).bitmaps@.len() == 0,
            old(self).bitmaps.wf(),
        ensures
            r is Ok,
            final(self).bitmaps.wf(),
            (match final(self).bitmaps.spec_get(final(self).default_bitmaps.default_2d@) {
                Some(b) => default_bitmap_ok(b, BitmapType::Dim2D),
                None => false,
            }),
            (match final(self).bitmaps.spec_get(final(self).default_bitmaps.default_3d@) {
                Some(b) => default_bitmap_ok(b, BitmapType::Dim3D { depth: 1 }),
                None => false,
            }),
            (match final(self).bitmaps.spec_get(
                final(self).default_bitmaps.default_cubemap@,
            ) {
                Some(b) => default_bitmap_ok(b, BitmapType::Cubemap),
                None => false,
            }),
            final(self).shaders == old(self).shaders,
            final(self).geometries == old(self).geometries,
            final(self).skies == old(self).skies,
            final(self).bsps == old(self).bsps,
            final(self).player_viewports == old(self).player_viewports,
            final(self).swapchain == old(self).swapchain,
            final(self).current_bsp == old(self).current_bsp,
            final(self).vsync == old(self).vsync,
            final(self).msaa == old(self).msaa,
    {
        let p2d = default_bitmap_parameter(BitmapType::Dim2D);
        let p3d = default_bitmap_parameter(BitmapType::Dim3D { depth: 1 });
        let pcube = default_bitmap_parameter(BitmapType::Cubemap);
        proof {
            assert(self.bitmaps@.len() == 0);
            assert(crate::table::seq_get(self.bitmaps@, "~default_2d"@) is None);
        }
        let r1 = self.add_bitmap("~default_2d", p2d);
        proof {
            reveal_strlit("~default_2d");
            reveal_strlit("~default_3d");
            reveal_strlit("~default_cubemap");
            assert("~default_2d"@.len() == 11);
            assert("~default_3d"@.len() == 11);
            assert("~default_cubemap"@.len() == 16);
            assert("~default_2d"@[9] == '2' && "~default_3d"@[9] == '3');
            assert("~default_2d"@ != "~default_3d"@);
            assert("~default_2d"@ != "~default_cubemap"@);
            assert("~default_3d"@ != "~default_cubemap"@);
        }
        match r1 {
            Ok(()) => {},
            Err(_) => {
                proof {
                    assert(false);
                }
                return Err(Error::DataError { error: String::new() });
            },
        }
        let r2 = self.add_bitmap("~default_3d", p3d);
        match r2 {
            Ok(()) => {},
            Err(_) => {
                proof {
                    assert(false);
                }
                return Err(Error::DataError { error: String::new() });
            },
        }
        let r3 = self.add_bitmap("~default_cubemap", pcube);
        match r3 {
            Ok(()) => {},
            Err(_) => {
                proof {
                    assert(false);
                }
                return Err(Error::DataError { error: String::new() });
            },
        }
        self.default_bitmaps = DefaultBitmaps {
            default_2d: "~default_2d".to_owned(),
            default_3d: "~default_3d".to_owned(),
            default_cubemap: "~default_cubemap".to_owned(),
        };
        Ok(())
    }

    /// Initialize a renderer: a nonzero resolution and one to four
    /// viewports laid out on the layout grid, with default cameras and the
    /// default textures registered.
    pub fn new(parameters: RendererParameters) -> (r: MResult<Renderer>)
        ensures
            r is Ok <==> parameters.resolution.width > 0 && parameters.resolution.height > 0
                && 1 <= parameters.number_of_viewports <= 4,
            r matches Ok(rend) ==> {
                &&& rend.wf()
                &&& rend.player_viewports@.len() == parameters.number_of_viewports
                &&& forall|i: int| 0 <= i < rend.player_viewports@.len()
                    ==> viewport_rect_ok(
                        #[trigger] rend.player_viewports@[i],
                        parameters.number_of_viewports as int,
                        i,
                    )
                &&& rend.swapchain.resolution == parameters.resolution
                &&& rend.vsync == parameters.vsync
                &&& rend.msaa == parameters.msaa
                &&& rend.current_bsp is None
                &&& rend.shaders@.len() == 0
                &&& rend.skies@.len() == 0
                &&& rend.bsps@.len() == 0
                &&& rend.geometries@.len() == 0
            },
            r matches Err(e) ==> e is DataError,
    {
        if parameters.resolution.height == 0 || parameters.resolution.width == 0 {
            let mut m = String::new();
            push_str(&mut m, "resolution has 0 on one or more dimensions");
            return Err(Error::DataError { error: m });
        }
        let n = parameters.number_of_viewports;
        if n < 1 || n > 4 {
            let mut m = String::new();
            push_str(&mut m, "number of viewports is out of range; only 1-4 are supported");
            return Err(Error::DataError { error: m });
        }
        let half = FX_ONE / 2;
        let mut player_viewports: Vec<PlayerViewport> = Vec::new();
        let mut i: usize = 0;
        while i < n
            invariant
                i <= n,
                1 <= n <= 4,
                half == FX_ONE / 2,
                player_viewports@.len() == i,
                forall|k: int| 0 <= k < i
                    ==> viewport_rect_ok(
                        #[trigger] player_viewports@[k],
                        n as int,
                        k,
                    ),
                forall|k: int| 0 <= k < i
                    ==> camera_ok((#[trigger] player_viewports@[k]).camera),
            decreases n - i,
        {
            let (x, y, w, h): (i32, i32, i32, i32) = if n == 1 {
                (0, 0, FX_ONE, FX_ONE)
            } else if n == 2 {
                if i == 0 {
                    (0, 0, FX_ONE, half)
                } else {
                    (0, half, FX_ONE, half)
                }
            } else if n == 3 {
                if i == 0 {
                    (0, 0, FX_ONE, half)
                } else if i == 1 {
                    (0, half, half, half)
                } else {
                    (half, half, half, half)
                }
            } else {
                if i == 0 {
                    (0, 0, half, half)
                } else if i == 1 {
                    (half, 0, half, half)
                } else if i == 2 {
                    (0, half, half, half)
                } else {
                    (half, half, half, half)
                }
            };
            player_viewports.push(PlayerViewport {
                rel_x: x,
                rel_y: y,
                rel_width: w,
                rel_height: h,
                camera: Camera::default(),
            });
            proof {
                assert(layout_rect(n as int, i as int)
                    == (x as int, y as int, w as int, h as int));
                assert(viewport_rect_ok(player_viewports@[i as int], n as int, i as int));
            }
            i = i + 1;
        }
        let mut result = Renderer {
            swapchain: SwapchainState { resolution: parameters.resolution },
            vsync: parameters.vsync,
            msaa: parameters.msaa,
            player_viewports,
            bitmaps: Table::new(),
            shaders: Table::new(),
            geometries: Table::new(),
            skies: Table::new(),
            bsps: Table::new(),
            default_bitmaps: DefaultBitmaps {
                default_2d: String::new(),
                default_3d: String::new(),
                default_cubemap: String::new(),
            },
            current_bsp: None,
        };
        match result.populate_default_bitmaps() {
            Ok(()) => {},
            Err(e) => {
                return Err(e);
            },
        }
        proof {
            assert(result.wf());
        }
        Ok(result)
    }

    /// Clear all content without resetting the backend: every table is
    /// emptied, the current level unloaded, and the default textures
    /// recreated.
    pub fn reset(&mut self)
        requires
            old(self).wf(),
        ensures
            final(self).wf(),
            final(self).shaders@.len() == 0,
            final(self).skies@.len() == 0,
            final(self).bsps@.len() == 0,
            final(self).geometries@.len() == 0,
            final(self).current_bsp is None,
            final(self).player_viewports == old(self).player_viewports,
            final(self).swapchain == old(self).swapchain,
    {
        self.bitmaps.clear();
        self.shaders.clear();
        self.geometries.clear();
        self.skies.clear();
        self.bsps.clear();
        self.current_bsp = None;
        match self.populate_default_bitmaps() {
            Ok(()) => {},
            Err(_) => {
                proof {
                    assert(false);
                }
            },
        }
        proof {
            assert(self.wf());
        }
    }
}

/// The normalized rotation vector: each component scaled by one over the
/// vector's length, truncating toward zero; the default forward vector
/// when the input is zero.
pub open spec fn rot_norm_spec(rot: [i32; 3]) -> [i32; 3] {
    let n2 = (rot[0] as int) * (rot[0] as int) + (rot[1] as int) * (rot[1] as int) + (
    rot[2] as int) * (rot[2] as int);
    if n2 == 0 {
        [0i32, FX_ONE, 0i32]
    } else {
        let l = isqrt_spec(n2 as nat) as int;
        [
            tdiv((rot[0] as int) * (FX_ONE as int), l) as i32,
            tdiv((rot[1] as int) * (FX_ONE as int), l) as i32,
            tdiv((rot[2] as int) * (FX_ONE as int), l) as i32,
        ]
    }
}

/// Division truncating toward zero, for a positive divisor.
pub open spec fn tdiv(a: int, b: int) -> int {
    if a >= 0 {
        a / b
    } else {
        -((-a) / b)
    }
}

/// The square root is monotone.
proof fn lemma_isqrt_monotone(a: nat, b: nat)
    requires
        a <= b,
    ensures
        isqrt_spec(a) <= isqrt_spec(b),
{
    crate::fixed::lemma_isqrt_bounds(a);
    crate::fixed::lemma_isqrt_bounds(b);
    let x = isqrt_spec(a);
    let y = isqrt_spec(b);
    if y < x {
        assert((y + 1) * (y + 1) <= x * x) by (nonlinear_arith)
            requires y + 1 <= x;
    }
}

/// The square root of a square.
proof fn lemma_isqrt_square(x: nat)
    ensures
        isqrt_spec(x * x) == x,
{
    assert((x + 1) * (x + 1) > x * x) by (nonlinear_arith);
    crate::fixed::lemma_isqrt_unique(x * x, x);
}

/// Dividing by a larger positive divisor gives no larger quotient.
proof fn lemma_div_denominator(a: int, b: int, c: int)
    requires
        a >= 0,
        0 < b <= c,
    ensures
        a / c <= a / b,
{
    assert(a / c <= a / b) by (nonlinear_arith)
        requires a >= 0, 0 < b <= c;
}

/// Normalize one component.
fn normalize_component(x: i32, l: u64) -> (r: i32)
    requires
        l > 0,
        l >= (if x >= 0 { x as int } else { -(x as int) }),
    ensures
        r == tdiv((x as int) * (FX_ONE as int), l as int),
{
    if x >= 0 {
        let a: u64 = (x as u64) * (FX_ONE as u64);
        let q: u64 = a / l;
        proof {
            assert((x as int) * (FX_ONE as int) == a);
            assert(q <= FX_ONE as u64) by (nonlinear_arith)
                requires
                    a == (x as int) * (FX_ONE as int),
                    q == a as int / (l as int),
                    l >= x as int,
                    x >= 0,
                    l > 0,
                    FX_ONE == 65536;
        }
        q as i32
    } else {
        let nx: u64 = (-(x as i64)) as u64;
        let a: u64 = nx * (FX_ONE as u64);
        let q: u64 = a / l;
        proof {
            assert(nx == -(x as int));
            assert(q <= FX_ONE as u64) by (nonlinear_arith)
                requires
                    a == (nx as int) * (FX_ONE as int),
                    q == a as int / (l as int),
                    l >= nx as int,
                    l > 0,
                    FX_ONE == 65536;
            assert(tdiv((x as int) * (FX_ONE as int), l as int) == -(q as int));
        }
        -(q as i32)
    }
}

/// Normalize a rotation vector, falling back to the default forward vector
/// when the input is zero.
fn normalize_rotation(rot: [i32; 3]) -> (r: [i32; 3])
    ensures
        r == rot_norm_spec(rot),
{
    proof {
        crate::bsp::lemma_i32_prod_bound(rot[0] as int, rot[0] as int);
        crate::bsp::lemma_i32_prod_bound(rot[1] as int, rot[1] as int);
        crate::bsp::lemma_i32_prod_bound(rot[2] as int, rot[2] as int);
    }
    let x2: i128 = (rot[0] as i128) * (rot[0] as i128);
    let y2: i128 = (rot[1] as i128) * (rot[1] as i128);
    let z2: i128 = (rot[2] as i128) * (rot[2] as i128);
    proof {
        assert(x2 >= 0 && y2 >= 0 && z2 >= 0) by (nonlinear_arith)
            requires
                x2 == (rot[0] as int) * (rot[0] as int),
                y2 == (rot[1] as int) * (rot[1] as int),
                z2 == (rot[2] as int) * (rot[2] as int);
    }
    let n2: i128 = x2 + y2 + z2;
    if n2 == 0 {
        return [0, FX_ONE, 0];
    }
    let l: u64 = isqrt(n2 as u128);
    proof {
        crate::fixed::lemma_isqrt_bounds(n2 as nat);
        assert(l > 0) by {
            if l == 0 {
                assert((l + 1) * (l + 1) == 1) by (nonlinear_arith)
                    requires l == 0;
            }
        }
        lemma_abs_le_isqrt(rot[0] as int, x2 as int, n2 as int);
        lemma_abs_le_isqrt(rot[1] as int, y2 as int, n2 as int);
        lemma_abs_le_isqrt(rot[2] as int, z2 as int, n2 as int);
    }
    let rx = normalize_component(rot[0], l);
    let ry = normalize_component(rot[1], l);
    let rz = normalize_component(rot[2], l);
    [rx, ry, rz]
}

/// A vector component is no longer than the vector's length.
proof fn lemma_abs_le_isqrt(comp: int, c2: int, n2: int)
    requires
        c2 == comp * comp,
        c2 <= n2,
    ensures
        (if comp >= 0 { comp } else { -comp }) <= isqrt_spec(n2 as nat),
{
    let a = if comp >= 0 { comp } else { -comp };
    assert(a * a == c2) by (nonlinear_arith)
        requires c2 == comp * comp, a == comp || a == -comp;
    assert(a >= 0);
    lemma_isqrt_square(a as nat);
    lemma_isqrt_monotone((a * a) as nat, n2 as nat);
}

} // verus!
