//! The frame composer: from the renderer's state and the swapchain's
//! acquire outcome to one frame's worth of draw decisions — fog from the
//! camera's cluster, projection bounds, portal-culled draw commands in
//! opaque-then-transparent shader-grouped order, and split-screen bars.

use vstd::prelude::*;
use crate::bsp::BSPData;
use crate::fixed::FX_ONE;
use crate::level::BSP;
use crate::renderer::{viewport_rect_ok, Camera, Renderer};
use crate::shader::Shader;
use crate::sky::Sky;
use crate::table::Table;

verus! {

/// The near clipping plane: one sixteenth of a world unit.
pub const Z_NEAR: i32 = 4096;

/// What acquiring the next presentable image reported.
#[derive(Copy, Clone, Debug)]
pub enum AcquireOutcome {
    /// The swapchain no longer matches the surface; the frame is abandoned
    /// and the caller must rebuild.
    OutOfDate,
    /// An image was acquired; `suboptimal` asks for a rebuild after this
    /// frame.
    Acquired { image_index: usize, suboptimal: bool },
}

/// What presenting the finished frame reported.
#[derive(Copy, Clone, Debug)]
pub enum PresentOutcome {
    Presented,
    OutOfDate,
}

/// Fog parameters for one viewport's frame.
#[derive(Copy, Clone, Debug)]
pub struct FogData {
    pub color: [i32; 3],
    pub distance_from: i32,
    pub distance_to: i32,
    pub min_opacity: i32,
    pub max_opacity: i32,
}

impl Default for FogData {
    /// No fog at all.
    fn default() -> (r: Self)
        ensures
            r == spec_no_fog(),
    {
        FogData {
            color: [0, 0, 0],
            distance_from: 0,
            distance_to: FX_ONE,
            min_opacity: 0,
            max_opacity: 0,
        }
    }
}

/// The absence of fog: fully transparent everywhere.
pub open spec fn spec_no_fog() -> FogData {
    FogData { color: [0i32, 0i32, 0i32], distance_from: 0, distance_to: FX_ONE, min_opacity: 0, max_opacity: 0 }
}

/// The fog a camera sees: its cluster's sky's outdoor fog, or none when
/// fog is toggled off, the camera is outside every cluster, the cluster
/// has no sky, or the sky is not loaded.
pub open spec fn fog_spec(skies: Table<Sky>, bsp: BSP, cam: Camera) -> FogData {
    if !cam.fog {
        spec_no_fog()
    } else {
        match bsp.bsp_data.find_cluster_spec(cam.position) {
            None => spec_no_fog(),
            Some(c) => match bsp.bsp_data.clusters@[c as int].sky {
                None => spec_no_fog(),
                Some(name) => match skies.spec_get(name@) {
                    None => spec_no_fog(),
                    Some(sky) => FogData {
                        color: sky.outdoor_fog_color,
                        distance_from: sky.outdoor_fog_start_distance,
                        distance_to: sky.outdoor_fog_opaque_distance,
                        min_opacity: 0,
                        max_opacity: sky.outdoor_fog_maximum_density,
                    },
                },
            },
        }
    }
}

/// The far plane: the level's draw distance, tightened to the fog's opaque
/// distance when fog reaches full opacity, but never nearer than just past
/// the near plane.
pub open spec fn z_far_spec(draw_distance: int, fog: FogData) -> int {
    let zf = if fog.max_opacity == FX_ONE && fog.distance_to < draw_distance {
        fog.distance_to as int
    } else {
        draw_distance
    };
    if zf < Z_NEAR + FX_ONE {
        Z_NEAR + FX_ONE
    } else {
        zf
    }
}

/// Cluster `a` steps to cluster `b` through a portal listed on `a`: the
/// back side when `a` is the front, the front side otherwise.
pub open spec fn portal_connects(bsp: BSPData, a: int, b: int) -> bool {
    exists|k: int|
        0 <= k < bsp.clusters@[a].cluster_portals@.len() && {
            let portal = bsp.portals@[#[trigger] bsp.clusters@[a].cluster_portals@[k] as int];
            (portal.front_cluster == a && portal.back_cluster == b) || (portal.front_cluster
                != a && portal.front_cluster == b)
        }
}

/// A walk through the portal graph.
pub open spec fn is_cluster_path(bsp: BSPData, p: Seq<int>) -> bool {
    &&& p.len() >= 1
    &&& forall|i: int| 0 <= i < p.len() ==> 0 <= (#[trigger] p[i]) < bsp.clusters@.len()
    &&& forall|i: int| 0 <= i < p.len() - 1 ==> portal_connects(bsp, #[trigger] p[i], p[i + 1])
}

/// Cluster `c` can be seen from `start` through the portal graph.
pub open spec fn cluster_reachable(bsp: BSPData, start: int, c: int) -> bool {
    exists|p: Seq<int>|
        #[trigger] is_cluster_path(bsp, p) && p.first() == start && p.last() == c
}

/// In a closed marking, every endpoint of a path from a marked start is
/// marked.
proof fn lemma_path_marked(bsp: BSPData, visited: Seq<bool>, p: Seq<int>)
    requires
        visited.len() == bsp.clusters@.len(),
        is_cluster_path(bsp, p),
        visited[p.first()],
        forall|a: int, b: int|
            0 <= a < visited.len() && 0 <= b < visited.len() && visited[a] && #[trigger]
            portal_connects(bsp, a, b) ==> visited[b],
    ensures
        visited[p.last()],
    decreases p.len(),
{
    if p.len() > 1 {
        let q = p.drop_last();
        assert(forall|i: int| 0 <= i < q.len() ==> q[i] == p[i]);
        assert(is_cluster_path(bsp, q));
        lemma_path_marked(bsp, visited, q);
        assert(portal_connects(bsp, p[p.len() - 2], p[p.len() - 1]));
    }
}

/// The clusters visible from `start` through the portal graph, as a mask.
/// A cluster is marked exactly when some portal walk reaches it.
pub fn visible_clusters(bsp: &BSP, start: usize) -> (mask: Vec<bool>)
    requires
        bsp.wf(),
        start < bsp.bsp_data.clusters@.len(),
    ensures
        mask@.len() == bsp.bsp_data.clusters@.len(),
        forall|c: int| 0 <= c < mask@.len()
            ==> ((#[trigger] mask@[c]) <==> cluster_reachable(bsp.bsp_data, start as int, c)),
{
    let n = bsp.bsp_data.clusters.len();
    let mut visited: Vec<bool> = Vec::new();
    while visited.len() < n
        invariant
            visited@.len() <= n,
            forall|c: int| 0 <= c < visited@.len() ==> !(#[trigger] visited@[c]),
            crate::bsp::count_true(visited@) == 0,
        decreases n - visited@.len(),
    {
        let ghost prev = visited@;
        visited.push(false);
        proof {
            assert(visited@.drop_last() =~= prev);
        }
    }
    proof {
        crate::bsp::lemma_count_true_le_pub(visited@);
    }
    let ghost visited0 = visited@;
    let mut stack: Vec<usize> = Vec::new();
    visited.set(start, true);
    stack.push(start);
    proof {
        let p0: Seq<int> = seq![start as int];
        assert(is_cluster_path(bsp.bsp_data, p0));
        assert(cluster_reachable(bsp.bsp_data, start as int, start as int));
        assert(stack@[0] == start);
        assert(stack@.contains(start));
        crate::bsp::lemma_count_true_update_pub(visited0, start as int);
        crate::bsp::lemma_count_true_le_pub(visited0);
        assert forall|a: int, b: int|
            0 <= a < n && 0 <= b < n && visited@[a] && !stack@.contains(a as usize)
                && #[trigger] portal_connects(bsp.bsp_data, a, b)
            implies visited@[b] by {
            if a != start as int {
                assert(!visited0[a]);
                assert(false);
            }
        }
    }
    loop
        invariant
            bsp.wf(),
            start < n,
            n == bsp.bsp_data.clusters@.len(),
            visited@.len() == n,
            visited@[start as int],
            forall|j: int| 0 <= j < stack@.len()
                ==> (#[trigger] stack@[j]) < n && visited@[stack@[j] as int],
            forall|c: int| 0 <= c < n && #[trigger] visited@[c]
                ==> cluster_reachable(bsp.bsp_data, start as int, c),
            forall|a: int, b: int|
                0 <= a < n && 0 <= b < n && visited@[a] && !stack@.contains(a as usize)
                    && #[trigger] portal_connects(bsp.bsp_data, a, b) ==> visited@[b],
            crate::bsp::count_true(visited@) <= n,
        ensures
            stack@.len() == 0,
            visited@.len() == n,
            visited@[start as int],
            forall|c: int| 0 <= c < n && #[trigger] visited@[c]
                ==> cluster_reachable(bsp.bsp_data, start as int, c),
            forall|a: int, b: int|
                0 <= a < n && 0 <= b < n && visited@[a]
                    && #[trigger] portal_connects(bsp.bsp_data, a, b) ==> visited@[b],
        decreases (n - crate::bsp::count_true(visited@)), stack@.len(),
    {
        if stack.len() == 0 {
            proof {
                assert forall|a: int, b: int|
                    0 <= a < n && 0 <= b < n && visited@[a]
                        && #[trigger] portal_connects(bsp.bsp_data, a, b)
                    implies visited@[b] by {
                    assert(!stack@.contains(a as usize));
                }
            }
            break;
        }
        let ghost prestack = stack@;
        let c = stack[stack.len() - 1];
        stack.pop();
        proof {
            assert(stack@ =~= prestack.drop_last());
        }
        proof {
            assert forall|a: usize| #[trigger] prestack.contains(a) && !stack@.contains(a)
                implies a == c by {
                let w = choose|w: int| 0 <= w < prestack.len() && prestack[w] == a;
                if w < prestack.len() - 1 {
                    assert(stack@[w] == a);
                }
            }
        }
        let cluster = &bsp.bsp_data.clusters[c];
        let mut k: usize = 0;
        let ghost mark0 = visited@;
        while k < cluster.cluster_portals.len()
            invariant
                bsp.wf(),
                start < n,
                n == bsp.bsp_data.clusters@.len(),
                c < n,
                *cluster == bsp.bsp_data.clusters@[c as int],
                0 <= k <= cluster.cluster_portals@.len(),
                visited@.len() == n,
                visited@[start as int],
                visited@[c as int],
                forall|j: int| 0 <= j < stack@.len()
                    ==> (#[trigger] stack@[j]) < n && visited@[stack@[j] as int],
                forall|c2: int| 0 <= c2 < n && #[trigger] visited@[c2]
                    ==> cluster_reachable(bsp.bsp_data, start as int, c2),
                forall|a: int, b: int|
                    0 <= a < n && 0 <= b < n && visited@[a] && a != c as int
                        && !stack@.contains(a as usize)
                        && #[trigger] portal_connects(bsp.bsp_data, a, b) ==> visited@[b],
                forall|k2: int, b: int|
                    0 <= k2 < k && 0 <= b < n && {
                        let portal = bsp.bsp_data.portals@[(
                        #[trigger] cluster.cluster_portals@[k2]) as int];
                        (portal.front_cluster == c as int && portal.back_cluster == b) || (
                        portal.front_cluster != c as int && portal.front_cluster == b)
                    } ==> #[trigger] visited@[b],
                crate::bsp::count_true(visited@) <= n,
                forall|c2: int| 0 <= c2 < n && mark0[c2] ==> #[trigger] visited@[c2],
                crate::bsp::count_true(mark0) <= crate::bsp::count_true(visited@),
                crate::bsp::count_true(visited@) == crate::bsp::count_true(mark0)
                    ==> stack@ == prestack.drop_last(),
                mark0 == visited@ || crate::bsp::count_true(mark0)
                    < crate::bsp::count_true(visited@),
            decreases cluster.cluster_portals@.len() - k,
        {
            proof {
                assert(bsp.bsp_data.clusters@[c as int].cluster_portals@[k as int]
                    < bsp.bsp_data.portals@.len());
            }
            let p = cluster.cluster_portals[k];
            let portal = bsp.bsp_data.portals[p];
            proof {
                assert(bsp.bsp_data.portals@[p as int].front_cluster
                    < bsp.bsp_data.clusters@.len());
                assert(bsp.bsp_data.portals@[p as int].back_cluster
                    < bsp.bsp_data.clusters@.len());
            }
            let other: usize = if portal.front_cluster == c {
                portal.back_cluster
            } else {
                portal.front_cluster
            };
            if !visited[other] {
                let ghost prev = visited@;
                let ghost prevstack = stack@;
                visited.set(other, true);
                stack.push(other);
                proof {
                    crate::bsp::lemma_count_true_update_pub(prev, other as int);
                    crate::bsp::lemma_count_true_le_pub(visited@);
                    assert forall|x: usize| #[trigger] prevstack.contains(x)
                        implies stack@.contains(x) by {
                        let w = choose|w: int| 0 <= w < prevstack.len() && prevstack[w] == x;
                        assert(stack@[w] == x);
                    }
                    assert(stack@[stack@.len() - 1] == other);
                    assert(stack@.contains(other));
                    assert(cluster_reachable(bsp.bsp_data, start as int, c as int));
                    let path = choose|path: Seq<int>|
                        #[trigger] is_cluster_path(bsp.bsp_data, path) && path.first()
                            == start as int && path.last() == c as int;
                    let path2 = path.push(other as int);
                    assert(portal_connects(bsp.bsp_data, c as int, other as int));
                    assert(forall|i: int| 0 <= i < path.len() ==> path2[i] == path[i]);
                    assert(path2.last() == other as int);
                    assert(is_cluster_path(bsp.bsp_data, path2));
                    assert(cluster_reachable(bsp.bsp_data, start as int, other as int));
                    assert forall|c2: int| 0 <= c2 < n && #[trigger] visited@[c2]
                        implies cluster_reachable(bsp.bsp_data, start as int, c2) by {
                        if c2 != other as int {
                            assert(prev[c2]);
                        }
                    }
                }
            } else {
                proof {
                    if portal.front_cluster == c {
                        assert(visited@[portal.back_cluster as int]);
                    } else {
                        assert(visited@[portal.front_cluster as int]);
                    }
                }
            }
            k = k + 1;
        }
        proof {
            assert forall|a: int, b: int|
                0 <= a < n && 0 <= b < n && visited@[a] && !stack@.contains(a as usize)
                    && #[trigger] portal_connects(bsp.bsp_data, a, b)
                implies visited@[b] by {
                if a == c as int {
                    let k2 = choose|k2: int|
                        0 <= k2 < bsp.bsp_data.clusters@[a].cluster_portals@.len() && {
                            let portal = bsp.bsp_data.portals@[(
                            #[trigger] bsp.bsp_data.clusters@[a].cluster_portals@[k2]) as int];
                            (portal.front_cluster == a && portal.back_cluster == b) || (
                            portal.back_cluster == a && portal.front_cluster == b)
                        };
                    assert(visited@[b]);
                }
            }
        }
    }
    proof {
        assert forall|c: int| 0 <= c < n
            implies ((#[trigger] visited@[c]) <==> cluster_reachable(
                bsp.bsp_data,
                start as int,
                c,
            )) by {
            if cluster_reachable(bsp.bsp_data, start as int, c) && !visited@[c] {
                let p = choose|p: Seq<int>|
                    #[trigger] is_cluster_path(bsp.bsp_data, p) && p.first() == start as int
                        && p.last() == c;
                lemma_path_marked(bsp.bsp_data, visited@, p);
            }
        }
    }
    visited
}

/// One draw call of a frame.
#[derive(Clone, Debug)]
pub struct DrawCommand {
    /// Which geometry batch to bind.
    pub geometry: usize,

    /// Draw only this cluster's triangles of the batch; `None` draws the
    /// whole batch (no culling when the camera is outside every cluster).
    pub cluster: Option<usize>,

    /// The previous command used the same shader, so its pipeline and
    /// descriptors stay bound.
    pub repeat_shader: bool,

    /// The lightmap sub-bitmap to bind, or the white fallback.
    pub lightmap: Option<usize>,
}

/// The culled draws of batch `g`: one per visible cluster that holds
/// triangles of the batch, in cluster order.
pub open spec fn clusters_draws(bsp: BSP, mask: Seq<bool>, g: int, upto: int) -> Seq<
    (usize, Option<usize>),
>
    decreases upto,
{
    if upto <= 0 {
        Seq::empty()
    } else {
        clusters_draws(bsp, mask, g, upto - 1) + (if mask[upto - 1]
            && bsp.cluster_index_buffers@[upto - 1]@[g] is Some {
            seq![(g as usize, Some((upto - 1) as usize))]
        } else {
            Seq::empty()
        })
    }
}

/// The draws of batch `g`: culled per cluster when the camera's cluster is
/// known, the whole batch otherwise.
pub open spec fn geom_draws(bsp: BSP, mask_opt: Option<Seq<bool>>, g: int) -> Seq<
    (usize, Option<usize>),
> {
    match mask_opt {
        None => seq![(g as usize, None::<usize>)],
        Some(mask) => clusters_draws(bsp, mask, g, bsp.bsp_data.clusters@.len() as int),
    }
}

/// The draws of one pass over the first `upto` batches of the
/// shader-sorted order, keeping only batches of the pass's transparency.
pub open spec fn pass_draws(
    bsp: BSP,
    shaders: Table<Shader>,
    mask_opt: Option<Seq<bool>>,
    upto: int,
    transparent: bool,
) -> Seq<(usize, Option<usize>)>
    decreases upto,
{
    if upto <= 0 {
        Seq::empty()
    } else {
        let prev = pass_draws(bsp, shaders, mask_opt, upto - 1, transparent);
        let g = bsp.geometry_indices_sorted_by_material@[upto - 1];
        match shaders.spec_get(bsp.geometries@[g as int].shader@) {
            Some(sh) => if sh.shader_type.spec_is_transparent() == transparent {
                prev + geom_draws(bsp, mask_opt, g as int)
            } else {
                prev
            },
            None => prev,
        }
    }
}

/// The whole draw list of one viewport: all opaque batches, then all
/// transparent ones, in shader-sorted order.
pub open spec fn viewport_draws_spec(
    bsp: BSP,
    shaders: Table<Shader>,
    mask_opt: Option<Seq<bool>>,
) -> Seq<(usize, Option<usize>)> {
    pass_draws(
        bsp,
        shaders,
        mask_opt,
        bsp.geometry_indices_sorted_by_material@.len() as int,
        false,
    ) + pass_draws(
        bsp,
        shaders,
        mask_opt,
        bsp.geometry_indices_sorted_by_material@.len() as int,
        true,
    )
}

/// Append the culled draws of one batch.
fn push_geom_draws(
    bsp: &BSP,
    g: usize,
    mask_opt: &Option<Vec<bool>>,
    cam_lightmaps: bool,
    draws: &mut Vec<DrawCommand>,
    Ghost(pairs): Ghost<Seq<(usize, Option<usize>)>>,
)
    requires
        bsp.wf(),
        g < bsp.geometries@.len(),
        (mask_opt matches Some(m) ==> m@.len() == bsp.bsp_data.clusters@.len()),
        old(draws)@.len() == pairs.len(),
        forall|i: int| 0 <= i < pairs.len() ==> {
            &&& (#[trigger] old(draws)@[i]).geometry == pairs[i].0
            &&& old(draws)@[i].cluster == pairs[i].1
            &&& pairs[i].0 < bsp.geometries@.len()
        },
    ensures
        final(draws)@.len() == pairs.len() + geom_draws(
            *bsp,
            match mask_opt {
                Some(m) => Some(m@),
                None => None,
            },
            g as int,
        ).len(),
        ({
            let newpairs = pairs + geom_draws(
                *bsp,
                match mask_opt {
                    Some(m) => Some(m@),
                    None => None,
                },
                g as int,
            );
            forall|i: int| 0 <= i < newpairs.len() ==> {
                &&& (#[trigger] final(draws)@[i]).geometry == newpairs[i].0
                &&& final(draws)@[i].cluster == newpairs[i].1
                &&& newpairs[i].0 < bsp.geometries@.len()
            }
        }),
        forall|i: int| pairs.len() <= i < final(draws)@.len() ==> {
            &&& (#[trigger] final(draws)@[i]).lightmap == (if cam_lightmaps {
                bsp.geometries@[g as int].lightmap_index
            } else {
                None::<usize>
            })
            &&& final(draws)@[i].geometry == g
        },
        forall|i: int| 0 <= i < pairs.len()
            ==> (#[trigger] final(draws)@[i]).repeat_shader == old(draws)@[i].repeat_shader
                && final(draws)@[i].lightmap == old(draws)@[i].lightmap,
        forall|i: int| pairs.len() < i < final(draws)@.len()
            ==> (#[trigger] final(draws)@[i]).repeat_shader,
        final(draws)@.len() > pairs.len() ==> final(draws)@[pairs.len() as int].repeat_shader
            == (pairs.len() > 0 && bsp.geometries@[pairs[pairs.len() - 1].0 as int].shader@
                == bsp.geometries@[g as int].shader@),
{
    let lightmap: Option<usize> = if cam_lightmaps {
        bsp.geometries[g].lightmap_index
    } else {
        None
    };
    let first_repeat: bool = if draws.len() > 0 {
        let prev_g = draws[draws.len() - 1].geometry;
        bsp.geometries[prev_g].shader == bsp.geometries[g].shader
    } else {
        false
    };
    match mask_opt {
        None => {
            draws.push(DrawCommand { geometry: g, cluster: None, repeat_shader: first_repeat, lightmap });
        },
        Some(mask) => {
            let n = bsp.cluster_index_buffers.len();
            let mut c: usize = 0;
            let mut emitted: bool = false;
            while c < n
                invariant
                    bsp.wf(),
                    g < bsp.geometries@.len(),
                    n == bsp.bsp_data.clusters@.len(),
                    mask@.len() == n,
                    0 <= c <= n,
                    lightmap == (if cam_lightmaps {
                        bsp.geometries@[g as int].lightmap_index
                    } else {
                        None::<usize>
                    }),
                    draws@.len() == pairs.len() + clusters_draws(*bsp, mask@, g as int, c as int).len(),
                    ({
                        let newpairs = pairs + clusters_draws(*bsp, mask@, g as int, c as int);
                        forall|i: int| 0 <= i < newpairs.len() ==> {
                            &&& (#[trigger] draws@[i]).geometry == newpairs[i].0
                            &&& draws@[i].cluster == newpairs[i].1
                            &&& newpairs[i].0 < bsp.geometries@.len()
                        }
                    }),
                    forall|i: int| 0 <= i < pairs.len()
                        ==> (#[trigger] draws@[i]).repeat_shader
                            == old(draws)@[i].repeat_shader
                            && draws@[i].lightmap == old(draws)@[i].lightmap,
                    forall|i: int| pairs.len() <= i < draws@.len() ==> {
                        &&& (#[trigger] draws@[i]).lightmap == lightmap
                        &&& draws@[i].geometry == g
                    },
                    forall|i: int| pairs.len() < i < draws@.len()
                        ==> (#[trigger] draws@[i]).repeat_shader,
                    emitted <==> draws@.len() > pairs.len(),
                    draws@.len() > pairs.len() ==> draws@[pairs.len() as int].repeat_shader
                        == (pairs.len() > 0
                            && bsp.geometries@[pairs[pairs.len() - 1].0 as int].shader@
                                == bsp.geometries@[g as int].shader@),
                    first_repeat == (pairs.len() > 0
                        && bsp.geometries@[pairs[pairs.len() - 1].0 as int].shader@
                            == bsp.geometries@[g as int].shader@),
                decreases n - c,
            {
                let has = mask[c] && bsp.cluster_index_buffers[c][g].is_some();
                proof {
                    assert(clusters_draws(*bsp, mask@, g as int, c as int + 1)
                        == clusters_draws(*bsp, mask@, g as int, c as int) + (if mask@[c as int]
                            && bsp.cluster_index_buffers@[c as int]@[g as int] is Some {
                            seq![(g, Some(c))]
                        } else {
                            Seq::<(usize, Option<usize>)>::empty()
                        }));
                }
                if has {
                    let repeat = if emitted {
                        true
                    } else {
                        first_repeat
                    };
                    draws.push(DrawCommand { geometry: g, cluster: Some(c), repeat_shader: repeat, lightmap });
                    emitted = true;
                }
                c = c + 1;
            }
        },
    }
}


/// A filled rectangle in 16.16 fractions of the render target, as the
/// generic colored-box primitive draws it.
#[derive(Copy, Clone, Debug)]
pub struct ColorBox {
    pub x: i64,
    pub y: i64,
    pub width: i64,
    pub height: i64,
    pub color: [i32; 3],
}

/// The thickness scale of the split-screen bars: resolution over the
/// 640x480 baseline, floored at one.
pub open spec fn bar_scale_spec(w: int, h: int) -> int {
    let a = w * (FX_ONE as int) / 640;
    let b = h * (FX_ONE as int) / 480;
    let m = if a < b { a } else { b };
    if m < FX_ONE as int { FX_ONE as int } else { m }
}

/// The split-screen bars: none for one viewport; a horizontal bar across
/// the middle; and for three or four viewports a vertical bar over the
/// lower half or the whole height. Thickness scales with resolution, two
/// device pixels at the baseline.
pub open spec fn split_bars_spec(count: int, w: int, h: int) -> Seq<ColorBox> {
    if count <= 1 {
        Seq::empty()
    } else {
        let scale = bar_scale_spec(w, h);
        let th_h = 2 * scale / h;
        let th_v = 2 * scale / w;
        let half = FX_ONE as int / 2;
        let bar1 = ColorBox {
            x: 0,
            y: (half - th_h / 2) as i64,
            width: FX_ONE as i64,
            height: th_h as i64,
            color: [0i32, 0i32, 0i32],
        };
        if count > 2 {
            let y0: int = if count == 3 { half } else { 0 };
            let hh: int = if count == 3 { half } else { FX_ONE as int };
            let bar2 = ColorBox {
                x: (half - th_v / 2) as i64,
                y: y0 as i64,
                width: th_v as i64,
                height: hh as i64,
                color: [0i32, 0i32, 0i32],
            };
            seq![bar1, bar2]
        } else {
            seq![bar1]
        }
    }
}

/// Compute the split-screen bars for a viewport count and resolution.
fn compute_split_bars(count: usize, w: u32, h: u32) -> (r: Vec<ColorBox>)
    requires
        w > 0,
        h > 0,
        count <= 4,
    ensures
        r@ == split_bars_spec(count as int, w as int, h as int),
{
    let mut r: Vec<ColorBox> = Vec::new();
    if count <= 1 {
        proof {
            assert(r@ =~= split_bars_spec(count as int, w as int, h as int));
        }
        return r;
    }
    proof {
        assert((w as int) * (FX_ONE as int) <= 0x1_0000_0000_0000u64) by (nonlinear_arith)
            requires w <= 0xFFFF_FFFFu32, FX_ONE == 65536;
        assert((h as int) * (FX_ONE as int) <= 0x1_0000_0000_0000u64) by (nonlinear_arith)
            requires h <= 0xFFFF_FFFFu32, FX_ONE == 65536;
    }
    let a: u64 = (w as u64) * (FX_ONE as u64) / 640;
    let b: u64 = (h as u64) * (FX_ONE as u64) / 480;
    let m: u64 = if a < b { a } else { b };
    let scale: u64 = if m < (FX_ONE as u64) { FX_ONE as u64 } else { m };
    let th_h: u64 = 2 * scale / (h as u64);
    let th_v: u64 = 2 * scale / (w as u64);
    let half: i64 = (FX_ONE as i64) / 2;
    proof {
        assert(scale == bar_scale_spec(w as int, h as int));
    }
    let bar1 = ColorBox {
        x: 0,
        y: half - (th_h as i64) / 2,
        width: FX_ONE as i64,
        height: th_h as i64,
        color: [0, 0, 0],
    };
    r.push(bar1);
    if count > 2 {
        let (y0, hh): (i64, i64) = if count == 3 {
            (half, half)
        } else {
            (0, FX_ONE as i64)
        };
        let bar2 = ColorBox {
            x: half - (th_v as i64) / 2,
            y: y0,
            width: th_v as i64,
            height: hh,
            color: [0, 0, 0],
        };
        r.push(bar2);
        proof {
            assert(r@ =~= split_bars_spec(count as int, w as int, h as int));
        }
    } else {
        proof {
            assert(r@ =~= split_bars_spec(count as int, w as int, h as int));
        }
    }
    r
}

/// A relative 16.16 coordinate scaled to device pixels.
pub open spec fn px_spec(rel: int, size: int) -> int {
    rel * size / (FX_ONE as int)
}

/// Scale a relative coordinate to device pixels.
fn to_px(rel: i32, size: u32) -> (r: u32)
    requires
        0 <= rel <= FX_ONE,
    ensures
        r == px_spec(rel as int, size as int),
{
    proof {
        assert(0 <= (rel as int) * (size as int) <= 0x1_0000_0000_0000) by (nonlinear_arith)
            requires 0 <= rel <= FX_ONE, 0 <= size <= 0xFFFF_FFFFu32, FX_ONE == 65536;
    }
    let v: u64 = (rel as u64) * (size as u64) / (FX_ONE as u64);
    proof {
        assert((rel as int) * (size as int) / (FX_ONE as int) <= size as int)
            by (nonlinear_arith)
            requires 0 <= rel <= FX_ONE, size >= 0, FX_ONE == 65536;
    }
    v as u32
}

/// One viewport's share of the frame: its pixel rectangle, camera, fog and
/// projection bounds, and its draw list.
pub struct ViewportFrame {
    pub x: u32,
    pub y: u32,
    pub width: u32,
    pub height: u32,
    pub camera: Camera,
    pub fog: FogData,
    /// The full-viewport quad clearing the target to the fog color before
    /// any geometry draws, using the generic colored-box primitive.
    pub background: ColorBox,
    pub z_near: i32,
    pub z_far: i32,
    pub draws: Vec<DrawCommand>,
}

/// The clear quad of a viewport: the whole viewport in the fog's color.
pub open spec fn background_spec(fog: FogData) -> ColorBox {
    ColorBox { x: 0, y: 0, width: FX_ONE as i64, height: FX_ONE as i64, color: fog.color }
}

/// Everything one composed frame tells the backend to do.
pub struct Frame {
    /// The acquired swapchain image to blit into and present.
    pub image_index: usize,

    /// The viewports, in order.
    pub viewports: Vec<ViewportFrame>,

    /// The split-screen divider bars, drawn over the whole target.
    pub split_bars: Vec<ColorBox>,

    /// Resolve the multisampled color target before the final blit.
    pub msaa_resolve: bool,
}

/// The mask of clusters visible from `start`.
pub open spec fn reach_mask(bsp: BSP, start: int) -> Seq<bool> {
    Seq::new(
        bsp.bsp_data.clusters@.len() as nat,
        |c: int| cluster_reachable(bsp.bsp_data, start, c),
    )
}

/// The camera-cluster mask of one viewport, when the camera is inside the
/// partition.
pub open spec fn mask_opt_spec(bsp: BSP, cam: Camera) -> Option<Seq<bool>> {
    match bsp.bsp_data.find_cluster_spec(cam.position) {
        None => None,
        Some(c) => Some(reach_mask(bsp, c as int)),
    }
}

/// One viewport's frame is composed right for camera `cam` against level
/// `bsp`: fog from the camera's cluster, the far plane from draw distance
/// and fog, and the draw list exactly as the culled, shader-sorted,
/// opaque-then-transparent order dictates, with repeat-shader flags and
/// lightmap choices per command.
pub open spec fn viewport_frame_ok(
    vpf: ViewportFrame,
    skies: Table<Sky>,
    shaders: Table<Shader>,
    bsp: BSP,
    cam: Camera,
) -> bool {
    let pairs = viewport_draws_spec(bsp, shaders, mask_opt_spec(bsp, cam));
    &&& vpf.camera == cam
    &&& vpf.fog == fog_spec(skies, bsp, cam)
    &&& vpf.background == background_spec(vpf.fog)
    &&& vpf.z_near == Z_NEAR
    &&& vpf.z_far == z_far_spec(bsp.draw_distance as int, vpf.fog)
    &&& vpf.draws@.len() == pairs.len()
    &&& forall|i: int| 0 <= i < pairs.len() ==> {
        &&& (#[trigger] vpf.draws@[i]).geometry == pairs[i].0
        &&& vpf.draws@[i].cluster == pairs[i].1
        &&& vpf.draws@[i].lightmap == (if cam.lightmaps {
            bsp.geometries@[pairs[i].0 as int].lightmap_index
        } else {
            None::<usize>
        })
        &&& vpf.draws@[i].repeat_shader == (i > 0
            && bsp.geometries@[pairs[i - 1].0 as int].shader@
                == bsp.geometries@[pairs[i].0 as int].shader@)
    }
}

/// Compose the draw list of one viewport.
fn compose_viewport_draws(
    bsp: &BSP,
    shaders: &Table<Shader>,
    mask_opt: &Option<Vec<bool>>,
    cam_lightmaps: bool,
) -> (draws: Vec<DrawCommand>)
    requires
        bsp.wf(),
        (mask_opt matches Some(m) ==> m@.len() == bsp.bsp_data.clusters@.len()),
    ensures
        ({
            let pairs = viewport_draws_spec(
                *bsp,
                *shaders,
                match mask_opt {
                    Some(m) => Some(m@),
                    None => None,
                },
            );
            &&& draws@.len() == pairs.len()
            &&& forall|i: int| 0 <= i < pairs.len() ==> {
                &&& (#[trigger] draws@[i]).geometry == pairs[i].0
                &&& draws@[i].cluster == pairs[i].1
                &&& draws@[i].lightmap == (if cam_lightmaps {
                    bsp.geometries@[pairs[i].0 as int].lightmap_index
                } else {
                    None::<usize>
                })
                &&& draws@[i].repeat_shader == (i > 0
                    && bsp.geometries@[pairs[i - 1].0 as int].shader@
                        == bsp.geometries@[pairs[i].0 as int].shader@)
            }
        }),
{
    let ghost mo: Option<Seq<bool>> = match mask_opt {
        Some(m) => Some(m@),
        None => None,
    };
    let mut draws: Vec<DrawCommand> = Vec::new();
    let ghost order = bsp.geometry_indices_sorted_by_material@;
    let n = bsp.geometry_indices_sorted_by_material.len();
    let mut pass: usize = 0;
    let ghost mut base: Seq<(usize, Option<usize>)> = Seq::empty();
    while pass < 2
        invariant
            bsp.wf(),
            (mask_opt matches Some(m) ==> m@.len() == bsp.bsp_data.clusters@.len()),
            mo == (match mask_opt {
                Some(m) => Some::<Seq<bool>>(m@),
                None => None::<Seq<bool>>,
            }),
            order == bsp.geometry_indices_sorted_by_material@,
            n == order.len(),
            pass <= 2,
            base == (if pass == 0 {
                Seq::<(usize, Option<usize>)>::empty()
            } else {
                pass_draws(*bsp, *shaders, mo, n as int, false)
            }),
            ({
                let pairs = if pass == 0 {
                    Seq::<(usize, Option<usize>)>::empty()
                } else if pass == 1 {
                    base
                } else {
                    base + pass_draws(*bsp, *shaders, mo, n as int, true)
                };
                &&& draws@.len() == pairs.len()
                &&& forall|i: int| 0 <= i < pairs.len() ==> {
                    &&& (#[trigger] draws@[i]).geometry == pairs[i].0
                    &&& draws@[i].cluster == pairs[i].1
                    &&& pairs[i].0 < bsp.geometries@.len()
                    &&& draws@[i].lightmap == (if cam_lightmaps {
                        bsp.geometries@[pairs[i].0 as int].lightmap_index
                    } else {
                        None::<usize>
                    })
                    &&& draws@[i].repeat_shader == (i > 0
                        && bsp.geometries@[pairs[i - 1].0 as int].shader@
                            == bsp.geometries@[pairs[i].0 as int].shader@)
                }
            }),
        decreases 2 - pass,
    {
        let transparent = pass == 1;
        let ghost passbase = draws@.len() as int;
        let ghost basepairs = if pass == 0 {
            Seq::<(usize, Option<usize>)>::empty()
        } else {
            base
        };
        let mut oi: usize = 0;
        while oi < n
            invariant
                bsp.wf(),
                (mask_opt matches Some(m) ==> m@.len() == bsp.bsp_data.clusters@.len()),
                mo == (match mask_opt {
                    Some(m) => Some::<Seq<bool>>(m@),
                    None => None::<Seq<bool>>,
                }),
                order == bsp.geometry_indices_sorted_by_material@,
                n == order.len(),
                pass < 2,
                transparent == (pass == 1),
                basepairs == (if pass == 0 {
                    Seq::<(usize, Option<usize>)>::empty()
                } else {
                    pass_draws(*bsp, *shaders, mo, n as int, false)
                }),
                0 <= oi <= n,
                ({
                    let pairs = basepairs + pass_draws(*bsp, *shaders, mo, oi as int, transparent);
                    &&& draws@.len() == pairs.len()
                    &&& forall|i: int| 0 <= i < pairs.len() ==> {
                        &&& (#[trigger] draws@[i]).geometry == pairs[i].0
                        &&& draws@[i].cluster == pairs[i].1
                        &&& pairs[i].0 < bsp.geometries@.len()
                        &&& draws@[i].lightmap == (if cam_lightmaps {
                            bsp.geometries@[pairs[i].0 as int].lightmap_index
                        } else {
                            None::<usize>
                        })
                        &&& draws@[i].repeat_shader == (i > 0
                            && bsp.geometries@[pairs[i - 1].0 as int].shader@
                                == bsp.geometries@[pairs[i].0 as int].shader@)
                    }
                }),
            decreases n - oi,
        {
            let g = bsp.geometry_indices_sorted_by_material[oi];
            proof {
                assert(order[oi as int] == g);
                assert(order.contains(g));
                assert(g < bsp.geometries@.len());
            }
            let ghost prepairs = basepairs + pass_draws(*bsp, *shaders, mo, oi as int, transparent);
            match shaders.get(bsp.geometries[g].shader.as_str()) {
                Some(sh) => {
                    if sh.shader_type.is_transparent() == transparent {
                        let ghost predraws = draws@;
                        push_geom_draws(
                            bsp,
                            g,
                            mask_opt,
                            cam_lightmaps,
                            &mut draws,
                            Ghost(prepairs),
                        );
                        proof {
                            assert(pass_draws(*bsp, *shaders, mo, oi as int + 1, transparent)
                                == pass_draws(*bsp, *shaders, mo, oi as int, transparent)
                                    + geom_draws(*bsp, mo, g as int));
                            assert(basepairs + pass_draws(
                                *bsp,
                                *shaders,
                                mo,
                                oi as int + 1,
                                transparent,
                            ) =~= prepairs + geom_draws(*bsp, mo, g as int));
                            let newpairs = prepairs + geom_draws(*bsp, mo, g as int);
                            assert forall|i: int| 0 <= i < newpairs.len() implies {
                                &&& (#[trigger] draws@[i]).geometry == newpairs[i].0
                                &&& draws@[i].cluster == newpairs[i].1
                                &&& newpairs[i].0 < bsp.geometries@.len()
                                &&& draws@[i].lightmap == (if cam_lightmaps {
                                    bsp.geometries@[newpairs[i].0 as int].lightmap_index
                                } else {
                                    None::<usize>
                                })
                                &&& draws@[i].repeat_shader == (i > 0
                                    && bsp.geometries@[newpairs[i - 1].0 as int].shader@
                                        == bsp.geometries@[newpairs[i].0 as int].shader@)
                            } by {
                                if i < prepairs.len() {
                                    assert(draws@[i].repeat_shader
                                        == predraws[i].repeat_shader);
                                    assert(draws@[i].lightmap == predraws[i].lightmap);
                                    assert(newpairs[i] == prepairs[i]);
                                } else {
                                    assert(draws@[i].geometry == g);
                                    assert(newpairs[i].0 == g);
                                    assert(draws@[i].lightmap == (if cam_lightmaps {
                                        bsp.geometries@[g as int].lightmap_index
                                    } else {
                                        None::<usize>
                                    }));
                                    if i == prepairs.len() {
                                        if prepairs.len() > 0 {
                                            assert(newpairs[i - 1] == prepairs[i - 1]);
                                        }
                                    } else {
                                        assert(draws@[i].repeat_shader);
                                        assert(draws@[i - 1].geometry == g);
                                        assert(newpairs[i - 1].0 == g);
                                    }
                                }
                            }
                        }
                    } else {
                        proof {
                            assert(pass_draws(*bsp, *shaders, mo, oi as int + 1, transparent)
                                == pass_draws(*bsp, *shaders, mo, oi as int, transparent));
                        }
                    }
                },
                None => {
                    proof {
                        assert(pass_draws(*bsp, *shaders, mo, oi as int + 1, transparent)
                            == pass_draws(*bsp, *shaders, mo, oi as int, transparent));
                    }
                },
            }
            oi = oi + 1;
        }
        proof {
            if pass == 0 {
                base = pass_draws(*bsp, *shaders, mo, n as int, false);
            }
        }
        pass = pass + 1;
    }
    proof {
        assert(base + pass_draws(*bsp, *shaders, mo, n as int, true) =~= viewport_draws_spec(
            *bsp,
            *shaders,
            mo,
        ));
    }
    draws
}


/// Compute the fog one camera sees.
fn compute_fog(skies: &Table<Sky>, bsp: &BSP, cam: &Camera, cluster: Option<usize>) -> (r:
    FogData)
    requires
        bsp.wf(),
        cluster == bsp.bsp_data.find_cluster_spec(cam.position),
        cluster matches Some(c) ==> c < bsp.bsp_data.clusters@.len(),
    ensures
        r == fog_spec(*skies, *bsp, *cam),
{
    if !cam.fog {
        return FogData::default();
    }
    let c = match cluster {
        None => {
            return FogData::default();
        },
        Some(c) => c,
    };
    let name = match bsp.bsp_data.clusters[c].sky.as_ref() {
        None => {
            return FogData::default();
        },
        Some(name) => name,
    };
    match skies.get(name.as_str()) {
        None => FogData::default(),
        Some(sky) => FogData {
            color: sky.outdoor_fog_color,
            distance_from: sky.outdoor_fog_start_distance,
            distance_to: sky.outdoor_fog_opaque_distance,
            min_opacity: 0,
            max_opacity: sky.outdoor_fog_maximum_density,
        },
    }
}

impl Renderer {
    /// Compose one frame against an acquired swapchain image. An
    /// out-of-date acquire abandons the frame: the caller must rebuild the
    /// swapchain. Otherwise every viewport gets its camera's fog,
    /// projection bounds and culled draw list, and the frame carries the
    /// split-screen bars and the MSAA resolve decision.
    pub fn compose_frame(&self, acquire: AcquireOutcome) -> (r: Option<Frame>)
        requires
            self.wf(),
            self.swapchain.resolution.width > 0,
            self.swapchain.resolution.height > 0,
        ensures
            (r is Some) <==> (acquire matches AcquireOutcome::Acquired { .. }),
            r matches Some(f) ==> {
                &&& acquire matches AcquireOutcome::Acquired { image_index, .. }
                    && f.image_index == image_index
                &&& f.msaa_resolve == (self.msaa != crate::params::MSAA::NoMSAA)
                &&& f.split_bars@ == split_bars_spec(
                    self.player_viewports@.len() as int,
                    self.swapchain.resolution.width as int,
                    self.swapchain.resolution.height as int,
                )
                &&& f.viewports@.len() == self.player_viewports@.len()
                &&& forall|v: int| 0 <= v < f.viewports@.len() ==> {
                    let vp = self.player_viewports@[v];
                    let vpf = #[trigger] f.viewports@[v];
                    &&& vpf.x == px_spec(
                        vp.rel_x as int,
                        self.swapchain.resolution.width as int,
                    )
                    &&& vpf.y == px_spec(
                        vp.rel_y as int,
                        self.swapchain.resolution.height as int,
                    )
                    &&& vpf.width == px_spec(
                        vp.rel_width as int,
                        self.swapchain.resolution.width as int,
                    )
                    &&& vpf.height == px_spec(
                        vp.rel_height as int,
                        self.swapchain.resolution.height as int,
                    )
                    &&& (match self.current_bsp {
                        Some(p) => (self.bsps.spec_get(p@) matches Some(bsp)
                            && viewport_frame_ok(
                            vpf,
                            self.skies,
                            self.shaders,
                            bsp,
                            vp.camera,
                        )),
                        None => {
                            &&& vpf.camera == vp.camera
                            &&& vpf.fog == spec_no_fog()
                            &&& vpf.background == background_spec(spec_no_fog())
                            &&& vpf.z_near == Z_NEAR
                            &&& vpf.z_far == z_far_spec(
                                crate::level::MIN_DRAW_DISTANCE_LIMIT as int,
                                spec_no_fog(),
                            )
                            &&& vpf.draws@.len() == 0
                        },
                    })
                }
            },
    {
        let image_index = match acquire {
            AcquireOutcome::OutOfDate => {
                return None;
            },
            AcquireOutcome::Acquired { image_index, .. } => image_index,
        };
        let default_bsp = BSP::default();
        let ghost using_default = self.current_bsp is None;
        let bsp: &BSP = match self.current_bsp.as_ref() {
            Some(p) => match self.bsps.get(p.as_str()) {
                Some(b) => b,
                None => {
                    proof {
                        assert(false);
                    }
                    &default_bsp
                },
            },
            None => &default_bsp,
        };
        proof {
            if !using_default {
                let p = self.current_bsp->0;
                assert(self.bsps.spec_get(p@) == Some(*bsp));
                let i = choose|i: int| 0 <= i < self.bsps@.len() && self.bsps@[i].1 == *bsp;
            }
            assert(bsp.wf()) by {
                if !using_default {
                    lemma_table_get_wf(*self, *bsp);
                }
            }
        }
        let width = self.swapchain.resolution.width;
        let height = self.swapchain.resolution.height;
        let count = self.player_viewports.len();
        let split_bars = compute_split_bars(count, width, height);
        let mut viewports: Vec<ViewportFrame> = Vec::new();
        let mut v: usize = 0;
        while v < count
            invariant
                self.wf(),
                width == self.swapchain.resolution.width,
                height == self.swapchain.resolution.height,
                width > 0,
                height > 0,
                count == self.player_viewports@.len(),
                0 <= v <= count,
                bsp.wf(),
                using_default == (self.current_bsp is None),
                !using_default ==> (self.current_bsp matches Some(p)
                    && self.bsps.spec_get(p@) == Some(*bsp)),
                using_default ==> *bsp == default_bsp && bsp.geometries@.len() == 0
                    && bsp.bsp_data.clusters@.len() == 0
                    && bsp.draw_distance == crate::level::MIN_DRAW_DISTANCE_LIMIT
                    && bsp.bsp_data.nodes@.len() == 1
                    && bsp.bsp_data.nodes@[0].front_child is None
                    && bsp.bsp_data.nodes@[0].back_child is None
                    && bsp.geometry_indices_sorted_by_material@.len() == 0,
                viewports@.len() == v,
                forall|v2: int| 0 <= v2 < v ==> {
                    let vp = self.player_viewports@[v2];
                    let vpf = #[trigger] viewports@[v2];
                    &&& vpf.x == px_spec(vp.rel_x as int, width as int)
                    &&& vpf.y == px_spec(vp.rel_y as int, height as int)
                    &&& vpf.width == px_spec(vp.rel_width as int, width as int)
                    &&& vpf.height == px_spec(vp.rel_height as int, height as int)
                    &&& viewport_frame_ok(vpf, self.skies, self.shaders, *bsp, vp.camera)
                },
            decreases count - v,
        {
            let vp = &self.player_viewports[v];
            let cam = vp.camera;
            proof {
                assert(viewport_rect_ok(
                    self.player_viewports@[v as int],
                    count as int,
                    v as int,
                ));
            }
            let cluster = bsp.bsp_data.find_cluster(cam.position);
            let fog = compute_fog(&self.skies, bsp, &cam, cluster);
            let dd = bsp.draw_distance;
            let mut z_far: i32 = dd;
            if fog.max_opacity == FX_ONE && fog.distance_to < dd {
                z_far = fog.distance_to;
            }
            if z_far < Z_NEAR + FX_ONE {
                z_far = Z_NEAR + FX_ONE;
            }
            let mask_opt: Option<Vec<bool>> = match cluster {
                Some(c) => Some(visible_clusters(bsp, c)),
                None => None,
            };
            proof {
                match &mask_opt {
                    Some(m) => {
                        assert(m@ =~= reach_mask(*bsp, cluster->0 as int));
                    },
                    None => {},
                }
            }
            let draws = compose_viewport_draws(bsp, &self.shaders, &mask_opt, cam.lightmaps);
            let vpf = ViewportFrame {
                x: to_px(vp.rel_x, width),
                y: to_px(vp.rel_y, height),
                width: to_px(vp.rel_width, width),
                height: to_px(vp.rel_height, height),
                camera: cam,
                fog,
                background: ColorBox {
                    x: 0,
                    y: 0,
                    width: FX_ONE as i64,
                    height: FX_ONE as i64,
                    color: fog.color,
                },
                z_near: Z_NEAR,
                z_far,
                draws,
            };
            proof {
                assert((match mask_opt {
                    Some(m) => Some::<Seq<bool>>(m@),
                    None => None::<Seq<bool>>,
                }) == mask_opt_spec(*bsp, cam));
                assert(viewport_frame_ok(vpf, self.skies, self.shaders, *bsp, cam));
            }
            viewports.push(vpf);
            v = v + 1;
        }
        let msaa_resolve = match self.msaa {
            crate::params::MSAA::NoMSAA => false,
            _ => true,
        };
        proof {
            if using_default {
                assert forall|v2: int| 0 <= v2 < viewports@.len()
                    implies (#[trigger] viewports@[v2]).draws@.len() == 0
                        && viewports@[v2].fog == spec_no_fog()
                        && viewports@[v2].z_far == z_far_spec(
                        crate::level::MIN_DRAW_DISTANCE_LIMIT as int,
                        spec_no_fog(),
                    ) by {
                    let vp = self.player_viewports@[v2];
                    assert(viewport_frame_ok(
                        viewports@[v2],
                        self.skies,
                        self.shaders,
                        *bsp,
                        vp.camera,
                    ));
                    lemma_default_bsp_frame(*bsp, self.skies, self.shaders, vp.camera);
                }
            }
        }
        Some(Frame { image_index, viewports, split_bars, msaa_resolve })
    }
}

/// A level taken from the renderer's table is well formed.
proof fn lemma_table_get_wf(r: Renderer, bsp: BSP)
    requires
        r.wf(),
        exists|p: Seq<char>| r.bsps.spec_get(p) == Some(bsp),
    ensures
        bsp.wf(),
{
    let p = choose|p: Seq<char>| r.bsps.spec_get(p) == Some(bsp);
    lemma_seq_get_index(r.bsps@, p, bsp);
}

/// A found value sits at some index of the table's sequence.
proof fn lemma_seq_get_index<T>(s: Seq<(String, T)>, k: Seq<char>, v: T)
    requires
        crate::table::seq_get(s, k) == Some(v),
    ensures
        exists|i: int| 0 <= i < s.len() && (#[trigger] s[i]).1 == v,
    decreases s.len(),
{
    if s.len() > 0 {
        if s[0].0@ == k {
            assert(s[0].1 == v);
        } else {
            lemma_seq_get_index(s.drop_first(), k, v);
            let i = choose|i: int|
                0 <= i < s.drop_first().len() && (#[trigger] s.drop_first()[i]).1 == v;
            assert(s[i + 1].1 == v);
        }
    }
}

/// Against the empty default level, every viewport frame has no fog, no
/// draws, and the floor draw distance.
proof fn lemma_default_bsp_frame(bsp: BSP, skies: Table<Sky>, shaders: Table<Shader>, cam: Camera)
    requires
        bsp.geometries@.len() == 0,
        bsp.geometry_indices_sorted_by_material@.len() == 0,
        bsp.bsp_data.clusters@.len() == 0,
        bsp.draw_distance == crate::level::MIN_DRAW_DISTANCE_LIMIT,
        bsp.bsp_data.nodes@.len() == 1,
        bsp.bsp_data.nodes@[0].front_child is None,
        bsp.bsp_data.nodes@[0].back_child is None,
    ensures
        fog_spec(skies, bsp, cam) == spec_no_fog(),
        viewport_draws_spec(bsp, shaders, mask_opt_spec(bsp, cam)).len() == 0,
{
    assert(viewport_draws_spec(bsp, shaders, mask_opt_spec(bsp, cam))
        =~= Seq::<(usize, Option<usize>)>::empty());
    match bsp.bsp_data.find_cluster_spec(cam.position) {
        Some(c) => {
            assert(bsp.bsp_data.find_leaf_spec(cam.position) is Some);
            bsp.bsp_data.lemma_find_leaf_from_in_bounds(
                cam.position,
                0,
                bsp.bsp_data.nodes@.len() as nat,
            );
        },
        None => {},
    }
}

/// Whether the frame leaves the swapchain fit for another frame: it was
/// presented and the acquire was not suboptimal. A `false` tells the
/// caller to rebuild the swapchain before drawing again.
pub fn frame_result(acquire: AcquireOutcome, present: Option<PresentOutcome>) -> (r: bool)
    ensures
        r == (acquire matches AcquireOutcome::Acquired { suboptimal, .. } && !suboptimal
            && present == Some(PresentOutcome::Presented)),
{
    match (acquire, present) {
        (AcquireOutcome::Acquired { suboptimal, .. }, Some(PresentOutcome::Presented)) =>
            !suboptimal,
        _ => false,
    }
}

} // verus!
