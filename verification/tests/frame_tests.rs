//! Frame composition: fog from the camera's cluster, projection bounds,
//! portal-culled draw lists, and the split-screen bars.

use magellanicus::bsp::{
    BSP3DNode, BSP3DNodeChild, BSP3DPlane, BSPCluster, BSPData, BSPLeaf, BSPPortal,
    BSPSubcluster,
};
use magellanicus::fixed::FX_ONE;
use magellanicus::frame::{AcquireOutcome, PresentOutcome, Z_NEAR};
use magellanicus::level::{AddBSPParameter, AddBSPParameterLightmapMaterial, AddBSPParameterLightmapSet};
use magellanicus::params::{RendererParameters, Resolution, MSAA};
use magellanicus::renderer::{Camera, Renderer};
use magellanicus::shader::{AddShaderBasicShaderData, AddShaderData, AddShaderParameter, ShaderType};
use magellanicus::sky::AddSkyParameter;
use magellanicus::vertex::{ModelTriangle, ModelVertex};

fn params(w: u32, h: u32, viewports: usize) -> RendererParameters {
    RendererParameters {
        resolution: Resolution { width: w, height: h },
        number_of_viewports: viewports,
        vsync: false,
        msaa: MSAA::NoMSAA,
    }
}

fn vertex(x: i32, y: i32, z: i32) -> ModelVertex {
    ModelVertex {
        position: [x, y, z],
        normal: [0, 0, FX_ONE],
        binormal: [FX_ONE, 0, 0],
        tangent: [0, FX_ONE, 0],
        texture_coords: [0, 0],
    }
}

fn outdoor_sky() -> AddSkyParameter {
    AddSkyParameter {
        geometry: None,
        outdoor_fog_color: [FX_ONE / 2, FX_ONE / 2, FX_ONE],
        outdoor_fog_maximum_density: FX_ONE / 2,
        outdoor_fog_start_distance: 100 * FX_ONE,
        outdoor_fog_opaque_distance: 500 * FX_ONE,
        indoor_fog_color: [0, 0, 0],
        indoor_fog_maximum_density: 0,
        indoor_fog_start_distance: 0,
        indoor_fog_opaque_distance: 0,
    }
}

/// A two-cluster level split on x = 0: the front leaf (x >= 0) is cluster
/// 0 under the sky named `outdoor`; the back leaf is cluster 1 with no
/// sky.
fn two_cluster_level(portals: Vec<BSPPortal>, cluster_portals: Vec<Vec<usize>>) -> AddBSPParameter {
    let sub = |ix: Vec<usize>| BSPSubcluster {
        surface_indices: ix,
        world_bounds_from: [0, 0, 0],
        world_bounds_to: [0, 0, 0],
    };
    let clusters = vec![
        BSPCluster {
            sky: Some(String::from("outdoor")),
            subclusters: vec![sub(vec![0])],
            cluster_portals: cluster_portals[0].clone(),
        },
        BSPCluster {
            sky: None,
            subclusters: vec![sub(vec![1])],
            cluster_portals: cluster_portals[1].clone(),
        },
    ];
    AddBSPParameter {
        lightmap_bitmap: None,
        lightmap_sets: vec![AddBSPParameterLightmapSet {
            lightmap_index: None,
            materials: vec![AddBSPParameterLightmapMaterial {
                shader_vertices: vec![
                    vertex(0, 0, 0),
                    vertex(FX_ONE, 0, 0),
                    vertex(0, FX_ONE, 0),
                ],
                lightmap_vertices: None,
                surfaces: vec![
                    ModelTriangle { indices: [0, 1, 2] },
                    ModelTriangle { indices: [0, 2, 1] },
                ],
                shader: String::from("shader_a"),
            }],
        }],
        bsp_data: BSPData {
            nodes: vec![BSP3DNode {
                front_child: Some(BSP3DNodeChild::Leaf(0)),
                back_child: Some(BSP3DNodeChild::Leaf(1)),
                plane: 0,
            }],
            planes: vec![BSP3DPlane { angle: [FX_ONE, 0, 0], offset: 0 }],
            leaves: vec![BSPLeaf { cluster: 0 }, BSPLeaf { cluster: 1 }],
            clusters,
            portals,
        },
    }
}

fn scene(portals: Vec<BSPPortal>, cluster_portals: Vec<Vec<usize>>) -> Renderer {
    let mut renderer = Renderer::new(params(640, 480, 1)).unwrap();
    renderer
        .add_shader(
            "shader_a",
            AddShaderParameter {
                data: AddShaderData::BasicShader(AddShaderBasicShaderData {
                    bitmap: None,
                    shader_type: ShaderType::Environment,
                    alpha_tested: false,
                }),
            },
        )
        .unwrap();
    renderer.add_sky("outdoor", outdoor_sky()).unwrap();
    renderer
        .add_bsp("level", two_cluster_level(portals, cluster_portals))
        .unwrap();
    renderer.set_current_bsp(Some("level")).unwrap();
    renderer
}

fn acquire() -> AcquireOutcome {
    AcquireOutcome::Acquired { image_index: 0, suboptimal: false }
}

#[test]
fn camera_cluster_decides_fog() {
    // In cluster 0 the camera sees the outdoor fog of `outdoor`; moved to
    // cluster 1, which has no sky, the fog is fully transparent.
    let mut renderer = scene(Vec::new(), vec![Vec::new(), Vec::new()]);
    let mut cam = Camera::default();
    cam.position = [FX_ONE, 0, 0];
    renderer.set_camera_for_viewport(0, cam);
    let frame = renderer.compose_frame(acquire()).unwrap();
    let fog = &frame.viewports[0].fog;
    assert_eq!(fog.max_opacity, FX_ONE / 2);
    assert_eq!(fog.distance_from, 100 * FX_ONE);
    assert_eq!(fog.distance_to, 500 * FX_ONE);

    cam.position = [-FX_ONE, 0, 0];
    renderer.set_camera_for_viewport(0, cam);
    let frame = renderer.compose_frame(acquire()).unwrap();
    assert_eq!(frame.viewports[0].fog.max_opacity, 0);
}

#[test]
fn fog_toggle_overrides_the_sky() {
    let mut renderer = scene(Vec::new(), vec![Vec::new(), Vec::new()]);
    let mut cam = Camera::default();
    cam.position = [FX_ONE, 0, 0];
    cam.fog = false;
    renderer.set_camera_for_viewport(0, cam);
    let frame = renderer.compose_frame(acquire()).unwrap();
    assert_eq!(frame.viewports[0].fog.max_opacity, 0);
}

#[test]
fn out_of_date_acquire_abandons_the_frame() {
    let renderer = scene(Vec::new(), vec![Vec::new(), Vec::new()]);
    assert!(renderer.compose_frame(AcquireOutcome::OutOfDate).is_none());
}

#[test]
fn frame_result_reports_rebuild_needs() {
    assert!(magellanicus::frame::frame_result(
        AcquireOutcome::Acquired { image_index: 0, suboptimal: false },
        Some(PresentOutcome::Presented)
    ));
    assert!(!magellanicus::frame::frame_result(
        AcquireOutcome::Acquired { image_index: 0, suboptimal: true },
        Some(PresentOutcome::Presented)
    ));
    assert!(!magellanicus::frame::frame_result(
        AcquireOutcome::Acquired { image_index: 0, suboptimal: false },
        Some(PresentOutcome::OutOfDate)
    ));
    assert!(!magellanicus::frame::frame_result(AcquireOutcome::OutOfDate, None));
}

#[test]
fn unconnected_cluster_is_culled() {
    // No portals: from cluster 0 only cluster 0's triangles are drawn.
    let mut renderer = scene(Vec::new(), vec![Vec::new(), Vec::new()]);
    let mut cam = Camera::default();
    cam.position = [FX_ONE, 0, 0];
    renderer.set_camera_for_viewport(0, cam);
    let frame = renderer.compose_frame(acquire()).unwrap();
    let draws = &frame.viewports[0].draws;
    assert_eq!(draws.len(), 1);
    assert_eq!(draws[0].geometry, 0);
    assert_eq!(draws[0].cluster, Some(0));
    assert!(!draws[0].repeat_shader);
}

#[test]
fn portal_opens_the_neighbor_cluster() {
    // One portal joins the clusters: both clusters' cuts are drawn.
    let portals = vec![BSPPortal { front_cluster: 0, back_cluster: 1 }];
    let mut renderer = scene(portals, vec![vec![0], vec![0]]);
    let mut cam = Camera::default();
    cam.position = [FX_ONE, 0, 0];
    renderer.set_camera_for_viewport(0, cam);
    let frame = renderer.compose_frame(acquire()).unwrap();
    let draws = &frame.viewports[0].draws;
    assert_eq!(draws.len(), 2);
    assert_eq!(draws[0].cluster, Some(0));
    assert_eq!(draws[1].cluster, Some(1));
    assert_eq!(draws[0].geometry, 0);
    assert_eq!(draws[1].geometry, 0);
    assert!(draws[1].repeat_shader);
}

#[test]
fn camera_outside_the_partition_draws_everything() {
    // The camera's own cluster decides the culling; with no cluster found
    // the whole batch is drawn unculled. This level's root has both
    // children, so force the miss with a childless level.
    let mut renderer = Renderer::new(params(640, 480, 1)).unwrap();
    renderer
        .add_shader(
            "shader_a",
            AddShaderParameter {
                data: AddShaderData::BasicShader(AddShaderBasicShaderData {
                    bitmap: None,
                    shader_type: ShaderType::Environment,
                    alpha_tested: false,
                }),
            },
        )
        .unwrap();
    let mut level = two_cluster_level(Vec::new(), vec![Vec::new(), Vec::new()]);
    level.bsp_data.nodes[0].back_child = None;
    level.bsp_data.clusters[0].sky = None;
    renderer.add_bsp("level", level).unwrap();
    renderer.set_current_bsp(Some("level")).unwrap();
    let mut cam = Camera::default();
    cam.position = [-FX_ONE, 0, 0];
    renderer.set_camera_for_viewport(0, cam);
    let frame = renderer.compose_frame(acquire()).unwrap();
    let draws = &frame.viewports[0].draws;
    assert_eq!(draws.len(), 1);
    assert_eq!(draws[0].cluster, None);
}

#[test]
fn far_plane_tightens_to_opaque_fog() {
    // Fully opaque fog at 80 world units pulls the far plane in from the
    // 100-unit floor draw distance.
    let mut renderer = Renderer::new(params(640, 480, 1)).unwrap();
    let mut sky = outdoor_sky();
    sky.outdoor_fog_maximum_density = FX_ONE;
    sky.outdoor_fog_start_distance = 50 * FX_ONE;
    sky.outdoor_fog_opaque_distance = 80 * FX_ONE;
    renderer.add_sky("outdoor", sky).unwrap();
    renderer
        .add_shader(
            "shader_a",
            AddShaderParameter {
                data: AddShaderData::BasicShader(AddShaderBasicShaderData {
                    bitmap: None,
                    shader_type: ShaderType::Environment,
                    alpha_tested: false,
                }),
            },
        )
        .unwrap();
    renderer
        .add_bsp("level", two_cluster_level(Vec::new(), vec![Vec::new(), Vec::new()]))
        .unwrap();
    renderer.set_current_bsp(Some("level")).unwrap();
    let mut cam = Camera::default();
    cam.position = [FX_ONE, 0, 0];
    renderer.set_camera_for_viewport(0, cam);
    let frame = renderer.compose_frame(acquire()).unwrap();
    let vp = &frame.viewports[0];
    assert_eq!(vp.z_near, Z_NEAR);
    assert_eq!(vp.z_far, 80 * FX_ONE);
}

#[test]
fn no_level_loaded_gives_an_empty_frame() {
    let renderer = Renderer::new(params(640, 480, 1)).unwrap();
    let frame = renderer.compose_frame(acquire()).unwrap();
    assert_eq!(frame.viewports.len(), 1);
    assert_eq!(frame.viewports[0].draws.len(), 0);
    assert_eq!(frame.viewports[0].fog.max_opacity, 0);
    assert!(frame.split_bars.is_empty());
}

#[test]
fn split_bars_at_the_baseline_resolution() {
    // 640x480 with three viewports: a horizontal bar and a lower vertical
    // bar, two device pixels thick.
    let renderer = Renderer::new(params(640, 480, 3)).unwrap();
    let frame = renderer.compose_frame(acquire()).unwrap();
    let bars = &frame.split_bars;
    assert_eq!(bars.len(), 2);
    let th_h = 2 * (FX_ONE as i64) / 480;
    let th_v = 2 * (FX_ONE as i64) / 640;
    assert_eq!(bars[0].x, 0);
    assert_eq!(bars[0].y, (FX_ONE as i64) / 2 - th_h / 2);
    assert_eq!(bars[0].width, FX_ONE as i64);
    assert_eq!(bars[0].height, th_h);
    assert_eq!(bars[1].x, (FX_ONE as i64) / 2 - th_v / 2);
    assert_eq!(bars[1].y, (FX_ONE as i64) / 2);
    assert_eq!(bars[1].width, th_v);
    assert_eq!(bars[1].height, (FX_ONE as i64) / 2);
}

#[test]
fn two_viewports_get_one_bar_and_pixel_rects() {
    let renderer = Renderer::new(params(800, 600, 2)).unwrap();
    let frame = renderer.compose_frame(acquire()).unwrap();
    assert_eq!(frame.split_bars.len(), 1);
    assert_eq!(frame.viewports.len(), 2);
    let v0 = &frame.viewports[0];
    let v1 = &frame.viewports[1];
    assert_eq!((v0.x, v0.y, v0.width, v0.height), (0, 0, 800, 300));
    assert_eq!((v1.x, v1.y, v1.width, v1.height), (0, 300, 800, 300));
}

#[test]
fn msaa_frames_request_a_resolve() {
    let mut p = params(640, 480, 1);
    p.msaa = MSAA::MSAA4x;
    let renderer = Renderer::new(p).unwrap();
    let frame = renderer.compose_frame(acquire()).unwrap();
    assert!(frame.msaa_resolve);
    let renderer = Renderer::new(params(640, 480, 1)).unwrap();
    assert!(!renderer.compose_frame(acquire()).unwrap().msaa_resolve);
}

#[test]
fn transparent_shaders_draw_after_opaque_ones() {
    // Two materials: one under a transparent shader sorting first by
    // name, one opaque. The opaque batch must still draw first.
    let mut renderer = Renderer::new(params(640, 480, 1)).unwrap();
    renderer
        .add_shader(
            "a_glass",
            AddShaderParameter {
                data: AddShaderData::BasicShader(AddShaderBasicShaderData {
                    bitmap: None,
                    shader_type: ShaderType::TransparentGlass,
                    alpha_tested: false,
                }),
            },
        )
        .unwrap();
    renderer
        .add_shader(
            "b_wall",
            AddShaderParameter {
                data: AddShaderData::BasicShader(AddShaderBasicShaderData {
                    bitmap: None,
                    shader_type: ShaderType::Environment,
                    alpha_tested: false,
                }),
            },
        )
        .unwrap();
    let mk_material = |shader: &str| AddBSPParameterLightmapMaterial {
        shader_vertices: vec![vertex(0, 0, 0), vertex(FX_ONE, 0, 0), vertex(0, FX_ONE, 0)],
        lightmap_vertices: None,
        surfaces: vec![ModelTriangle { indices: [0, 1, 2] }],
        shader: String::from(shader),
    };
    let param = AddBSPParameter {
        lightmap_bitmap: None,
        lightmap_sets: vec![AddBSPParameterLightmapSet {
            lightmap_index: None,
            materials: vec![mk_material("a_glass"), mk_material("b_wall")],
        }],
        bsp_data: BSPData {
            nodes: vec![BSP3DNode {
                front_child: Some(BSP3DNodeChild::Leaf(0)),
                back_child: None,
                plane: 0,
            }],
            planes: vec![BSP3DPlane { angle: [FX_ONE, 0, 0], offset: 0 }],
            leaves: vec![BSPLeaf { cluster: 0 }],
            clusters: vec![BSPCluster {
                sky: None,
                subclusters: vec![BSPSubcluster {
                    surface_indices: vec![0, 1],
                    world_bounds_from: [0, 0, 0],
                    world_bounds_to: [0, 0, 0],
                }],
                cluster_portals: Vec::new(),
            }],
            portals: Vec::new(),
        },
    };
    renderer.add_bsp("level", param).unwrap();
    renderer.set_current_bsp(Some("level")).unwrap();
    let mut cam = Camera::default();
    cam.position = [FX_ONE, 0, 0];
    renderer.set_camera_for_viewport(0, cam);
    let frame = renderer.compose_frame(acquire()).unwrap();
    let draws = &frame.viewports[0].draws;
    assert_eq!(draws.len(), 2);
    // Geometry 1 is the opaque wall, geometry 0 the transparent glass.
    assert_eq!(draws[0].geometry, 1);
    assert_eq!(draws[1].geometry, 0);
    assert!(!draws[1].repeat_shader);
}

#[test]
fn lightmap_toggle_clears_the_binding() {
    let mut renderer = scene(Vec::new(), vec![Vec::new(), Vec::new()]);
    let mut cam = Camera::default();
    cam.position = [FX_ONE, 0, 0];
    cam.lightmaps = false;
    renderer.set_camera_for_viewport(0, cam);
    let frame = renderer.compose_frame(acquire()).unwrap();
    assert_eq!(frame.viewports[0].draws[0].lightmap, None);
}

#[test]
fn viewports_clear_to_the_fog_color() {
    let mut renderer = scene(Vec::new(), vec![Vec::new(), Vec::new()]);
    let mut cam = Camera::default();
    cam.position = [FX_ONE, 0, 0];
    renderer.set_camera_for_viewport(0, cam);
    let frame = renderer.compose_frame(acquire()).unwrap();
    let vp = &frame.viewports[0];
    assert_eq!(vp.background.color, vp.fog.color);
    assert_eq!(vp.background.color, [FX_ONE / 2, FX_ONE / 2, FX_ONE]);
    assert_eq!(
        (vp.background.x, vp.background.y, vp.background.width, vp.background.height),
        (0, 0, FX_ONE as i64, FX_ONE as i64)
    );
}
