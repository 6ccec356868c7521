//! Loading a level: subcluster normalization, the draw-distance clamp,
//! lightmap cross-validation, and the per-cluster index buffers.

use magellanicus::bitmap::{
    AddBitmapBitmapParameter, AddBitmapParameter, BitmapFormat, BitmapType,
};
use magellanicus::bsp::{
    BSP3DNode, BSP3DNodeChild, BSP3DPlane, BSPCluster, BSPData, BSPLeaf, BSPSubcluster,
};
use magellanicus::fixed::FX_ONE;
use magellanicus::level::{
    AddBSPParameter, AddBSPParameterLightmapMaterial, AddBSPParameterLightmapSet,
    MAX_DRAW_DISTANCE_LIMIT, MIN_DRAW_DISTANCE_LIMIT,
};
use magellanicus::params::{RendererParameters, Resolution, MSAA};
use magellanicus::renderer::Renderer;
use magellanicus::shader::{AddShaderBasicShaderData, AddShaderData, AddShaderParameter, ShaderType};
use magellanicus::vertex::{ModelTriangle, ModelVertex};

fn new_renderer() -> Renderer {
    Renderer::new(RendererParameters {
        resolution: Resolution { width: 640, height: 480 },
        number_of_viewports: 1,
        vsync: false,
        msaa: MSAA::NoMSAA,
    })
    .unwrap()
}

fn vertex(x: i32, y: i32, z: i32) -> ModelVertex {
    ModelVertex {
        position: [x, y, z],
        normal: [0, 0, FX_ONE],
        binormal: [FX_ONE, 0, 0],
        tangent: [0, FX_ONE, 0],
        texture_coords: [0, 0],
    }
}

fn tri() -> ModelTriangle {
    ModelTriangle { indices: [0, 1, 2] }
}

fn add_basic_shader(renderer: &mut Renderer, path: &str) {
    renderer
        .add_shader(
            path,
            AddShaderParameter {
                data: AddShaderData::BasicShader(AddShaderBasicShaderData {
                    bitmap: None,
                    shader_type: ShaderType::Environment,
                    alpha_tested: false,
                }),
            },
        )
        .unwrap();
}

fn one_node_tree(clusters: Vec<BSPCluster>) -> BSPData {
    let leaves: Vec<BSPLeaf> = (0..clusters.len()).map(|c| BSPLeaf { cluster: c }).collect();
    BSPData {
        nodes: vec![BSP3DNode {
            front_child: Some(BSP3DNodeChild::Leaf(0)),
            back_child: if leaves.len() > 1 {
                Some(BSP3DNodeChild::Leaf(1))
            } else {
                None
            },
            plane: 0,
        }],
        planes: vec![BSP3DPlane { angle: [FX_ONE, 0, 0], offset: 0 }],
        leaves,
        clusters,
        portals: Vec::new(),
    }
}

fn material(vertices: Vec<ModelVertex>, surfaces: Vec<ModelTriangle>) -> AddBSPParameterLightmapMaterial {
    AddBSPParameterLightmapMaterial {
        shader_vertices: vertices,
        lightmap_vertices: None,
        surfaces,
        shader: String::from("shader_a"),
    }
}

#[test]
fn subcluster_indices_are_sorted_and_deduplicated() {
    // A subcluster naming surfaces [3,1,3,2,1] normalizes to [1,2,3].
    let mut renderer = new_renderer();
    add_basic_shader(&mut renderer, "shader_a");
    let cluster = BSPCluster {
        sky: None,
        subclusters: vec![BSPSubcluster {
            surface_indices: vec![3, 1, 3, 2, 1],
            world_bounds_from: [0, 0, 0],
            world_bounds_to: [0, 0, 0],
        }],
        cluster_portals: Vec::new(),
    };
    let param = AddBSPParameter {
        lightmap_bitmap: None,
        lightmap_sets: vec![AddBSPParameterLightmapSet {
            lightmap_index: None,
            materials: vec![material(
                vec![vertex(0, 0, 0), vertex(FX_ONE, 0, 0), vertex(0, FX_ONE, 0)],
                vec![tri(), tri(), tri(), tri()],
            )],
        }],
        bsp_data: one_node_tree(vec![cluster]),
    };
    renderer.add_bsp("level", param).unwrap();
    let bsp = renderer.bsps.get("level").unwrap();
    assert_eq!(bsp.bsp_data.clusters[0].subclusters[0].surface_indices, vec![1, 2, 3]);
    assert_eq!(bsp.cluster_surfaces[0], vec![1, 2, 3]);
}

#[test]
fn cluster_surfaces_union_subclusters() {
    let mut renderer = new_renderer();
    add_basic_shader(&mut renderer, "shader_a");
    let sub = |ix: Vec<usize>| BSPSubcluster {
        surface_indices: ix,
        world_bounds_from: [0, 0, 0],
        world_bounds_to: [0, 0, 0],
    };
    let cluster = BSPCluster {
        sky: None,
        subclusters: vec![sub(vec![2, 0]), sub(vec![3, 2])],
        cluster_portals: Vec::new(),
    };
    let param = AddBSPParameter {
        lightmap_bitmap: None,
        lightmap_sets: vec![AddBSPParameterLightmapSet {
            lightmap_index: None,
            materials: vec![material(
                vec![vertex(0, 0, 0), vertex(FX_ONE, 0, 0), vertex(0, FX_ONE, 0)],
                vec![tri(), tri(), tri(), tri()],
            )],
        }],
        bsp_data: one_node_tree(vec![cluster]),
    };
    renderer.add_bsp("level", param).unwrap();
    let bsp = renderer.bsps.get("level").unwrap();
    assert_eq!(bsp.cluster_surfaces[0], vec![0, 2, 3]);
}

#[test]
fn draw_distance_floor_for_single_point() {
    // A single-point bounding box has zero extent: the minimum draw
    // distance applies.
    let mut renderer = new_renderer();
    add_basic_shader(&mut renderer, "shader_a");
    let param = AddBSPParameter {
        lightmap_bitmap: None,
        lightmap_sets: vec![AddBSPParameterLightmapSet {
            lightmap_index: None,
            materials: vec![material(
                vec![vertex(7, 7, 7), vertex(7, 7, 7), vertex(7, 7, 7)],
                vec![tri()],
            )],
        }],
        bsp_data: one_node_tree(vec![BSPCluster {
            sky: None,
            subclusters: Vec::new(),
            cluster_portals: Vec::new(),
        }]),
    };
    renderer.add_bsp("level", param).unwrap();
    assert_eq!(
        renderer.bsps.get("level").unwrap().draw_distance,
        MIN_DRAW_DISTANCE_LIMIT
    );
}

#[test]
fn draw_distance_ceiling_for_huge_extent() {
    let mut renderer = new_renderer();
    add_basic_shader(&mut renderer, "shader_a");
    let far = 3000 * FX_ONE;
    let param = AddBSPParameter {
        lightmap_bitmap: None,
        lightmap_sets: vec![AddBSPParameterLightmapSet {
            lightmap_index: None,
            materials: vec![material(
                vec![vertex(0, 0, 0), vertex(far, 0, 0), vertex(0, far, 0)],
                vec![tri()],
            )],
        }],
        bsp_data: one_node_tree(vec![BSPCluster {
            sky: None,
            subclusters: Vec::new(),
            cluster_portals: Vec::new(),
        }]),
    };
    renderer.add_bsp("level", param).unwrap();
    assert_eq!(
        renderer.bsps.get("level").unwrap().draw_distance,
        MAX_DRAW_DISTANCE_LIMIT
    );
}

#[test]
fn draw_distance_empty_level_is_floor() {
    let mut renderer = new_renderer();
    let param = AddBSPParameter {
        lightmap_bitmap: None,
        lightmap_sets: Vec::new(),
        bsp_data: one_node_tree(vec![BSPCluster {
            sky: None,
            subclusters: Vec::new(),
            cluster_portals: Vec::new(),
        }]),
    };
    renderer.add_bsp("level", param).unwrap();
    assert_eq!(
        renderer.bsps.get("level").unwrap().draw_distance,
        MIN_DRAW_DISTANCE_LIMIT
    );
}

fn tiny_2d_bitmap() -> AddBitmapParameter {
    AddBitmapParameter {
        bitmaps: vec![AddBitmapBitmapParameter {
            format: BitmapFormat::A8R8G8B8,
            bitmap_type: BitmapType::Dim2D,
            resolution: Resolution { width: 1, height: 1 },
            mipmap_count: 0,
            data: vec![0, 0, 0, 0],
        }],
        sequences: Vec::new(),
    }
}

#[test]
fn lightmap_index_out_of_range_fails() {
    // The lightmap set names sub-bitmap 5 of a bitmap holding only one.
    let mut renderer = new_renderer();
    add_basic_shader(&mut renderer, "shader_a");
    renderer.add_bitmap("lightmaps", tiny_2d_bitmap()).unwrap();
    let param = AddBSPParameter {
        lightmap_bitmap: Some(String::from("lightmaps")),
        lightmap_sets: vec![AddBSPParameterLightmapSet {
            lightmap_index: Some(5),
            materials: Vec::new(),
        }],
        bsp_data: one_node_tree(vec![BSPCluster {
            sky: None,
            subclusters: Vec::new(),
            cluster_portals: Vec::new(),
        }]),
    };
    let before = renderer.bsps.len();
    let r = renderer.add_bsp("level", param);
    assert!(r.is_err());
    assert_eq!(renderer.bsps.len(), before);
}

#[test]
fn lightmap_vertices_without_lightmap_bitmap_fails() {
    let mut renderer = new_renderer();
    add_basic_shader(&mut renderer, "shader_a");
    let mut m = material(
        vec![vertex(0, 0, 0), vertex(FX_ONE, 0, 0), vertex(0, FX_ONE, 0)],
        vec![tri()],
    );
    m.lightmap_vertices = Some(vec![
        magellanicus::vertex::LightmapVertex { lightmap_texture_coords: [0, 0] },
        magellanicus::vertex::LightmapVertex { lightmap_texture_coords: [0, 0] },
        magellanicus::vertex::LightmapVertex { lightmap_texture_coords: [0, 0] },
    ]);
    let param = AddBSPParameter {
        lightmap_bitmap: None,
        lightmap_sets: vec![AddBSPParameterLightmapSet {
            lightmap_index: None,
            materials: vec![m],
        }],
        bsp_data: one_node_tree(vec![BSPCluster {
            sky: None,
            subclusters: Vec::new(),
            cluster_portals: Vec::new(),
        }]),
    };
    assert!(renderer.add_bsp("level", param).is_err());
}

#[test]
fn lightmap_vertex_count_mismatch_fails() {
    let mut renderer = new_renderer();
    add_basic_shader(&mut renderer, "shader_a");
    renderer.add_bitmap("lightmaps", tiny_2d_bitmap()).unwrap();
    let mut m = material(
        vec![vertex(0, 0, 0), vertex(FX_ONE, 0, 0), vertex(0, FX_ONE, 0)],
        vec![tri()],
    );
    m.lightmap_vertices = Some(vec![magellanicus::vertex::LightmapVertex {
        lightmap_texture_coords: [0, 0],
    }]);
    let param = AddBSPParameter {
        lightmap_bitmap: Some(String::from("lightmaps")),
        lightmap_sets: vec![AddBSPParameterLightmapSet {
            lightmap_index: Some(0),
            materials: vec![m],
        }],
        bsp_data: one_node_tree(vec![BSPCluster {
            sky: None,
            subclusters: Vec::new(),
            cluster_portals: Vec::new(),
        }]),
    };
    assert!(renderer.add_bsp("level", param).is_err());
}

#[test]
fn model_shader_rejected_on_level_geometry() {
    let mut renderer = new_renderer();
    renderer
        .add_shader(
            "model_shader",
            AddShaderParameter {
                data: AddShaderData::BasicShader(AddShaderBasicShaderData {
                    bitmap: None,
                    shader_type: ShaderType::Model,
                    alpha_tested: false,
                }),
            },
        )
        .unwrap();
    let mut m = material(
        vec![vertex(0, 0, 0), vertex(FX_ONE, 0, 0), vertex(0, FX_ONE, 0)],
        vec![tri()],
    );
    m.shader = String::from("model_shader");
    let param = AddBSPParameter {
        lightmap_bitmap: None,
        lightmap_sets: vec![AddBSPParameterLightmapSet {
            lightmap_index: None,
            materials: vec![m],
        }],
        bsp_data: one_node_tree(vec![BSPCluster {
            sky: None,
            subclusters: Vec::new(),
            cluster_portals: Vec::new(),
        }]),
    };
    let r = renderer.add_bsp("level", param);
    assert!(r.is_err());
    assert!(r.unwrap_err().message().contains("isn't allowed for BSPs"));
}

#[test]
fn unknown_material_shader_fails() {
    let mut renderer = new_renderer();
    let param = AddBSPParameter {
        lightmap_bitmap: None,
        lightmap_sets: vec![AddBSPParameterLightmapSet {
            lightmap_index: None,
            materials: vec![material(
                vec![vertex(0, 0, 0), vertex(FX_ONE, 0, 0), vertex(0, FX_ONE, 0)],
                vec![tri()],
            )],
        }],
        bsp_data: one_node_tree(vec![BSPCluster {
            sky: None,
            subclusters: Vec::new(),
            cluster_portals: Vec::new(),
        }]),
    };
    let r = renderer.add_bsp("level", param);
    assert!(r.is_err());
    assert!(r.unwrap_err().message().contains("not loaded"));
}

#[test]
fn cluster_index_buffers_cut_by_range() {
    // Two materials of three triangles each; cluster 0 holds surfaces of
    // the first material only, cluster 1 one surface of each.
    let mut renderer = new_renderer();
    add_basic_shader(&mut renderer, "shader_a");
    let verts = || vec![vertex(0, 0, 0), vertex(FX_ONE, 0, 0), vertex(0, FX_ONE, 0)];
    let sub = |ix: Vec<usize>| BSPSubcluster {
        surface_indices: ix,
        world_bounds_from: [0, 0, 0],
        world_bounds_to: [0, 0, 0],
    };
    let clusters = vec![
        BSPCluster {
            sky: None,
            subclusters: vec![sub(vec![0, 2])],
            cluster_portals: Vec::new(),
        },
        BSPCluster {
            sky: None,
            subclusters: vec![sub(vec![1, 4])],
            cluster_portals: Vec::new(),
        },
    ];
    let param = AddBSPParameter {
        lightmap_bitmap: None,
        lightmap_sets: vec![AddBSPParameterLightmapSet {
            lightmap_index: None,
            materials: vec![
                material(verts(), vec![tri(), tri(), tri()]),
                material(verts(), vec![tri(), tri(), tri()]),
            ],
        }],
        bsp_data: one_node_tree(clusters),
    };
    renderer.add_bsp("level", param).unwrap();
    let bsp = renderer.bsps.get("level").unwrap();
    assert_eq!(bsp.geometries.len(), 2);
    // Cluster 0: surfaces 0 and 2 both fall in material 0's range [0,3).
    assert!(bsp.cluster_index_buffers[0][0].is_some());
    assert!(bsp.cluster_index_buffers[0][1].is_none());
    assert_eq!(
        bsp.cluster_index_buffers[0][0].as_ref().unwrap().len(),
        6
    );
    // Cluster 1: surface 1 in material 0, surface 4 in material 1.
    assert!(bsp.cluster_index_buffers[1][0].is_some());
    assert!(bsp.cluster_index_buffers[1][1].is_some());
    assert_eq!(
        bsp.cluster_index_buffers[1][0].as_ref().unwrap().len(),
        3
    );
}

#[test]
fn duplicate_level_path_fails_and_leaves_state() {
    let mut renderer = new_renderer();
    let empty = |c: Vec<BSPCluster>| AddBSPParameter {
        lightmap_bitmap: None,
        lightmap_sets: Vec::new(),
        bsp_data: one_node_tree(c),
    };
    renderer
        .add_bsp("level", empty(vec![BSPCluster {
            sky: None,
            subclusters: Vec::new(),
            cluster_portals: Vec::new(),
        }]))
        .unwrap();
    let r = renderer.add_bsp("level", empty(vec![BSPCluster {
        sky: None,
        subclusters: Vec::new(),
        cluster_portals: Vec::new(),
    }]));
    assert!(r.is_err());
    assert!(r.unwrap_err().message().contains("already exists"));
    assert_eq!(renderer.bsps.len(), 1);
}
