//! The spatial partition: traversal, boundary classification, and
//! load-time validation against cycles and broken references.

use magellanicus::bsp::{
    classify_front, BSP3DNode, BSP3DNodeChild, BSP3DPlane, BSPCluster, BSPData, BSPLeaf,
    BSPPortal, BSPSubcluster,
};
use magellanicus::fixed::FX_ONE;
use magellanicus::sky::Sky;
use magellanicus::table::Table;

fn node(front: Option<BSP3DNodeChild>, back: Option<BSP3DNodeChild>, plane: usize) -> BSP3DNode {
    BSP3DNode { front_child: front, back_child: back, plane }
}

fn plane_x(offset_units: i32) -> BSP3DPlane {
    BSP3DPlane { angle: [FX_ONE, 0, 0], offset: offset_units * FX_ONE }
}

fn cluster() -> BSPCluster {
    BSPCluster { sky: None, subclusters: Vec::new(), cluster_portals: Vec::new() }
}

/// A one-node tree splitting on x = 5: front leaf 0 (cluster 0), back
/// leaf 1 (cluster 1).
fn two_leaf_tree() -> BSPData {
    BSPData {
        nodes: vec![node(
            Some(BSP3DNodeChild::Leaf(0)),
            Some(BSP3DNodeChild::Leaf(1)),
            0,
        )],
        planes: vec![plane_x(5)],
        leaves: vec![BSPLeaf { cluster: 0 }, BSPLeaf { cluster: 1 }],
        clusters: vec![cluster(), cluster()],
        portals: Vec::new(),
    }
}

#[test]
fn find_leaf_descends_by_plane_side() {
    let bsp = two_leaf_tree();
    let skies: Table<Sky> = Table::new();
    assert!(bsp.validate(&skies, 0).is_ok());
    assert_eq!(bsp.find_leaf([6 * FX_ONE, 0, 0]), Some(0));
    assert_eq!(bsp.find_leaf([4 * FX_ONE, 0, 0]), Some(1));
    assert_eq!(bsp.find_cluster([6 * FX_ONE, 0, 0]), Some(0));
    assert_eq!(bsp.find_cluster([4 * FX_ONE, 0, 0]), Some(1));
}

#[test]
fn boundary_point_goes_front() {
    // A position exactly on the splitting plane takes the front branch:
    // the boundary is closed on the front side.
    let bsp = two_leaf_tree();
    let skies: Table<Sky> = Table::new();
    assert!(bsp.validate(&skies, 0).is_ok());
    assert_eq!(bsp.find_leaf([5 * FX_ONE, 0, 0]), Some(0));
    assert!(classify_front([5 * FX_ONE, 0, 0], plane_x(5)));
    assert!(!classify_front([5 * FX_ONE - 1, 0, 0], plane_x(5)));
}

#[test]
fn missing_child_yields_none() {
    let bsp = BSPData {
        nodes: vec![node(None, Some(BSP3DNodeChild::Leaf(0)), 0)],
        planes: vec![plane_x(0)],
        leaves: vec![BSPLeaf { cluster: 0 }],
        clusters: vec![cluster()],
        portals: Vec::new(),
    };
    let skies: Table<Sky> = Table::new();
    assert!(bsp.validate(&skies, 0).is_ok());
    assert_eq!(bsp.find_leaf([FX_ONE, 0, 0]), None);
    assert_eq!(bsp.find_leaf([-FX_ONE, 0, 0]), Some(0));
}

#[test]
fn cyclic_graph_fails_validation() {
    // Two nodes pointing at each other: validation must fail, not hang.
    let bsp = BSPData {
        nodes: vec![
            node(Some(BSP3DNodeChild::Node(1)), None, 0),
            node(Some(BSP3DNodeChild::Node(0)), None, 0),
        ],
        planes: vec![plane_x(0)],
        leaves: Vec::new(),
        clusters: Vec::new(),
        portals: Vec::new(),
    };
    let skies: Table<Sky> = Table::new();
    let r = bsp.validate(&skies, 0);
    assert!(r.is_err());
    let msg = r.unwrap_err().message();
    assert!(msg.contains("infinite loop"));
}

#[test]
fn self_loop_fails_validation() {
    let bsp = BSPData {
        nodes: vec![node(Some(BSP3DNodeChild::Node(0)), None, 0)],
        planes: vec![plane_x(0)],
        leaves: Vec::new(),
        clusters: Vec::new(),
        portals: Vec::new(),
    };
    let skies: Table<Sky> = Table::new();
    assert!(bsp.validate(&skies, 0).is_err());
}

#[test]
fn empty_tree_fails_validation() {
    let bsp = BSPData {
        nodes: Vec::new(),
        planes: Vec::new(),
        leaves: Vec::new(),
        clusters: Vec::new(),
        portals: Vec::new(),
    };
    let skies: Table<Sky> = Table::new();
    assert!(bsp.validate(&skies, 0).is_err());
}

#[test]
fn out_of_range_node_child_fails() {
    let bsp = BSPData {
        nodes: vec![node(Some(BSP3DNodeChild::Node(9)), None, 0)],
        planes: vec![plane_x(0)],
        leaves: Vec::new(),
        clusters: Vec::new(),
        portals: Vec::new(),
    };
    let skies: Table<Sky> = Table::new();
    assert!(bsp.validate(&skies, 0).is_err());
}

#[test]
fn out_of_range_leaf_child_fails() {
    let bsp = BSPData {
        nodes: vec![node(Some(BSP3DNodeChild::Leaf(3)), None, 0)],
        planes: vec![plane_x(0)],
        leaves: Vec::new(),
        clusters: Vec::new(),
        portals: Vec::new(),
    };
    let skies: Table<Sky> = Table::new();
    assert!(bsp.validate(&skies, 0).is_err());
}

#[test]
fn out_of_range_leaf_cluster_fails() {
    let mut bsp = two_leaf_tree();
    bsp.leaves[1].cluster = 7;
    let skies: Table<Sky> = Table::new();
    let r = bsp.validate(&skies, 0);
    assert!(r.is_err());
    assert!(r.unwrap_err().message().contains("does not exist"));
}

#[test]
fn unknown_sky_fails() {
    let mut bsp = two_leaf_tree();
    bsp.clusters[0].sky = Some(String::from("missing_sky"));
    let skies: Table<Sky> = Table::new();
    let r = bsp.validate(&skies, 0);
    assert!(r.is_err());
    assert!(r.unwrap_err().message().contains("missing_sky"));
}

#[test]
fn out_of_range_surface_index_fails() {
    let mut bsp = two_leaf_tree();
    bsp.clusters[0].subclusters.push(BSPSubcluster {
        surface_indices: vec![4],
        world_bounds_from: [0, 0, 0],
        world_bounds_to: [0, 0, 0],
    });
    let skies: Table<Sky> = Table::new();
    // Only 4 surfaces exist (indices 0-3), so index 4 is out of bounds.
    assert!(bsp.validate(&skies, 4).is_err());
    bsp.clusters[0].subclusters[0].surface_indices = vec![3];
    assert!(bsp.validate(&skies, 4).is_ok());
}

#[test]
fn out_of_range_cluster_portal_reference_fails() {
    let mut bsp = two_leaf_tree();
    bsp.clusters[0].cluster_portals.push(2);
    let skies: Table<Sky> = Table::new();
    assert!(bsp.validate(&skies, 0).is_err());
}

#[test]
fn out_of_range_portal_cluster_fails() {
    let mut bsp = two_leaf_tree();
    bsp.portals.push(BSPPortal { front_cluster: 0, back_cluster: 9 });
    let skies: Table<Sky> = Table::new();
    assert!(bsp.validate(&skies, 0).is_err());
    bsp.portals[0].back_cluster = 1;
    assert!(bsp.validate(&skies, 0).is_ok());
}

#[test]
fn child_decoding_from_flagged_words() {
    assert_eq!(BSP3DNodeChild::from_flagged_u32(0xFFFFFFFF), None);
    assert_eq!(
        BSP3DNodeChild::from_flagged_u32(0x80000005),
        Some(BSP3DNodeChild::Leaf(5))
    );
    assert_eq!(BSP3DNodeChild::from_flagged_u32(7), Some(BSP3DNodeChild::Node(7)));
    assert_eq!(
        BSP3DNodeChild::from_flagged_u32(0x80000000),
        Some(BSP3DNodeChild::Leaf(0))
    );
    assert_eq!(
        BSP3DNodeChild::from_flagged_u32(0x7FFFFFFF),
        Some(BSP3DNodeChild::Node(0x7FFFFFFF))
    );
}
