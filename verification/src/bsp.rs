//! The binary space partition: splitting planes, nodes, leaves, clusters and
//! portals, with load-time validation (bounds and acyclicity) and the
//! point-to-leaf traversal used every frame.

use vstd::prelude::*;
use crate::error::{Error, MResult};
use crate::fixed::FX_ONE;
use crate::sky::Sky;
use crate::table::Table;
use crate::text::{push_str, push_usize};

verus! {

/// An internal tree node: a splitting plane and up to two children.
#[derive(Copy, Clone, Debug)]
pub struct BSP3DNode {
    pub front_child: Option<BSP3DNodeChild>,
    pub back_child: Option<BSP3DNodeChild>,
    pub plane: usize,
}

/// A child reference: another node, or a terminal leaf.
#[derive(Copy, Clone, Debug, PartialEq, Eq, Structural)]
pub enum BSP3DNodeChild {
    Node(usize),
    Leaf(usize),
}

impl BSP3DNodeChild {
    /// Decode the on-disk child encoding: all-ones means "no child"; the top
    /// bit distinguishes a leaf from a node; the rest is the index.
    pub fn from_flagged_u32(data: u32) -> (r: Option<Self>)
        ensures
            data == 0xFFFFFFFFu32 ==> r is None,
            data != 0xFFFFFFFFu32 && data >= 0x80000000u32
                ==> r == Some(BSP3DNodeChild::Leaf((data - 0x80000000u32) as usize)),
            data < 0x80000000u32 ==> r == Some(BSP3DNodeChild::Node(data as usize)),
    {
        if data == 0xFFFFFFFF {
            None
        } else if data >= 0x80000000 {
            let masked = data - 0x80000000;
            Some(BSP3DNodeChild::Leaf(masked as usize))
        } else {
            Some(BSP3DNodeChild::Node(data as usize))
        }
    }
}

/// A splitting plane: a direction and a signed offset along it.
#[derive(Copy, Clone, Debug)]
pub struct BSP3DPlane {
    pub angle: [i32; 3],
    pub offset: i32,
}

/// A terminal node, owning one cluster reference.
#[derive(Copy, Clone, Debug)]
pub struct BSPLeaf {
    pub cluster: usize,
}

/// A visibility region: an optional sky, surface groups, and portals.
#[derive(Clone, Debug)]
pub struct BSPCluster {
    pub sky: Option<String>,
    pub subclusters: Vec<BSPSubcluster>,
    pub cluster_portals: Vec<usize>,
}

/// A bounded surface group within a cluster.
#[derive(Clone, Debug)]
pub struct BSPSubcluster {
    pub surface_indices: Vec<usize>,
    pub world_bounds_from: [i32; 3],
    pub world_bounds_to: [i32; 3],
}

/// A connection between two adjacent clusters.
#[derive(Copy, Clone, Debug)]
pub struct BSPPortal {
    pub front_cluster: usize,
    pub back_cluster: usize,
}

/// The whole partition.
#[derive(Clone, Debug)]
pub struct BSPData {
    pub nodes: Vec<BSP3DNode>,
    pub planes: Vec<BSP3DPlane>,
    pub leaves: Vec<BSPLeaf>,
    pub clusters: Vec<BSPCluster>,
    pub portals: Vec<BSPPortal>,
}

/// Dot product of a position and a plane direction, exactly, over the raw
/// 16.16 integers.
pub open spec fn dot_fx(p: [i32; 3], a: [i32; 3]) -> int {
    (p[0] as int) * (a[0] as int) + (p[1] as int) * (a[1] as int) + (p[2] as int) * (a[2] as int)
}

/// A point is on the front side of a plane when the dot product reaches the
/// plane offset; the boundary is closed on the front side.
pub open spec fn is_front(p: [i32; 3], plane: BSP3DPlane) -> bool {
    dot_fx(p, plane.angle) >= (plane.offset as int) * (FX_ONE as int)
}

/// Products of two machine-word-sized integers stay far inside `i128`.
pub proof fn lemma_i32_prod_bound(a: int, b: int)
    requires
        -0x8000_0000 <= a <= 0x7FFF_FFFF,
        -0x8000_0000 <= b <= 0x7FFF_FFFF,
    ensures
        -0x1_0000_0000_0000_0000 <= a * b <= 0x1_0000_0000_0000_0000,
{
    assert(-0x1_0000_0000_0000_0000 <= a * b <= 0x1_0000_0000_0000_0000) by (nonlinear_arith)
        requires
            -0x8000_0000 <= a <= 0x7FFF_FFFF,
            -0x8000_0000 <= b <= 0x7FFF_FFFF;
}

/// Exact front/back classification of a point against a plane.
pub fn classify_front(p: [i32; 3], plane: BSP3DPlane) -> (r: bool)
    ensures
        r == is_front(p, plane),
{
    proof {
        lemma_i32_prod_bound(p[0] as int, plane.angle[0] as int);
        lemma_i32_prod_bound(p[1] as int, plane.angle[1] as int);
        lemma_i32_prod_bound(p[2] as int, plane.angle[2] as int);
        lemma_i32_prod_bound(plane.offset as int, FX_ONE as int);
    }
    let d0: i128 = (p[0] as i128) * (plane.angle[0] as i128);
    let d1: i128 = (p[1] as i128) * (plane.angle[1] as i128);
    let d2: i128 = (p[2] as i128) * (plane.angle[2] as i128);
    let dot: i128 = d0 + d1 + d2;
    dot >= (plane.offset as i128) * (FX_ONE as i128)
}

/// Bookkeeping of the depth-first validation walk: which nodes are fully
/// checked, and (as ghost state) the order in which they finished, which
/// doubles as the acyclicity certificate.
struct TestedNodes {
    bits: Vec<bool>,
    order: Ghost<Seq<nat>>,
    count: Ghost<nat>,
}

/// How many entries are true.
pub open spec fn count_true(s: Seq<bool>) -> nat
    decreases s.len(),
{
    if s.len() == 0 {
        0
    } else {
        count_true(s.drop_last()) + if s.last() { 1nat } else { 0nat }
    }
}

proof fn lemma_count_true_le(s: Seq<bool>)
    ensures
        count_true(s) <= s.len(),
    decreases s.len(),
{
    if s.len() > 0 {
        lemma_count_true_le(s.drop_last());
    }
}

proof fn lemma_count_true_update(s: Seq<bool>, i: int)
    requires
        0 <= i < s.len(),
        !s[i],
    ensures
        count_true(s.update(i, true)) == count_true(s) + 1,
    decreases s.len(),
{
    let u = s.update(i, true);
    if i == s.len() - 1 {
        assert(u.drop_last() =~= s.drop_last());
        assert(u.last());
        assert(!s.last());
    } else {
        assert(u.drop_last() =~= s.drop_last().update(i, true));
        assert(u.last() == s.last());
        lemma_count_true_update(s.drop_last(), i);
    }
}

/// No more entries are marked than there are entries.
pub proof fn lemma_count_true_le_pub(s: Seq<bool>)
    ensures
        count_true(s) <= s.len(),
{
    lemma_count_true_le(s);
}

/// Marking one more entry raises the count by one.
pub proof fn lemma_count_true_update_pub(s: Seq<bool>, i: int)
    requires
        0 <= i < s.len(),
        !s[i],
    ensures
        count_true(s.update(i, true)) == count_true(s) + 1,
{
    lemma_count_true_update(s, i);
}

/// A node-child reference is already marked.
spec fn child_bits_ok(t: TestedNodes, s: BSPData, c: Option<BSP3DNodeChild>) -> bool {
    match c {
        Some(BSP3DNodeChild::Node(n)) => t.bits@[n as int],
        _ => true,
    }
}

/// A node-child reference is already marked, and finished earlier than
/// `ord`.
spec fn child_marked(t: TestedNodes, s: BSPData, c: Option<BSP3DNodeChild>, ord: nat) -> bool {
    match c {
        Some(BSP3DNodeChild::Node(n)) => t.bits@[n as int] && t.order@[n as int] < ord,
        _ => true,
    }
}

/// Invariant of the validation walk: sizes match, the finish counter counts
/// the marked nodes, and every marked node is fully in bounds with both
/// node-children marked earlier.
spec fn tn_wf(t: TestedNodes, s: BSPData) -> bool {
    &&& t.bits@.len() == s.nodes@.len()
    &&& t.order@.len() == s.nodes@.len()
    &&& t.count@ == count_true(t.bits@)
    &&& forall|i: int| #![trigger t.bits@[i]] 0 <= i < t.bits@.len() && t.bits@[i] ==> {
        &&& t.order@[i] < t.count@
        &&& s.node_ok(i)
        &&& child_marked(t, s, s.nodes@[i].front_child, t.order@[i])
        &&& child_marked(t, s, s.nodes@[i].back_child, t.order@[i])
    }
}

impl BSPData {
    /// A child reference points inside the tree.
    pub open spec fn child_ok(&self, c: Option<BSP3DNodeChild>) -> bool {
        match c {
            None => true,
            Some(BSP3DNodeChild::Node(n)) => n < self.nodes@.len(),
            Some(BSP3DNodeChild::Leaf(l)) => l < self.leaves@.len(),
        }
    }

    /// Every node's plane and children point inside the tree.
    pub open spec fn nodes_in_bounds(&self) -> bool {
        forall|i: int| 0 <= i < self.nodes@.len() ==> {
            &&& (#[trigger] self.nodes@[i]).plane < self.planes@.len()
            &&& self.child_ok(self.nodes@[i].front_child)
            &&& self.child_ok(self.nodes@[i].back_child)
        }
    }

    /// Node `j` is a node-child of node `i`.
    pub open spec fn is_node_child(&self, i: int, j: int) -> bool {
        self.nodes@[i].front_child == Some(BSP3DNodeChild::Node(j as usize))
            || self.nodes@[i].back_child == Some(BSP3DNodeChild::Node(j as usize))
    }

    /// `rank` certifies the node graph acyclic: every node-child has a
    /// strictly smaller rank, and all ranks are below the node count.
    pub open spec fn rank_ok(&self, rank: Seq<nat>) -> bool {
        &&& rank.len() == self.nodes@.len()
        &&& forall|i: int| 0 <= i < rank.len() ==> (#[trigger] rank[i]) < self.nodes@.len()
        &&& forall|i: int, j: int|
            0 <= i < rank.len() && 0 <= j < rank.len() && self.is_node_child(i, j)
                ==> (#[trigger] rank[j]) < (#[trigger] rank[i])
    }

    /// The node graph has no cycle among node children.
    pub open spec fn acyclic(&self) -> bool {
        exists|rank: Seq<nat>| self.rank_ok(rank)
    }

    /// Enough structure for the per-frame traversal to run.
    pub open spec fn tree_ok(&self) -> bool {
        &&& self.nodes@.len() > 0
        &&& self.nodes_in_bounds()
        &&& self.acyclic()
    }

    /// Every leaf's cluster points inside the cluster list.
    pub open spec fn leaves_in_bounds(&self) -> bool {
        forall|i: int| 0 <= i < self.leaves@.len()
            ==> (#[trigger] self.leaves@[i]).cluster < self.clusters@.len()
    }

    /// The traversal, by descending fuel. On a tree certified by any rank,
    /// any fuel above the starting node's rank yields the same answer, so
    /// `find_leaf_spec` fixes the fuel at the node count.
    pub open spec fn find_leaf_from(&self, position: [i32; 3], node: int, fuel: nat) -> Option<
        usize,
    >
        decreases fuel,
    {
        if fuel == 0 || !(0 <= node < self.nodes@.len()) {
            None
        } else {
            let nd = self.nodes@[node];
            if nd.plane >= self.planes@.len() {
                None
            } else {
                let child = if is_front(position, self.planes@[nd.plane as int]) {
                    nd.front_child
                } else {
                    nd.back_child
                };
                match child {
                    None => None,
                    Some(BSP3DNodeChild::Leaf(l)) => Some(l),
                    Some(BSP3DNodeChild::Node(n)) => self.find_leaf_from(
                        position,
                        n as int,
                        (fuel - 1) as nat,
                    ),
                }
            }
        }
    }

    /// What `find_leaf` returns.
    pub open spec fn find_leaf_spec(&self, position: [i32; 3]) -> Option<usize> {
        self.find_leaf_from(position, 0, self.nodes@.len() as nat)
    }

    /// What `find_cluster` returns.
    pub open spec fn find_cluster_spec(&self, position: [i32; 3]) -> Option<usize> {
        match self.find_leaf_spec(position) {
            Some(l) => Some(self.leaves@[l as int].cluster),
            None => None,
        }
    }

    /// On a certified tree the traversal result does not depend on the fuel,
    /// as long as the fuel exceeds the starting node's rank.
    pub proof fn lemma_find_leaf_fuel(
        &self,
        position: [i32; 3],
        node: int,
        f1: nat,
        f2: nat,
        rank: Seq<nat>,
    )
        requires
            self.nodes_in_bounds(),
            self.rank_ok(rank),
            0 <= node < self.nodes@.len(),
            f1 > rank[node],
            f2 > rank[node],
        ensures
            self.find_leaf_from(position, node, f1) == self.find_leaf_from(position, node, f2),
        decreases rank[node],
    {
        let nd = self.nodes@[node];
        let child = if is_front(position, self.planes@[nd.plane as int]) {
            nd.front_child
        } else {
            nd.back_child
        };
        match child {
            Some(BSP3DNodeChild::Node(n)) => {
                assert(self.is_node_child(node, n as int));
                assert(rank[n as int] < rank[node]);
                self.lemma_find_leaf_fuel(position, n as int, (f1 - 1) as nat, (f2 - 1) as nat, rank);
            },
            _ => {},
        }
    }

    /// A leaf returned by the traversal is in bounds.
    pub proof fn lemma_find_leaf_from_in_bounds(&self, position: [i32; 3], node: int, fuel: nat)
        requires
            self.nodes_in_bounds(),
        ensures
            self.find_leaf_from(position, node, fuel) matches Some(l)
                ==> l < self.leaves@.len(),
        decreases fuel,
    {
        if fuel > 0 && 0 <= node < self.nodes@.len() {
            let nd = self.nodes@[node];
            if nd.plane < self.planes@.len() {
                let child = if is_front(position, self.planes@[nd.plane as int]) {
                    nd.front_child
                } else {
                    nd.back_child
                };
                match child {
                    Some(BSP3DNodeChild::Node(n)) => {
                        self.lemma_find_leaf_from_in_bounds(position, n as int, (fuel - 1) as nat);
                    },
                    _ => {},
                }
            }
        }
    }

    /// A position exactly on a node's splitting plane descends into the
    /// front child: the boundary is closed on the front side.
    pub proof fn lemma_boundary_goes_front(&self, position: [i32; 3], node: int, fuel: nat)
        requires
            self.nodes_in_bounds(),
            0 <= node < self.nodes@.len(),
            fuel > 0,
            dot_fx(position, self.planes@[self.nodes@[node].plane as int].angle)
                == (self.planes@[self.nodes@[node].plane as int].offset as int) * (FX_ONE as int),
        ensures
            self.find_leaf_from(position, node, fuel) == match self.nodes@[node].front_child {
                None => None::<usize>,
                Some(BSP3DNodeChild::Leaf(l)) => Some(l),
                Some(BSP3DNodeChild::Node(n)) => self.find_leaf_from(
                    position,
                    n as int,
                    (fuel - 1) as nat,
                ),
            },
    {
        assert(is_front(position, self.planes@[self.nodes@[node].plane as int]));
    }

    /// Walk the tree from the root, descending front or back of each
    /// splitting plane, to the leaf holding `position`.
    pub fn find_leaf(&self, position: [i32; 3]) -> (r: Option<usize>)
        requires
            self.tree_ok(),
        ensures
            r == self.find_leaf_spec(position),
            r matches Some(l) ==> l < self.leaves@.len(),
    {
        let ghost rank: Seq<nat> = choose|rank: Seq<nat>| self.rank_ok(rank);
        let ghost n_total = self.nodes@.len() as nat;
        let mut node: usize = 0;
        proof {
            self.lemma_find_leaf_fuel(position, 0, n_total, rank[0] + 1, rank);
            self.lemma_find_leaf_from_in_bounds(position, 0, n_total);
        }
        loop
            invariant
                self.tree_ok(),
                self.rank_ok(rank),
                node < self.nodes@.len(),
                self.find_leaf_spec(position) == self.find_leaf_from(
                    position,
                    node as int,
                    (rank[node as int] + 1) as nat,
                ),
            decreases rank[node as int],
        {
            let nd = self.nodes[node];
            let plane = self.planes[nd.plane];
            let child = if classify_front(position, plane) {
                nd.front_child
            } else {
                nd.back_child
            };
            match child {
                None => {
                    proof {
                        self.lemma_find_leaf_from_in_bounds(
                            position,
                            node as int,
                            (rank[node as int] + 1) as nat,
                        );
                    }
                    return None;
                },
                Some(BSP3DNodeChild::Leaf(l)) => {
                    proof {
                        self.lemma_find_leaf_from_in_bounds(
                            position,
                            node as int,
                            (rank[node as int] + 1) as nat,
                        );
                    }
                    return Some(l);
                },
                Some(BSP3DNodeChild::Node(n)) => {
                    proof {
                        assert(self.is_node_child(node as int, n as int));
                        assert(rank[n as int] < rank[node as int]);
                        self.lemma_find_leaf_fuel(
                            position,
                            n as int,
                            rank[node as int] as nat,
                            (rank[n as int] + 1) as nat,
                            rank,
                        );
                    }
                    node = n;
                },
            }
        }
    }

    /// One node's own references are in bounds.
    pub open spec fn node_ok(&self, i: int) -> bool {
        &&& self.nodes@[i].plane < self.planes@.len()
        &&& self.child_ok(self.nodes@[i].front_child)
        &&& self.child_ok(self.nodes@[i].back_child)
    }

    /// One cluster's references check out: its sky resolves, its surface
    /// indices are below the total triangle count, and its portal references
    /// are in bounds.
    pub open spec fn cluster_ok(&self, skies: Table<Sky>, total_surfaces: nat, c: int) -> bool {
        &&& (self.clusters@[c].sky matches Some(s) ==> skies.spec_get(s@) is Some)
        &&& forall|sc: int, k: int|
            0 <= sc < self.clusters@[c].subclusters@.len()
                && 0 <= k < self.clusters@[c].subclusters@[sc].surface_indices@.len()
                ==> (#[trigger] self.clusters@[c].subclusters@[sc].surface_indices@[k])
                    < total_surfaces
        &&& forall|k: int| 0 <= k < self.clusters@[c].cluster_portals@.len()
            ==> (#[trigger] self.clusters@[c].cluster_portals@[k]) < self.portals@.len()
    }

    /// All clusters check out.
    pub open spec fn clusters_ok(&self, skies: Table<Sky>, total_surfaces: nat) -> bool {
        forall|c: int| 0 <= c < self.clusters@.len()
            ==> #[trigger] self.cluster_ok(skies, total_surfaces, c)
    }

    /// Every cluster's portal references are in bounds.
    pub open spec fn cluster_portals_ok(&self) -> bool {
        forall|c: int, k: int|
            0 <= c < self.clusters@.len() && 0 <= k < self.clusters@[c].cluster_portals@.len()
                ==> (#[trigger] self.clusters@[c].cluster_portals@[k]) < self.portals@.len()
    }

    /// Every portal joins two in-bounds clusters.
    pub open spec fn portals_in_bounds(&self) -> bool {
        forall|p: int| 0 <= p < self.portals@.len() ==> {
            &&& (#[trigger] self.portals@[p]).front_cluster < self.clusters@.len()
            &&& self.portals@[p].back_cluster < self.clusters@.len()
        }
    }

    /// Everything load-time validation checks: a nonempty, in-bounds,
    /// acyclic node graph, in-bounds leaves, resolvable cluster skies,
    /// in-range surface indices, and in-bounds portals.
    pub open spec fn bsp_valid(&self, skies: Table<Sky>, total_surfaces: nat) -> bool {
        &&& self.nodes@.len() > 0
        &&& self.nodes_in_bounds()
        &&& self.acyclic()
        &&& self.leaves_in_bounds()
        &&& self.clusters_ok(skies, total_surfaces)
        &&& self.portals_in_bounds()
    }

    /// A nonempty child-step path through the node graph that returns to its
    /// first node.
    pub open spec fn is_cycle(&self, p: Seq<int>) -> bool {
        &&& p.len() >= 2
        &&& forall|k: int| 0 <= k < p.len() ==> 0 <= (#[trigger] p[k]) < self.nodes@.len()
        &&& forall|k: int| 0 <= k < p.len() - 1 ==> self.is_node_child(#[trigger] p[k], p[k + 1])
        &&& p[0] == p[p.len() - 1]
    }

    /// A rank strictly decreases along any child-step path.
    proof fn lemma_rank_decreases(&self, p: Seq<int>, rank: Seq<nat>)
        requires
            self.rank_ok(rank),
            p.len() >= 2,
            forall|k: int| 0 <= k < p.len() ==> 0 <= (#[trigger] p[k]) < self.nodes@.len(),
            forall|k: int| 0 <= k < p.len() - 1 ==> self.is_node_child(#[trigger] p[k], p[k + 1]),
        ensures
            rank[p[p.len() - 1]] < rank[p[0]],
        decreases p.len(),
    {
        if p.len() == 2 {
            assert(self.is_node_child(p[0], p[1]));
        } else {
            let q = p.drop_last();
            assert(q.len() == p.len() - 1);
            assert(forall|k: int| 0 <= k < q.len() ==> q[k] == p[k]);
            self.lemma_rank_decreases(q, rank);
            assert(self.is_node_child(p[p.len() - 2], p[p.len() - 1]));
        }
    }

    /// A node graph with a cycle admits no rank, so it is not acyclic and
    /// fails validation. Together with the contract of `validate`, this is
    /// the acyclicity guarantee: `validate` returns a data error on any
    /// cyclic graph instead of hanging.
    pub proof fn lemma_cycle_not_acyclic(&self, p: Seq<int>)
        requires
            self.is_cycle(p),
        ensures
            !self.acyclic(),
    {
        if self.acyclic() {
            let rank = choose|rank: Seq<nat>| self.rank_ok(rank);
            self.lemma_rank_decreases(p, rank);
            assert(rank[p[0]] < rank[p[0]]);
        }
    }

    /// A cyclic node graph fails the whole validation predicate.
    pub proof fn lemma_cycle_invalidates(
        &self,
        p: Seq<int>,
        skies: Table<Sky>,
        total_surfaces: nat,
    )
        requires
            self.is_cycle(p),
        ensures
            !self.bsp_valid(skies, total_surfaces),
    {
        self.lemma_cycle_not_acyclic(p);
    }

    /// Depth-first check of one node: children in bounds, no cycle within
    /// the remaining budget. Marks every fully checked node in `t`, with a
    /// ghost finishing order that certifies acyclicity.
    fn validate_3d_node(&self, node: usize, remaining: usize, t: &mut TestedNodes) -> (r: MResult<
        (),
    >)
        requires
            node < self.nodes@.len(),
            tn_wf(*old(t), *self),
        ensures
            tn_wf(*final(t), *self),
            final(t).bits@.len() == old(t).bits@.len(),
            forall|i: int| 0 <= i < old(t).bits@.len() && old(t).bits@[i]
                ==> final(t).bits@[i],
            r is Ok ==> final(t).bits@[node as int],
            r matches Err(e) ==> e is DataError,
            forall|rank: Seq<nat>|
                (#[trigger] self.rank_ok(rank)) && self.nodes_in_bounds()
                    && rank[node as int] < remaining ==> r is Ok,
        decreases remaining,
    {
        if t.bits[node] {
            return Ok(());
        }
        if remaining == 0 {
            let mut m = String::new();
            push_str(&mut m, "infinite loop detected when traversing nodes");
            return Err(Error::DataError { error: m });
        }
        let rem = remaining - 1;
        let nd = self.nodes[node];

        if nd.plane >= self.planes.len() {
            proof {
                assert forall|rank: Seq<nat>|
                    !((#[trigger] self.rank_ok(rank)) && self.nodes_in_bounds()
                        && rank[node as int] < remaining) by {
                    if self.nodes_in_bounds() {
                        assert(self.node_ok(node as int));
                    }
                }
            }
            let mut m = String::new();
            push_str(&mut m, "broken BSP: node #");
            push_usize(&mut m, node);
            push_str(&mut m, " references a plane that does not exist");
            return Err(Error::DataError { error: m });
        }

        if let Some(front) = nd.front_child {
            match front {
                BSP3DNodeChild::Node(n) => {
                    if n >= self.nodes.len() {
                        proof {
                            assert forall|rank: Seq<nat>|
                                !((#[trigger] self.rank_ok(rank)) && self.nodes_in_bounds()
                                    && rank[node as int] < remaining) by {
                                if self.nodes_in_bounds() {
                                    assert(self.node_ok(node as int));
                                }
                            }
                        }
                        let mut m = String::new();
                        push_str(&mut m, "broken BSP: node #");
                        push_usize(&mut m, n);
                        push_str(&mut m, ", referenced by node #");
                        push_usize(&mut m, node);
                        push_str(&mut m, ", does not exist");
                        return Err(Error::DataError { error: m });
                    }
                    match self.validate_3d_node(n, rem, t) {
                        Ok(()) => {
                            proof {
                                assert(t.bits@[n as int]);
                            }
                        },
                        Err(e) => {
                            proof {
                                assert forall|rank: Seq<nat>|
                                    !((#[trigger] self.rank_ok(rank)) && self.nodes_in_bounds()
                                        && rank[node as int] < remaining) by {
                                    if self.rank_ok(rank) && self.nodes_in_bounds()
                                        && rank[node as int] < remaining {
                                        assert(self.is_node_child(node as int, n as int));
                                        assert(rank[n as int] < rank[node as int]);
                                        assert(rank[n as int] < rem);
                                    }
                                }
                            }
                            return Err(e);
                        },
                    }
                },
                BSP3DNodeChild::Leaf(l) => {
                    if l >= self.leaves.len() {
                        proof {
                            assert forall|rank: Seq<nat>|
                                !((#[trigger] self.rank_ok(rank)) && self.nodes_in_bounds()
                                    && rank[node as int] < remaining) by {
                                if self.nodes_in_bounds() {
                                    assert(self.node_ok(node as int));
                                }
                            }
                        }
                        let mut m = String::new();
                        push_str(&mut m, "broken BSP: leaf #");
                        push_usize(&mut m, l);
                        push_str(&mut m, ", referenced by node #");
                        push_usize(&mut m, node);
                        push_str(&mut m, ", does not exist");
                        return Err(Error::DataError { error: m });
                    }
                },
            }
        }
        proof {
            assert(child_bits_ok(*t, *self, nd.front_child));
        }

        if let Some(back) = nd.back_child {
            match back {
                BSP3DNodeChild::Node(n) => {
                    if n >= self.nodes.len() {
                        proof {
                            assert forall|rank: Seq<nat>|
                                !((#[trigger] self.rank_ok(rank)) && self.nodes_in_bounds()
                                    && rank[node as int] < remaining) by {
                                if self.nodes_in_bounds() {
                                    assert(self.node_ok(node as int));
                                }
                            }
                        }
                        let mut m = String::new();
                        push_str(&mut m, "broken BSP: node #");
                        push_usize(&mut m, n);
                        push_str(&mut m, ", referenced by node #");
                        push_usize(&mut m, node);
                        push_str(&mut m, ", does not exist");
                        return Err(Error::DataError { error: m });
                    }
                    match self.validate_3d_node(n, rem, t) {
                        Ok(()) => {
                            proof {
                                assert(t.bits@[n as int]);
                            }
                        },
                        Err(e) => {
                            proof {
                                assert forall|rank: Seq<nat>|
                                    !((#[trigger] self.rank_ok(rank)) && self.nodes_in_bounds()
                                        && rank[node as int] < remaining) by {
                                    if self.rank_ok(rank) && self.nodes_in_bounds()
                                        && rank[node as int] < remaining {
                                        assert(self.is_node_child(node as int, n as int));
                                        assert(rank[n as int] < rank[node as int]);
                                        assert(rank[n as int] < rem);
                                    }
                                }
                            }
                            return Err(e);
                        },
                    }
                },
                BSP3DNodeChild::Leaf(l) => {
                    if l >= self.leaves.len() {
                        proof {
                            assert forall|rank: Seq<nat>|
                                !((#[trigger] self.rank_ok(rank)) && self.nodes_in_bounds()
                                    && rank[node as int] < remaining) by {
                                if self.nodes_in_bounds() {
                                    assert(self.node_ok(node as int));
                                }
                            }
                        }
                        let mut m = String::new();
                        push_str(&mut m, "broken BSP: leaf #");
                        push_usize(&mut m, l);
                        push_str(&mut m, ", referenced by node #");
                        push_usize(&mut m, node);
                        push_str(&mut m, ", does not exist");
                        return Err(Error::DataError { error: m });
                    }
                },
            }
        }

        proof {
            assert(child_bits_ok(*t, *self, nd.front_child));
            assert(child_bits_ok(*t, *self, nd.back_child));
        }
        if !t.bits[node] {
            let ghost pre = *t;
            t.bits.set(node, true);
            proof {
                lemma_count_true_update(pre.bits@, node as int);
            }
            t.order = Ghost(t.order@.update(node as int, t.count@));
            t.count = Ghost((t.count@ + 1) as nat);
            proof {
                assert(t.bits@ == pre.bits@.update(node as int, true));
                assert(count_true(t.bits@) == pre.count@ + 1);
                assert forall|i: int|
                    0 <= i < t.bits@.len() && t.bits@[i] implies {
                    &&& t.order@[i] < t.count@
                    &&& self.node_ok(i)
                    &&& child_marked(*t, *self, self.nodes@[i].front_child, t.order@[i])
                    &&& child_marked(*t, *self, self.nodes@[i].back_child, t.order@[i])
                } by {
                    if i == node as int {
                        assert(self.node_ok(i));
                        assert(t.order@[i] == pre.count@);
                        match self.nodes@[i].front_child {
                            Some(BSP3DNodeChild::Node(nf)) => {
                                assert(pre.bits@[nf as int]);
                                assert(nf as int != node as int);
                                assert(t.bits@[nf as int]);
                                assert(t.order@[nf as int] == pre.order@[nf as int]);
                                assert(pre.order@[nf as int] < pre.count@);
                            },
                            _ => {},
                        }
                        match self.nodes@[i].back_child {
                            Some(BSP3DNodeChild::Node(nb)) => {
                                assert(pre.bits@[nb as int]);
                                assert(nb as int != node as int);
                                assert(t.bits@[nb as int]);
                                assert(t.order@[nb as int] == pre.order@[nb as int]);
                                assert(pre.order@[nb as int] < pre.count@);
                            },
                            _ => {},
                        }
                        assert(child_marked(*t, *self, self.nodes@[i].front_child, t.order@[i]));
                        assert(child_marked(*t, *self, self.nodes@[i].back_child, t.order@[i]));
                    } else {
                        assert(pre.bits@[i]);
                        assert(t.order@[i] == pre.order@[i]);
                        assert(pre.order@[i] < pre.count@);
                        assert(self.node_ok(i));
                        match self.nodes@[i].front_child {
                            Some(BSP3DNodeChild::Node(nf)) => {
                                assert(pre.bits@[nf as int]);
                                assert(nf as int != node as int);
                                assert(t.bits@[nf as int]);
                                assert(t.order@[nf as int] == pre.order@[nf as int]);
                            },
                            _ => {},
                        }
                        match self.nodes@[i].back_child {
                            Some(BSP3DNodeChild::Node(nb)) => {
                                assert(pre.bits@[nb as int]);
                                assert(nb as int != node as int);
                                assert(t.bits@[nb as int]);
                                assert(t.order@[nb as int] == pre.order@[nb as int]);
                            },
                            _ => {},
                        }
                        assert(child_marked(*t, *self, self.nodes@[i].front_child, t.order@[i]));
                        assert(child_marked(*t, *self, self.nodes@[i].back_child, t.order@[i]));
                    }
                }
            }
        }
        Ok(())
    }

    /// The whole validation predicate implies every cluster's portal
    /// references are in bounds.
    pub proof fn lemma_valid_cluster_portals(&self, skies: Table<Sky>, total_surfaces: nat)
        requires
            self.bsp_valid(skies, total_surfaces),
        ensures
            self.cluster_portals_ok(),
    {
        assert forall|c: int, k: int|
            0 <= c < self.clusters@.len() && 0 <= k < self.clusters@[c].cluster_portals@.len()
                implies (#[trigger] self.clusters@[c].cluster_portals@[k])
                    < self.portals@.len() by {
            assert(self.cluster_ok(skies, total_surfaces, c));
        }
    }

    /// Load-time validation: succeeds exactly on data satisfying
    /// `bsp_valid` — a nonempty, in-bounds, acyclic node graph, in-bounds
    /// leaf clusters, resolvable skies, in-range surface indices, and
    /// in-bounds portal references. Cycles are caught by a traversal budget,
    /// never by unbounded recursion.
    pub fn validate(&self, skies: &Table<Sky>, total_surface_count: usize) -> (r: MResult<()>)
        ensures
            r is Ok <==> self.bsp_valid(*skies, total_surface_count as nat),
            r matches Err(e) ==> e is DataError,
    {
        let n = self.nodes.len();
        if n == 0 {
            let mut m = String::new();
            push_str(&mut m, "No nodes present");
            return Err(Error::DataError { error: m });
        }

        let mut bits: Vec<bool> = Vec::new();
        while bits.len() < n
            invariant
                bits@.len() <= n,
                forall|i: int| 0 <= i < bits@.len() ==> !(#[trigger] bits@[i]),
                count_true(bits@) == 0,
            decreases n - bits@.len(),
        {
            let ghost oldb = bits@;
            bits.push(false);
            proof {
                assert(bits@.drop_last() =~= oldb);
            }
        }
        let mut t = TestedNodes {
            bits,
            order: Ghost(Seq::new(n as nat, |i: int| 0nat)),
            count: Ghost(0nat),
        };
        assert(tn_wf(t, *self));

        let mut index: usize = 0;
        while index < n
            invariant
                n == self.nodes@.len(),
                tn_wf(t, *self),
                forall|i: int| 0 <= i < index ==> (#[trigger] t.bits@[i]),
            decreases n - index,
        {
            match self.validate_3d_node(index, n, &mut t) {
                Ok(()) => {},
                Err(e) => {
                    proof {
                        if self.bsp_valid(*skies, total_surface_count as nat) {
                            let rank = choose|rank: Seq<nat>| self.rank_ok(rank);
                            assert(rank[index as int] < n);
                        }
                    }
                    return Err(e);
                },
            }
            index = index + 1;
        }
        proof {
            lemma_count_true_le(t.bits@);
            assert forall|i: int| 0 <= i < t.order@.len()
                implies (#[trigger] t.order@[i]) < self.nodes@.len() by {
                assert(t.bits@[i]);
                assert(t.order@[i] < t.count@);
            }
            assert forall|i: int, j: int|
                0 <= i < t.order@.len() && 0 <= j < t.order@.len() && self.is_node_child(i, j)
                    implies (#[trigger] t.order@[j]) < (#[trigger] t.order@[i]) by {
                assert(t.bits@[i]);
                assert(t.bits@[j]);
                if self.nodes@[i].front_child == Some(BSP3DNodeChild::Node(j as usize)) {
                    assert(child_marked(t, *self, self.nodes@[i].front_child, t.order@[i]));
                } else {
                    assert(self.nodes@[i].back_child == Some(BSP3DNodeChild::Node(j as usize)));
                    assert(child_marked(t, *self, self.nodes@[i].back_child, t.order@[i]));
                }
            }
            assert(self.rank_ok(t.order@));
            assert(self.acyclic());
            assert forall|i: int| 0 <= i < self.nodes@.len() implies {
                &&& (#[trigger] self.nodes@[i]).plane < self.planes@.len()
                &&& self.child_ok(self.nodes@[i].front_child)
                &&& self.child_ok(self.nodes@[i].back_child)
            } by {
                assert(t.bits@[i]);
                assert(self.node_ok(i));
            }
            assert(self.nodes_in_bounds());
        }

        let mut li: usize = 0;
        while li < self.leaves.len()
            invariant
                forall|i: int| 0 <= i < li
                    ==> (#[trigger] self.leaves@[i]).cluster < self.clusters@.len(),
            decreases self.leaves@.len() - li,
        {
            if self.leaves[li].cluster >= self.clusters.len() {
                proof {
                    assert(!self.leaves_in_bounds());
                }
                let mut m = String::new();
                push_str(&mut m, "Leaf #");
                push_usize(&mut m, li);
                push_str(&mut m, " points to cluster #");
                push_usize(&mut m, self.leaves[li].cluster);
                push_str(&mut m, " which does not exist");
                return Err(Error::DataError { error: m });
            }
            li = li + 1;
        }
        assert(self.leaves_in_bounds());

        let mut ci: usize = 0;
        while ci < self.clusters.len()
            invariant
                forall|c: int| 0 <= c < ci
                    ==> #[trigger] self.cluster_ok(*skies, total_surface_count as nat, c),
            decreases self.clusters@.len() - ci,
        {
            let cluster = &self.clusters[ci];
            if let Some(sky) = cluster.sky.as_ref() {
                if !skies.contains_key(sky.as_str()) {
                    proof {
                        assert(!self.cluster_ok(*skies, total_surface_count as nat, ci as int));
                        assert(!self.clusters_ok(*skies, total_surface_count as nat));
                    }
                    let mut m = String::new();
                    push_str(&mut m, "Cluster #");
                    push_usize(&mut m, ci);
                    push_str(&mut m, " points to sky ");
                    push_str(&mut m, sky.as_str());
                    push_str(&mut m, " which has not been loaded");
                    return Err(Error::DataError { error: m });
                }
            }
            let mut sc: usize = 0;
            while sc < cluster.subclusters.len()
                invariant
                    *cluster == self.clusters@[ci as int],
                    ci < self.clusters@.len(),
                    forall|s: int, k: int|
                        0 <= s < sc && 0 <= k < cluster.subclusters@[s].surface_indices@.len()
                            ==> (#[trigger] cluster.subclusters@[s].surface_indices@[k])
                                < total_surface_count,
                decreases cluster.subclusters@.len() - sc,
            {
                let sub = &cluster.subclusters[sc];
                let mut k: usize = 0;
                while k < sub.surface_indices.len()
                    invariant
                        *cluster == self.clusters@[ci as int],
                        ci < self.clusters@.len(),
                        *sub == cluster.subclusters@[sc as int],
                        sc < cluster.subclusters@.len(),
                        forall|kk: int| 0 <= kk < k
                            ==> (#[trigger] sub.surface_indices@[kk]) < total_surface_count,
                    decreases sub.surface_indices@.len() - k,
                {
                    if sub.surface_indices[k] >= total_surface_count {
                        proof {
                            assert(self.clusters@[ci as int]
                                .subclusters@[sc as int].surface_indices@[k as int]
                                >= total_surface_count);
                            assert(!self.cluster_ok(
                                *skies, total_surface_count as nat, ci as int));
                            assert(!self.clusters_ok(*skies, total_surface_count as nat));
                        }
                        let mut m = String::new();
                        push_str(&mut m, "Subcluster ");
                        push_usize(&mut m, sc);
                        push_str(&mut m, " of cluster #");
                        push_usize(&mut m, ci);
                        push_str(&mut m, " points to an out-of-bounds surface (there are ");
                        push_usize(&mut m, total_surface_count);
                        push_str(&mut m, " surfaces)");
                        return Err(Error::DataError { error: m });
                    }
                    k = k + 1;
                }
                sc = sc + 1;
            }
            let mut pk: usize = 0;
            while pk < cluster.cluster_portals.len()
                invariant
                    *cluster == self.clusters@[ci as int],
                    ci < self.clusters@.len(),
                    forall|kk: int| 0 <= kk < pk
                        ==> (#[trigger] cluster.cluster_portals@[kk]) < self.portals@.len(),
                decreases cluster.cluster_portals@.len() - pk,
            {
                if cluster.cluster_portals[pk] >= self.portals.len() {
                    proof {
                        assert(self.clusters@[ci as int].cluster_portals@[pk as int]
                            >= self.portals@.len());
                        assert(!self.cluster_ok(*skies, total_surface_count as nat, ci as int));
                        assert(!self.clusters_ok(*skies, total_surface_count as nat));
                    }
                    let mut m = String::new();
                    push_str(&mut m, "Portal ");
                    push_usize(&mut m, pk);
                    push_str(&mut m, " of cluster #");
                    push_usize(&mut m, ci);
                    push_str(&mut m, " points to an out-of-bounds portal (there are ");
                    push_usize(&mut m, self.portals.len());
                    push_str(&mut m, " portals)");
                    return Err(Error::DataError { error: m });
                }
                pk = pk + 1;
            }
            proof {
                assert(self.cluster_ok(*skies, total_surface_count as nat, ci as int));
            }
            ci = ci + 1;
        }
        assert(self.clusters_ok(*skies, total_surface_count as nat));

        let mut pi: usize = 0;
        while pi < self.portals.len()
            invariant
                forall|p: int| 0 <= p < pi ==> {
                    &&& (#[trigger] self.portals@[p]).front_cluster < self.clusters@.len()
                    &&& self.portals@[p].back_cluster < self.clusters@.len()
                },
            decreases self.portals@.len() - pi,
        {
            let portal = self.portals[pi];
            if portal.front_cluster >= self.clusters.len()
                || portal.back_cluster >= self.clusters.len() {
                proof {
                    assert(!self.portals_in_bounds());
                }
                let mut m = String::new();
                push_str(&mut m, "Portal ");
                push_usize(&mut m, pi);
                push_str(&mut m, " points to an out-of-bounds cluster (there are ");
                push_usize(&mut m, self.clusters.len());
                push_str(&mut m, " clusters)");
                return Err(Error::DataError { error: m });
            }
            pi = pi + 1;
        }
        assert(self.portals_in_bounds());

        Ok(())
    }

    /// The cluster holding `position`: `find_leaf`, then the leaf's cluster.
    pub fn find_cluster(&self, position: [i32; 3]) -> (r: Option<usize>)
        requires
            self.tree_ok(),
            self.leaves_in_bounds(),
        ensures
            r == self.find_cluster_spec(position),
            r matches Some(c) ==> c < self.clusters@.len(),
    {
        match self.find_leaf(position) {
            Some(l) => Some(self.leaves[l].cluster),
            None => None,
        }
    }
}

} // verus!
