//! The structure graph and the edits that keep it consistent.
use vstd::prelude::*;

use bevy::math::Vec3;

use crate::graph::{
    graph_add_edge, graph_add_node, graph_edge, graph_edge_count,
    graph_edge_endpoints, graph_edge_indices, graph_edge_mut, graph_edges, graph_edges_of,
    graph_find_edge, graph_new, graph_node, graph_node_count, graph_node_indices, graph_node_mut,
    graph_nodes, graph_remove_edge, graph_remove_node, joins, touches, JointGraph,
};
use crate::muscle_map::Connection;
use crate::selection::{EntitySelected, SelectableEntity};
use crate::EntityId;

verus! {

#[verifier::external_type_specification]
#[verifier::external_body]
pub struct ExVec3(Vec3);

/// What a joint entity carries: its node in the structure graph.
#[derive(Clone, Copy, Debug, PartialEq, Eq, Structural)]
pub struct Joint {
    pub node_index: u32,
}

/// What a connector entity carries: its edge in the structure graph.
#[derive(Clone, Copy, Debug, PartialEq, Eq, Structural)]
pub struct Connector {
    pub edge_index: u32,
}

/// What a muscle entity carries: the edges (connectors) it is anchored on.
#[derive(Clone, Copy, Debug, PartialEq, Eq, Structural)]
pub struct Muscle {
    pub anchor1: Option<u32>,
    pub anchor2: Option<u32>,
}

/// Node weight of the structure graph: a joint.
#[derive(Clone, Copy, Debug)]
pub struct Point {
    /// Handle of the joint's entity, once it is spawned.
    pub entityid: Option<EntityId>,
    /// World position.
    pub pos: Vec3,
    /// The joint this one hangs from; `None` for a root.
    pub parent: Option<u32>,
}

} // verus!

verus! {

/// The muscles anchored on edge `e`, by the edge at their other end.
pub open spec fn muscles_of(edges: Map<u32, (u32, u32, Connection)>, e: u32) -> Map<u32, EntityId> {
    edges[e].2.muscles@
}

/// Whether a muscle runs from edge `a` to edge `b`, as `a` records it.
pub open spec fn linked(edges: Map<u32, (u32, u32, Connection)>, a: u32, b: u32) -> bool {
    edges.contains_key(a) && muscles_of(edges, a).contains_key(b)
}

/// Every edge's endpoints are nodes.
pub open spec fn edges_on_nodes(
    nodes: Map<u32, Point>,
    edges: Map<u32, (u32, u32, Connection)>,
) -> bool {
    forall|e: u32|
        #[trigger] edges.contains_key(e) ==> nodes.contains_key(edges[e].0) && nodes.contains_key(
            edges[e].1,
        )
}

/// Every edge's muscle map is well formed.
pub open spec fn muscle_maps_wf(edges: Map<u32, (u32, u32, Connection)>) -> bool {
    forall|e: u32| #[trigger] edges.contains_key(e) ==> edges[e].2.muscles.wf()
}

/// A muscle joins two distinct edges of the graph.
pub open spec fn muscles_anchored(edges: Map<u32, (u32, u32, Connection)>) -> bool {
    forall|a: u32, b: u32| #[trigger] linked(edges, a, b) ==> edges.contains_key(b) && a != b
}

/// If edge `a` lists edge `b` as a muscle partner, `b` lists `a` back, with the same handle.
pub open spec fn muscles_symmetric(edges: Map<u32, (u32, u32, Connection)>) -> bool {
    forall|a: u32, b: u32|
        #[trigger] linked(edges, a, b) ==> linked(edges, b, a) && muscles_of(edges, b)[a]
            == muscles_of(edges, a)[b]
}

/// A node's parent is joined to it by an edge.
pub open spec fn parents_joined(
    nodes: Map<u32, Point>,
    edges: Map<u32, (u32, u32, Connection)>,
) -> bool {
    forall|n: u32|
        #[trigger] nodes.contains_key(n) && nodes[n].parent.is_some() ==> exists|e: u32|
            joins(edges, e, n, nodes[n].parent.unwrap())
}

/// The graph's consistency: edges on nodes, well-formed and symmetric muscle maps, and
/// parents joined to their children.
pub open spec fn graph_wf(nodes: Map<u32, Point>, edges: Map<u32, (u32, u32, Connection)>) -> bool {
    &&& edges_on_nodes(nodes, edges)
    &&& muscle_maps_wf(edges)
    &&& muscles_anchored(edges)
    &&& muscles_symmetric(edges)
    &&& parents_joined(nodes, edges)
}

/// Whether walking up from `n` through at most `steps` parent links meets `target`.
pub open spec fn ancestor_within(nodes: Map<u32, Point>, n: u32, target: u32, steps: nat) -> bool
    decreases steps,
{
    if steps == 0 {
        false
    } else if nodes.contains_key(n) && nodes[n].parent.is_some() {
        let p = nodes[n].parent.unwrap();
        p == target || ancestor_within(nodes, p, target, (steps - 1) as nat)
    } else {
        false
    }
}

/// Outcome of linking two joints.
#[derive(Clone, Copy, Debug, PartialEq, Eq, Structural)]
pub enum JointLink {
    /// Both joints are the same one: nothing changed.
    SameJoint,
    /// One of the joints is not in the graph: nothing changed.
    Missing,
    /// `j1` is an ancestor of `j2`, so the parent link would close a loop: nothing changed.
    WouldCycle,
    /// No edge index is left for a new connector: nothing changed.
    Full,
    /// The joints were already joined by this edge; only the parent was set.
    ParentSet(u32),
    /// A new connector was added under this edge index, and the parent set.
    Linked(u32),
}

/// Outcome of linking two connectors by a muscle.
#[derive(Clone, Copy, Debug, PartialEq, Eq, Structural)]
pub enum MuscleLink {
    /// Both anchors are the same connector: nothing changed.
    SameAnchor,
    /// One of the anchors is not in the graph: nothing changed.
    Missing,
    /// The anchors already share a muscle: nothing changed.
    Duplicate,
    /// The muscle was recorded on both anchors.
    Linked,
}

/// The structure graph: joints, connectors, and muscles between connectors.
pub struct Structure {
    graph: JointGraph,
}

impl Default for Structure {
    fn default() -> (r: Structure)
        ensures
            r.wf(),
            r.nodes().dom() == Set::<u32>::empty(),
            r.edges().dom() == Set::<u32>::empty(),
    {
        Structure::new()
    }
}

impl Structure {
    /// The joints, by node index.
    pub closed spec fn nodes(&self) -> Map<u32, Point> {
        graph_nodes(self.graph)
    }

    /// The connectors, by edge index: endpoints and weight.
    pub closed spec fn edges(&self) -> Map<u32, (u32, u32, Connection)> {
        graph_edges(self.graph)
    }

    /// The structure is consistent.
    pub open spec fn wf(&self) -> bool {
        graph_wf(self.nodes(), self.edges())
    }

    /// An empty structure.
    pub fn new() -> (r: Structure)
        ensures
            r.wf(),
            r.nodes().dom() == Set::<u32>::empty(),
            r.edges().dom() == Set::<u32>::empty(),
    {
        Structure { graph: graph_new() }
    }

    /// The underlying graph, to read.
    pub fn graph(&self) -> (r: &JointGraph)
        ensures
            graph_nodes(*r) == self.nodes(),
            graph_edges(*r) == self.edges(),
    {
        &self.graph
    }

    /// Number of joints.
    pub fn node_count(&self) -> (r: usize)
        ensures
            r == self.nodes().len(),
    {
        graph_node_count(&self.graph)
    }

    /// Number of connectors.
    pub fn edge_count(&self) -> (r: usize)
        ensures
            r == self.edges().len(),
    {
        graph_edge_count(&self.graph)
    }

    /// The weight of a joint, if the node exists.
    pub fn node(&self, node: u32) -> (r: Option<Point>)
        ensures
            self.nodes().contains_key(node) ==> r == Some(self.nodes()[node]),
            !self.nodes().contains_key(node) ==> r.is_none(),
    {
        graph_node(&self.graph, node)
    }

    /// Both endpoints of a connector, if the edge exists.
    pub fn edge_endpoints(&self, edge: u32) -> (r: Option<(u32, u32)>)
        ensures
            self.edges().contains_key(edge) ==> r == Some(
                (self.edges()[edge].0, self.edges()[edge].1),
            ),
            !self.edges().contains_key(edge) ==> r.is_none(),
    {
        graph_edge_endpoints(&self.graph, edge)
    }

    /// The index of each joint.
    pub fn node_indices(&self) -> (r: Vec<u32>)
        ensures
            r@.no_duplicates(),
            forall|n: u32| r@.contains(n) <==> self.nodes().contains_key(n),
    {
        graph_node_indices(&self.graph)
    }

    /// The index of each connector.
    pub fn edge_indices(&self) -> (r: Vec<u32>)
        ensures
            r@.no_duplicates(),
            forall|e: u32| r@.contains(e) <==> self.edges().contains_key(e),
    {
        graph_edge_indices(&self.graph)
    }

    /// The connectors that touch a joint.
    pub fn edges_of(&self, node: u32) -> (r: Vec<u32>)
        ensures
            r@.no_duplicates(),
            forall|e: u32| r@.contains(e) <==> touches(self.edges(), e, node),
    {
        graph_edges_of(&self.graph, node)
    }

    /// Some connector joining two joints, if there is one.
    pub fn find_edge(&self, a: u32, b: u32) -> (r: Option<u32>)
        ensures
            r.is_some() ==> joins(self.edges(), r.unwrap(), a, b),
            r.is_none() ==> forall|e: u32| !joins(self.edges(), e, a, b),
    {
        graph_find_edge(&self.graph, a, b)
    }

    /// The entity of a joint, if the node exists and has one.
    pub fn node_to_entity(&self, node: u32) -> (r: Option<EntityId>)
        ensures
            r == (if self.nodes().contains_key(node) {
                self.nodes()[node].entityid
            } else {
                None
            }),
    {
        match graph_node(&self.graph, node) {
            Some(p) => p.entityid,
            None => None,
        }
    }

    /// The entity of a connector, if the edge exists and has one.
    pub fn edge_to_entity(&self, edge: u32) -> (r: Option<EntityId>)
        ensures
            r == (if self.edges().contains_key(edge) {
                self.edges()[edge].2.entityid
            } else {
                None
            }),
    {
        match graph_edge(&self.graph, edge) {
            Some(c) => c.entityid,
            None => None,
        }
    }

    /// The parent of a joint, if the node exists and has one.
    pub fn node_parent(&self, node: u32) -> (r: Option<u32>)
        ensures
            r == (if self.nodes().contains_key(node) {
                self.nodes()[node].parent
            } else {
                None
            }),
    {
        match graph_node(&self.graph, node) {
            Some(p) => p.parent,
            None => None,
        }
    }

    /// The entity of a joint's parent.
    pub fn node_parent_entity(&self, node: u32) -> (r: Option<EntityId>)
        ensures
            r == (match (if self.nodes().contains_key(node) {
                self.nodes()[node].parent
            } else {
                None
            }) {
                Some(p) => if self.nodes().contains_key(p) {
                    self.nodes()[p].entityid
                } else {
                    None
                },
                None => None,
            }),
    {
        match self.node_parent(node) {
            Some(p) => self.node_to_entity(p),
            None => None,
        }
    }

    /// The connector between a joint and its parent, if the joint has a parent.
    pub fn parent_edge(&self, node: u32) -> (r: Option<u32>)
        requires
            self.wf(),
        ensures
            r.is_some() ==> self.nodes().contains_key(node) && self.nodes()[node].parent.is_some()
                && joins(self.edges(), r.unwrap(), node, self.nodes()[node].parent.unwrap()),
            r.is_none() ==> !self.nodes().contains_key(node) || self.nodes()[node].parent.is_none(),
    {
        match self.node_parent(node) {
            Some(p) => {
                let r = self.find_edge(node, p);
                proof {
                    assert(self.nodes().contains_key(node));
                }
                r
            },
            None => None,
        }
    }

    /// The muscle between two connectors, if they share one.
    pub fn muscle_between(&self, a: u32, b: u32) -> (r: Option<EntityId>)
        requires
            self.wf(),
        ensures
            linked(self.edges(), a, b) ==> r == Some(muscles_of(self.edges(), a)[b]),
            !linked(self.edges(), a, b) ==> r.is_none(),
    {
        match graph_edge(&self.graph, a) {
            Some(c) => c.muscles.get(b),
            None => None,
        }
    }
}

} // verus!

verus! {

impl Structure {
    /// Moves a joint; the graph is otherwise unchanged. False when the node is missing.
    pub fn set_node_pos(&mut self, node: u32, pos: Vec3) -> (r: bool)
        requires
            old(self).wf(),
        ensures
            final(self).wf(),
            r == old(self).nodes().contains_key(node),
            r ==> final(self).nodes() == old(self).nodes().insert(
                node,
                Point { pos, ..old(self).nodes()[node] },
            ),
            !r ==> final(self).nodes() == old(self).nodes(),
            final(self).edges() == old(self).edges(),
    {
        match graph_node_mut(&mut self.graph, node) {
            Some(p) => {
                p.pos = pos;
                proof {
                    assert(self.nodes().dom() =~= old(self).nodes().dom());
                }
                true
            },
            None => false,
        }
    }

    /// Records the entity of a joint. False when the node is missing.
    pub fn set_node_entity(&mut self, node: u32, entity: EntityId) -> (r: bool)
        requires
            old(self).wf(),
        ensures
            final(self).wf(),
            r == old(self).nodes().contains_key(node),
            r ==> final(self).nodes() == old(self).nodes().insert(
                node,
                Point { entityid: Some(entity), ..old(self).nodes()[node] },
            ),
            !r ==> final(self).nodes() == old(self).nodes(),
            final(self).edges() == old(self).edges(),
    {
        match graph_node_mut(&mut self.graph, node) {
            Some(p) => {
                p.entityid = Some(entity);
                proof {
                    assert(self.nodes().dom() =~= old(self).nodes().dom());
                }
                true
            },
            None => false,
        }
    }

    /// Records the entity of a connector. False when the edge is missing.
    pub fn set_edge_entity(&mut self, edge: u32, entity: EntityId) -> (r: bool)
        requires
            old(self).wf(),
        ensures
            final(self).wf(),
            r == old(self).edges().contains_key(edge),
            r ==> final(self).edges().dom() == old(self).edges().dom(),
            r ==> final(self).edges()[edge].2.entityid == Some(entity),
            forall|e: u32|
                #![trigger final(self).edges()[e]]
                old(self).edges().contains_key(e) ==> final(self).edges()[e].0 == old(self).edges()[e].0 && final(self).edges()[e].1 == old(self).edges()[e].1 && final(self).edges()[e].2.muscles == old(self).edges()[e].2.muscles && final(self).edges()[e].2.muscle_data == old(self).edges()[e].2.muscle_data,
            forall|e: u32|
                #![trigger final(self).edges()[e]]
                old(self).edges().contains_key(e) && e != edge ==> final(self).edges()[e] == old(self).edges()[e],
            !r ==> final(self).edges() == old(self).edges(),
            final(self).nodes() == old(self).nodes(),
    {
        match graph_edge_mut(&mut self.graph, edge) {
            Some(c) => {
                c.entityid = Some(entity);
                proof {
                    let o = old(self).edges();
                    let f = self.edges();
                    assert(f.dom() =~= o.dom());
                    assert forall|a: u32, b: u32| #[trigger] linked(f, a, b) implies linked(o, a, b) by {}
                    assert forall|a: u32, b: u32| #[trigger] linked(o, a, b) implies linked(f, a, b) by {}
                    assert forall|n: u32|
                        #[trigger] self.nodes().contains_key(n)
                            && self.nodes()[n].parent.is_some() implies exists|e: u32|
                        joins(f, e, n, self.nodes()[n].parent.unwrap()) by {
                        let e = choose|e: u32| joins(o, e, n, self.nodes()[n].parent.unwrap());
                        assert(joins(f, e, n, self.nodes()[n].parent.unwrap()));
                    }
                }
                true
            },
            None => false,
        }
    }

    /// Adds a root joint (no parent, no connectors). `None` when no node index is left.
    pub fn add_node(&mut self, pos: Vec3, entityid: Option<EntityId>) -> (r: Option<u32>)
        requires
            old(self).wf(),
        ensures
            final(self).wf(),
            old(self).nodes().len() < u32::MAX ==> r.is_some(),
            r.is_some() ==> !old(self).nodes().contains_key(r.unwrap()) && final(self).nodes()
                == old(self).nodes().insert(r.unwrap(), Point { entityid, pos, parent: None }),
            r.is_none() ==> final(self).nodes() == old(self).nodes(),
            final(self).edges() == old(self).edges(),
    {
        if graph_node_count(&self.graph) >= u32::MAX as usize {
            return None;
        }
        let n = graph_add_node(&mut self.graph, Point { entityid, pos, parent: None });
        proof {
            let nodes = self.nodes();
            let edges = self.edges();
            assert forall|m: u32|
                #[trigger] nodes.contains_key(m) && nodes[m].parent.is_some() implies exists|e: u32|
                joins(edges, e, m, nodes[m].parent.unwrap()) by {
                assert(old(self).nodes().contains_key(m));
            }
        }
        Some(n)
    }

    /// Adds a joint at `pos`, child of `parent`, with a connector between the two.
    /// Hands back the new node and edge, or `None` (and changes nothing) when the parent
    /// is missing or no index is left.
    pub fn add_joint(&mut self, parent: u32, pos: Vec3, joint: EntityId, connector: EntityId) -> (r:
        Option<(u32, u32)>)
        requires
            old(self).wf(),
        ensures
            final(self).wf(),
            old(self).nodes().contains_key(parent) && old(self).nodes().len() < u32::MAX && old(self).edges().len() < u32::MAX <==> r.is_some(),
            r.is_some() ==> {
                let (n, e) = r.unwrap();
                &&& !old(self).nodes().contains_key(n)
                &&& !old(self).edges().contains_key(e)
                &&& final(self).nodes() == old(self).nodes().insert(
                    n,
                    Point { entityid: Some(joint), pos, parent: Some(parent) },
                )
                &&& final(self).edges().dom() == old(self).edges().dom().insert(e)
                &&& final(self).edges()[e].0 == n && final(self).edges()[e].1 == parent
                &&& final(self).edges()[e].2.entityid == Some(connector)
                &&& muscles_of(final(self).edges(), e) == Map::<u32, EntityId>::empty()
                &&& final(self).edges()[e].2.muscle_data@ == Seq::<u32>::empty()
                &&& forall|f: u32|
                    #[trigger] old(self).edges().contains_key(f) ==> final(self).edges()[f] == old(self).edges()[f]
            },
            r.is_none() ==> final(self).nodes() == old(self).nodes() && final(self).edges() == old(self).edges(),
    {
        if graph_node(&self.graph, parent).is_none() || graph_node_count(&self.graph) >= u32::MAX
            as usize || graph_edge_count(&self.graph) >= u32::MAX as usize {
            return None;
        }
        let n = graph_add_node(
            &mut self.graph,
            Point { entityid: Some(joint), pos, parent: Some(parent) },
        );
        let e = graph_add_edge(&mut self.graph, n, parent, Connection::new(Some(connector)));
        proof {
            let o = old(self).edges();
            let nodes = self.nodes();
            let edges = self.edges();
            assert(edges.dom() =~= o.dom().insert(e));
            assert forall|a: u32, b: u32| #[trigger] linked(edges, a, b) implies linked(o, a, b) by {}
            assert forall|a: u32, b: u32| #[trigger] linked(o, a, b) implies linked(edges, a, b) by {}
            assert forall|m: u32|
                #[trigger] nodes.contains_key(m) && nodes[m].parent.is_some() implies exists|f: u32|
                joins(edges, f, m, nodes[m].parent.unwrap()) by {
                if m == n {
                    assert(nodes[m].parent.unwrap() == parent);
                    assert(edges[e] == (n, parent, edges[e].2));
                    assert(joins(edges, e, m, parent));
                    assert(exists|f: u32| joins(edges, f, m, nodes[m].parent.unwrap()));
                } else {
                    assert(old(self).nodes().contains_key(m));
                    assert(nodes[m] == old(self).nodes()[m]);
                    let f = choose|f: u32| joins(o, f, m, nodes[m].parent.unwrap());
                    assert(joins(edges, f, m, nodes[m].parent.unwrap()));
                }
            }
        }
        Some((n, e))
    }

    /// Makes `j2` the parent of `j1`, adding a connector (with entity `connector`) between
    /// them unless one already joins them.
    pub fn link_joints(&mut self, j1: u32, j2: u32, connector: Option<EntityId>) -> (r: JointLink)
        requires
            old(self).wf(),
        ensures
            final(self).wf(),
            j1 == j2 ==> r == JointLink::SameJoint,
            j1 != j2 && !(old(self).nodes().contains_key(j1) && old(self).nodes().contains_key(j2))
                ==> r == JointLink::Missing,
            j1 != j2 && old(self).nodes().contains_key(j1) && old(self).nodes().contains_key(j2) ==> {
                if ancestor_within(old(self).nodes(), j2, j1, old(self).nodes().len()) {
                    r == JointLink::WouldCycle
                } else if exists|e: u32| joins(old(self).edges(), e, j1, j2) {
                    r matches JointLink::ParentSet(e) && joins(old(self).edges(), e, j1, j2)
                } else if old(self).edges().len() >= u32::MAX {
                    r == JointLink::Full
                } else {
                    r matches JointLink::Linked(e) && !old(self).edges().contains_key(e)
                }
            },
            r is ParentSet ==> final(self).edges() == old(self).edges(),
            (r is ParentSet || r is Linked) ==> final(self).nodes() == old(self).nodes().insert(
                j1,
                Point { parent: Some(j2), ..old(self).nodes()[j1] },
            ),
            r matches JointLink::Linked(e) ==> final(self).edges().dom() == old(self).edges().dom().insert(e) && final(self).edges()[e].0 == j1 && final(self).edges()[e].1
                == j2 && final(self).edges()[e].2.entityid == connector && muscles_of(
                final(self).edges(),
                e,
) == Map::<u32, EntityId>::empty() && final(self).edges()[e].2.muscle_data@ == Seq::<
                u32,
            >::empty() && forall|f: u32|
                #[trigger] old(self).edges().contains_key(f) ==> final(self).edges()[f] == old(self).edges()[f],
            r == JointLink::SameJoint || r == JointLink::Missing || r == JointLink::WouldCycle
                || r == JointLink::Full ==> final(self).nodes() == old(self).nodes() && final(self).edges() == old(self).edges(),
    {
        if j1 == j2 {
            return JointLink::SameJoint;
        }
        if graph_node(&self.graph, j1).is_none() || graph_node(&self.graph, j2).is_none() {
            return JointLink::Missing;
        }
        if self.has_ancestor(j2, j1) {
            return JointLink::WouldCycle;
        }
        let existing = graph_find_edge(&self.graph, j1, j2);
        if existing.is_none() && graph_edge_count(&self.graph) >= u32::MAX as usize {
            return JointLink::Full;
        }
        match graph_node_mut(&mut self.graph, j1) {
            Some(p) => {
                p.parent = Some(j2);
            },
            None => {},
        }
        match existing {
            Some(e) => {
                proof {
                    let nodes = self.nodes();
                    let edges = self.edges();
                    assert forall|m: u32|
                        #[trigger] nodes.contains_key(m) && nodes[m].parent.is_some() implies exists|
                        f: u32,
                    | joins(edges, f, m, nodes[m].parent.unwrap()) by {
                        if m == j1 {
                            assert(nodes[m].parent.unwrap() == j2);
                            assert(joins(edges, e, m, j2));
                            assert(exists|f: u32| joins(edges, f, m, nodes[m].parent.unwrap()));
                        } else {
                            assert(old(self).nodes().contains_key(m));
                            assert(nodes[m] == old(self).nodes()[m]);
                            let f = choose|f: u32| joins(edges, f, m, nodes[m].parent.unwrap());
                            assert(joins(edges, f, m, nodes[m].parent.unwrap()));
                        }
                    }
                }
                JointLink::ParentSet(e)
            },
            None => {
                let e = graph_add_edge(&mut self.graph, j1, j2, Connection::new(connector));
                proof {
                    let o = old(self).edges();
                    let nodes = self.nodes();
                    let edges = self.edges();
                    assert(edges.dom() =~= o.dom().insert(e));
                    assert forall|a: u32, b: u32| #[trigger] linked(edges, a, b) implies linked(o, a, b) by {}
                    assert forall|a: u32, b: u32| #[trigger] linked(o, a, b) implies linked(edges, a, b) by {}
                    assert forall|m: u32|
                        #[trigger] nodes.contains_key(m) && nodes[m].parent.is_some() implies exists|
                        f: u32,
                    | joins(edges, f, m, nodes[m].parent.unwrap()) by {
                        if m == j1 {
                            assert(nodes[m].parent.unwrap() == j2);
                            assert(joins(edges, e, m, j2));
                            assert(exists|f: u32| joins(edges, f, m, nodes[m].parent.unwrap()));
                        } else {
                            assert(old(self).nodes().contains_key(m));
                            assert(nodes[m] == old(self).nodes()[m]);
                            let f = choose|f: u32| joins(o, f, m, nodes[m].parent.unwrap());
                            assert(joins(edges, f, m, nodes[m].parent.unwrap()));
                        }
                    }
                }
                JointLink::Linked(e)
            },
        }
    }

    /// Whether `target` is an ancestor of `n`: met by walking up from `n` through at most
    /// as many parent links as there are joints.
    pub fn has_ancestor(&self, n: u32, target: u32) -> (r: bool)
        ensures
            r == ancestor_within(self.nodes(), n, target, self.nodes().len()),
    {
        let count = graph_node_count(&self.graph);
        let mut cur = n;
        let mut i: usize = 0;
        while i < count
            invariant
                count == self.nodes().len(),
                i <= count,
                ancestor_within(self.nodes(), n, target, self.nodes().len()) == ancestor_within(
                    self.nodes(),
                    cur,
                    target,
                    (count - i) as nat,
                ),
            decreases count - i,
        {
            match self.node_parent(cur) {
                Some(p) => {
                    if p == target {
                        return true;
                    }
                    cur = p;
                },
                None => {
                    return false;
                },
            }
            i = i + 1;
        }
        false
    }

    /// The handles of the muscles anchored on a connector (none if the edge is missing).
    pub fn muscle_handles(&self, edge: u32) -> (r: Vec<EntityId>)
        requires
            self.wf(),
        ensures
            forall|m: EntityId|
                r@.contains(m) <==> exists|x: u32|
                    #[trigger] linked(self.edges(), edge, x) && muscles_of(self.edges(), edge)[x] == m,
    {
        let mut r: Vec<EntityId> = Vec::new();
        let c = match graph_edge(&self.graph, edge) {
            Some(c) => c,
            None => {
                return r;
            },
        };
        proof {
            c.muscles.lemma_view();
        }
        let mut j: usize = 0;
        while j < c.muscles.len()
            invariant
                c == self.edges()[edge].2,
                self.edges().contains_key(edge),
                c.muscles.wf(),
                j <= c.muscles.entries().len(),
                r@ == c.muscles.entries().subrange(0, j as int).map_values(|p: (u32, EntityId)| p.1),
            decreases c.muscles.entries().len() - j,
        {
            r.push(c.muscles.entry(j).1);
            j = j + 1;
            proof {
                assert(r@ =~= c.muscles.entries().subrange(0, j as int).map_values(
                    |p: (u32, EntityId)| p.1,
                ));
            }
        }
        proof {
            c.muscles.lemma_view();
            assert(c.muscles.entries().subrange(0, j as int) =~= c.muscles.entries());
            assert forall|m: EntityId|
                r@.contains(m) <==> exists|x: u32|
                    #[trigger] linked(self.edges(), edge, x) && muscles_of(self.edges(), edge)[x] == m by {
                if r@.contains(m) {
                    let k = choose|k: int| 0 <= k < r@.len() && r@[k] == m;
                    let x = c.muscles.entries()[k].0;
                    assert(linked(self.edges(), edge, x) && muscles_of(self.edges(), edge)[x] == m);
                }
                if exists|x: u32| #[trigger] linked(self.edges(), edge, x) && muscles_of(self.edges(), edge)[x] == m {
                    let x = choose|x: u32| #[trigger] linked(self.edges(), edge, x) && muscles_of(self.edges(), edge)[x] == m;
                    let k = choose|k: int| 0 <= k < c.muscles.entries().len() && c.muscles.entries()[k].0 == x;
                    assert(r@[k] == m);
                }
            }
        }
        r
    }

    /// Whether two connectors share a muscle.
    pub fn has_muscle(&self, a: u32, b: u32) -> (r: bool)
        requires
            self.wf(),
        ensures
            r == linked(self.edges(), a, b),
    {
        match graph_edge(&self.graph, a) {
            Some(c) => c.muscles.contains_key(b),
            None => false,
        }
    }

    /// Records a muscle with handle `muscle` between connectors `a` and `b`, on both.
    pub fn link_muscle(&mut self, a: u32, b: u32, muscle: EntityId) -> (r: MuscleLink)
        requires
            old(self).wf(),
        ensures
            final(self).wf(),
            final(self).nodes() == old(self).nodes(),
            r == (if a == b {
                MuscleLink::SameAnchor
            } else if !(old(self).edges().contains_key(a) && old(self).edges().contains_key(b)) {
                MuscleLink::Missing
            } else if linked(old(self).edges(), a, b) {
                MuscleLink::Duplicate
            } else {
                MuscleLink::Linked
            }),
            r != MuscleLink::Linked ==> final(self).edges() == old(self).edges(),
            r == MuscleLink::Linked ==> final(self).edges().dom() == old(self).edges().dom(),
            r == MuscleLink::Linked ==> muscles_of(final(self).edges(), a) == muscles_of(
                old(self).edges(),
                a,
            ).insert(b, muscle),
            r == MuscleLink::Linked ==> muscles_of(final(self).edges(), b) == muscles_of(
                old(self).edges(),
                b,
            ).insert(a, muscle),
            r == MuscleLink::Linked ==> forall|e: u32|
                #![trigger final(self).edges()[e]]
                old(self).edges().contains_key(e) && e != a && e != b ==> final(self).edges()[e]
                    == old(self).edges()[e],
            r == MuscleLink::Linked ==> forall|e: u32|
                #![trigger final(self).edges()[e]]
                old(self).edges().contains_key(e) ==> final(self).edges()[e].0 == old(self).edges()[e].0 && final(self).edges()[e].1 == old(self).edges()[e].1 && final(self).edges()[e].2.entityid == old(self).edges()[e].2.entityid && final(self).edges()[e].2.muscle_data == old(self).edges()[e].2.muscle_data,
    {
        if a == b {
            return MuscleLink::SameAnchor;
        }
        if graph_edge(&self.graph, a).is_none() || graph_edge(&self.graph, b).is_none() {
            return MuscleLink::Missing;
        }
        if self.has_muscle(a, b) {
            return MuscleLink::Duplicate;
        }
        let ghost o = old(self).edges();
        match graph_edge_mut(&mut self.graph, a) {
            Some(c) => {
                c.muscles.insert(b, muscle);
            },
            None => {},
        }
        let ghost mid = self.edges();
        match graph_edge_mut(&mut self.graph, b) {
            Some(c) => {
                c.muscles.insert(a, muscle);
            },
            None => {},
        }
        proof {
            let f = self.edges();
            assert(mid.dom() =~= o.dom());
            assert(f.dom() =~= o.dom());
            assert(!linked(o, b, a));
            assert forall|x: u32, y: u32| #[trigger] linked(f, x, y) implies f.contains_key(y) && x
                != y by {
                if !((x == a && y == b) || (x == b && y == a)) {
                    assert(linked(o, x, y));
                }
            }
            assert forall|x: u32, y: u32| #[trigger] linked(f, x, y) implies linked(f, y, x)
                && muscles_of(f, y)[x] == muscles_of(f, x)[y] by {
                if !((x == a && y == b) || (x == b && y == a)) {
                    assert(linked(o, x, y));
                    assert(linked(o, y, x));
                }
            }
            let nodes = self.nodes();
            assert forall|m: u32|
                #[trigger] nodes.contains_key(m) && nodes[m].parent.is_some() implies exists|e: u32|
                joins(f, e, m, nodes[m].parent.unwrap()) by {
                let e = choose|e: u32| joins(o, e, m, nodes[m].parent.unwrap());
                assert(joins(f, e, m, nodes[m].parent.unwrap()));
            }
        }
        MuscleLink::Linked
    }
}

} // verus!

verus! {

/// What a deletion took out of the graph: the entities to despawn.
#[derive(Clone, Debug)]
pub struct Removed {
    /// The deleted joint's entity.
    pub joint: Option<EntityId>,
    /// The entities of the deleted connectors.
    pub connectors: Vec<EntityId>,
    /// The handles of the deleted muscles, each once.
    pub muscles: Vec<EntityId>,
}

/// `p` with its parent cleared if that parent is `j`.
pub open spec fn unparented(p: Point, j: u32) -> Point {
    if p.parent == Some(j) {
        Point { parent: None, ..p }
    } else {
        p
    }
}

/// The endpoint of edge `e` that is not `j` (or `j`, for a loop).
pub open spec fn other_end(edges: Map<u32, (u32, u32, Connection)>, e: u32, j: u32) -> u32 {
    if edges[e].0 == j {
        edges[e].1
    } else {
        edges[e].0
    }
}

/// The muscles of edge `e` whose other end does not touch joint `j`.
pub open spec fn muscles_apart_from(
    edges: Map<u32, (u32, u32, Connection)>,
    e: u32,
    j: u32,
) -> Map<u32, EntityId> {
    muscles_of(edges, e).remove_keys(Set::new(|d: u32| touches(edges, d, j)))
}

/// Whether `m` is the handle of a muscle anchored on an edge that touches `j`.
pub open spec fn muscle_on_joint(edges: Map<u32, (u32, u32, Connection)>, j: u32, m: EntityId) -> bool {
    exists|d: u32, f: u32|
        touches(edges, d, j) && #[trigger] linked(edges, d, f) && muscles_of(edges, d)[f] == m
}

/// Whether `c` is the entity of an edge that touches `j`.
pub open spec fn connector_on_joint(
    edges: Map<u32, (u32, u32, Connection)>,
    j: u32,
    c: EntityId,
) -> bool {
    exists|e: u32| #[trigger] touches(edges, e, j) && edges[e].2.entityid == Some(c)
}

/// Whether `v` holds `m`.
fn holds(v: &Vec<EntityId>, m: EntityId) -> (r: bool)
    ensures
        r == v@.contains(m),
{
    let mut i: usize = 0;
    while i < v.len()
        invariant
            i <= v@.len(),
            forall|k: int| 0 <= k < i ==> v@[k] != m,
        decreases v@.len() - i,
    {
        if v[i] == m {
            return true;
        }
        i = i + 1;
    }
    false
}

impl Structure {
    /// Deletes a joint with every connector that touches it and every muscle anchored on
    /// those connectors (from both anchors); joints whose parent it was become roots.
    /// Hands back the entities to despawn, or `None` (changing nothing) when the node is
    /// missing.
    pub fn delete_joint(&mut self, node: u32) -> (r: Option<Removed>)
        requires
            old(self).wf(),
        ensures
            final(self).wf(),
            !old(self).nodes().contains_key(node) ==> r.is_none() && final(self).nodes() == old(
                self).nodes() && final(self).edges() == old(self).edges(),
            old(self).nodes().contains_key(node) ==> r.is_some(),
            r.is_some() ==> {
                let o = old(self).edges();
                let f = final(self).edges();
                let rm = r.unwrap();
                &&& final(self).nodes().dom() == old(self).nodes().dom().remove(node)
                &&& forall|n: u32|
                    #[trigger] final(self).nodes().contains_key(n) ==> final(self).nodes()[n]
                        == unparented(old(self).nodes()[n], node)
                &&& forall|e: u32| #[trigger]
                    f.contains_key(e) <==> o.contains_key(e) && !touches(o, e, node)
                &&& forall|e: u32|
                    #[trigger] f.contains_key(e) ==> f[e].0 == o[e].0 && f[e].1 == o[e].1
                        && f[e].2.entityid == o[e].2.entityid && f[e].2.muscle_data == o[e].2.muscle_data
                        && muscles_of(f, e) == muscles_apart_from(o, e, node)
                &&& !final(self).nodes().contains_key(node)
                &&& forall|n: u32|
                    #[trigger] final(self).nodes().contains_key(n) ==> final(self).nodes()[n].parent
                        != Some(node)
                &&& forall|e: u32| #[trigger] f.contains_key(e) ==> f[e].0 != node && f[e].1 != node
                &&& forall|e: u32, d: u32| #[trigger] linked(f, e, d) ==> !touches(o, d, node)
                &&& rm.joint == old(self).nodes()[node].entityid
                &&& forall|c: EntityId| rm.connectors@.contains(c) <==> connector_on_joint(o, node, c)
                &&& rm.muscles@.no_duplicates()
                &&& forall|m: EntityId| rm.muscles@.contains(m) <==> muscle_on_joint(o, node, m)
            },
    {
        let point = match graph_node(&self.graph, node) {
            Some(p) => p,
            None => {
                return None;
            },
        };
        let ghost nodes0 = self.nodes();
        let ghost edges0 = self.edges();
        let incident = graph_edges_of(&self.graph, node);
        let mut pairs: Vec<(u32, u32)> = Vec::new();
        let mut muscles: Vec<EntityId> = Vec::new();
        let mut connectors: Vec<EntityId> = Vec::new();
        let mut orphans: Vec<u32> = Vec::new();
        let ghost mut done: Set<u32> = Set::empty();
        let mut i: usize = 0;
        while i < incident.len()
            invariant
                self.nodes() == nodes0,
                self.edges() == edges0,
                graph_wf(nodes0, edges0),
                nodes0.contains_key(node),
                i <= incident@.len(),
                incident@.no_duplicates(),
                forall|e: u32| incident@.contains(e) <==> touches(edges0, e, node),
                done == incident@.subrange(0, i as int).to_set(),
                forall|f: u32, d: u32|
                    #[trigger] pairs@.contains((f, d)) <==> done.contains(d) && linked(edges0, d, f),
                muscles@.no_duplicates(),
                forall|m: EntityId|
                    #[trigger] muscles@.contains(m) <==> exists|d: u32, f: u32|
                        done.contains(d) && #[trigger] linked(edges0, d, f) && muscles_of(edges0, d)[f]
                            == m,
                forall|c: EntityId|
                    #[trigger] connectors@.contains(c) <==> exists|d: u32|
                        #[trigger] done.contains(d) && edges0[d].2.entityid == Some(c),
                forall|d: u32|
                    #[trigger] done.contains(d) ==> orphans@.contains(other_end(edges0, d, node)),
            decreases incident@.len() - i,
        {
            let d = incident[i];
            proof {
                assert(incident@.contains(d));
                assert(!done.contains(d)) by {
                    if done.contains(d) {
                        let k = choose|k: int|
                            0 <= k < i && incident@.subrange(0, i as int)[k] == d;
                        assert(incident@[k] == d);
                    }
                }
            }
            let c = match graph_edge(&self.graph, d) {
                Some(c) => c,
                None => {
                    proof {
                        // Unreachable: the edge was listed by the graph itself.
                        assert(false);
                    }
                    return None;
                },
            };
            proof {
                c.muscles.lemma_view();
            }
            let ghost pairs_before = pairs@;
            let ghost muscles_before = muscles@;
            let mut j: usize = 0;
            while j < c.muscles.len()
                invariant
                    c == edges0[d].2,
                    c.muscles.wf(),
                    edges0.contains_key(d),
                    j <= c.muscles.entries().len(),
                    forall|f: u32, d2: u32|
                        #[trigger] pairs@.contains((f, d2)) <==> pairs_before.contains((f, d2)) || (
                        d2 == d && exists|k: int| 0 <= k < j && c.muscles.entries()[k].0 == f),
                    muscles@.no_duplicates(),
                    forall|m: EntityId|
                        #[trigger] muscles@.contains(m) <==> muscles_before.contains(m) || exists|k: int|
                            0 <= k < j && c.muscles.entries()[k].1 == m,
                decreases c.muscles.entries().len() - j,
            {
                let (f, m) = c.muscles.entry(j);
                let ghost pp = pairs@;
                let ghost mp = muscles@;
                pairs.push((f, d));
                if !holds(&muscles, m) {
                    muscles.push(m);
                }
                j = j + 1;
                proof {
                    assert forall|f2: u32, d2: u32| #[trigger]
                        pairs@.contains((f2, d2)) <==> pp.contains((f2, d2)) || (f2 == f && d2
                            == d) by {
                        if pairs@.contains((f2, d2)) {
                            let q = choose|q: int| 0 <= q < pairs@.len() && pairs@[q] == (f2, d2);
                            if q < pp.len() {
                                assert(pp[q] == (f2, d2));
                            }
                        }
                        if pp.contains((f2, d2)) {
                            let q = choose|q: int| 0 <= q < pp.len() && pp[q] == (f2, d2);
                            assert(pairs@[q] == (f2, d2));
                        }
                        if f2 == f && d2 == d {
                            assert(pairs@[pp.len() as int] == (f, d));
                        }
                    }
                    assert forall|f2: u32, d2: u32|
                        #[trigger] pairs@.contains((f2, d2)) <==> pairs_before.contains((f2, d2)) || (
                        d2 == d && exists|k: int| 0 <= k < j && c.muscles.entries()[k].0 == f2) by {
                        if d2 == d && f2 == f {
                            assert(c.muscles.entries()[j - 1].0 == f2);
                        }
                        if d2 == d && exists|k: int| 0 <= k < j && c.muscles.entries()[k].0 == f2 {
                            let k = choose|k: int| 0 <= k < j && c.muscles.entries()[k].0 == f2;
                            if k < j - 1 {
                                assert(pp.contains((f2, d2)));
                            }
                        }
                    }
                    assert forall|m2: EntityId| #[trigger]
                        muscles@.contains(m2) <==> mp.contains(m2) || m2 == m by {
                        if muscles@.contains(m2) && muscles@.len() > mp.len() {
                            let q = choose|q: int| 0 <= q < muscles@.len() && muscles@[q] == m2;
                            if q < mp.len() {
                                assert(mp[q] == m2);
                            }
                        }
                        if mp.contains(m2) && muscles@.len() > mp.len() {
                            let q = choose|q: int| 0 <= q < mp.len() && mp[q] == m2;
                            assert(muscles@[q] == m2);
                        }
                        if m2 == m && muscles@.len() > mp.len() {
                            assert(muscles@[mp.len() as int] == m);
                        }
                    }
                    assert forall|m2: EntityId|
                        #[trigger] muscles@.contains(m2) <==> muscles_before.contains(m2) || exists|
                            k: int,
                        | 0 <= k < j && c.muscles.entries()[k].1 == m2 by {
                        if m2 == m {
                            assert(c.muscles.entries()[j - 1].1 == m2);
                        }
                        if exists|k: int| 0 <= k < j && c.muscles.entries()[k].1 == m2 {
                            let k = choose|k: int| 0 <= k < j && c.muscles.entries()[k].1 == m2;
                            if k < j - 1 {
                                assert(mp.contains(m2));
                            }
                        }
                    }
                }
            }
            let ghost cp = connectors@;
            if let Some(ce) = c.entityid {
                connectors.push(ce);
            }
            let other = match graph_edge_endpoints(&self.graph, d) {
                Some((a, b)) => if a == node {
                    b
                } else {
                    a
                },
                None => node,
            };
            let ghost op = orphans@;
            orphans.push(other);
            i = i + 1;
            proof {
                let done_old = done;
                done = done.insert(d);
                assert(incident@.subrange(0, i as int) =~= incident@.subrange(0, i - 1).push(d));
                assert(done =~= incident@.subrange(0, i as int).to_set()) by {
                    assert forall|x: u32|
                        done.contains(x) <==> incident@.subrange(0, i as int).to_set().contains(
                            x,
                        ) by {
                        if x == d {
                            assert(incident@.subrange(0, i as int)[i - 1] == d);
                        }
                        if incident@.subrange(0, i as int).to_set().contains(x) && x != d {
                            let k = choose|k: int|
                                0 <= k < i && incident@.subrange(0, i as int)[k] == x;
                            assert(incident@.subrange(0, i - 1)[k] == x);
                        }
                    }
                }
                assert forall|f: u32, d2: u32|
                    #[trigger] pairs@.contains((f, d2)) <==> done.contains(d2) && linked(edges0, d2, f) by {
                    if d2 == d && linked(edges0, d, f) {
                        let k = choose|k: int|
                            0 <= k < c.muscles.entries().len() && c.muscles.entries()[k].0 == f;
                        assert(pairs@.contains((f, d2)));
                    }
                    if pairs@.contains((f, d2)) && d2 == d && !pairs_before.contains((f, d2)) {
                        let k = choose|k: int|
                            0 <= k < c.muscles.entries().len() && c.muscles.entries()[k].0 == f;
                        assert(linked(edges0, d, f));
                    }
                }
                assert forall|m: EntityId|
                    #[trigger] muscles@.contains(m) <==> exists|d2: u32, f: u32|
                        done.contains(d2) && #[trigger] linked(edges0, d2, f) && muscles_of(edges0, d2)[f]
                            == m by {
                    if muscles@.contains(m) {
                        if muscles_before.contains(m) {
                            let (d2, f) = choose|d2: u32, f: u32|
                                done_old.contains(d2) && #[trigger] linked(edges0, d2, f) && muscles_of(
                                    edges0,
                                    d2,
                                )[f] == m;
                            assert(done.contains(d2) && linked(edges0, d2, f));
                        } else {
                            let k = choose|k: int|
                                0 <= k < c.muscles.entries().len() && c.muscles.entries()[k].1 == m;
                            let f = c.muscles.entries()[k].0;
                            assert(done.contains(d) && linked(edges0, d, f) && muscles_of(edges0, d)[f]
                                == m);
                        }
                    }
                    if exists|d2: u32, f: u32|
                        done.contains(d2) && #[trigger] linked(edges0, d2, f) && muscles_of(edges0, d2)[f]
                            == m {
                        let (d2, f) = choose|d2: u32, f: u32|
                            done.contains(d2) && #[trigger] linked(edges0, d2, f) && muscles_of(
                                edges0,
                                d2,
                            )[f] == m;
                        if d2 == d {
                            let k = choose|k: int|
                                0 <= k < c.muscles.entries().len() && c.muscles.entries()[k].0 == f;
                            assert(c.muscles.entries()[k].1 == m);
                        } else {
                            assert(done_old.contains(d2));
                            assert(muscles_before.contains(m));
                        }
                    }
                }
                assert forall|ce: EntityId|
                    #[trigger] connectors@.contains(ce) <==> exists|d2: u32|
                        #[trigger] done.contains(d2) && edges0[d2].2.entityid == Some(ce) by {
                    if connectors@.contains(ce) {
                        let q = choose|q: int| 0 <= q < connectors@.len() && connectors@[q] == ce;
                        if q < cp.len() {
                            assert(cp[q] == ce);
                            assert(cp.contains(ce));
                            let d2 = choose|d2: u32|
                                #[trigger] done_old.contains(d2) && edges0[d2].2.entityid == Some(ce);
                            assert(done.contains(d2));
                        } else {
                            assert(done.contains(d) && edges0[d].2.entityid == Some(ce));
                        }
                    }
                    if exists|d2: u32| #[trigger] done.contains(d2) && edges0[d2].2.entityid == Some(ce) {
                        let d2 = choose|d2: u32|
                            #[trigger] done.contains(d2) && edges0[d2].2.entityid == Some(ce);
                        if d2 != d {
                            assert(done_old.contains(d2));
                            assert(cp.contains(ce));
                            let q = choose|q: int| 0 <= q < cp.len() && cp[q] == ce;
                            assert(connectors@[q] == ce);
                        } else {
                            assert(connectors@[cp.len() as int] == ce);
                        }
                    }
                }
                assert forall|d2: u32| #[trigger]
                    done.contains(d2) implies orphans@.contains(other_end(edges0, d2, node)) by {
                    if d2 != d {
                        assert(done_old.contains(d2));
                        let q = choose|q: int|
                            0 <= q < op.len() && op[q] == other_end(edges0, d2, node);
                        assert(orphans@[q] == op[q]);
                    } else {
                        assert(orphans@[op.len() as int] == other_end(edges0, d, node));
                    }
                }
            }
        }
        proof {
            assert(incident@.subrange(0, i as int) =~= incident@);
            assert forall|d: u32| done.contains(d) <==> touches(edges0, d, node) by {
                if touches(edges0, d, node) {
                    assert(incident@.contains(d));
                }
            }
            assert forall|d: u32| #[trigger]
                touches(edges0, d, node) implies orphans@.contains(other_end(edges0, d, node)) by {
                assert(done.contains(d));
            }
            assert forall|ce: EntityId| connectors@.contains(ce) <==> connector_on_joint(edges0, node, ce) by {
                if connectors@.contains(ce) {
                    let d = choose|d: u32| #[trigger] done.contains(d) && edges0[d].2.entityid == Some(ce);
                    assert(touches(edges0, d, node));
                }
                if connector_on_joint(edges0, node, ce) {
                    let d = choose|d: u32| #[trigger] touches(edges0, d, node) && edges0[d].2.entityid == Some(ce);
                    assert(done.contains(d));
                }
            }
            assert forall|m: EntityId| muscles@.contains(m) <==> muscle_on_joint(edges0, node, m) by {
                if muscles@.contains(m) {
                    let (d, f) = choose|d: u32, f: u32|
                        done.contains(d) && #[trigger] linked(edges0, d, f) && muscles_of(edges0, d)[f] == m;
                    assert(touches(edges0, d, node));
                }
                if muscle_on_joint(edges0, node, m) {
                    let (d, f) = choose|d: u32, f: u32|
                        touches(edges0, d, node) && #[trigger] linked(edges0, d, f) && muscles_of(edges0, d)[f] == m;
                    assert(done.contains(d));
                }
            }
        }
        self.unlink_joint(node, &pairs, &orphans);
        proof {
            let f = self.edges();
            assert forall|e: u32, d: u32| #[trigger] linked(f, e, d) implies !touches(edges0, d, node) by {
                assert(muscles_of(f, e) == muscles_apart_from(edges0, e, node));
            }
        }
        Some(Removed { joint: point.entityid, connectors, muscles })
    }

    /// The second half of a joint's deletion: drops the muscle references that `pairs`
    /// lists (as `(surviving edge, deleted edge)`), clears the parent of each orphan whose
    /// parent is `node`, and removes the node with its edges.
    fn unlink_joint(&mut self, node: u32, pairs: &Vec<(u32, u32)>, orphans: &Vec<u32>)
        requires
            old(self).wf(),
            old(self).nodes().contains_key(node),
            forall|f: u32, d: u32|
                #[trigger] pairs@.contains((f, d)) <==> touches(old(self).edges(), d, node) && linked(
                    old(self).edges(),
                    d,
                    f,
                ),
            forall|d: u32|
                #[trigger] touches(old(self).edges(), d, node) ==> orphans@.contains(
                    other_end(old(self).edges(), d, node),
                ),
        ensures
            final(self).wf(),
            final(self).nodes().dom() == old(self).nodes().dom().remove(node),
            forall|n: u32|
                #[trigger] final(self).nodes().contains_key(n) ==> final(self).nodes()[n] == unparented(
                    old(self).nodes()[n],
                    node,
                ),
            forall|e: u32| #[trigger]
                final(self).edges().contains_key(e) <==> old(self).edges().contains_key(e) && !touches(
                    old(self).edges(),
                    e,
                    node,
                ),
            forall|e: u32|
                #[trigger] final(self).edges().contains_key(e) ==> final(self).edges()[e].0 == old(self).edges()[e].0
                    && final(self).edges()[e].1 == old(self).edges()[e].1
                    && final(self).edges()[e].2.entityid == old(self).edges()[e].2.entityid
                    && final(self).edges()[e].2.muscle_data == old(self).edges()[e].2.muscle_data
                    && muscles_of(final(self).edges(), e) == muscles_apart_from(old(self).edges(), e, node),
    {
        let ghost nodes0 = self.nodes();
        let ghost edges0 = self.edges();
        let ghost mut cut: Set<(u32, u32)> = Set::empty();
        let mut k: usize = 0;
        while k < pairs.len()
            invariant
                graph_wf(nodes0, edges0),
                self.nodes() == nodes0,
                k <= pairs@.len(),
                cut == pairs@.subrange(0, k as int).to_set(),
                self.edges().dom() == edges0.dom(),
                forall|e: u32|
                    #[trigger] edges0.contains_key(e) ==> self.edges()[e].0 == edges0[e].0
                        && self.edges()[e].1 == edges0[e].1
                        && self.edges()[e].2.entityid == edges0[e].2.entityid
                        && self.edges()[e].2.muscle_data == edges0[e].2.muscle_data
                        && self.edges()[e].2.muscles.wf()
                        && muscles_of(self.edges(), e) == muscles_of(edges0, e).remove_keys(
                            Set::new(|d: u32| cut.contains((e, d))),
                        ),
            decreases pairs@.len() - k,
        {
            let (f, d) = pairs[k];
            match graph_edge_mut(&mut self.graph, f) {
                Some(c) => {
                    c.muscles.remove(d);
                },
                None => {},
            }
            k = k + 1;
            proof {
                let cut_old = cut;
                cut = cut.insert((f, d));
                assert(pairs@.subrange(0, k as int) =~= pairs@.subrange(0, k - 1).push((f, d)));
                assert(cut =~= pairs@.subrange(0, k as int).to_set()) by {
                    assert forall|x: (u32, u32)| cut.contains(x) <==> pairs@.subrange(0, k as int).to_set().contains(x) by {
                        if x == (f, d) {
                            assert(pairs@.subrange(0, k as int)[k - 1] == x);
                        }
                        if pairs@.subrange(0, k as int).to_set().contains(x) && x != (f, d) {
                            let q = choose|q: int| 0 <= q < k && pairs@.subrange(0, k as int)[q] == x;
                            assert(pairs@.subrange(0, k - 1)[q] == x);
                        }
                    }
                }
                assert(self.edges().dom() =~= edges0.dom());
                assert forall|e: u32| #[trigger] edges0.contains_key(e) implies self.edges()[e].0 == edges0[e].0
                    && self.edges()[e].1 == edges0[e].1
                    && self.edges()[e].2.entityid == edges0[e].2.entityid
                    && self.edges()[e].2.muscle_data == edges0[e].2.muscle_data
                    && self.edges()[e].2.muscles.wf()
                    && muscles_of(self.edges(), e) == muscles_of(edges0, e).remove_keys(
                        Set::new(|d2: u32| cut.contains((e, d2))),
                    ) by {
                    if e == f {
                        assert(muscles_of(self.edges(), e) =~= muscles_of(edges0, e).remove_keys(
                            Set::new(|d2: u32| cut.contains((e, d2))),
                        ));
                    } else {
                        assert(Set::new(|d2: u32| cut.contains((e, d2))) =~= Set::new(
                            |d2: u32| cut_old.contains((e, d2)),
                        ));
                    }
                }
            }
        }
        let ghost edges1 = self.edges();
        proof {
            assert(pairs@.subrange(0, k as int) =~= pairs@);
            assert forall|e: u32| #[trigger] edges0.contains_key(e) implies muscles_of(edges1, e)
                == muscles_apart_from(edges0, e, node) by {
                assert(muscles_of(edges1, e) =~= muscles_apart_from(edges0, e, node)) by {
                    assert forall|x: u32| muscles_of(edges1, e).contains_key(x) <==> muscles_apart_from(edges0, e, node).contains_key(x) by {
                        if linked(edges0, e, x) && touches(edges0, x, node) {
                            assert(linked(edges0, x, e));
                            assert(pairs@.contains((e, x)));
                        }
                        if pairs@.contains((e, x)) {
                            assert(linked(edges0, x, e));
                        }
                    }
                }
            }
        }
        let ghost mut seen: Set<u32> = Set::empty();
        let mut o: usize = 0;
        while o < orphans.len()
            invariant
                graph_wf(nodes0, edges0),
                nodes0.contains_key(node),
                self.edges() == edges1,
                o <= orphans@.len(),
                seen == orphans@.subrange(0, o as int).to_set(),
                self.nodes().dom() == nodes0.dom(),
                forall|n: u32|
                    #[trigger] nodes0.contains_key(n) ==> self.nodes()[n] == (if seen.contains(n) {
                        unparented(nodes0[n], node)
                    } else {
                        nodes0[n]
                    }),
            decreases orphans@.len() - o,
        {
            let x = orphans[o];
            match graph_node_mut(&mut self.graph, x) {
                Some(p) => {
                    match p.parent {
                        Some(q) => {
                            if q == node {
                                p.parent = None;
                            }
                        },
                        None => {},
                    }
                },
                None => {},
            }
            o = o + 1;
            proof {
                let seen_old = seen;
                seen = seen.insert(x);
                assert(orphans@.subrange(0, o as int) =~= orphans@.subrange(0, o - 1).push(x));
                assert(seen =~= orphans@.subrange(0, o as int).to_set()) by {
                    assert forall|y: u32| seen.contains(y) <==> orphans@.subrange(0, o as int).to_set().contains(y) by {
                        if y == x {
                            assert(orphans@.subrange(0, o as int)[o - 1] == y);
                        }
                        if orphans@.subrange(0, o as int).to_set().contains(y) && y != x {
                            let q = choose|q: int| 0 <= q < o && orphans@.subrange(0, o as int)[q] == y;
                            assert(orphans@.subrange(0, o - 1)[q] == y);
                        }
                    }
                }
                assert(self.nodes().dom() =~= nodes0.dom());
            }
        }
        proof {
            assert(orphans@.subrange(0, o as int) =~= orphans@);
        }
        graph_remove_node(&mut self.graph, node);
        proof {
            let nodes = self.nodes();
            let edges = self.edges();
            assert(edges.dom() =~= Set::new(|e: u32| edges0.contains_key(e) && !touches(edges0, e, node)));
            assert forall|n: u32| #[trigger] nodes.contains_key(n) implies nodes[n] == unparented(nodes0[n], node) by {
                if nodes0[n].parent == Some(node) {
                    assert(exists|e: u32| joins(edges0, e, n, node));
                    let e = choose|e: u32| joins(edges0, e, n, node);
                    assert(touches(edges0, e, node));
                    assert(other_end(edges0, e, node) == n);
                }
            }
            assert forall|e: u32| #[trigger] edges.contains_key(e) implies nodes.contains_key(edges[e].0)
                && nodes.contains_key(edges[e].1) by {
                assert(edges0.contains_key(e));
            }
            assert forall|a: u32, b: u32| #[trigger] linked(edges, a, b) implies edges.contains_key(b)
                && a != b by {
                assert(linked(edges0, a, b));
            }
            assert forall|a: u32, b: u32| #[trigger] linked(edges, a, b) implies linked(edges, b, a)
                && muscles_of(edges, b)[a] == muscles_of(edges, a)[b] by {
                assert(linked(edges0, a, b));
                assert(linked(edges0, b, a));
            }
            assert forall|n: u32| #[trigger] nodes.contains_key(n) && nodes[n].parent.is_some() implies exists|e: u32|
                joins(edges, e, n, nodes[n].parent.unwrap()) by {
                let p = nodes[n].parent.unwrap();
                assert(nodes0.contains_key(n));
                assert(nodes0[n].parent == Some(p));
                let e = choose|e: u32| joins(edges0, e, n, p);
                assert(p != node);
                assert(!touches(edges0, e, node));
                assert(joins(edges, e, n, p));
            }
        }
    }
}

} // verus!

verus! {

/// `p`, the weight of node `n`, once the connector between `a` and `b` is gone: a parent
/// reached through that connector is cleared.
pub open spec fn cut_parent(p: Point, n: u32, a: u32, b: u32) -> Point {
    if n == a {
        unparented(p, b)
    } else if n == b {
        unparented(p, a)
    } else {
        p
    }
}

impl Structure {
    /// Deletes a connector and every muscle anchored on it (from both anchors), and clears
    /// the parent of an endpoint whose parent is the other endpoint. Hands back the
    /// entities to despawn, or `None` (changing nothing) when the edge is missing.
    pub fn delete_connector(&mut self, edge: u32) -> (r: Option<Removed>)
        requires
            old(self).wf(),
        ensures
            final(self).wf(),
            !old(self).edges().contains_key(edge) ==> r.is_none() && final(self).nodes() == old(
                self).nodes() && final(self).edges() == old(self).edges(),
            old(self).edges().contains_key(edge) ==> r.is_some(),
            r.is_some() ==> {
                let o = old(self).edges();
                let f = final(self).edges();
                let rm = r.unwrap();
                let (a, b) = (o[edge].0, o[edge].1);
                &&& final(self).nodes().dom() == old(self).nodes().dom()
                &&& forall|n: u32|
                    #[trigger] final(self).nodes().contains_key(n) ==> final(self).nodes()[n]
                        == cut_parent(old(self).nodes()[n], n, a, b)
                &&& f.dom() == o.dom().remove(edge)
                &&& forall|e: u32|
                    #[trigger] f.contains_key(e) ==> f[e].0 == o[e].0 && f[e].1 == o[e].1
                        && f[e].2.entityid == o[e].2.entityid && f[e].2.muscle_data == o[e].2.muscle_data
                        && muscles_of(f, e) == muscles_of(o, e).remove(edge)
                &&& rm.joint.is_none()
                &&& forall|c: EntityId| rm.connectors@.contains(c) <==> o[edge].2.entityid == Some(c)
                &&& rm.muscles@.no_duplicates()
                &&& forall|m: EntityId|
                    rm.muscles@.contains(m) <==> exists|x: u32|
                        #[trigger] linked(o, edge, x) && muscles_of(o, edge)[x] == m
            },
    {
        let ghost nodes0 = self.nodes();
        let ghost edges0 = self.edges();
        let (a, b) = match graph_edge_endpoints(&self.graph, edge) {
            Some(ends) => ends,
            None => {
                return None;
            },
        };
        let mut opposite: Vec<u32> = Vec::new();
        let mut muscles: Vec<EntityId> = Vec::new();
        let mut connectors: Vec<EntityId> = Vec::new();
        match graph_edge(&self.graph, edge) {
            Some(c) => {
                proof {
                    c.muscles.lemma_view();
                }
                let mut j: usize = 0;
                while j < c.muscles.len()
                    invariant
                        c == edges0[edge].2,
                        c.muscles.wf(),
                        j <= c.muscles.entries().len(),
                        opposite@ == c.muscles.key_seq().subrange(0, j as int),
                        muscles@.no_duplicates(),
                        forall|m: EntityId|
                            #[trigger] muscles@.contains(m) <==> exists|k: int|
                                0 <= k < j && c.muscles.entries()[k].1 == m,
                    decreases c.muscles.entries().len() - j,
                {
                    let (f, m) = c.muscles.entry(j);
                    let ghost mp = muscles@;
                    opposite.push(f);
                    if !holds(&muscles, m) {
                        muscles.push(m);
                    }
                    j = j + 1;
                    proof {
                        assert(opposite@ =~= c.muscles.key_seq().subrange(0, j as int));
                        assert forall|m2: EntityId| #[trigger]
                            muscles@.contains(m2) <==> mp.contains(m2) || m2 == m by {
                            if muscles@.contains(m2) && muscles@.len() > mp.len() {
                                let q = choose|q: int| 0 <= q < muscles@.len() && muscles@[q] == m2;
                                if q < mp.len() {
                                    assert(mp[q] == m2);
                                }
                            }
                            if mp.contains(m2) && muscles@.len() > mp.len() {
                                let q = choose|q: int| 0 <= q < mp.len() && mp[q] == m2;
                                assert(muscles@[q] == m2);
                            }
                            if m2 == m && muscles@.len() > mp.len() {
                                assert(muscles@[mp.len() as int] == m);
                            }
                        }
                        assert forall|m2: EntityId|
                            #[trigger] muscles@.contains(m2) <==> exists|k: int|
                                0 <= k < j && c.muscles.entries()[k].1 == m2 by {
                            if m2 == m {
                                assert(c.muscles.entries()[j - 1].1 == m2);
                            }
                            if exists|k: int| 0 <= k < j && c.muscles.entries()[k].1 == m2 {
                                let k = choose|k: int| 0 <= k < j && c.muscles.entries()[k].1 == m2;
                                if k < j - 1 {
                                    assert(mp.contains(m2));
                                }
                            }
                        }
                    }
                }
                proof {
                    assert(c.muscles.key_seq().subrange(0, j as int) =~= c.muscles.key_seq());
                    assert forall|p: int, q: int|
                        0 <= p < opposite@.len() && 0 <= q < opposite@.len() && p != q implies opposite@[p]
                        != opposite@[q] by {
                        assert(opposite@[p] == c.muscles.entries()[p].0);
                        assert(opposite@[q] == c.muscles.entries()[q].0);
                    }
                    assert forall|x: u32| opposite@.contains(x) <==> linked(edges0, edge, x) by {
                        if opposite@.contains(x) {
                            let k = choose|k: int| 0 <= k < opposite@.len() && opposite@[k] == x;
                            assert(c.muscles.entries()[k].0 == x);
                        }
                        if linked(edges0, edge, x) {
                            let k = choose|k: int|
                                0 <= k < c.muscles.entries().len() && c.muscles.entries()[k].0 == x;
                            assert(opposite@[k] == x);
                        }
                    }
                    assert forall|m: EntityId|
                        muscles@.contains(m) <==> exists|x: u32|
                            #[trigger] linked(edges0, edge, x) && muscles_of(edges0, edge)[x] == m by {
                        if muscles@.contains(m) {
                            let k = choose|k: int|
                                0 <= k < c.muscles.entries().len() && c.muscles.entries()[k].1 == m;
                            let x = c.muscles.entries()[k].0;
                            assert(linked(edges0, edge, x) && muscles_of(edges0, edge)[x] == m);
                        }
                        if exists|x: u32| #[trigger] linked(edges0, edge, x) && muscles_of(edges0, edge)[x] == m {
                            let x = choose|x: u32| #[trigger] linked(edges0, edge, x) && muscles_of(edges0, edge)[x] == m;
                            let k = choose|k: int|
                                0 <= k < c.muscles.entries().len() && c.muscles.entries()[k].0 == x;
                            assert(c.muscles.entries()[k].1 == m);
                        }
                    }
                }
                if let Some(ce) = c.entityid {
                    connectors.push(ce);
                }
                proof {
                    assert forall|ce: EntityId| connectors@.contains(ce) <==> edges0[edge].2.entityid == Some(ce) by {
                        if edges0[edge].2.entityid == Some(ce) {
                            assert(connectors@[0] == ce);
                        }
                    }
                }
            },
            None => {
                proof {
                    // Unreachable: the edge was listed by the graph itself.
                    assert(false);
                }
            },
        }
        let ghost mut seen: Set<u32> = Set::empty();
        let mut k: usize = 0;
        while k < opposite.len()
            invariant
                graph_wf(nodes0, edges0),
                edges0.contains_key(edge),
                self.nodes() == nodes0,
                k <= opposite@.len(),
                opposite@.no_duplicates(),
                seen == opposite@.subrange(0, k as int).to_set(),
                forall|x: u32| opposite@.contains(x) ==> linked(edges0, edge, x),
                self.edges().dom() == edges0.dom(),
                forall|e: u32|
                    #[trigger] edges0.contains_key(e) ==> self.edges()[e].0 == edges0[e].0
                        && self.edges()[e].1 == edges0[e].1
                        && self.edges()[e].2.entityid == edges0[e].2.entityid
                        && self.edges()[e].2.muscle_data == edges0[e].2.muscle_data
                        && self.edges()[e].2.muscles.wf()
                        && muscles_of(self.edges(), e) == (if seen.contains(e) {
                            muscles_of(edges0, e).remove(edge)
                        } else {
                            muscles_of(edges0, e)
                        }),
            decreases opposite@.len() - k,
        {
            let x = opposite[k];
            proof {
                assert(opposite@.contains(x));
                assert(linked(edges0, x, edge));
                assert(!seen.contains(x)) by {
                    if seen.contains(x) {
                        let q = choose|q: int| 0 <= q < k && opposite@.subrange(0, k as int)[q] == x;
                        assert(opposite@[q] == x);
                    }
                }
            }
            match graph_edge_mut(&mut self.graph, x) {
                Some(c) => {
                    c.muscles.remove(edge);
                },
                None => {},
            }
            k = k + 1;
            proof {
                seen = seen.insert(x);
                assert(opposite@.subrange(0, k as int) =~= opposite@.subrange(0, k - 1).push(x));
                assert(seen =~= opposite@.subrange(0, k as int).to_set()) by {
                    assert forall|y: u32|
                        seen.contains(y) <==> opposite@.subrange(0, k as int).to_set().contains(y) by {
                        if y == x {
                            assert(opposite@.subrange(0, k as int)[k - 1] == y);
                        }
                        if opposite@.subrange(0, k as int).to_set().contains(y) && y != x {
                            let q = choose|q: int| 0 <= q < k && opposite@.subrange(0, k as int)[q] == y;
                            assert(opposite@.subrange(0, k - 1)[q] == y);
                        }
                    }
                }
                assert(self.edges().dom() =~= edges0.dom());
            }
        }
        proof {
            assert(opposite@.subrange(0, k as int) =~= opposite@);
        }
        self.clear_parent_via(a, b);
        self.clear_parent_via(b, a);
        graph_remove_edge(&mut self.graph, edge);
        proof {
            let nodes = self.nodes();
            let edges = self.edges();
            assert(edges.dom() =~= edges0.dom().remove(edge));
            assert forall|e: u32| #[trigger] edges.contains_key(e) implies muscles_of(edges, e)
                == muscles_of(edges0, e).remove(edge) by {
                if !seen.contains(e) {
                    assert(!linked(edges0, edge, e));
                    assert(!linked(edges0, e, edge));
                    assert(muscles_of(edges0, e).remove(edge) =~= muscles_of(edges0, e));
                }
            }
            assert forall|n: u32| #[trigger] nodes.contains_key(n) implies nodes[n] == cut_parent(
                nodes0[n],
                n,
                a,
                b,
            ) by {}
            assert forall|e: u32| #[trigger] edges.contains_key(e) implies nodes.contains_key(edges[e].0)
                && nodes.contains_key(edges[e].1) by {
                assert(edges0.contains_key(e));
            }
            assert forall|x: u32, y: u32| #[trigger] linked(edges, x, y) implies edges.contains_key(y)
                && x != y by {
                assert(linked(edges0, x, y));
            }
            assert forall|x: u32, y: u32| #[trigger] linked(edges, x, y) implies linked(edges, y, x)
                && muscles_of(edges, y)[x] == muscles_of(edges, x)[y] by {
                assert(linked(edges0, x, y));
                assert(linked(edges0, y, x));
            }
            assert forall|n: u32| #[trigger] nodes.contains_key(n) && nodes[n].parent.is_some() implies exists|e: u32|
                joins(edges, e, n, nodes[n].parent.unwrap()) by {
                let p = nodes[n].parent.unwrap();
                assert(nodes0.contains_key(n));
                assert(nodes0[n].parent == Some(p));
                let e = choose|e: u32| joins(edges0, e, n, p);
                assert(e != edge);
                assert(joins(edges, e, n, p));
            }
        }
        Some(Removed { joint: None, connectors, muscles })
    }

    /// Clears the parent of node `n` if it is `p`; edges are unchanged.
    fn clear_parent_via(&mut self, n: u32, p: u32)
        ensures
            final(self).edges() == old(self).edges(),
            final(self).nodes().dom() == old(self).nodes().dom(),
            forall|m: u32|
                #[trigger] final(self).nodes().contains_key(m) ==> final(self).nodes()[m] == (if m
                    == n {
                    unparented(old(self).nodes()[m], p)
                } else {
                    old(self).nodes()[m]
                }),
    {
        match graph_node_mut(&mut self.graph, n) {
            Some(pt) => {
                match pt.parent {
                    Some(q) => {
                        if q == p {
                            pt.parent = None;
                        }
                    },
                    None => {},
                }
            },
            None => {},
        }
        proof {
            assert(self.nodes().dom() =~= old(self).nodes().dom());
        }
    }

    /// Deletes the muscle between connectors `a` and `b`, from both. Hands back its
    /// handle, or `None` (changing nothing) when they share no muscle.
    pub fn delete_muscle(&mut self, a: u32, b: u32) -> (r: Option<EntityId>)
        requires
            old(self).wf(),
        ensures
            final(self).wf(),
            final(self).nodes() == old(self).nodes(),
            !linked(old(self).edges(), a, b) ==> r.is_none() && final(self).edges() == old(
                self).edges(),
            linked(old(self).edges(), a, b) ==> {
                let o = old(self).edges();
                let f = final(self).edges();
                &&& r == Some(muscles_of(o, a)[b])
                &&& f.dom() == o.dom()
                &&& muscles_of(f, a) == muscles_of(o, a).remove(b)
                &&& muscles_of(f, b) == muscles_of(o, b).remove(a)
                &&& forall|e: u32|
                    #[trigger] f.contains_key(e) ==> f[e].0 == o[e].0 && f[e].1 == o[e].1
                        && f[e].2.entityid == o[e].2.entityid && f[e].2.muscle_data == o[e].2.muscle_data
                        && (e != a && e != b ==> f[e] == o[e])
            },
    {
        if !self.has_muscle(a, b) {
            return None;
        }
        let ghost o = self.edges();
        let r = match graph_edge_mut(&mut self.graph, a) {
            Some(c) => c.muscles.remove(b),
            None => None,
        };
        match graph_edge_mut(&mut self.graph, b) {
            Some(c) => {
                c.muscles.remove(a);
            },
            None => {},
        }
        proof {
            let f = self.edges();
            assert(f.dom() =~= o.dom());
            assert forall|x: u32, y: u32| #[trigger] linked(f, x, y) implies f.contains_key(y) && x
                != y by {
                assert(linked(o, x, y));
            }
            assert forall|x: u32, y: u32| #[trigger] linked(f, x, y) implies linked(f, y, x)
                && muscles_of(f, y)[x] == muscles_of(f, x)[y] by {
                assert(linked(o, x, y));
                assert(linked(o, y, x));
            }
            let nodes = self.nodes();
            assert forall|n: u32|
                #[trigger] nodes.contains_key(n) && nodes[n].parent.is_some() implies exists|e: u32|
                joins(f, e, n, nodes[n].parent.unwrap()) by {
                let e = choose|e: u32| joins(o, e, n, nodes[n].parent.unwrap());
                assert(joins(f, e, n, nodes[n].parent.unwrap()));
            }
        }
        r
    }
}

} // verus!

verus! {

/// Whether `p` is a muscle pair that the saved form records: two distinct edges, in
/// increasing order, one of which lists the other in its `muscle_data`.
pub open spec fn stored_pair(edges: Map<u32, (u32, u32, Connection)>, p: (u32, u32)) -> bool {
    &&& p.0 < p.1
    &&& edges.contains_key(p.0)
    &&& edges.contains_key(p.1)
    &&& (edges[p.0].2.muscle_data@.contains(p.1) || edges[p.1].2.muscle_data@.contains(p.0))
}

/// Whether `p` names two distinct edges of `edges`.
pub open spec fn valid_pair(edges: Map<u32, (u32, u32, Connection)>, p: (u32, u32)) -> bool {
    p.0 != p.1 && edges.contains_key(p.0) && edges.contains_key(p.1)
}

/// Whether `pairs`, or one of its first `n` entries that is valid, joins `x` and `y`.
pub open spec fn paired_in(
    edges: Map<u32, (u32, u32, Connection)>,
    pairs: Seq<(u32, u32)>,
    n: int,
    x: u32,
    y: u32,
) -> bool {
    exists|k: int|
        0 <= k < n && valid_pair(edges, #[trigger] pairs[k]) && (pairs[k] == (x, y) || pairs[k] == (
        y,
        x,
    ))
}

/// Whether `v` holds `p`.
fn holds_pair(v: &Vec<(u32, u32)>, p: (u32, u32)) -> (r: bool)
    ensures
        r == v@.contains(p),
{
    let mut i: usize = 0;
    while i < v.len()
        invariant
            i <= v@.len(),
            forall|k: int| 0 <= k < i ==> v@[k] != p,
        decreases v@.len() - i,
    {
        if v[i].0 == p.0 && v[i].1 == p.1 {
            return true;
        }
        i = i + 1;
    }
    false
}

impl Structure {
    /// Writes each connector's muscle partners into its `muscle_data`, the form in which
    /// it is saved. Nothing else changes.
    pub fn save_muscles(&mut self)
        requires
            old(self).wf(),
        ensures
            final(self).wf(),
            final(self).nodes() == old(self).nodes(),
            final(self).edges().dom() == old(self).edges().dom(),
            forall|e: u32|
                #[trigger] final(self).edges().contains_key(e) ==> final(self).edges()[e].0 == old(self).edges()[e].0
                    && final(self).edges()[e].1 == old(self).edges()[e].1
                    && final(self).edges()[e].2.entityid == old(self).edges()[e].2.entityid
                    && final(self).edges()[e].2.muscles == old(self).edges()[e].2.muscles
                    && final(self).edges()[e].2.muscle_data@ == old(self).edges()[e].2.muscles.key_seq()
                    && final(self).edges()[e].2.muscle_data@.to_set() == muscles_of(old(self).edges(), e).dom(),
    {
        let ghost nodes0 = self.nodes();
        let ghost edges0 = self.edges();
        let all = graph_edge_indices(&self.graph);
        let ghost mut seen: Set<u32> = Set::empty();
        let mut i: usize = 0;
        while i < all.len()
            invariant
                graph_wf(nodes0, edges0),
                self.nodes() == nodes0,
                i <= all@.len(),
                all@.no_duplicates(),
                forall|e: u32| all@.contains(e) <==> edges0.contains_key(e),
                seen == all@.subrange(0, i as int).to_set(),
                self.edges().dom() == edges0.dom(),
                forall|e: u32|
                    #[trigger] edges0.contains_key(e) ==> self.edges()[e].0 == edges0[e].0
                        && self.edges()[e].1 == edges0[e].1
                        && self.edges()[e].2.entityid == edges0[e].2.entityid
                        && self.edges()[e].2.muscles == edges0[e].2.muscles
                        && (seen.contains(e) ==> self.edges()[e].2.muscle_data@ == edges0[e].2.muscles.key_seq()
                            && self.edges()[e].2.muscle_data@.to_set() == muscles_of(edges0, e).dom()),
            decreases all@.len() - i,
        {
            let e = all[i];
            match graph_edge_mut(&mut self.graph, e) {
                Some(c) => {
                    c.muscle_data = c.muscles.keys();
                },
                None => {},
            }
            i = i + 1;
            proof {
                seen = seen.insert(e);
                assert(all@.subrange(0, i as int) =~= all@.subrange(0, i - 1).push(e));
                assert(seen =~= all@.subrange(0, i as int).to_set()) by {
                    assert forall|y: u32|
                        seen.contains(y) <==> all@.subrange(0, i as int).to_set().contains(y) by {
                        if y == e {
                            assert(all@.subrange(0, i as int)[i - 1] == y);
                        }
                        if all@.subrange(0, i as int).to_set().contains(y) && y != e {
                            let q = choose|q: int| 0 <= q < i && all@.subrange(0, i as int)[q] == y;
                            assert(all@.subrange(0, i - 1)[q] == y);
                        }
                    }
                }
                assert(self.edges().dom() =~= edges0.dom());
            }
        }
        proof {
            assert(all@.subrange(0, i as int) =~= all@);
            let edges = self.edges();
            assert(seen == all@.to_set());
            assert forall|e: u32| #[trigger] edges.contains_key(e) implies nodes0.contains_key(edges[e].0)
                && nodes0.contains_key(edges[e].1) by {
                assert(edges0.contains_key(e));
            }
            assert forall|x: u32, y: u32| #[trigger] linked(edges, x, y) implies linked(edges0, x, y) by {}
            assert forall|x: u32, y: u32| #[trigger] linked(edges0, x, y) implies linked(edges, x, y) by {}
            assert forall|n: u32|
                #[trigger] nodes0.contains_key(n) && nodes0[n].parent.is_some() implies exists|e: u32|
                joins(edges, e, n, nodes0[n].parent.unwrap()) by {
                let e = choose|e: u32| joins(edges0, e, n, nodes0[n].parent.unwrap());
                assert(joins(edges, e, n, nodes0[n].parent.unwrap()));
            }
            assert forall|e: u32| #[trigger] edges0.contains_key(e) implies edges[e].2.muscle_data@.to_set()
                == muscles_of(edges0, e).dom() by {
                assert(all@.contains(e));
                assert(seen.contains(e));
            }
        }
    }

    /// Takes a graph as it was loaded: no muscles recorded yet (only `muscle_data`), each
    /// edge between two of its nodes, and each parent joined to its child. `None` when the
    /// graph is not of that form.
    pub fn from_graph(graph: JointGraph) -> (r: Option<Structure>)
        ensures
            r.is_some() <==> edges_on_nodes(graph_nodes(graph), graph_edges(graph))
                && parents_joined(graph_nodes(graph), graph_edges(graph))
                && forall|e: u32|
                #[trigger] graph_edges(graph).contains_key(e) ==> graph_edges(graph)[e].2.muscles@
                    == Map::<u32, EntityId>::empty(),
            r.is_some() ==> {
                let s = r.unwrap();
                &&& s.wf()
                &&& s.nodes() == graph_nodes(graph)
                &&& s.edges() == graph_edges(graph)
            },
    {
        let ghost nodes = graph_nodes(graph);
        let ghost edges = graph_edges(graph);
        let all_edges = graph_edge_indices(&graph);
        let mut i: usize = 0;
        while i < all_edges.len()
            invariant
                graph_nodes(graph) == nodes,
                graph_edges(graph) == edges,
                i <= all_edges@.len(),
                forall|e: u32| all_edges@.contains(e) <==> edges.contains_key(e),
                forall|k: int|
                    0 <= k < i ==> nodes.contains_key(edges[#[trigger] all_edges@[k]].0)
                        && nodes.contains_key(edges[all_edges@[k]].1)
                        && edges[all_edges@[k]].2.muscles@ == Map::<u32, EntityId>::empty(),
            decreases all_edges@.len() - i,
        {
            let e = all_edges[i];
            proof {
                assert(all_edges@.contains(e));
            }
            let ok = match (graph_edge_endpoints(&graph, e), graph_edge(&graph, e)) {
                (Some((a, b)), Some(c)) => {
                    proof {
                        c.muscles.lemma_empty();
                    }
                    graph_node(&graph, a).is_some() && graph_node(&graph, b).is_some()
                        && c.muscles.len() == 0
                },
                _ => false,
            };
            if !ok {
                proof {
                    edges[e].2.muscles.lemma_empty();
                }
                return None;
            }
            i = i + 1;
        }
        let all_nodes = graph_node_indices(&graph);
        let mut j: usize = 0;
        while j < all_nodes.len()
            invariant
                graph_nodes(graph) == nodes,
                graph_edges(graph) == edges,
                j <= all_nodes@.len(),
                forall|n: u32| all_nodes@.contains(n) <==> nodes.contains_key(n),
                forall|k: int|
                    0 <= k < j && nodes[#[trigger] all_nodes@[k]].parent.is_some() ==> exists|e: u32|
                        joins(edges, e, all_nodes@[k], nodes[all_nodes@[k]].parent.unwrap()),
            decreases all_nodes@.len() - j,
        {
            let n = all_nodes[j];
            proof {
                assert(all_nodes@.contains(n));
            }
            match graph_node(&graph, n) {
                Some(p) => match p.parent {
                    Some(q) => {
                        if graph_find_edge(&graph, n, q).is_none() {
                            return None;
                        }
                    },
                    None => {},
                },
                None => {},
            }
            j = j + 1;
        }
        proof {
            assert forall|e: u32| #[trigger] edges.contains_key(e) implies nodes.contains_key(edges[e].0)
                && nodes.contains_key(edges[e].1) && edges[e].2.muscles@ == Map::<u32, EntityId>::empty() by {
                let k = choose|k: int| 0 <= k < all_edges@.len() && all_edges@[k] == e;
                assert(nodes.contains_key(edges[all_edges@[k]].0));
            }
            assert forall|n: u32| #[trigger] nodes.contains_key(n) && nodes[n].parent.is_some() implies exists|e: u32|
                joins(edges, e, n, nodes[n].parent.unwrap()) by {
                let k = choose|k: int| 0 <= k < all_nodes@.len() && all_nodes@[k] == n;
                assert(nodes[all_nodes@[k]].parent.is_some());
            }
            assert forall|e: u32| #[trigger] edges.contains_key(e) implies edges[e].2.muscles.wf() by {
                edges[e].2.muscles.lemma_empty();
            }
            assert forall|a: u32, b: u32| #[trigger] linked(edges, a, b) implies false by {}
        }
        Some(Structure { graph })
    }

    /// Each muscle pair that the saved form records, once, as `(lower edge, higher edge)`.
    pub fn muscle_pairs(&self) -> (r: Vec<(u32, u32)>)
        ensures
            r@.no_duplicates(),
            forall|p: (u32, u32)| r@.contains(p) <==> stored_pair(self.edges(), p),
    {
        let all = graph_edge_indices(&self.graph);
        let mut r: Vec<(u32, u32)> = Vec::new();
        let ghost mut seen: Set<u32> = Set::empty();
        let mut i: usize = 0;
        while i < all.len()
            invariant
                i <= all@.len(),
                all@.no_duplicates(),
                forall|e: u32| all@.contains(e) <==> self.edges().contains_key(e),
                seen == all@.subrange(0, i as int).to_set(),
                r@.no_duplicates(),
                forall|p: (u32, u32)|
                    #[trigger] r@.contains(p) <==> stored_pair(self.edges(), p) && (
                    (seen.contains(p.0) && self.edges()[p.0].2.muscle_data@.contains(p.1)) || (
                    seen.contains(p.1) && self.edges()[p.1].2.muscle_data@.contains(p.0))),
            decreases all@.len() - i,
        {
            let a = all[i];
            proof {
                assert(all@.contains(a));
            }
            let c = match graph_edge(&self.graph, a) {
                Some(c) => c,
                None => {
                    proof {
                        // Unreachable: the edge was listed by the graph itself.
                        assert(false);
                    }
                    return r;
                },
            };
            let ghost r_before = r@;
            let mut j: usize = 0;
            while j < c.muscle_data.len()
                invariant
                    c == self.edges()[a].2,
                    self.edges().contains_key(a),
                    j <= c.muscle_data@.len(),
                    r@.no_duplicates(),
                    forall|p: (u32, u32)|
                        #[trigger] r@.contains(p) <==> r_before.contains(p) || (stored_pair(self.edges(), p)
                            && ((p.0 == a && c.muscle_data@.subrange(0, j as int).contains(p.1)) || (p.1 == a
                            && c.muscle_data@.subrange(0, j as int).contains(p.0)))),
                decreases c.muscle_data@.len() - j,
            {
                let b = c.muscle_data[j];
                let ghost rp = r@;
                if b != a && graph_edge(&self.graph, b).is_some() {
                    let p = if a < b {
                        (a, b)
                    } else {
                        (b, a)
                    };
                    if !holds_pair(&r, p) {
                        r.push(p);
                    }
                }
                j = j + 1;
                proof {
                    assert(c.muscle_data@.subrange(0, j as int) =~= c.muscle_data@.subrange(0, j - 1).push(b));
                    assert forall|p: (u32, u32)|
                        #[trigger] r@.contains(p) <==> r_before.contains(p) || (stored_pair(self.edges(), p)
                            && ((p.0 == a && c.muscle_data@.subrange(0, j as int).contains(p.1)) || (p.1 == a
                            && c.muscle_data@.subrange(0, j as int).contains(p.0)))) by {
                        if r@.contains(p) && r@.len() > rp.len() {
                            let q = choose|q: int| 0 <= q < r@.len() && r@[q] == p;
                            if q < rp.len() {
                                assert(rp[q] == p);
                            } else {
                                assert(c.muscle_data@.subrange(0, j as int)[j - 1] == b);
                            }
                        }
                        if rp.contains(p) && r@.len() > rp.len() {
                            let q = choose|q: int| 0 <= q < rp.len() && rp[q] == p;
                            assert(r@[q] == p);
                        }
                        if stored_pair(self.edges(), p) && ((p.0 == a && c.muscle_data@.subrange(0, j as int).contains(p.1)) || (p.1 == a
                            && c.muscle_data@.subrange(0, j as int).contains(p.0))) {
                            let other = if p.0 == a { p.1 } else { p.0 };
                            if other != b {
                                let q = choose|q: int| 0 <= q < j && c.muscle_data@.subrange(0, j as int)[q] == other;
                                assert(c.muscle_data@.subrange(0, j - 1)[q] == other);
                            } else if r@.len() > rp.len() {
                                assert(r@[rp.len() as int] == p);
                            }
                        }
                    }
                }
            }
            i = i + 1;
            proof {
                let seen_old = seen;
                seen = seen.insert(a);
                assert(c.muscle_data@.subrange(0, j as int) =~= c.muscle_data@);
                assert(all@.subrange(0, i as int) =~= all@.subrange(0, i - 1).push(a));
                assert(seen =~= all@.subrange(0, i as int).to_set()) by {
                    assert forall|y: u32|
                        seen.contains(y) <==> all@.subrange(0, i as int).to_set().contains(y) by {
                        if y == a {
                            assert(all@.subrange(0, i as int)[i - 1] == y);
                        }
                        if all@.subrange(0, i as int).to_set().contains(y) && y != a {
                            let q = choose|q: int| 0 <= q < i && all@.subrange(0, i as int)[q] == y;
                            assert(all@.subrange(0, i - 1)[q] == y);
                        }
                    }
                }
            }
        }
        proof {
            assert(all@.subrange(0, i as int) =~= all@);
            assert forall|p: (u32, u32)| r@.contains(p) <==> stored_pair(self.edges(), p) by {
                if stored_pair(self.edges(), p) {
                    assert(all@.contains(p.0) && all@.contains(p.1));
                }
            }
        }
        r
    }

    /// Records, for each valid pair `pairs[i]`, a muscle with handle `handles[i]` between its
    /// two connectors, unless they already share one. False (and nothing changes) when the
    /// two lists differ in length.
    pub fn attach_muscles(&mut self, pairs: &Vec<(u32, u32)>, handles: &Vec<EntityId>) -> (r: bool)
        requires
            old(self).wf(),
        ensures
            final(self).wf(),
            r == (pairs@.len() == handles@.len()),
            !r ==> final(self).nodes() == old(self).nodes() && final(self).edges() == old(self).edges(),
            final(self).nodes() == old(self).nodes(),
            final(self).edges().dom() == old(self).edges().dom(),
            forall|e: u32|
                #[trigger] final(self).edges().contains_key(e) ==> final(self).edges()[e].0 == old(self).edges()[e].0
                    && final(self).edges()[e].1 == old(self).edges()[e].1
                    && final(self).edges()[e].2.entityid == old(self).edges()[e].2.entityid
                    && final(self).edges()[e].2.muscle_data == old(self).edges()[e].2.muscle_data,
            r ==> forall|x: u32, y: u32|
                #[trigger] linked(final(self).edges(), x, y) <==> linked(old(self).edges(), x, y)
                    || paired_in(old(self).edges(), pairs@, pairs@.len() as int, x, y),
            forall|x: u32, y: u32|
                #[trigger] linked(old(self).edges(), x, y) ==> muscles_of(final(self).edges(), x)[y]
                    == muscles_of(old(self).edges(), x)[y],
            forall|x: u32, y: u32|
                #[trigger] linked(final(self).edges(), x, y) && !linked(old(self).edges(), x, y)
                    ==> exists|k: int|
                    0 <= k < pairs@.len() && valid_pair(old(self).edges(), #[trigger] pairs@[k]) && (
                    pairs@[k] == (x, y) || pairs@[k] == (y, x)) && muscles_of(final(self).edges(), x)[y]
                    == handles@[k],
    {
        if pairs.len() != handles.len() {
            return false;
        }
        let ghost edges0 = self.edges();
        let mut i: usize = 0;
        while i < pairs.len()
            invariant
                self.wf(),
                i <= pairs@.len(),
                pairs@.len() == handles@.len(),
                self.nodes() == old(self).nodes(),
                edges0 == old(self).edges(),
                self.edges().dom() == edges0.dom(),
                forall|e: u32|
                    #[trigger] self.edges().contains_key(e) ==> self.edges()[e].0 == edges0[e].0
                        && self.edges()[e].1 == edges0[e].1
                        && self.edges()[e].2.entityid == edges0[e].2.entityid
                        && self.edges()[e].2.muscle_data == edges0[e].2.muscle_data,
                forall|x: u32, y: u32|
                    #[trigger] linked(self.edges(), x, y) <==> linked(edges0, x, y) || paired_in(
                        edges0,
                        pairs@,
                        i as int,
                        x,
                        y,
                    ),
                forall|x: u32, y: u32|
                    #[trigger] linked(edges0, x, y) ==> muscles_of(self.edges(), x)[y] == muscles_of(
                        edges0,
                        x,
                    )[y],
                forall|x: u32, y: u32|
                    #[trigger] linked(self.edges(), x, y) && !linked(edges0, x, y) ==> exists|k: int|
                        0 <= k < i && valid_pair(edges0, #[trigger] pairs@[k]) && (pairs@[k] == (x, y)
                            || pairs@[k] == (y, x)) && muscles_of(self.edges(), x)[y] == handles@[k],
            decreases pairs@.len() - i,
        {
            let (a, b) = pairs[i];
            let ghost before = self.edges();
            let outcome = self.link_muscle(a, b, handles[i]);
            i = i + 1;
            proof {
                let now = self.edges();
                let h = handles@[i - 1];
                assert(pairs@[i - 1] == (a, b));
                let valid = valid_pair(edges0, (a, b));
                assert(valid == valid_pair(before, (a, b)));
                assert forall|x: u32, y: u32|
                    #[trigger] linked(now, x, y) <==> linked(before, x, y) || (valid && ((x == a && y
                        == b) || (x == b && y == a))) by {
                    if outcome == MuscleLink::Linked {
                        if x == a {
                            assert(muscles_of(now, a) == muscles_of(before, a).insert(b, h));
                        } else if x == b {
                            assert(muscles_of(now, b) == muscles_of(before, b).insert(a, h));
                        } else if now.contains_key(x) {
                            assert(now[x] == before[x]);
                        }
                    } else {
                        assert(now == before);
                        if valid && ((x == a && y == b) || (x == b && y == a)) {
                            assert(outcome == MuscleLink::Duplicate);
                            assert(linked(before, a, b));
                            assert(linked(before, b, a));
                        }
                    }
                }
                assert forall|x: u32, y: u32|
                    paired_in(edges0, pairs@, i as int, x, y) <==> paired_in(edges0, pairs@, i - 1, x, y)
                        || (valid && ((x == a && y == b) || (x == b && y == a))) by {
                    if paired_in(edges0, pairs@, i as int, x, y) {
                        let k = choose|k: int|
                            0 <= k < i && valid_pair(edges0, #[trigger] pairs@[k]) && (pairs@[k] == (x, y)
                                || pairs@[k] == (y, x));
                        if k < i - 1 {
                            assert(paired_in(edges0, pairs@, i - 1, x, y));
                        }
                    }
                    if paired_in(edges0, pairs@, i - 1, x, y) {
                        let k = choose|k: int|
                            0 <= k < i - 1 && valid_pair(edges0, #[trigger] pairs@[k]) && (pairs@[k] == (x, y)
                                || pairs@[k] == (y, x));
                        assert(paired_in(edges0, pairs@, i as int, x, y));
                    }
                    if valid && ((x == a && y == b) || (x == b && y == a)) {
                        assert(valid_pair(edges0, pairs@[i - 1]));
                        assert(paired_in(edges0, pairs@, i as int, x, y));
                    }
                }
                assert forall|x: u32, y: u32| #[trigger] linked(before, x, y) implies muscles_of(
                    now,
                    x,
                )[y] == muscles_of(before, x)[y] by {
                    if outcome == MuscleLink::Linked {
                        if x == a {
                            assert(muscles_of(now, a) == muscles_of(before, a).insert(b, h));
                            assert(y != b);
                        } else if x == b {
                            assert(muscles_of(now, b) == muscles_of(before, b).insert(a, h));
                            assert(y != a);
                        } else {
                            assert(now[x] == before[x]);
                        }
                    }
                }
                assert forall|x: u32, y: u32| #[trigger] linked(edges0, x, y) implies muscles_of(
                    now,
                    x,
                )[y] == muscles_of(edges0, x)[y] by {
                    assert(linked(before, x, y));
                    assert(muscles_of(before, x)[y] == muscles_of(edges0, x)[y]);
                    assert(muscles_of(now, x)[y] == muscles_of(before, x)[y]);
                }
                assert forall|x: u32, y: u32|
                    #[trigger] linked(now, x, y) && !linked(edges0, x, y) implies exists|k: int|
                        0 <= k < i && valid_pair(edges0, #[trigger] pairs@[k]) && (pairs@[k] == (x, y)
                            || pairs@[k] == (y, x)) && muscles_of(now, x)[y] == handles@[k] by {
                    if linked(before, x, y) {
                        let k = choose|k: int|
                            0 <= k < i - 1 && valid_pair(edges0, #[trigger] pairs@[k]) && (pairs@[k] == (x, y)
                                || pairs@[k] == (y, x)) && muscles_of(before, x)[y] == handles@[k];
                        assert(muscles_of(now, x)[y] == muscles_of(before, x)[y]);
                    } else {
                        assert(outcome == MuscleLink::Linked);
                        if x == a {
                            assert(muscles_of(now, a) == muscles_of(before, a).insert(b, h));
                        } else {
                            assert(muscles_of(now, b) == muscles_of(before, b).insert(a, h));
                        }
                        assert(valid_pair(edges0, pairs@[i - 1]));
                    }
                }
            }
        }
        true
    }
}

/// Saving and loading keep the muscles: when each connector's `muscle_data` lists exactly
/// the partners of its muscles (what `save_muscles` writes), the pairs that loading
/// rebuilds from it (`muscle_pairs`, both ways round) are exactly the muscles of the
/// consistent structure that was saved.
pub proof fn lemma_round_trip(s: Structure, saved: Map<u32, (u32, u32, Connection)>)
    requires
        s.wf(),
        saved.dom() == s.edges().dom(),
        forall|e: u32|
            #[trigger] saved.contains_key(e) ==> saved[e].2.muscle_data@.to_set() == muscles_of(
                s.edges(),
                e,
            ).dom(),
    ensures
        forall|x: u32, y: u32|
            #[trigger] linked(s.edges(), x, y) <==> stored_pair(saved, (x, y)) || stored_pair(
                saved,
                (y, x),
            ),
{
    let edges = s.edges();
    assert forall|x: u32, y: u32|
        #[trigger] linked(edges, x, y) <==> stored_pair(saved, (x, y)) || stored_pair(saved, (y, x)) by {
        if linked(edges, x, y) {
            assert(linked(edges, y, x));
            assert(saved[x].2.muscle_data@.to_set().contains(y));
            assert(saved[y].2.muscle_data@.to_set().contains(x));
        }
        if stored_pair(saved, (x, y)) || stored_pair(saved, (y, x)) {
            if saved[x].2.muscle_data@.contains(y) {
                assert(saved[x].2.muscle_data@.to_set().contains(y));
            } else {
                assert(saved[y].2.muscle_data@.to_set().contains(x));
                assert(linked(edges, y, x));
            }
        }
    }
}

} // verus!

verus! {

impl Structure {
    /// The entities to highlight for the selection `selected`: the selected entity and,
    /// for a joint (whose node is `joint`), the connector to its parent.
    pub fn highlight_targets(&self, selected: &EntitySelected, joint: Option<u32>) -> (r: Vec<
        EntityId,
    >)
        requires
            self.wf(),
        ensures
            selected.0.is_none() ==> r@.len() == 0,
            selected.0.is_some() ==> 1 <= r@.len() <= 2 && r@[0] == selected.0.unwrap().handle(),
            r@.len() == 2 ==> (selected.0 matches Some(SelectableEntity::Joint(_))) && joint.is_some()
                && self.nodes().contains_key(joint.unwrap()) && self.nodes()[joint.unwrap()].parent.is_some()
                && exists|e: u32|
                joins(
                    self.edges(),
                    e,
                    joint.unwrap(),
                    self.nodes()[joint.unwrap()].parent.unwrap(),
                ) && self.edges()[e].2.entityid == Some(r@[1]),
            (selected.0 matches Some(SelectableEntity::Joint(_))) && joint.is_some() && self.nodes().contains_key(
                joint.unwrap(),
            ) && self.nodes()[joint.unwrap()].parent.is_some() && (forall|e: u32|
                joins(
                    self.edges(),
                    e,
                    joint.unwrap(),
                    self.nodes()[joint.unwrap()].parent.unwrap(),
                ) ==> self.edges()[e].2.entityid.is_some()) ==> r@.len() == 2,
    {
        let mut r: Vec<EntityId> = Vec::new();
        let entity = match selected.get() {
            Some(e) => e,
            None => {
                return r;
            },
        };
        r.push(entity);
        if selected.is_joint() {
            if let Some(n) = joint {
                if let Some(edge) = self.parent_edge(n) {
                    if let Some(c) = self.edge_to_entity(edge) {
                        r.push(c);
                    }
                }
            }
        }
        r
    }
}

/// Muscle symmetry: in a consistent structure, edge `a` lists edge `b` as a muscle
/// partner exactly when `b` lists `a`, and both hold the same handle. Every edit of
/// `Structure` keeps the structure consistent.
pub proof fn lemma_muscle_symmetry(s: Structure, a: u32, b: u32)
    requires
        s.wf(),
    ensures
        linked(s.edges(), a, b) <==> linked(s.edges(), b, a),
        linked(s.edges(), a, b) ==> muscles_of(s.edges(), a)[b] == muscles_of(s.edges(), b)[a],
{
    if linked(s.edges(), b, a) {
        assert(linked(s.edges(), a, b));
    }
}

/// Parent consistency: in a consistent structure, a joint's parent is joined to it by a
/// connector. Every edit of `Structure` keeps the structure consistent.
pub proof fn lemma_parent_joined(s: Structure, n: u32)
    requires
        s.wf(),
        s.nodes().contains_key(n),
        s.nodes()[n].parent.is_some(),
    ensures
        exists|e: u32| joins(s.edges(), e, n, s.nodes()[n].parent.unwrap()),
{
}

} // verus!

verus! {

/// Reloading keeps the muscles. Let `saved` be the connectors of the consistent structure
/// `s` once `save_muscles` has run, `loaded` the same connectors read back with no muscle
/// recorded yet (what `from_graph` accepts), `pairs` what `muscle_pairs` hands back for
/// them, and `reloaded` the connectors after `attach_muscles` has recorded those pairs.
/// Then two connectors share a muscle in `reloaded` exactly when they did in `s`.
pub proof fn lemma_reload_keeps_muscles(
    s: Structure,
    saved: Map<u32, (u32, u32, Connection)>,
    loaded: Map<u32, (u32, u32, Connection)>,
    pairs: Seq<(u32, u32)>,
    reloaded: Map<u32, (u32, u32, Connection)>,
)
    requires
        s.wf(),
        saved.dom() == s.edges().dom(),
        forall|e: u32|
            #[trigger] saved.contains_key(e) ==> saved[e].2.muscle_data@.to_set() == muscles_of(
                s.edges(),
                e,
            ).dom(),
        loaded.dom() == saved.dom(),
        forall|e: u32|
            #[trigger] loaded.contains_key(e) ==> loaded[e].2.muscle_data == saved[e].2.muscle_data
                && loaded[e].2.muscles@ == Map::<u32, EntityId>::empty(),
        forall|p: (u32, u32)| pairs.contains(p) <==> stored_pair(loaded, p),
        forall|x: u32, y: u32|
            #[trigger] linked(reloaded, x, y) <==> linked(loaded, x, y) || paired_in(
                loaded,
                pairs,
                pairs.len() as int,
                x,
                y,
            ),
    ensures
        forall|x: u32, y: u32| #[trigger] linked(reloaded, x, y) <==> linked(s.edges(), x, y),
{
    lemma_round_trip(s, saved);
    assert forall|x: u32, y: u32| #[trigger] linked(reloaded, x, y) <==> linked(s.edges(), x, y) by {
        assert(!linked(loaded, x, y));
        assert(stored_pair(loaded, (x, y)) == stored_pair(saved, (x, y)));
        assert(stored_pair(loaded, (y, x)) == stored_pair(saved, (y, x)));
        if linked(s.edges(), x, y) {
            if stored_pair(loaded, (x, y)) {
                assert(pairs.contains((x, y)));
                let k = choose|k: int| 0 <= k < pairs.len() && pairs[k] == (x, y);
                assert(valid_pair(loaded, pairs[k]));
            } else {
                assert(pairs.contains((y, x)));
                let k = choose|k: int| 0 <= k < pairs.len() && pairs[k] == (y, x);
                assert(valid_pair(loaded, pairs[k]));
            }
        }
        if linked(reloaded, x, y) {
            let k = choose|k: int|
                0 <= k < pairs.len() && valid_pair(loaded, #[trigger] pairs[k]) && (pairs[k] == (x, y)
                    || pairs[k] == (y, x));
            assert(pairs.contains(pairs[k]));
        }
    }
}

} // verus!
