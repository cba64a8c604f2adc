//! The joint graph: petgraph's `StableGraph`, seen through the contents it holds.
use vstd::prelude::*;

use petgraph::stable_graph::{EdgeIndex, NodeIndex, StableGraph};
use petgraph::visit::EdgeRef;
use petgraph::Undirected;

use crate::muscle_map::Connection;
use crate::structure::Point;

verus! {

#[verifier::external_type_specification]
#[verifier::external_body]
#[verifier::reject_recursive_types(N)]
#[verifier::reject_recursive_types(E)]
#[verifier::reject_recursive_types(Ty)]
#[verifier::reject_recursive_types(Ix)]
pub struct ExStableGraph<N, E, Ty, Ix>(StableGraph<N, E, Ty, Ix>);

#[verifier::external_type_specification]
#[verifier::external_body]
pub struct ExUndirected(Undirected);

/// Undirected graph of joints (nodes) and connectors (edges), indexed by `u32`.
pub type JointGraph = StableGraph<Point, Connection, Undirected, u32>;

/// The joints that a graph holds, by node index.
pub uninterp spec fn graph_nodes(g: StableGraph<Point, Connection, Undirected, u32>) -> Map<u32, Point>;

/// The connectors that a graph holds, by edge index: both endpoints and the weight.
pub uninterp spec fn graph_edges(g: StableGraph<Point, Connection, Undirected, u32>) -> Map<
    u32,
    (u32, u32, Connection),
>;

/// Whether edge `e` of `edges` has `n` as an endpoint.
pub open spec fn touches(edges: Map<u32, (u32, u32, Connection)>, e: u32, n: u32) -> bool {
    edges.contains_key(e) && (edges[e].0 == n || edges[e].1 == n)
}

/// Whether edge `e` of `edges` joins `a` and `b`, in either direction.
pub open spec fn joins(edges: Map<u32, (u32, u32, Connection)>, e: u32, a: u32, b: u32) -> bool {
    edges.contains_key(e) && ((edges[e].0 == a && edges[e].1 == b) || (edges[e].0 == b
        && edges[e].1 == a))
}

/// The edges of `edges` that do not touch `n`.
pub open spec fn edges_apart_from(edges: Map<u32, (u32, u32, Connection)>, n: u32) -> Map<
    u32,
    (u32, u32, Connection),
> {
    edges.restrict(Set::new(|e: u32| !touches(edges, e, n)))
}

/// Relies on `StableGraph::default`: a graph without nodes or edges.
#[verifier::external_body]
pub(crate) fn graph_new() -> (r: JointGraph)
    ensures
        graph_nodes(r).dom() == Set::<u32>::empty(),
        graph_edges(r).dom() == Set::<u32>::empty(),
{
    StableGraph::default()
}

/// Relies on `StableGraph::node_count`: the number of nodes.
#[verifier::external_body]
pub(crate) fn graph_node_count(g: &JointGraph) -> (r: usize)
    ensures
        r == graph_nodes(*g).len(),
{
    g.node_count()
}

/// Relies on `StableGraph::edge_count`: the number of edges.
#[verifier::external_body]
pub(crate) fn graph_edge_count(g: &JointGraph) -> (r: usize)
    ensures
        r == graph_edges(*g).len(),
{
    g.edge_count()
}

/// Relies on `StableGraph::add_node`: the weight goes under an index that was not in use,
/// and nothing else changes. It panics only when all `u32` indices but the last are in use.
#[verifier::external_body]
pub(crate) fn graph_add_node(g: &mut JointGraph, w: Point) -> (r: u32)
    requires
        graph_nodes(*old(g)).len() < u32::MAX,
    ensures
        !graph_nodes(*old(g)).contains_key(r),
        graph_nodes(*final(g)) == graph_nodes(*old(g)).insert(r, w),
        graph_edges(*final(g)) == graph_edges(*old(g)),
{
    g.add_node(w).index() as u32
}

/// Relies on `StableGraph::add_edge`: the edge goes under an index that was not in use,
/// and nothing else changes. It panics when an endpoint is not a node, or when all `u32`
/// indices but the last are in use.
#[verifier::external_body]
pub(crate) fn graph_add_edge(g: &mut JointGraph, a: u32, b: u32, w: Connection) -> (r: u32)
    requires
        graph_nodes(*old(g)).contains_key(a),
        graph_nodes(*old(g)).contains_key(b),
        graph_edges(*old(g)).len() < u32::MAX,
    ensures
        !graph_edges(*old(g)).contains_key(r),
        graph_edges(*final(g)) == graph_edges(*old(g)).insert(r, (a, b, w)),
        graph_nodes(*final(g)) == graph_nodes(*old(g)),
{
    g.add_edge(NodeIndex::new(a as usize), NodeIndex::new(b as usize), w).index() as u32
}

/// Relies on `StableGraph::remove_node`: the node goes, with every edge that touches it;
/// its weight is handed back. A missing node changes nothing.
#[verifier::external_body]
pub(crate) fn graph_remove_node(g: &mut JointGraph, n: u32) -> (r: Option<Point>)
    ensures
        graph_nodes(*old(g)).contains_key(n) ==> r == Some(graph_nodes(*old(g))[n]),
        !graph_nodes(*old(g)).contains_key(n) ==> r.is_none() && *final(g) == *old(g),
        graph_nodes(*final(g)) == graph_nodes(*old(g)).remove(n),
        graph_edges(*final(g)) == edges_apart_from(graph_edges(*old(g)), n),
{
    g.remove_node(NodeIndex::new(n as usize))
}

/// Relies on `StableGraph::remove_edge`: the edge goes and its weight is handed back.
/// A missing edge changes nothing.
#[verifier::external_body]
pub(crate) fn graph_remove_edge(g: &mut JointGraph, e: u32) -> (r: Option<Connection>)
    ensures
        graph_edges(*old(g)).contains_key(e) ==> r == Some(graph_edges(*old(g))[e].2),
        !graph_edges(*old(g)).contains_key(e) ==> r.is_none(),
        graph_edges(*final(g)) == graph_edges(*old(g)).remove(e),
        graph_nodes(*final(g)) == graph_nodes(*old(g)),
{
    g.remove_edge(EdgeIndex::new(e as usize))
}

/// Relies on `StableGraph::node_weight`: the weight of a node, if it is one.
#[verifier::external_body]
pub(crate) fn graph_node(g: &JointGraph, n: u32) -> (r: Option<Point>)
    ensures
        graph_nodes(*g).contains_key(n) ==> r == Some(graph_nodes(*g)[n]),
        !graph_nodes(*g).contains_key(n) ==> r.is_none(),
{
    g.node_weight(NodeIndex::new(n as usize)).copied()
}

/// Relies on `StableGraph::node_weight_mut`: the weight of a node, to change in place.
#[verifier::external_body]
pub(crate) fn graph_node_mut(g: &mut JointGraph, n: u32) -> (r: Option<&mut Point>)
    ensures
        graph_nodes(*old(g)).contains_key(n) <==> r.is_some(),
        r.is_some() ==> *r.unwrap() == graph_nodes(*old(g))[n],
        r.is_some() ==> graph_nodes(*final(g)) == graph_nodes(*old(g)).insert(
            n,
            *final(r.unwrap()),
        ),
        r.is_some() ==> graph_edges(*final(g)) == graph_edges(*old(g)),
        r.is_none() ==> *final(g) == *old(g),
{
    g.node_weight_mut(NodeIndex::new(n as usize))
}

/// Relies on `StableGraph::edge_weight`: the weight of an edge, if it is one.
#[verifier::external_body]
pub(crate) fn graph_edge(g: &JointGraph, e: u32) -> (r: Option<&Connection>)
    ensures
        graph_edges(*g).contains_key(e) <==> r.is_some(),
        r.is_some() ==> *r.unwrap() == graph_edges(*g)[e].2,
{
    g.edge_weight(EdgeIndex::new(e as usize))
}

/// Relies on `StableGraph::edge_weight_mut`: the weight of an edge, to change in place.
#[verifier::external_body]
pub(crate) fn graph_edge_mut(g: &mut JointGraph, e: u32) -> (r: Option<&mut Connection>)
    ensures
        graph_edges(*old(g)).contains_key(e) <==> r.is_some(),
        r.is_some() ==> *r.unwrap() == graph_edges(*old(g))[e].2,
        r.is_some() ==> graph_edges(*final(g)) == graph_edges(*old(g)).insert(
            e,
            (graph_edges(*old(g))[e].0, graph_edges(*old(g))[e].1, *final(r.unwrap())),
        ),
        r.is_some() ==> graph_nodes(*final(g)) == graph_nodes(*old(g)),
        r.is_none() ==> *final(g) == *old(g),
{
    g.edge_weight_mut(EdgeIndex::new(e as usize))
}

/// Relies on `StableGraph::edge_endpoints`: both endpoints of an edge, if it is one.
#[verifier::external_body]
pub(crate) fn graph_edge_endpoints(g: &JointGraph, e: u32) -> (r: Option<(u32, u32)>)
    ensures
        graph_edges(*g).contains_key(e) ==> r == Some((graph_edges(*g)[e].0, graph_edges(*g)[e].1)),
        !graph_edges(*g).contains_key(e) ==> r.is_none(),
{
    g.edge_endpoints(EdgeIndex::new(e as usize)).map(|(a, b)| (a.index() as u32, b.index() as u32))
}

/// Relies on `StableGraph::find_edge`: on an undirected graph, some edge that joins `a`
/// and `b` in either direction, or `None` when there is none.
#[verifier::external_body]
pub(crate) fn graph_find_edge(g: &JointGraph, a: u32, b: u32) -> (r: Option<u32>)
    ensures
        r.is_some() ==> joins(graph_edges(*g), r.unwrap(), a, b),
        r.is_none() ==> forall|e: u32| !joins(graph_edges(*g), e, a, b),
{
    g.find_edge(NodeIndex::new(a as usize), NodeIndex::new(b as usize)).map(|e| e.index() as u32)
}

/// Relies on `StableGraph::edges`: on an undirected graph, each edge that touches `n`,
/// once.
#[verifier::external_body]
pub(crate) fn graph_edges_of(g: &JointGraph, n: u32) -> (r: Vec<u32>)
    ensures
        r@.no_duplicates(),
        forall|e: u32| r@.contains(e) <==> touches(graph_edges(*g), e, n),
{
    g.edges(NodeIndex::new(n as usize)).map(|e| e.id().index() as u32).collect()
}

/// Relies on `StableGraph::node_indices`: the index of each node, once.
#[verifier::external_body]
pub(crate) fn graph_node_indices(g: &JointGraph) -> (r: Vec<u32>)
    ensures
        r@.no_duplicates(),
        forall|n: u32| r@.contains(n) <==> graph_nodes(*g).contains_key(n),
{
    g.node_indices().map(|n| n.index() as u32).collect()
}

/// Relies on `StableGraph::edge_indices`: the index of each edge, once.
#[verifier::external_body]
pub(crate) fn graph_edge_indices(g: &JointGraph) -> (r: Vec<u32>)
    ensures
        r@.no_duplicates(),
        forall|e: u32| r@.contains(e) <==> graph_edges(*g).contains_key(e),
{
    g.edge_indices().map(|e| e.index() as u32).collect()
}

} // verus!
