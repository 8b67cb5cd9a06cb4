//! The directed multigraph behind the semantic graph: petgraph's
//! `StableGraph`, seen through the indices and weights that it holds.
//!
//! Node and edge indices are `u32` (petgraph's default index type); an index
//! stays valid until its node or edge is removed, and the index `u32::MAX`
//! never names anything.

use vstd::prelude::*;
use petgraph::stable_graph::{EdgeIndex, NodeIndex, StableGraph};
use petgraph::visit::EdgeRef;
use petgraph::Directed;
use crate::edge::UsirEdge;
use crate::node::UsirNode;

verus! {

#[verifier::external_type_specification]
#[verifier::external_body]
#[verifier::reject_recursive_types(N)]
#[verifier::reject_recursive_types(E)]
#[verifier::reject_recursive_types(Ty)]
#[verifier::reject_recursive_types(Ix)]
pub struct ExStableGraph<N, E, Ty, Ix>(petgraph::stable_graph::StableGraph<N, E, Ty, Ix>);

#[verifier::external_type_specification]
#[verifier::external_body]
pub struct ExDirected(petgraph::Directed);

/// The graph of semantic nodes and the edges between them.
pub type Graph = StableGraph<UsirNode, UsirEdge, Directed, u32>;

/// Which way a traversal follows the edges.
#[derive(Debug, Clone, Copy, PartialEq, Eq, Structural)]
pub enum Direction {
    /// From an edge's source to its target.
    Forward,
    /// From an edge's target to its source.
    Reverse,
}

/// The occupied node indices of a graph, each with its weight.
pub uninterp spec fn graph_nodes(g: StableGraph<UsirNode, UsirEdge, Directed, u32>) -> Map<u32, UsirNode>;

/// The occupied edge indices of a graph, each with its source, target and
/// weight.
pub uninterp spec fn graph_edges(g: StableGraph<UsirNode, UsirEdge, Directed, u32>) -> Map<u32, (u32, u32, UsirEdge)>;

/// The vacant edge index that the graph hands out next, if one is vacant
/// (petgraph keeps vacated edge indices on a last-in, first-out list).
pub uninterp spec fn graph_free_edge(g: StableGraph<UsirNode, UsirEdge, Directed, u32>) -> Option<u32>;

/// `edges` without the edges that touch node `a`.
pub open spec fn edges_without(edges: Map<u32, (u32, u32, UsirEdge)>, a: u32) -> Map<u32, (u32, u32, UsirEdge)> {
    Map::new(
        |e: u32| edges.contains_key(e) && edges[e].0 != a && edges[e].1 != a,
        |e: u32| edges[e],
    )
}

/// Edge `e` of `edges` leads from `a` to `b` when followed in direction `dir`.
pub open spec fn links(edges: Map<u32, (u32, u32, UsirEdge)>, e: u32, a: u32, b: u32, dir: Direction) -> bool {
    &&& edges.contains_key(e)
    &&& match dir {
        Direction::Forward => edges[e].0 == a && edges[e].1 == b,
        Direction::Reverse => edges[e].1 == a && edges[e].0 == b,
    }
}

/// Some edge leads from `a` to `b` in direction `dir`.
pub open spec fn adjacent(edges: Map<u32, (u32, u32, UsirEdge)>, a: u32, b: u32, dir: Direction) -> bool {
    exists|e: u32| #[trigger] links(edges, e, a, b, dir)
}

/// `StableGraph::new`: a graph with no nodes, no edges and no vacant slot.
#[verifier::external_body]
pub(crate) fn graph_new() -> (g: Graph)
    ensures
        graph_nodes(g).dom() == Set::<u32>::empty(),
        graph_edges(g).dom() == Set::<u32>::empty(),
        graph_free_edge(g) is None,
{
    StableGraph::new()
}

/// `StableGraph::add_node`: the weight is stored under an index that was not
/// occupied. petgraph panics only when every index below `u32::MAX` is in
/// use, which the bound on the node count rules out.
#[verifier::external_body]
pub(crate) fn graph_add_node(g: &mut Graph, w: UsirNode) -> (r: u32)
    requires
        graph_nodes(*old(g)).dom().finite(),
        graph_nodes(*old(g)).len() < 0xFFFF_FFFF,
    ensures
        r < 0xFFFF_FFFF,
        !graph_nodes(*old(g)).contains_key(r),
        graph_nodes(*final(g)) == graph_nodes(*old(g)).insert(r, w),
        graph_edges(*final(g)) == graph_edges(*old(g)),
        graph_free_edge(*final(g)) == graph_free_edge(*old(g)),
{
    g.add_node(w).index() as u32
}

/// `StableGraph::add_edge`: an edge from `a` to `b` is stored under the
/// vacant index at the head of the free list, or under a fresh one when
/// none is vacant. petgraph panics when `a` or `b` is not a node, or when
/// no index is vacant and every index below `u32::MAX` is in use;
/// `requires` rules both out.
#[verifier::external_body]
pub(crate) fn graph_add_edge(g: &mut Graph, a: u32, b: u32, w: UsirEdge) -> (r: u32)
    requires
        graph_nodes(*old(g)).contains_key(a),
        graph_nodes(*old(g)).contains_key(b),
        graph_edges(*old(g)).dom().finite(),
        graph_edges(*old(g)).len() < 0xFFFF_FFFF || graph_free_edge(*old(g)) is Some,
    ensures
        r < 0xFFFF_FFFF,
        !graph_edges(*old(g)).contains_key(r),
        graph_free_edge(*old(g)) is Some ==> r == graph_free_edge(*old(g))->0,
        graph_edges(*final(g)) == graph_edges(*old(g)).insert(r, (a, b, w)),
        graph_nodes(*final(g)) == graph_nodes(*old(g)),
{
    g.add_edge(NodeIndex::new(a as usize), NodeIndex::new(b as usize), w).index() as u32
}

/// `StableGraph::remove_edge`: removes edge `e` if it is there, hands back
/// its weight, and puts `e` at the head of the free list.
#[verifier::external_body]
pub(crate) fn graph_remove_edge(g: &mut Graph, e: u32) -> (r: Option<UsirEdge>)
    ensures
        graph_edges(*old(g)).contains_key(e) ==> {
            &&& r == Some(graph_edges(*old(g))[e].2)
            &&& graph_edges(*final(g)) == graph_edges(*old(g)).remove(e)
            &&& graph_free_edge(*final(g)) == Some(e)
        },
        !graph_edges(*old(g)).contains_key(e) ==> {
            &&& r is None
            &&& graph_edges(*final(g)) == graph_edges(*old(g))
            &&& graph_free_edge(*final(g)) == graph_free_edge(*old(g))
        },
        graph_nodes(*final(g)) == graph_nodes(*old(g)),
{
    g.remove_edge(EdgeIndex::new(e as usize))
}

/// `StableGraph::remove_node`: removes node `a` and every edge that touches
/// it, and hands back its weight; a graph without `a` stays as it is.
#[verifier::external_body]
pub(crate) fn graph_remove_node(g: &mut Graph, a: u32) -> (r: Option<UsirNode>)
    ensures
        graph_nodes(*old(g)).contains_key(a) ==> {
            &&& r == Some(graph_nodes(*old(g))[a])
            &&& graph_nodes(*final(g)) == graph_nodes(*old(g)).remove(a)
            &&& graph_edges(*final(g)) == edges_without(graph_edges(*old(g)), a)
        },
        !graph_nodes(*old(g)).contains_key(a) ==> {
            &&& r is None
            &&& *final(g) == *old(g)
        },
{
    g.remove_node(NodeIndex::new(a as usize))
}

/// `StableGraph::node_weight`: the weight of node `a`, if `a` is a node.
#[verifier::external_body]
pub(crate) fn graph_node_weight(g: &Graph, a: u32) -> (r: Option<&UsirNode>)
    ensures
        match r {
            Some(w) => graph_nodes(*g).contains_key(a) && *w == graph_nodes(*g)[a],
            None => !graph_nodes(*g).contains_key(a),
        },
{
    g.node_weight(NodeIndex::new(a as usize))
}

/// `StableGraph::edge_endpoints`: the source and target of edge `e`.
#[verifier::external_body]
pub(crate) fn graph_edge_endpoints(g: &Graph, e: u32) -> (r: Option<(u32, u32)>)
    ensures
        match r {
            Some(p) => graph_edges(*g).contains_key(e) && p.0 == graph_edges(*g)[e].0
                && p.1 == graph_edges(*g)[e].1,
            None => !graph_edges(*g).contains_key(e),
        },
{
    g.edge_endpoints(EdgeIndex::new(e as usize)).map(|(a, b)| (a.index() as u32, b.index() as u32))
}

/// `StableGraph::edge_weight`: the weight of edge `e`.
#[verifier::external_body]
pub(crate) fn graph_edge_weight(g: &Graph, e: u32) -> (r: Option<&UsirEdge>)
    ensures
        match r {
            Some(w) => graph_edges(*g).contains_key(e) && *w == graph_edges(*g)[e].2,
            None => !graph_edges(*g).contains_key(e),
        },
{
    g.edge_weight(EdgeIndex::new(e as usize))
}

/// `StableGraph::edge_indices`: the occupied edge indices in increasing
/// order.
#[verifier::external_body]
pub(crate) fn graph_edge_indices(g: &Graph) -> (r: Vec<u32>)
    ensures
        forall|i: int, j: int| 0 <= i < j < r@.len() ==> r@[i] < r@[j],
        forall|e: u32| graph_edges(*g).contains_key(e) <==> r@.contains(e),
{
    g.edge_indices().map(|e| e.index() as u32).collect()
}

/// `StableGraph::node_count`.
#[verifier::external_body]
pub(crate) fn graph_node_count(g: &Graph) -> (r: usize)
    ensures
        r == graph_nodes(*g).len(),
{
    g.node_count()
}

/// `StableGraph::edge_count`.
#[verifier::external_body]
pub(crate) fn graph_edge_count(g: &Graph) -> (r: usize)
    ensures
        r == graph_edges(*g).len(),
{
    g.edge_count()
}

/// `StableGraph::neighbors_directed`: one entry for each edge that leads
/// away from `a` in direction `dir`, giving the node at its other end.
/// The order is that of petgraph's adjacency lists.
#[verifier::external_body]
pub(crate) fn graph_neighbors(g: &Graph, a: u32, dir: Direction) -> (r: Vec<u32>)
    ensures
        forall|i: int| 0 <= i < r@.len() ==> adjacent(graph_edges(*g), a, #[trigger] r@[i], dir),
        forall|b: u32| adjacent(graph_edges(*g), a, b, dir) ==> r@.contains(b),
{
    let d = match dir {
        Direction::Forward => petgraph::Direction::Outgoing,
        Direction::Reverse => petgraph::Direction::Incoming,
    };
    g.neighbors_directed(NodeIndex::new(a as usize), d).map(|n| n.index() as u32).collect()
}

/// `StableGraph::edges_directed`: each edge that leads away from `a` in
/// direction `dir`, once, as its source, its target and its index.
#[verifier::external_body]
pub(crate) fn graph_edges_directed(g: &Graph, a: u32, dir: Direction) -> (r: Vec<(u32, u32, u32)>)
    ensures
        forall|i: int| 0 <= i < r@.len() ==> {
            let (s, t, e) = #[trigger] r@[i];
            &&& graph_edges(*g).contains_key(e)
            &&& graph_edges(*g)[e].0 == s
            &&& graph_edges(*g)[e].1 == t
            &&& match dir {
                Direction::Forward => s == a,
                Direction::Reverse => t == a,
            }
        },
        forall|i: int, j: int| 0 <= i < j < r@.len() ==> r@[i].2 != r@[j].2,
        forall|e: u32| graph_edges(*g).contains_key(e) && match dir {
            Direction::Forward => graph_edges(*g)[e].0 == a,
            Direction::Reverse => graph_edges(*g)[e].1 == a,
        } ==> exists|i: int| 0 <= i < r@.len() && #[trigger] r@[i].2 == e,
{
    let d = match dir {
        Direction::Forward => petgraph::Direction::Outgoing,
        Direction::Reverse => petgraph::Direction::Incoming,
    };
    g.edges_directed(NodeIndex::new(a as usize), d)
        .map(|e| (e.source().index() as u32, e.target().index() as u32, e.id().index() as u32))
        .collect()
}

} // verus!
