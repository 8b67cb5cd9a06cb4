//! Impact analysis: the blast radius of a change, found by a breadth-first
//! walk from the changed node along the graph's edges (forward: what it
//! affects; reverse: what affects it).

use vstd::prelude::*;
use std::collections::HashSet;
use crate::edge::UsirEdge;
use crate::graph::SemanticGraph;
use crate::ir::{NodeId, Ratio};
use crate::node::UsirNode;
use crate::store::{adjacent, graph_neighbors, graph_node_weight, links, Direction};

verus! {

broadcast use vstd::std_specs::hash::group_hash_axioms;

/// The nodes that one edge leads to from a node of `from`.
pub open spec fn step_from(edges: Map<u32, (u32, u32, UsirEdge)>, from: Set<u32>, dir: Direction) -> Set<u32> {
    Set::new(|y: u32| exists|x: u32| #[trigger] from.contains(x) && adjacent(edges, x, y, dir))
}

/// The nodes within `k` steps of `s`.
pub open spec fn reach(edges: Map<u32, (u32, u32, UsirEdge)>, s: u32, k: nat, dir: Direction) -> Set<u32>
    decreases k,
{
    if k == 0 {
        set![s]
    } else {
        let prev = reach(edges, s, (k - 1) as nat, dir);
        prev.union(step_from(edges, prev, dir))
    }
}

/// The nodes exactly `k` steps from `s` at the least.
pub open spec fn level(edges: Map<u32, (u32, u32, UsirEdge)>, s: u32, k: nat, dir: Direction) -> Set<u32> {
    if k == 0 {
        set![s]
    } else {
        reach(edges, s, k, dir).difference(reach(edges, s, (k - 1) as nat, dir))
    }
}

/// `w` is a walk from `s` to `x` along edges in direction `dir`, and
/// `path` names the nodes on it by id.
pub open spec fn walk_to(
    nodes: Map<u32, UsirNode>,
    edges: Map<u32, (u32, u32, UsirEdge)>,
    s: u32,
    dir: Direction,
    w: Seq<u32>,
    x: u32,
    path: Seq<NodeId>,
) -> bool {
    &&& w.len() >= 1
    &&& w[0] == s
    &&& w.last() == x
    &&& forall|k: int| 0 <= k < w.len() - 1 ==> adjacent(edges, #[trigger] w[k], w[k + 1], dir)
    &&& path.len() == w.len()
    &&& forall|k: int| 0 <= k < w.len() ==> path[k] == nodes[#[trigger] w[k]].id_spec()
}

/// A node affected by a change.
pub struct ImpactedNode {
    pub node_id: NodeId,
    /// Shortest distance from the changed node.
    pub distance: usize,
    /// Path from the changed node to this node.
    pub path: Vec<NodeId>,
    /// Confidence that this node is actually affected: `1 / distance`.
    pub confidence: Ratio,
}

/// Result of an impact analysis.
pub struct ImpactResult {
    /// Directly affected nodes (distance = 1).
    pub direct: Vec<ImpactedNode>,
    /// Transitively affected nodes (distance > 1).
    pub transitive: Vec<ImpactedNode>,
    /// Total unique nodes affected.
    pub total_affected: usize,
}

/// Entry `en` stands for graph node `x`, at its least distance from `s`,
/// reached along walk `w`.
pub open spec fn entry_ok(
    nodes: Map<u32, UsirNode>,
    edges: Map<u32, (u32, u32, UsirEdge)>,
    s: u32,
    dir: Direction,
    en: ImpactedNode,
    x: u32,
    w: Seq<u32>,
) -> bool {
    let d = en.distance;
    &&& d >= 1
    &&& level(edges, s, d as nat, dir).contains(x)
    &&& en.node_id == nodes[x].id_spec()
    &&& en.confidence == Ratio { num: 1, den: d as u64 }
    &&& w.len() == d + 1
    &&& walk_to(nodes, edges, s, dir, w, x, en.path@)
}

/// The entries `es` stand for the distinct graph nodes `xs` along walks
/// `ws`, in order of distance.
pub open spec fn entries_ok(
    nodes: Map<u32, UsirNode>,
    edges: Map<u32, (u32, u32, UsirEdge)>,
    s: u32,
    dir: Direction,
    es: Seq<ImpactedNode>,
    xs: Seq<u32>,
    ws: Seq<Seq<u32>>,
) -> bool {
    &&& xs.len() == es.len()
    &&& ws.len() == es.len()
    &&& forall|i: int| 0 <= i < es.len() ==> entry_ok(nodes, edges, s, dir, #[trigger] es[i], xs[i], ws[i])
    &&& forall|i: int, j: int| 0 <= i < j < es.len() ==> es[i].distance <= es[j].distance
    &&& forall|i: int, j: int| 0 <= i < j < xs.len() ==> xs[i] != xs[j]
}

/// `r` is the impact of a change to graph node `s`, up to `depth` steps:
/// one entry for each other node within `depth` steps, with its least
/// distance and a shortest path to it; the nodes one step away in
/// `direct`, the others in `transitive`, each list by distance.
pub open spec fn impact_of(
    nodes: Map<u32, UsirNode>,
    edges: Map<u32, (u32, u32, UsirEdge)>,
    s: u32,
    depth: nat,
    dir: Direction,
    r: ImpactResult,
    xs: Seq<u32>,
    ws: Seq<Seq<u32>>,
) -> bool {
    let es = r.direct@ + r.transitive@;
    &&& entries_ok(nodes, edges, s, dir, es, xs, ws)
    &&& forall|y: u32| xs.contains(y) <==> (reach(edges, s, depth, dir).contains(y) && y != s)
    &&& forall|i: int| 0 <= i < r.direct@.len() ==> (#[trigger] r.direct@[i]).distance == 1
    &&& forall|i: int| 0 <= i < r.transitive@.len() ==> (#[trigger] r.transitive@[i]).distance > 1
    &&& r.total_affected == es.len()
}

/// Fewer steps reach no more nodes.
pub proof fn lemma_reach_mono(edges: Map<u32, (u32, u32, UsirEdge)>, s: u32, a: nat, b: nat, dir: Direction)
    requires
        a <= b,
    ensures
        reach(edges, s, a, dir).subset_of(reach(edges, s, b, dir)),
    decreases b - a,
{
    if a < b {
        lemma_reach_mono(edges, s, a, (b - 1) as nat, dir);
    }
}

/// Once a step adds no node, no later step does.
pub proof fn lemma_reach_stable(edges: Map<u32, (u32, u32, UsirEdge)>, s: u32, k: nat, m: nat, dir: Direction)
    requires
        k <= m,
        reach(edges, s, k + 1, dir) == reach(edges, s, k, dir),
    ensures
        reach(edges, s, m, dir) == reach(edges, s, k, dir),
    decreases m - k,
{
    if k < m {
        lemma_reach_stable(edges, s, k, (m - 1) as nat, dir);
        if m > k + 1 {
            assert(reach(edges, s, m, dir) =~= reach(edges, s, (m - 1) as nat, dir));
        }
    }
}

/// The nodes within `k` steps lie in the graph, when `s` does and every
/// edge joins two nodes.
pub proof fn lemma_reach_in_graph(
    nodes: Map<u32, UsirNode>,
    edges: Map<u32, (u32, u32, UsirEdge)>,
    s: u32,
    k: nat,
    dir: Direction,
)
    requires
        nodes.contains_key(s),
        forall|e: u32| #[trigger] edges.contains_key(e) ==> nodes.contains_key(edges[e].0)
            && nodes.contains_key(edges[e].1),
    ensures
        forall|y: u32| #[trigger] reach(edges, s, k, dir).contains(y) ==> nodes.contains_key(y),
    decreases k,
{
    if k > 0 {
        lemma_reach_in_graph(nodes, edges, s, (k - 1) as nat, dir);
        assert forall|y: u32| #[trigger] reach(edges, s, k, dir).contains(y) implies nodes.contains_key(y) by {
            let prev = reach(edges, s, (k - 1) as nat, dir);
            if !prev.contains(y) {
                let x = choose|x: u32| #[trigger] prev.contains(x) && adjacent(edges, x, y, dir);
                let e = choose|e: u32| #[trigger] links(edges, e, x, y, dir);
                assert(edges.contains_key(e));
            }
        }
    }
}

/// A node first reached at step `d + 1` is one step from a node first
/// reached at step `d`.
pub proof fn lemma_level_pred(edges: Map<u32, (u32, u32, UsirEdge)>, s: u32, d: nat, y: u32, dir: Direction)
    requires
        level(edges, s, d + 1, dir).contains(y),
    ensures
        exists|x: u32| #[trigger] level(edges, s, d, dir).contains(x) && adjacent(edges, x, y, dir),
{
    let prev = reach(edges, s, d, dir);
    assert(step_from(edges, prev, dir).contains(y));
    let x = choose|x: u32| #[trigger] prev.contains(x) && adjacent(edges, x, y, dir);
    if d > 0 {
        let pp = reach(edges, s, (d - 1) as nat, dir);
        if pp.contains(x) {
            assert(step_from(edges, pp, dir).contains(y));
            assert(prev.contains(y));
        }
        assert(level(edges, s, d, dir).contains(x));
    } else {
        assert(level(edges, s, d, dir).contains(x));
    }
}


/// A walk extended by one more step is a walk.
pub proof fn lemma_walk_push(
    nodes: Map<u32, UsirNode>,
    edges: Map<u32, (u32, u32, UsirEdge)>,
    s: u32,
    dir: Direction,
    w: Seq<u32>,
    x: u32,
    path: Seq<NodeId>,
    y: u32,
)
    requires
        walk_to(nodes, edges, s, dir, w, x, path),
        adjacent(edges, x, y, dir),
    ensures
        walk_to(nodes, edges, s, dir, w.push(y), y, path.push(nodes[y].id_spec())),
{
    let w2 = w.push(y);
    let p2 = path.push(nodes[y].id_spec());
    assert forall|k: int| 0 <= k < w2.len() - 1 implies adjacent(edges, #[trigger] w2[k], w2[k + 1], dir) by {
        if k < w.len() - 1 {
            assert(w2[k] == w[k] && w2[k + 1] == w[k + 1]);
        } else {
            assert(w2[k] == x && w2[k + 1] == y);
        }
    }
    assert forall|k: int| 0 <= k < w2.len() implies p2[k] == nodes[#[trigger] w2[k]].id_spec() by {
        if k < w.len() {
            assert(w2[k] == w[k]);
        }
    }
}

/// `y` is one step from `s`, and not `s` itself.
pub open spec fn one_step(edges: Map<u32, (u32, u32, UsirEdge)>, s: u32, y: u32, dir: Direction) -> bool {
    reach(edges, s, 1, dir).contains(y) && y != s
}

/// Some node one step from `s` has id `nid`.
pub open spec fn id_one_step(nodes: Map<u32, UsirNode>, edges: Map<u32, (u32, u32, UsirEdge)>, s: u32, dir: Direction, nid: NodeId) -> bool {
    exists|y: u32| one_step(edges, s, y, dir) && nodes[y].id_spec() == nid
}

/// Some entry has id `nid`.
pub open spec fn listed_id(es: Seq<ImpactedNode>, nid: NodeId) -> bool {
    exists|i: int| 0 <= i < es.len() && es[i].node_id == nid
}

impl SemanticGraph {
    /// An impact of one step reports exactly the nodes one step away, all of
    /// them as direct.
    pub proof fn lemma_impact_one_step(&self, start: NodeId, dir: Direction, r: ImpactResult)
        requires
            self.wf(),
            self.impact_spec(start, 1, dir, r),
            self.indices().contains_key(start.0),
        ensures
            r.transitive@.len() == 0,
            r.total_affected == r.direct@.len(),
            r.total_affected == Set::new(|y: u32| one_step(self.edges(), self.indices()[start.0], y, dir)).len(),
            forall|i: int| 0 <= i < r.direct@.len() ==> id_one_step(self.nodes(), self.edges(), self.indices()[start.0], dir, (#[trigger] r.direct@[i]).node_id),
            forall|y: u32| one_step(self.edges(), self.indices()[start.0], y, dir) ==> listed_id(r.direct@, #[trigger] self.nodes()[y].id_spec()),
    {
        let s = self.indices()[start.0];
        let (xs, ws) = choose|xs: Seq<u32>, ws: Seq<Seq<u32>>| #[trigger] impact_of(self.nodes(), self.edges(), s, 1, dir, r, xs, ws);
        let es = r.direct@ + r.transitive@;
        assert(xs.no_duplicates());
        xs.unique_seq_to_set();
        assert(xs.to_set() =~= Set::new(|y: u32| one_step(self.edges(), s, y, dir)));
        if r.transitive@.len() > 0 {
            let j = 0int;
            let k = r.direct@.len() + j;
            assert(es[k] == r.transitive@[j]);
            assert(entry_ok(self.nodes(), self.edges(), s, dir, es[k], xs[k], ws[k]));
            let d = es[k].distance;
            assert(d > 1);
            assert(xs.contains(xs[k]));
            assert(reach(self.edges(), s, 1, dir).contains(xs[k]));
            lemma_reach_mono(self.edges(), s, 1, (d - 1) as nat, dir);
            assert(level(self.edges(), s, d as nat, dir).contains(xs[k]));
            assert(false);
        }
        assert forall|i: int| 0 <= i < r.direct@.len() implies id_one_step(self.nodes(), self.edges(), s, dir, (#[trigger] r.direct@[i]).node_id) by {
            assert(es[i] == r.direct@[i]);
            assert(entry_ok(self.nodes(), self.edges(), s, dir, es[i], xs[i], ws[i]));
            assert(xs.contains(xs[i]));
            assert(one_step(self.edges(), s, xs[i], dir));
        }
        assert forall|y: u32| one_step(self.edges(), s, y, dir) implies listed_id(r.direct@, #[trigger] self.nodes()[y].id_spec()) by {
            assert(xs.contains(y));
            let k = choose|k: int| 0 <= k < xs.len() && xs[k] == y;
            if k >= r.direct@.len() {
                assert(r.transitive@.len() > 0) by {
                    assert(es.len() == r.direct@.len() + r.transitive@.len());
                }
            }
            assert(es[k] == r.direct@[k]);
            assert(entry_ok(self.nodes(), self.edges(), s, dir, es[k], xs[k], ws[k]));
        }
    }
}

impl SemanticGraph {
    /// An impact counts the other nodes within its steps, and the first
    /// direct entry, if any, is a node one step away.
    pub proof fn lemma_impact_count(&self, start: NodeId, depth: nat, dir: Direction, r: ImpactResult)
        requires
            self.wf(),
            self.impact_spec(start, depth, dir, r),
            self.indices().contains_key(start.0),
        ensures
            r.total_affected == reach(self.edges(), self.indices()[start.0], depth, dir).remove(self.indices()[start.0]).len(),
            r.direct@.len() > 0 ==> id_one_step(self.nodes(), self.edges(), self.indices()[start.0], dir, r.direct@[0].node_id),
    {
        let s = self.indices()[start.0];
        let (xs, ws) = choose|xs: Seq<u32>, ws: Seq<Seq<u32>>| #[trigger] impact_of(self.nodes(), self.edges(), s, depth, dir, r, xs, ws);
        let es = r.direct@ + r.transitive@;
        assert(xs.no_duplicates());
        xs.unique_seq_to_set();
        assert(xs.to_set() =~= reach(self.edges(), s, depth, dir).remove(s));
        if r.direct@.len() > 0 {
            assert(es[0] == r.direct@[0]);
            assert(entry_ok(self.nodes(), self.edges(), s, dir, es[0], xs[0], ws[0]));
            assert(level(self.edges(), s, 1, dir).contains(xs[0]));
            assert(one_step(self.edges(), s, xs[0], dir));
        }
    }
}

/// The context of a walk over graph `g` from node `s` (the node of id
/// `start`).
pub open spec fn walk_ctx(
    g: crate::store::Graph,
    nodes: Map<u32, UsirNode>,
    edges: Map<u32, (u32, u32, UsirEdge)>,
    s: u32,
    start: NodeId,
) -> bool {
    &&& crate::store::graph_nodes(g) == nodes
    &&& crate::store::graph_edges(g) == edges
    &&& nodes.contains_key(s)
    &&& nodes[s].id_spec() == start
    &&& forall|e: u32| #[trigger] edges.contains_key(e) ==> nodes.contains_key(edges[e].0)
        && nodes.contains_key(edges[e].1)
}

/// The frontier `fr` holds each node first reached at step `d` once, with
/// a walk to it in `fw`.
pub open spec fn frontier_ok(
    nodes: Map<u32, UsirNode>,
    edges: Map<u32, (u32, u32, UsirEdge)>,
    s: u32,
    dir: Direction,
    d: nat,
    fr: Seq<(u32, Vec<NodeId>)>,
    fw: Seq<Seq<u32>>,
) -> bool {
    &&& fw.len() == fr.len()
    &&& forall|k: int| 0 <= k < fr.len() ==> {
        &&& level(edges, s, d, dir).contains((#[trigger] fr[k]).0)
        &&& fw[k].len() == d + 1
        &&& walk_to(nodes, edges, s, dir, fw[k], fr[k].0, fr[k].1@)
    }
    &&& forall|k1: int, k2: int| 0 <= k1 < k2 < fr.len() ==> fr[k1].0 != fr[k2].0
}

impl SemanticGraph {
    /// `r` is the impact of a change to the node of id `start`, up to
    /// `depth` steps in direction `dir`; empty when `start` is not indexed.
    pub open spec fn impact_spec(&self, start: NodeId, depth: nat, dir: Direction, r: ImpactResult) -> bool {
        if self.indices().contains_key(start.0) {
            exists|xs: Seq<u32>, ws: Seq<Seq<u32>>|
                #[trigger] impact_of(self.nodes(), self.edges(), self.indices()[start.0], depth, dir, r, xs, ws)
        } else {
            r.direct@.len() == 0 && r.transitive@.len() == 0 && r.total_affected == 0
        }
    }

    /// Forward impact: what does this node affect? Breadth-first along
    /// outgoing edges.
    pub fn impact_forward(&self, node_id: NodeId, max_depth: usize) -> (r: ImpactResult)
        requires
            self.wf(),
        ensures
            self.impact_spec(node_id, max_depth as nat, Direction::Forward, r),
    {
        self.bfs_impact(node_id, max_depth, Direction::Forward)
    }

    /// Reverse impact: what affects this node? Breadth-first along
    /// incoming edges.
    pub fn impact_reverse(&self, node_id: NodeId, max_depth: usize) -> (r: ImpactResult)
        requires
            self.wf(),
        ensures
            self.impact_spec(node_id, max_depth as nat, Direction::Reverse, r),
    {
        self.bfs_impact(node_id, max_depth, Direction::Reverse)
    }

    /// Breadth-first walk from `start`, level by level, up to `max_depth`
    /// steps; each node is reported once, at the step it is first reached.
    #[verifier::spinoff_prover]
    fn bfs_impact(&self, start: NodeId, max_depth: usize, dir: Direction) -> (r: ImpactResult)
        requires
            self.wf(),
        ensures
            self.impact_spec(start, max_depth as nat, dir, r),
    {
        let s = match self.get_idx(start) {
            Some(i) => i,
            None => {
                return ImpactResult { direct: Vec::new(), transitive: Vec::new(), total_affected: 0 };
            },
        };
        let g = self.graph_ref();
        let ghost nodes = self.nodes();
        let ghost edges = self.edges();
        proof {
            self.lemma_wf();
        }
        let mut visited: HashSet<u32> = HashSet::new();
        visited.insert(s);
        let mut start_path: Vec<NodeId> = Vec::new();
        start_path.push(start);
        let mut frontier: Vec<(u32, Vec<NodeId>)> = Vec::new();
        frontier.push((s, start_path));
        let ghost mut fw: Seq<Seq<u32>> = seq![seq![s]];
        let mut direct: Vec<ImpactedNode> = Vec::new();
        let mut transitive: Vec<ImpactedNode> = Vec::new();
        let ghost mut xs: Seq<u32> = Seq::empty();
        let ghost mut ws: Seq<Seq<u32>> = Seq::empty();
        let mut depth: usize = 0;
        proof {
            assert(visited@ =~= reach(edges, s, 0, dir));
            assert(walk_to(nodes, edges, s, dir, fw[0], s, frontier@[0].1@));
            assert(level(edges, s, 0, dir).contains(s));
            assert forall|y: u32| xs.contains(y) <==> (reach(edges, s, 0, dir).contains(y) && y != s) by {}
        }
        while depth < max_depth && frontier.len() > 0
            invariant
                walk_ctx(*g, nodes, edges, s, start),
                depth <= max_depth,
                visited@ == reach(edges, s, depth as nat, dir),
                frontier_ok(nodes, edges, s, dir, depth as nat, frontier@, fw),
                forall|y: u32| #[trigger] level(edges, s, depth as nat, dir).contains(y) ==> exists|k: int|
                    0 <= k < frontier@.len() && (#[trigger] frontier@[k]).0 == y,
                entries_ok(nodes, edges, s, dir, direct@ + transitive@, xs, ws),
                forall|y: u32| xs.contains(y) <==> (reach(edges, s, depth as nat, dir).contains(y) && y != s),
                forall|i: int| 0 <= i < direct@.len() ==> (#[trigger] direct@[i]).distance == 1,
                forall|i: int| 0 <= i < transitive@.len() ==> (#[trigger] transitive@[i]).distance > 1,
                forall|i: int| 0 <= i < (direct@ + transitive@).len() ==> (#[trigger] (direct@ + transitive@)[i]).distance
                    <= depth,
            decreases max_depth - depth,
        {
            let mut next: Vec<(u32, Vec<NodeId>)> = Vec::new();
            let ghost mut nw: Seq<Seq<u32>> = Seq::empty();
            let ghost d = depth as nat;
            proof {
                lemma_reach_in_graph(nodes, edges, s, d + 1, dir);
                lemma_reach_mono(edges, s, d, d + 1, dir);
                assert(visited@ =~= reach(edges, s, d, dir).union(Set::new(|y: u32| exists|k: int| 0 <= k < next@.len() && (#[trigger] next@[k]).0 == y)));
            }
            let mut i: usize = 0;
            while i < frontier.len()
                invariant
                    walk_ctx(*g, nodes, edges, s, start),
                    d == depth as nat,
                    depth < max_depth,
                    forall|y: u32| #[trigger] reach(edges, s, d + 1, dir).contains(y) ==> nodes.contains_key(y),
                    reach(edges, s, d, dir).subset_of(reach(edges, s, d + 1, dir)),
                    i <= frontier@.len(),
                    frontier_ok(nodes, edges, s, dir, d, frontier@, fw),
                    frontier_ok(nodes, edges, s, dir, d + 1, next@, nw),
                    visited@ == reach(edges, s, d, dir).union(
                        Set::new(|y: u32| exists|k: int| 0 <= k < next@.len() && (#[trigger] next@[k]).0 == y),
                    ),
                    forall|k: int, y: u32| 0 <= k < i && adjacent(edges, (#[trigger] frontier@[k]).0, y, dir)
                        ==> #[trigger] visited@.contains(y),
                    entries_ok(nodes, edges, s, dir, direct@ + transitive@, xs, ws),
                    forall|y: u32| xs.contains(y) <==> ((reach(edges, s, d, dir).contains(y) && y != s) || exists|k: int|
                        0 <= k < next@.len() && (#[trigger] next@[k]).0 == y),
                    forall|i2: int| 0 <= i2 < direct@.len() ==> (#[trigger] direct@[i2]).distance == 1,
                    forall|i2: int| 0 <= i2 < transitive@.len() ==> (#[trigger] transitive@[i2]).distance > 1,
                    forall|i2: int| 0 <= i2 < (direct@ + transitive@).len() ==> (#[trigger] (direct@ + transitive@)[i2]).distance
                        <= depth + 1,
                decreases frontier@.len() - i,
            {
                let x = frontier[i].0;
                let nbrs = graph_neighbors(g, x, dir);
                let mut j: usize = 0;
                while j < nbrs.len()
                    invariant
                        walk_ctx(*g, nodes, edges, s, start),
                        d == depth as nat,
                        depth < max_depth,
                        forall|y: u32| #[trigger] reach(edges, s, d + 1, dir).contains(y) ==> nodes.contains_key(y),
                        reach(edges, s, d, dir).subset_of(reach(edges, s, d + 1, dir)),
                        i < frontier@.len(),
                        x == frontier@[i as int].0,
                        j <= nbrs@.len(),
                        forall|jj: int| 0 <= jj < nbrs@.len() ==> adjacent(edges, x, #[trigger] nbrs@[jj], dir),
                        frontier_ok(nodes, edges, s, dir, d, frontier@, fw),
                        frontier_ok(nodes, edges, s, dir, d + 1, next@, nw),
                        visited@ == reach(edges, s, d, dir).union(
                            Set::new(|y: u32| exists|k: int| 0 <= k < next@.len() && (#[trigger] next@[k]).0 == y),
                        ),
                        forall|k: int, y: u32| 0 <= k < i && adjacent(edges, (#[trigger] frontier@[k]).0, y, dir)
                            ==> #[trigger] visited@.contains(y),
                        forall|jj: int| 0 <= jj < j ==> visited@.contains(#[trigger] nbrs@[jj]),
                        entries_ok(nodes, edges, s, dir, direct@ + transitive@, xs, ws),
                        forall|y: u32| xs.contains(y) <==> ((reach(edges, s, d, dir).contains(y) && y != s) || exists|k: int|
                            0 <= k < next@.len() && (#[trigger] next@[k]).0 == y),
                        forall|i2: int| 0 <= i2 < direct@.len() ==> (#[trigger] direct@[i2]).distance == 1,
                        forall|i2: int| 0 <= i2 < transitive@.len() ==> (#[trigger] transitive@[i2]).distance > 1,
                        forall|i2: int| 0 <= i2 < (direct@ + transitive@).len() ==> (#[trigger] (direct@ + transitive@)[i2]).distance
                            <= depth + 1,
                    decreases nbrs@.len() - j,
                {
                    let y = nbrs[j];
                    if !visited.contains(&y) {
                        let ghost vis0 = visited@;
                        visited.insert(y);
                        proof {
                            assert(adjacent(edges, x, y, dir));
                            assert(reach(edges, s, d, dir).contains(x));
                            assert(step_from(edges, reach(edges, s, d, dir), dir).contains(y));
                            assert(reach(edges, s, d + 1, dir).contains(y));
                        }
                        match graph_node_weight(g, y) {
                            Some(w) => {
                                let nid = w.id();
                                let mut new_path = copy_ids(&frontier[i].1);
                                new_path.push(nid);
                                let nd = depth + 1;
                                let ghost wy = fw[i as int].push(y);
                                proof {
                                    lemma_walk_push(nodes, edges, s, dir, fw[i as int], x, frontier@[i as int].1@, y);
                                }
                                let entry = ImpactedNode {
                                    node_id: nid,
                                    distance: nd,
                                    path: copy_ids(&new_path),
                                    confidence: Ratio { num: 1, den: nd as u64 },
                                };
                                let ghost es0 = direct@ + transitive@;
                                if nd == 1 {
                                    proof {
                                        assert(transitive@.len() == 0) by {
                                            if transitive@.len() > 0 {
                                                assert((direct@ + transitive@)[direct@.len() as int] == transitive@[0]);
                                            }
                                        }
                                    }
                                    direct.push(entry);
                                } else {
                                    transitive.push(entry);
                                }
                                let ghost nexts0 = next@;
                                next.push((y, new_path));
                                proof {
                                    let es = direct@ + transitive@;
                                    assert(es =~= es0.push(es[es.len() - 1]));
                                    let ghost xs0 = xs;
                                    assert(!xs0.contains(y)) by {
                                        if xs0.contains(y) {
                                            if !(reach(edges, s, d, dir).contains(y) && y != s) {
                                                let k = choose|k: int| 0 <= k < nexts0.len() && (#[trigger] nexts0[k]).0 == y;
                                            }
                                            assert(vis0.contains(y));
                                        }
                                    }
                                    xs = xs0.push(y);
                                    ws = ws.push(wy);
                                    nw = nw.push(wy);
                                    assert(level(edges, s, d + 1, dir).contains(y));
                                    assert(entry_ok(nodes, edges, s, dir, es[es.len() - 1], y, wy));
                                    assert forall|k: int| 0 <= k < es.len() implies entry_ok(nodes, edges, s, dir, #[trigger] es[k], xs[k], ws[k]) by {
                                        if k < es0.len() {
                                            assert(es[k] == es0[k]);
                                        }
                                    }
                                    assert forall|a: int, b: int| 0 <= a < b < xs.len() implies xs[a] != xs[b] by {
                                        if b == xs.len() - 1 {
                                            assert(xs[a] == xs0[a]);
                                            assert(xs0.contains(xs0[a]));
                                        } else {
                                            assert(xs[a] == xs0[a] && xs[b] == xs0[b]);
                                        }
                                    }
                                    assert forall|a: int, b: int| 0 <= a < b < es.len() implies es[a].distance <= es[b].distance by {
                                        if b < es0.len() {
                                            assert(es[a] == es0[a] && es[b] == es0[b]);
                                        } else {
                                            assert(es[a] == es0[a]);
                                        }
                                    }
                                    assert forall|k1: int, k2: int| 0 <= k1 < k2 < next@.len() implies next@[k1].0 != next@[k2].0 by {
                                        if k2 == next@.len() - 1 {
                                            assert(next@[k1] == nexts0[k1]);
                                        }
                                    }
                                    assert(nw.len() == next@.len());
                                    assert(next@[next@.len() - 1].1@ == frontier@[i as int].1@.push(nodes[y].id_spec()));
                                    assert forall|k: int| 0 <= k < next@.len() implies {
                                        &&& level(edges, s, d + 1, dir).contains((#[trigger] next@[k]).0)
                                        &&& nw[k].len() == d + 2
                                        &&& walk_to(nodes, edges, s, dir, nw[k], next@[k].0, next@[k].1@)
                                    } by {
                                        if k < nexts0.len() {
                                            assert(next@[k] == nexts0[k]);
                                        }
                                    }
                                    assert(frontier_ok(nodes, edges, s, dir, d + 1, next@, nw));
                                    assert(visited@ =~= reach(edges, s, d, dir).union(
                                        Set::new(|z: u32| exists|k: int| 0 <= k < next@.len() && (#[trigger] next@[k]).0 == z),
                                    )) by {
                                        assert forall|k: int| 0 <= k < nexts0.len() implies #[trigger] next@[k] == nexts0[k] by {}
                                        assert(next@[next@.len() - 1].0 == y);
                                        assert forall|z: u32| visited@.contains(z) implies reach(edges, s, d, dir).contains(z)
                                            || exists|k: int| 0 <= k < next@.len() && (#[trigger] next@[k]).0 == z by {
                                            if z != y && !reach(edges, s, d, dir).contains(z) {
                                                assert(vis0.contains(z));
                                                let k = choose|k: int| 0 <= k < nexts0.len() && (#[trigger] nexts0[k]).0 == z;
                                                assert(next@[k] == nexts0[k]);
                                            }
                                        }
                                        assert forall|z: u32| (exists|k: int| 0 <= k < next@.len() && (#[trigger] next@[k]).0 == z)
                                            implies visited@.contains(z) by {
                                            let k = choose|k: int| 0 <= k < next@.len() && (#[trigger] next@[k]).0 == z;
                                            if k < nexts0.len() {
                                                assert(next@[k] == nexts0[k]);
                                                assert(vis0.contains(z));
                                            }
                                        }
                                    }
                                    assert forall|z: u32| xs.contains(z) <==> ((reach(edges, s, d, dir).contains(z) && z != s) || exists|k: int|
                                        0 <= k < next@.len() && (#[trigger] next@[k]).0 == z) by {
                                        if xs.contains(z) && z != y {
                                            let a = choose|a: int| 0 <= a < xs.len() && xs[a] == z;
                                            assert(xs[a] == xs0[a]);
                                            assert(xs0.contains(z));
                                            if !(reach(edges, s, d, dir).contains(z) && z != s) {
                                                let k = choose|k: int| 0 <= k < nexts0.len() && (#[trigger] nexts0[k]).0 == z;
                                                assert(next@[k] == nexts0[k]);
                                            }
                                        }
                                        if z == y {
                                            assert(xs[xs.len() - 1] == y);
                                            assert(next@[next@.len() - 1].0 == y);
                                        }
                                        if exists|k: int| 0 <= k < next@.len() && (#[trigger] next@[k]).0 == z {
                                            let k = choose|k: int| 0 <= k < next@.len() && (#[trigger] next@[k]).0 == z;
                                            if k < nexts0.len() {
                                                assert(next@[k] == nexts0[k]);
                                                assert(xs0.contains(z));
                                                let a = choose|a: int| 0 <= a < xs0.len() && xs0[a] == z;
                                                assert(xs[a] == z);
                                            } else {
                                                assert(xs[xs.len() - 1] == z);
                                            }
                                        }
                                        if reach(edges, s, d, dir).contains(z) && z != s {
                                            assert(xs0.contains(z));
                                            let a = choose|a: int| 0 <= a < xs0.len() && xs0[a] == z;
                                            assert(xs[a] == z);
                                        }
                                    }
                                }
                            },
                            None => {
                                proof {
                                    assert(false);
                                }
                            },
                        }
                    }
                    j = j + 1;
                }
                proof {
                    assert forall|k: int, y: u32| 0 <= k < i + 1 && adjacent(edges, (#[trigger] frontier@[k]).0, y, dir)
                        implies #[trigger] visited@.contains(y) by {
                        if k == i {
                            assert(nbrs@.contains(y));
                        }
                    }
                }
                i = i + 1;
            }
            proof {
                let nset = Set::new(|y: u32| exists|k: int| 0 <= k < next@.len() && (#[trigger] next@[k]).0 == y);
                assert(nset =~= level(edges, s, d + 1, dir)) by {
                    assert forall|y: u32| level(edges, s, d + 1, dir).contains(y) implies nset.contains(y) by {
                        lemma_level_pred(edges, s, d, y, dir);
                        let x = choose|x: u32| #[trigger] level(edges, s, d, dir).contains(x) && adjacent(edges, x, y, dir);
                        let k = choose|k: int| 0 <= k < frontier@.len() && (#[trigger] frontier@[k]).0 == x;
                        assert(visited@.contains(y));
                    }
                }
                assert(visited@ =~= reach(edges, s, d + 1, dir));
                lemma_reach_mono(edges, s, 0, d, dir);
                assert(reach(edges, s, 0, dir).contains(s));
                assert forall|y: u32| xs.contains(y) <==> (reach(edges, s, d + 1, dir).contains(y) && y != s) by {
                    assert(reach(edges, s, d, dir).contains(s));
                }
            }
            frontier = next;
            proof {
                fw = nw;
            }
            depth = depth + 1;
        }
        proof {
            let md = max_depth as nat;
            if depth < max_depth {
                assert(frontier@.len() == 0);
                assert(depth > 0) by {
                    if depth == 0 {
                        assert(level(edges, s, 0, dir).contains(s));
                    }
                }
                let d1 = (depth - 1) as nat;
                assert(reach(edges, s, depth as nat, dir) =~= reach(edges, s, d1, dir)) by {
                    lemma_reach_mono(edges, s, d1, depth as nat, dir);
                    assert forall|y: u32| reach(edges, s, depth as nat, dir).contains(y) implies reach(edges, s, d1, dir).contains(y) by {
                        if !reach(edges, s, d1, dir).contains(y) {
                            assert(level(edges, s, depth as nat, dir).contains(y));
                        }
                    }
                }
                lemma_reach_stable(edges, s, d1, md, dir);
            }
        }
        proof {
            assert((direct@ + transitive@).len() == direct@.len() + transitive@.len());
            assert(xs.no_duplicates()) by {
                assert forall|a: int, b: int| 0 <= a < xs.len() && 0 <= b < xs.len() && a != b implies xs[a] != xs[b] by {
                    if a < b {
                        assert(xs[a] != xs[b]);
                    } else {
                        assert(xs[b] != xs[a]);
                    }
                }
            }
            xs.unique_seq_to_set();
            lemma_reach_in_graph(nodes, edges, s, max_depth as nat, dir);
            assert(xs.to_set().subset_of(nodes.dom())) by {
                assert forall|y: u32| xs.to_set().contains(y) implies nodes.dom().contains(y) by {
                    assert(xs.contains(y));
                }
            }
            vstd::set_lib::lemma_len_subset(xs.to_set(), nodes.dom());
        }
        let total = direct.len() + transitive.len();
        let r = ImpactResult { direct, transitive, total_affected: total };
        proof {
            assert(r.direct@ + r.transitive@ == direct@ + transitive@);
            assert(impact_of(nodes, edges, s, max_depth as nat, dir, r, xs, ws));
        }
        r
    }
}

/// A copy of a list of ids.
pub fn copy_ids(v: &Vec<NodeId>) -> (r: Vec<NodeId>)
    ensures
        r@ == v@,
{
    let mut out: Vec<NodeId> = Vec::new();
    let mut i: usize = 0;
    while i < v.len()
        invariant
            i <= v@.len(),
            out@ == v@.take(i as int),
        decreases v@.len() - i,
    {
        out.push(v[i]);
        proof {
            assert(out@ =~= v@.take(i + 1));
        }
        i = i + 1;
    }
    proof {
        assert(v@.take(v@.len() as int) =~= v@);
    }
    out
}

} // verus!
