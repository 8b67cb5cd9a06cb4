//! The semantic graph: nodes and edges of the IR in a petgraph multigraph,
//! with lookups by node id, by qualified name and by source file.

use vstd::prelude::*;
use std::collections::HashMap;
use crate::edge::{endpoints, edge_endpoints, UsirEdge};
use crate::ir::{NodeId, QualifiedName};
use crate::node::UsirNode;
use crate::store::{
    graph_edge_endpoints, graph_edge_indices, graph_edge_weight,
    edges_without, graph_add_edge, graph_edges_directed, graph_remove_edge, Direction, graph_add_node, graph_edge_count, graph_edges,
    graph_free_edge, graph_new, graph_node_count, graph_node_weight, graph_nodes, graph_remove_node,
    Graph,
};
use vstd::std_specs::iter::IteratorSpec;
use crate::text::{chars_of, ends_with, ends_with_exec, str_eq, views};

verus! {

broadcast use vstd::std_specs::hash::group_hash_axioms;

/// Keys of an association list are pairwise distinct.
pub open spec fn keys_unique<K, V>(s: Seq<(K, V)>) -> bool {
    forall|i: int, j: int| 0 <= i < s.len() && 0 <= j < s.len() && i != j ==> s[i].0 != s[j].0
}

/// The key `k` occurs in the association list `s`.
pub open spec fn has_key<K, V>(s: Seq<(K, V)>, k: K) -> bool {
    exists|i: int| 0 <= i < s.len() && (#[trigger] s[i]).0 == k
}

/// The position of key `k` in `s` (with unique keys, the only one).
pub open spec fn key_pos<K, V>(s: Seq<(K, V)>, k: K) -> int {
    choose|i: int| 0 <= i < s.len() && (#[trigger] s[i]).0 == k
}

/// The value under key `k`, if any.
pub open spec fn assoc_get<K, V>(s: Seq<(K, V)>, k: K) -> Option<V> {
    if has_key(s, k) {
        Some(s[key_pos(s, k)].1)
    } else {
        None
    }
}

/// `s` with `v` under `k`: the entry of `k` is overwritten in place, or a
/// new entry is appended.
pub open spec fn assoc_put<K, V>(s: Seq<(K, V)>, k: K, v: V) -> Seq<(K, V)> {
    if has_key(s, k) {
        s.update(key_pos(s, k), (k, v))
    } else {
        s.push((k, v))
    }
}

/// `s` with `id` appended to the list under `k` (a new entry `[id]` if `k`
/// has none).
pub open spec fn assoc_append(s: Seq<(Seq<char>, Seq<NodeId>)>, k: Seq<char>, id: NodeId) -> Seq<(Seq<char>, Seq<NodeId>)> {
    if has_key(s, k) {
        s.update(key_pos(s, k), (k, s[key_pos(s, k)].1.push(id)))
    } else {
        s.push((k, seq![id]))
    }
}

/// `s` without the entry of `k`, the other entries in their order.
pub open spec fn assoc_remove<K, V>(s: Seq<(K, V)>, k: K) -> Seq<(K, V)> {
    if has_key(s, k) {
        s.remove(key_pos(s, k))
    } else {
        s
    }
}

/// `s` without the occurrences of `id`.
pub open spec fn ids_without(s: Seq<NodeId>, id: NodeId) -> Seq<NodeId>
    decreases s.len(),
{
    if s.len() == 0 {
        s
    } else if s.last() == id {
        ids_without(s.drop_last(), id)
    } else {
        ids_without(s.drop_last(), id).push(s.last())
    }
}

/// Name entries without those for `id`.
pub open spec fn names_without_id(s: Seq<(Seq<Seq<char>>, NodeId)>, id: NodeId) -> Seq<(Seq<Seq<char>>, NodeId)>
    decreases s.len(),
{
    if s.len() == 0 {
        s
    } else if s.last().1 == id {
        names_without_id(s.drop_last(), id)
    } else {
        names_without_id(s.drop_last(), id).push(s.last())
    }
}

/// The id numbers in `ids`.
pub open spec fn id_keys(ids: Seq<NodeId>) -> Set<u64> {
    Set::new(|k: u64| exists|i: int| 0 <= i < ids.len() && (#[trigger] ids[i]).0 == k)
}

/// The graph indices that the ids in `ids` are indexed to.
pub open spec fn indices_of(indices: Map<u64, u32>, ids: Seq<NodeId>) -> Set<u32> {
    Set::new(
        |x: u32|
            exists|i: int|
                0 <= i < ids.len() && indices.contains_key((#[trigger] ids[i]).0) && indices[ids[i].0] == x,
    )
}

/// `edges` without the edges that touch a node in `r`.
pub open spec fn edges_avoiding(edges: Map<u32, (u32, u32, UsirEdge)>, r: Set<u32>) -> Map<u32, (u32, u32, UsirEdge)> {
    Map::new(
        |e: u32| edges.contains_key(e) && !r.contains(edges[e].0) && !r.contains(edges[e].1),
        |e: u32| edges[e],
    )
}

/// `edges` with every end at `old_idx` moved to `new_idx`; an edge from
/// `old_idx` keeps its target (so a loop at `old_idx` ends up leading from
/// `new_idx` back to `old_idx`).
pub open spec fn retargeted(edges: Map<u32, (u32, u32, UsirEdge)>, old_idx: u32, new_idx: u32) -> Map<u32, (u32, u32, UsirEdge)> {
    Map::new(
        |e: u32| edges.contains_key(e),
        |e: u32|
            if edges[e].0 == old_idx {
                (new_idx, edges[e].1, edges[e].2)
            } else if edges[e].1 == old_idx {
                (edges[e].0, new_idx, edges[e].2)
            } else {
                edges[e]
            },
    )
}

/// The edges that end at node index `i`.
pub open spec fn edges_into(edges: Map<u32, (u32, u32, UsirEdge)>, i: u32) -> Set<u32> {
    edges.dom().filter(|e: u32| edges[e].1 == i)
}

/// The edges that start at node index `i`.
pub open spec fn edges_from(edges: Map<u32, (u32, u32, UsirEdge)>, i: u32) -> Set<u32> {
    edges.dom().filter(|e: u32| edges[e].0 == i)
}

/// How many edges end at node index `i`, and how many start there.
pub open spec fn ends_at(edges: Map<u32, (u32, u32, UsirEdge)>, i: u32) -> (nat, nat) {
    (edges_into(edges, i).len(), edges_from(edges, i).len())
}

/// A list of distinct edge entries naming exactly the edges of a set has
/// the set's size.
proof fn lemma_listed_count(list: Seq<(u32, u32, u32)>, set: Set<u32>)
    requires
        set.finite(),
        forall|i: int, j: int| 0 <= i < j < list.len() ==> list[i].2 != list[j].2,
        forall|i: int| 0 <= i < list.len() ==> set.contains(#[trigger] list[i].2),
        forall|e: u32| set.contains(e) ==> exists|i: int| 0 <= i < list.len() && #[trigger] list[i].2 == e,
    ensures
        list.len() == set.len(),
{
    let ids = list.map_values(|t: (u32, u32, u32)| t.2);
    assert(ids.no_duplicates()) by {
        assert forall|i: int, j: int| 0 <= i < ids.len() && 0 <= j < ids.len() && i != j implies ids[i] != ids[j] by {
            if i < j {
                assert(list[i].2 != list[j].2);
            } else {
                assert(list[j].2 != list[i].2);
            }
        }
    }
    ids.unique_seq_to_set();
    assert(ids.to_set() =~= set) by {
        assert forall|e: u32| set.contains(e) implies ids.to_set().contains(e) by {
            let i = choose|i: int| 0 <= i < list.len() && #[trigger] list[i].2 == e;
            assert(ids[i] == e);
        }
        assert forall|e: u32| ids.to_set().contains(e) implies set.contains(e) by {
            let i = choose|i: int| 0 <= i < ids.len() && ids[i] == e;
            assert(list[i].2 == e);
        }
    }
}

/// Edge index `e` is among the first `k` entries of an edge list.
pub open spec fn listed_before(list: Seq<(u32, u32, u32)>, k: int, e: u32) -> bool {
    exists|i: int| 0 <= i < k && (#[trigger] list[i]).2 == e
}

/// `s` with each backslash turned into a forward slash.
pub open spec fn slashed(s: Seq<char>) -> Seq<char> {
    s.map_values(|c: char| if c == '\\' { '/' } else { c })
}

/// A file path and a suffix match when, with backslashes as forward
/// slashes, either ends with the other.
pub open spec fn suffix_match(path: Seq<char>, suffix: Seq<char>) -> bool {
    ends_with(slashed(path), slashed(suffix)) || ends_with(slashed(suffix), slashed(path))
}

/// The ids of the name entries whose last segment is `short`, in order.
pub open spec fn short_name_ids(s: Seq<(Seq<Seq<char>>, NodeId)>, short: Seq<char>) -> Seq<NodeId>
    decreases s.len(),
{
    if s.len() == 0 {
        Seq::empty()
    } else if s.last().0.len() > 0 && s.last().0.last() == short {
        short_name_ids(s.drop_last(), short).push(s.last().1)
    } else {
        short_name_ids(s.drop_last(), short)
    }
}

/// `r` lists the edges of `edges` in increasing index order, each as its
/// source, target and weight.
pub open spec fn lists_edges(edges: Map<u32, (u32, u32, UsirEdge)>, r: Seq<(u32, u32, &UsirEdge)>, ids: Seq<u32>) -> bool {
    &&& forall|i: int, j: int| 0 <= i < j < ids.len() ==> ids[i] < ids[j]
    &&& forall|e: u32| edges.contains_key(e) <==> ids.contains(e)
    &&& r.len() == ids.len()
    &&& forall|i: int| 0 <= i < r.len() ==> (#[trigger] r[i]).0 == edges[ids[i]].0 && r[i].1 == edges[ids[i]].1
        && *r[i].2 == edges[ids[i]].2
}

/// With unique keys, the entry at `j` is the position of its key.
pub proof fn lemma_key_pos<K, V>(s: Seq<(K, V)>, j: int)
    requires
        keys_unique(s),
        0 <= j < s.len(),
    ensures
        has_key(s, s[j].0),
        key_pos(s, s[j].0) == j,
{
    assert(0 <= j < s.len() && s[j].0 == s[j].0);
}

/// The in-memory semantic graph.
pub struct SemanticGraph {
    /// Directed multigraph of IR nodes and edges.
    graph: Graph,
    /// Node id (its number) to graph index.
    id_to_idx: HashMap<u64, u32>,
    /// Qualified name to node id, one entry per name, in insertion order.
    name_index: Vec<(QualifiedName, NodeId)>,
    /// Source file to the ids of its nodes, one entry per file.
    file_index: Vec<(String, Vec<NodeId>)>,
    /// The next id that `next_node_id` hands out.
    next_id: u64,
}

impl SemanticGraph {
    /// The graph's nodes by index.
    pub closed spec fn nodes(&self) -> Map<u32, UsirNode> {
        graph_nodes(self.graph)
    }

    /// The graph's edges by index: source, target, weight.
    pub closed spec fn edges(&self) -> Map<u32, (u32, u32, UsirEdge)> {
        graph_edges(self.graph)
    }

    /// Node id (its number) to graph index.
    pub closed spec fn indices(&self) -> Map<u64, u32> {
        self.id_to_idx@
    }

    /// The name index: qualified name (as segments) to node id.
    pub closed spec fn name_entries(&self) -> Seq<(Seq<Seq<char>>, NodeId)> {
        self.name_index@.map_values(|p: (QualifiedName, NodeId)| (p.0.segs(), p.1))
    }

    /// The file index: file path to the ids of the nodes added for it.
    pub closed spec fn file_entries(&self) -> Seq<(Seq<char>, Seq<NodeId>)> {
        self.file_index@.map_values(|p: (String, Vec<NodeId>)| (p.0@, p.1@))
    }

    /// The next id that `next_node_id` hands out.
    pub closed spec fn next_id_spec(&self) -> u64 {
        self.next_id
    }

    /// The node that id `id` is indexed to, if any.
    pub open spec fn lookup(&self, id: NodeId) -> Option<UsirNode> {
        if self.indices().contains_key(id.0) {
            Some(self.nodes()[self.indices()[id.0]])
        } else {
            None
        }
    }

    /// Well-formedness: every edge joins two nodes; every indexed id leads
    /// to a node that carries that id; name and file entries have distinct
    /// keys.
    pub closed spec fn wf(&self) -> bool {
        &&& self.nodes().dom().finite()
        &&& self.nodes().len() <= 0xFFFF_FFFF
        &&& self.edges().dom().finite()
        &&& forall|e: u32| #[trigger] self.edges().contains_key(e) ==> self.nodes().contains_key(self.edges()[e].0)
            && self.nodes().contains_key(self.edges()[e].1)
        &&& forall|k: u64| #[trigger] self.indices().contains_key(k) ==> self.nodes().contains_key(self.indices()[k])
            && self.nodes()[self.indices()[k]].id_spec().0 == k
        &&& keys_unique(self.name_entries())
        &&& keys_unique(self.file_entries())
    }

    /// An empty graph.
    pub fn new() -> (r: Self)
        ensures
            r.wf(),
            r.nodes().dom() == Set::<u32>::empty(),
            r.edges().dom() == Set::<u32>::empty(),
            r.indices().dom() == Set::<u64>::empty(),
            r.name_entries().len() == 0,
            r.file_entries().len() == 0,
            r.next_id_spec() == 0,
    {
        let r = SemanticGraph {
            graph: graph_new(),
            id_to_idx: HashMap::new(),
            name_index: Vec::new(),
            file_index: Vec::new(),
            next_id: 0,
        };
        proof {
            assert(r.name_entries() =~= Seq::empty());
            assert(r.file_entries() =~= Seq::empty());
        }
        r
    }

    /// The position of the entry for `segs` in the name index.
    fn name_pos(&self, name: &QualifiedName) -> (r: Option<usize>)
        requires
            keys_unique(self.name_entries()),
        ensures
            match r {
                Some(i) => has_key(self.name_entries(), name.segs()) && i == key_pos(
                    self.name_entries(),
                    name.segs(),
                ),
                None => !has_key(self.name_entries(), name.segs()),
            },
    {
        let mut i: usize = 0;
        while i < self.name_index.len()
            invariant
                i <= self.name_index@.len(),
                keys_unique(self.name_entries()),
                forall|j: int| 0 <= j < i ==> self.name_entries()[j].0 != name.segs(),
            decreases self.name_index@.len() - i,
        {
            if crate::ir::qname_eq(&self.name_index[i].0, name) {
                proof {
                    lemma_key_pos(self.name_entries(), i as int);
                }
                return Some(i);
            }
            i = i + 1;
        }
        None
    }

    /// The position of the entry for `path` in the file index.
    fn file_pos(&self, path: &String) -> (r: Option<usize>)
        requires
            keys_unique(self.file_entries()),
        ensures
            match r {
                Some(i) => has_key(self.file_entries(), path@) && i == key_pos(self.file_entries(), path@),
                None => !has_key(self.file_entries(), path@),
            },
    {
        let mut i: usize = 0;
        while i < self.file_index.len()
            invariant
                i <= self.file_index@.len(),
                keys_unique(self.file_entries()),
                forall|j: int| 0 <= j < i ==> self.file_entries()[j].0 != path@,
            decreases self.file_index@.len() - i,
        {
            if self.file_index[i].0 == *path {
                proof {
                    lemma_key_pos(self.file_entries(), i as int);
                }
                return Some(i);
            }
            i = i + 1;
        }
        None
    }

    /// Add a node to the graph; its id is indexed to the new node, its name
    /// to its id, and its id is appended to its file's list.
    pub fn add_node(&mut self, node: UsirNode) -> (r: NodeId)
        requires
            old(self).wf(),
            old(self).nodes().len() < 0xFFFF_FFFF,
        ensures
            final(self).wf(),
            r == node.id_spec(),
            final(self).indices().contains_key(r.0),
            !old(self).nodes().contains_key(final(self).indices()[r.0]),
            final(self).nodes() == old(self).nodes().insert(final(self).indices()[r.0], node),
            final(self).indices() == old(self).indices().insert(r.0, final(self).indices()[r.0]),
            final(self).edges() == old(self).edges(),
            final(self).name_entries() == assoc_put(old(self).name_entries(), node.name_spec().segs(), r),
            final(self).file_entries() == assoc_append(old(self).file_entries(), node.span_spec().file@, r),
            final(self).next_id_spec() == old(self).next_id_spec(),
    {
        let id = node.id();
        let name = crate::ir::clone_name(node.name());
        let file = node.span().file.clone();
        let ghost name_segs = node.name_spec().segs();
        let ghost old_names = self.name_entries();
        let ghost old_files = self.file_entries();
        let idx = graph_add_node(&mut self.graph, node);
        self.id_to_idx.insert(id.0, idx);
        match self.name_pos(&name) {
            Some(i) => {
                self.name_index.set(i, (name, id));
                proof {
                    assert(self.name_entries() =~= assoc_put(old_names, name_segs, id));
                    assert forall|a: int, b: int|
                        0 <= a < self.name_entries().len() && 0 <= b < self.name_entries().len()
                            && a != b implies self.name_entries()[a].0 != self.name_entries()[b].0 by {
                        assert(old_names[a].0 != old_names[b].0);
                    }
                }
            },
            None => {
                self.name_index.push((name, id));
                proof {
                    assert(self.name_entries() =~= assoc_put(old_names, name_segs, id));
                }
            },
        }
        match self.file_pos(&file) {
            Some(i) => {
                let mut entry = self.file_index.remove(i);
                entry.1.push(id);
                self.file_index.insert(i, entry);
                proof {
                    assert(self.file_entries() =~= assoc_append(old_files, file@, id));
                    assert forall|a: int, b: int|
                        0 <= a < self.file_entries().len() && 0 <= b < self.file_entries().len()
                            && a != b implies self.file_entries()[a].0 != self.file_entries()[b].0 by {
                        assert(old_files[a].0 != old_files[b].0);
                    }
                }
            },
            None => {
                let mut ids = Vec::new();
                ids.push(id);
                self.file_index.push((file, ids));
                proof {
                    assert(self.file_entries() =~= assoc_append(old_files, file@, id));
                }
            },
        }
        proof {
            let ghost nd = graph_nodes(self.graph);
            assert forall|k: u64| #[trigger] self.indices().contains_key(k) implies self.nodes().contains_key(self.indices()[k])
                && self.nodes()[self.indices()[k]].id_spec().0 == k by {
                if k != id.0 {
                    assert(old(self).indices().contains_key(k));
                }
            }
            assert forall|e: u32| #[trigger] self.edges().contains_key(e) implies self.nodes().contains_key(self.edges()[e].0)
                && self.nodes().contains_key(self.edges()[e].1) by {
                assert(old(self).edges().contains_key(e));
            }
        }
        id
    }
    /// Add an edge between the nodes that its endpoints' ids are indexed
    /// to; `None` when either id is not indexed.
    pub fn add_edge(&mut self, edge: UsirEdge) -> (r: Option<u32>)
        requires
            old(self).wf(),
            old(self).edges().len() < 0xFFFF_FFFF,
        ensures
            final(self).wf(),
            r is Some <==> old(self).indices().contains_key(endpoints(edge).0.0)
                && old(self).indices().contains_key(endpoints(edge).1.0),
            r is None ==> *final(self) == *old(self),
            r is Some ==> {
                &&& !old(self).edges().contains_key(r->0)
                &&& final(self).edges() == old(self).edges().insert(
                    r->0,
                    (
                        old(self).indices()[endpoints(edge).0.0],
                        old(self).indices()[endpoints(edge).1.0],
                        edge,
                    ),
                )
                &&& final(self).nodes() == old(self).nodes()
                &&& final(self).indices() == old(self).indices()
                &&& final(self).name_entries() == old(self).name_entries()
                &&& final(self).file_entries() == old(self).file_entries()
                &&& final(self).next_id_spec() == old(self).next_id_spec()
            },
    {
        let (from, to) = edge_endpoints(&edge);
        let from_idx = match self.id_to_idx.get(&from.0) {
            Some(i) => *i,
            None => return None,
        };
        let to_idx = match self.id_to_idx.get(&to.0) {
            Some(i) => *i,
            None => return None,
        };
        let e = graph_add_edge(&mut self.graph, from_idx, to_idx, edge);
        proof {
            assert forall|k: u64| #[trigger] self.indices().contains_key(k) implies self.nodes().contains_key(self.indices()[k])
                && self.nodes()[self.indices()[k]].id_spec().0 == k by {
                assert(old(self).indices().contains_key(k));
            }
            assert forall|x: u32| #[trigger] self.edges().contains_key(x) implies self.nodes().contains_key(self.edges()[x].0)
                && self.nodes().contains_key(self.edges()[x].1) by {
                if x != e {
                    assert(old(self).edges().contains_key(x));
                }
            }
        }
        Some(e)
    }

    /// Look up a node by its id.
    pub fn get_node(&self, id: NodeId) -> (r: Option<&UsirNode>)
        requires
            self.wf(),
        ensures
            match r {
                Some(n) => self.lookup(id) == Some(*n),
                None => self.lookup(id) is None,
            },
    {
        match self.id_to_idx.get(&id.0) {
            Some(idx) => graph_node_weight(&self.graph, *idx),
            None => None,
        }
    }

    /// The id that a qualified name is indexed to, if any.
    pub open spec fn name_lookup(&self, name: QualifiedName) -> Option<NodeId> {
        assoc_get(self.name_entries(), name.segs())
    }

    /// Look up a node by qualified name.
    pub fn get_by_name(&self, name: &QualifiedName) -> (r: Option<&UsirNode>)
        requires
            self.wf(),
        ensures
            match r {
                Some(n) => self.name_lookup(*name) is Some && self.lookup(self.name_lookup(*name)->0)
                    == Some(*n),
                None => self.name_lookup(*name) is None || self.lookup(self.name_lookup(*name)->0) is None,
            },
    {
        match self.name_pos(name) {
            Some(i) => {
                let id = self.name_index[i].1;
                self.get_node(id)
            },
            None => None,
        }
    }

    /// The ids of the nodes added for a file, in the order they were added
    /// (empty for a file with no entry).
    pub fn nodes_in_file(&self, path: &String) -> (r: Vec<NodeId>)
        requires
            self.wf(),
        ensures
            r@ == match assoc_get(self.file_entries(), path@) {
                Some(ids) => ids,
                None => Seq::<NodeId>::empty(),
            },
    {
        match self.file_pos(path) {
            Some(i) => self.file_index[i].1.clone(),
            None => Vec::new(),
        }
    }

    /// Total node count.
    pub fn node_count(&self) -> (r: usize)
        requires
            self.wf(),
        ensures
            r == self.nodes().len(),
    {
        graph_node_count(&self.graph)
    }

    /// Total edge count.
    pub fn edge_count(&self) -> (r: usize)
        requires
            self.wf(),
        ensures
            r == self.edges().len(),
    {
        graph_edge_count(&self.graph)
    }

    /// Allocate a fresh node id: the counter's value, which then goes up by
    /// one.
    pub fn next_node_id(&mut self) -> (r: NodeId)
        requires
            old(self).wf(),
            old(self).next_id_spec() < u64::MAX,
        ensures
            final(self).wf(),
            r.0 == old(self).next_id_spec(),
            final(self).next_id_spec() == old(self).next_id_spec() + 1,
            final(self).nodes() == old(self).nodes(),
            final(self).edges() == old(self).edges(),
            final(self).indices() == old(self).indices(),
            final(self).name_entries() == old(self).name_entries(),
            final(self).file_entries() == old(self).file_entries(),
    {
        let id = NodeId(self.next_id);
        self.next_id = self.next_id + 1;
        proof {
            assert(self.name_entries() == old(self).name_entries());
            assert(self.file_entries() == old(self).file_entries());
            assert(self.nodes() == old(self).nodes());
            assert(self.edges() == old(self).edges());
            assert(self.indices() == old(self).indices());
            assert(self.nodes().dom().finite());
            assert(keys_unique(self.name_entries()));
            assert(keys_unique(self.file_entries()));
        }
        id
    }

    /// Whether the node with this id is a placeholder: a function without a
    /// complexity (an unresolved call target).
    pub fn is_placeholder(&self, id: NodeId) -> (r: bool)
        requires
            self.wf(),
        ensures
            r == (self.lookup(id) matches Some(n) && n.is_placeholder_spec()),
    {
        match self.get_node(id) {
            Some(UsirNode::Function(f)) => f.complexity.is_none(),
            _ => false,
        }
    }

    /// How many edges end at the node of id `id`, and how many start
    /// there (none when the id is not indexed).
    pub fn edges_at(&self, id: NodeId) -> (r: (usize, usize))
        requires
            self.wf(),
        ensures
            self.indices().contains_key(id.0) ==> r.0 == ends_at(self.edges(), self.indices()[id.0]).0
                && r.1 == ends_at(self.edges(), self.indices()[id.0]).1,
            !self.indices().contains_key(id.0) ==> r == (0usize, 0usize),
    {
        let idx = match self.id_to_idx.get(&id.0) {
            Some(i) => *i,
            None => return (0, 0),
        };
        let incoming = graph_edges_directed(&self.graph, idx, Direction::Reverse);
        let outgoing = graph_edges_directed(&self.graph, idx, Direction::Forward);
        proof {
            let e = self.edges();
            let si = edges_into(e, idx);
            let so = edges_from(e, idx);
            assert(si.finite() && so.finite());
            assert forall|x: u32| si.contains(x) implies exists|i: int| 0 <= i < incoming@.len() && #[trigger] incoming@[i].2 == x by {
                assert(graph_edges(self.graph).contains_key(x));
            }
            assert forall|x: u32| so.contains(x) implies exists|i: int| 0 <= i < outgoing@.len() && #[trigger] outgoing@[i].2 == x by {
                assert(graph_edges(self.graph).contains_key(x));
            }
            assert forall|i: int| 0 <= i < incoming@.len() implies si.contains(#[trigger] incoming@[i].2) by {
                let _ = incoming@[i];
            }
            assert forall|i: int| 0 <= i < outgoing@.len() implies so.contains(#[trigger] outgoing@[i].2) by {
                let _ = outgoing@[i];
            }
            lemma_listed_count(incoming@, si);
            lemma_listed_count(outgoing@, so);
        }
        (incoming.len(), outgoing.len())
    }

    /// The graph index of a node id.
    pub fn get_idx(&self, id: NodeId) -> (r: Option<u32>)
        requires
            self.wf(),
        ensures
            r == (if self.indices().contains_key(id.0) {
                Some(self.indices()[id.0])
            } else {
                None
            }),
    {
        match self.id_to_idx.get(&id.0) {
            Some(i) => Some(*i),
            None => None,
        }
    }

    /// The id of the node at a graph index.
    pub fn get_node_id(&self, idx: u32) -> (r: Option<NodeId>)
        requires
            self.wf(),
        ensures
            r == (if self.nodes().contains_key(idx) {
                Some(self.nodes()[idx].id_spec())
            } else {
                None
            }),
    {
        match graph_node_weight(&self.graph, idx) {
            Some(n) => Some(n.id()),
            None => None,
        }
    }
    /// Remove the node with this id: its index entry, the graph node with
    /// its edges, its name entries and its occurrences in the file lists.
    /// `None`, with nothing changed, when the id is not indexed.
    pub fn remove_node(&mut self, id: NodeId) -> (r: Option<UsirNode>)
        requires
            old(self).wf(),
        ensures
            final(self).wf(),
            !old(self).indices().contains_key(id.0) ==> r is None && *final(self) == *old(self),
            old(self).indices().contains_key(id.0) ==> {
                let idx = old(self).indices()[id.0];
                &&& r == Some(old(self).nodes()[idx])
                &&& final(self).indices() == old(self).indices().remove(id.0)
                &&& final(self).nodes() == old(self).nodes().remove(idx)
                &&& final(self).edges() == edges_without(old(self).edges(), idx)
                &&& final(self).name_entries() == names_without_id(old(self).name_entries(), id)
                &&& final(self).file_entries() == old(self).file_entries().map_values(
                    |p: (Seq<char>, Seq<NodeId>)| (p.0, ids_without(p.1, id)),
                )
                &&& final(self).next_id_spec() == old(self).next_id_spec()
            },
    {
        if !self.id_to_idx.contains_key(&id.0) {
            return None;
        }
        let ghost old_self = *self;
        let idx = match self.id_to_idx.remove(&id.0) {
            Some(i) => i,
            None => return None,
        };
        let node = graph_remove_node(&mut self.graph, idx);
        let names = self.names_without(id);
        self.name_index = names;
        strip_id_from_files(&mut self.file_index, id);
        proof {
            assert(self.file_entries() =~= old_self.file_entries().map_values(
                |p: (Seq<char>, Seq<NodeId>)| (p.0, ids_without(p.1, id)),
            ));
            assert forall|a: int, b: int|
                0 <= a < self.file_entries().len() && 0 <= b < self.file_entries().len() && a != b
                implies self.file_entries()[a].0 != self.file_entries()[b].0 by {
                assert(old_self.file_entries()[a].0 != old_self.file_entries()[b].0);
            }
            assert forall|k: u64| #[trigger] self.indices().contains_key(k) implies self.nodes().contains_key(self.indices()[k])
                && self.nodes()[self.indices()[k]].id_spec().0 == k by {
                assert(old_self.indices().contains_key(k));
                assert(old_self.indices()[k] != idx);
            }
            assert forall|x: u32| #[trigger] self.edges().contains_key(x) implies self.nodes().contains_key(self.edges()[x].0)
                && self.nodes().contains_key(self.edges()[x].1) by {
                assert(old_self.edges().contains_key(x));
            }
            assert(self.edges().dom() =~= old_self.edges().dom().intersect(self.edges().dom()));
            assert(keys_unique(self.name_entries()));
            assert(keys_unique(self.file_entries()));
        }
        node
    }

    /// Remove all nodes of a file (for incremental re-indexing): the file's
    /// entry goes, and each id in its list loses its index entry and its
    /// graph node, edges included. Name entries stay.
    pub fn remove_file(&mut self, path: &String)
        requires
            old(self).wf(),
        ensures
            final(self).wf(),
            ({
                let ids = match assoc_get(old(self).file_entries(), path@) {
                    Some(v) => v,
                    None => Seq::<NodeId>::empty(),
                };
                &&& final(self).file_entries() == assoc_remove(old(self).file_entries(), path@)
                &&& final(self).indices() == old(self).indices().remove_keys(id_keys(ids))
                &&& final(self).nodes() == old(self).nodes().remove_keys(indices_of(old(self).indices(), ids))
                &&& final(self).edges() == edges_avoiding(old(self).edges(), indices_of(old(self).indices(), ids))
            }),
            final(self).name_entries() == old(self).name_entries(),
            final(self).next_id_spec() == old(self).next_id_spec(),
    {
        let pos = match self.file_pos(path) {
            Some(p) => p,
            None => {
                proof {
                    assert(id_keys(Seq::<NodeId>::empty()) =~= Set::<u64>::empty());
                    assert(indices_of(self.indices(), Seq::<NodeId>::empty()) =~= Set::<u32>::empty());
                    assert(self.indices().remove_keys(Set::<u64>::empty()) =~= self.indices());
                    assert(self.nodes().remove_keys(Set::<u32>::empty()) =~= self.nodes());
                    assert(edges_avoiding(self.edges(), Set::<u32>::empty()) =~= self.edges());
                }
                return;
            },
        };
        let ghost old_files = self.file_entries();
        let entry = self.file_index.remove(pos);
        let ids = entry.1;
        proof {
            assert(self.file_entries() =~= assoc_remove(old_files, path@));
            assert forall|a: int, b: int|
                0 <= a < self.file_entries().len() && 0 <= b < self.file_entries().len() && a != b
                implies self.file_entries()[a].0 != self.file_entries()[b].0 by {
                let a0 = if a < pos { a } else { a + 1 };
                let b0 = if b < pos { b } else { b + 1 };
                assert(self.file_entries()[a] == old_files[a0]);
                assert(self.file_entries()[b] == old_files[b0]);
            }
            assert(ids@ == old_files[pos as int].1);
            assert(self.nodes() == old(self).nodes());
            assert(self.edges() == old(self).edges());
            assert(self.indices() == old(self).indices());
            assert(self.name_entries() == old(self).name_entries());
            assert(self.nodes().dom().finite());
            assert(self.edges().dom().finite());
            assert(id_keys(ids@.take(0)) =~= Set::<u64>::empty());
            assert(indices_of(self.indices(), ids@.take(0)) =~= Set::<u32>::empty());
            assert(self.indices().remove_keys(Set::<u64>::empty()) =~= self.indices());
            assert(self.nodes().remove_keys(Set::<u32>::empty()) =~= self.nodes());
            assert(edges_avoiding(self.edges(), Set::<u32>::empty()) =~= self.edges());
        }
        let ghost s0 = *self;
        let mut j: usize = 0;
        while j < ids.len()
            invariant
                j <= ids@.len(),
                s0.wf(),
                self.wf(),
                self.file_entries() == s0.file_entries(),
                self.name_entries() == s0.name_entries(),
                self.next_id_spec() == s0.next_id_spec(),
                self.indices() == s0.indices().remove_keys(id_keys(ids@.take(j as int))),
                self.nodes() == s0.nodes().remove_keys(indices_of(s0.indices(), ids@.take(j as int))),
                self.edges() == edges_avoiding(s0.edges(), indices_of(s0.indices(), ids@.take(j as int))),
            decreases ids@.len() - j,
        {
            let id = ids[j];
            let ghost t = ids@.take(j as int);
            let ghost t1 = ids@.take(j + 1);
            let ghost cur = *self;
            proof {
                assert(t1 =~= t.push(id));
                assert(id_keys(t1) =~= id_keys(t).insert(id.0)) by {
                    assert forall|k: u64| id_keys(t1).contains(k) implies id_keys(t).insert(id.0).contains(k) by {
                        let i = choose|i: int| 0 <= i < t1.len() && (#[trigger] t1[i]).0 == k;
                        if i < j {
                            assert(t[i] == t1[i]);
                        }
                    }
                    assert forall|k: u64| id_keys(t).insert(id.0).contains(k) implies id_keys(t1).contains(k) by {
                        if k == id.0 {
                            assert(t1[j as int] == id);
                        } else {
                            let i = choose|i: int| 0 <= i < t.len() && (#[trigger] t[i]).0 == k;
                            assert(t1[i] == t[i]);
                        }
                    }
                }
            }
            match self.id_to_idx.remove(&id.0) {
                Some(idx) => {
                    let _ = graph_remove_node(&mut self.graph, idx);
                    proof {
                        assert(cur.indices().contains_key(id.0));
                        assert(s0.indices().contains_key(id.0) && s0.indices()[id.0] == idx);
                        assert(indices_of(s0.indices(), t1) =~= indices_of(s0.indices(), t).insert(idx)) by {
                            assert forall|x: u32| indices_of(s0.indices(), t1).contains(x) implies indices_of(
                                s0.indices(),
                                t,
                            ).insert(idx).contains(x) by {
                                let i = choose|i: int|
                                    0 <= i < t1.len() && s0.indices().contains_key((#[trigger] t1[i]).0)
                                        && s0.indices()[t1[i].0] == x;
                                if i < j {
                                    assert(t[i] == t1[i]);
                                }
                            }
                            assert forall|x: u32| indices_of(s0.indices(), t).insert(idx).contains(x) implies indices_of(
                                s0.indices(),
                                t1,
                            ).contains(x) by {
                                if x == idx {
                                    assert(t1[j as int] == id);
                                } else {
                                    let i = choose|i: int|
                                        0 <= i < t.len() && s0.indices().contains_key((#[trigger] t[i]).0)
                                            && s0.indices()[t[i].0] == x;
                                    assert(t1[i] == t[i]);
                                }
                            }
                        }
                        assert(self.indices() =~= s0.indices().remove_keys(id_keys(t1)));
                        assert(self.nodes() =~= s0.nodes().remove_keys(indices_of(s0.indices(), t1)));
                        assert(self.edges() =~= edges_avoiding(s0.edges(), indices_of(s0.indices(), t1)));
                        assert forall|k: u64| #[trigger] self.indices().contains_key(k) implies self.nodes().contains_key(self.indices()[k])
                            && self.nodes()[self.indices()[k]].id_spec().0 == k by {
                            assert(cur.indices().contains_key(k));
                            assert(cur.indices()[k] != idx);
                        }
                        assert forall|x: u32| #[trigger] self.edges().contains_key(x) implies self.nodes().contains_key(self.edges()[x].0)
                            && self.nodes().contains_key(self.edges()[x].1) by {
                            assert(cur.edges().contains_key(x));
                        }
                        assert(self.edges().dom() =~= cur.edges().dom().intersect(self.edges().dom()));
                    }
                },
                None => {
                    proof {
                        assert(!cur.indices().contains_key(id.0));
                        assert(indices_of(s0.indices(), t1) =~= indices_of(s0.indices(), t)) by {
                            assert forall|x: u32| indices_of(s0.indices(), t1).contains(x) implies indices_of(
                                s0.indices(),
                                t,
                            ).contains(x) by {
                                let i = choose|i: int|
                                    0 <= i < t1.len() && s0.indices().contains_key((#[trigger] t1[i]).0)
                                        && s0.indices()[t1[i].0] == x;
                                if i < j {
                                    assert(t[i] == t1[i]);
                                } else {
                                    assert(id_keys(t).contains(id.0));
                                    let i2 = choose|i2: int| 0 <= i2 < t.len() && (#[trigger] t[i2]).0 == id.0;
                                    assert(s0.indices().contains_key(t[i2].0));
                                }
                            }
                            assert forall|x: u32| indices_of(s0.indices(), t).contains(x) implies indices_of(
                                s0.indices(),
                                t1,
                            ).contains(x) by {
                                let i = choose|i: int|
                                    0 <= i < t.len() && s0.indices().contains_key((#[trigger] t[i]).0)
                                        && s0.indices()[t[i].0] == x;
                                assert(t1[i] == t[i]);
                            }
                        }
                        assert(self.indices() =~= s0.indices().remove_keys(id_keys(t1)));
                    }
                },
            }
            j = j + 1;
        }
        proof {
            assert(ids@.take(ids@.len() as int) =~= ids@);
        }
    }

    /// Redirect the edges of the node with id `old_id` to the node with id
    /// `new_id`: each edge into it then leads into the new node, each edge
    /// out of it leads out of the new node. Nothing changes unless both ids
    /// are indexed. Edges keep their indices.
    pub fn retarget_edges(&mut self, old_id: NodeId, new_id: NodeId)
        requires
            old(self).wf(),
        ensures
            final(self).wf(),
            old(self).indices().contains_key(old_id.0) && old(self).indices().contains_key(new_id.0)
                ==> final(self).edges() == retargeted(
                old(self).edges(),
                old(self).indices()[old_id.0],
                old(self).indices()[new_id.0],
            ),
            !(old(self).indices().contains_key(old_id.0) && old(self).indices().contains_key(new_id.0))
                ==> final(self).edges() == old(self).edges(),
            final(self).nodes() == old(self).nodes(),
            final(self).indices() == old(self).indices(),
            final(self).name_entries() == old(self).name_entries(),
            final(self).file_entries() == old(self).file_entries(),
            final(self).next_id_spec() == old(self).next_id_spec(),
    {
        let old_idx = match self.id_to_idx.get(&old_id.0) {
            Some(i) => *i,
            None => return,
        };
        let new_idx = match self.id_to_idx.get(&new_id.0) {
            Some(i) => *i,
            None => return,
        };
        let incoming = graph_edges_directed(&self.graph, old_idx, Direction::Reverse);
        let outgoing = graph_edges_directed(&self.graph, old_idx, Direction::Forward);
        let ghost e0 = self.edges();
        let ghost s0 = *self;
        proof {
            assert(self.indices().contains_key(new_id.0));
            assert(e0 =~= Map::new(
                |e: u32| e0.contains_key(e),
                |e: u32| if listed_before(incoming@, 0, e) { (e0[e].0, new_idx, e0[e].2) } else { e0[e] },
            ));
        }
        let mut k: usize = 0;
        while k < incoming.len()
            invariant
                k <= incoming@.len(),
                s0.wf(),
                self.nodes() == s0.nodes(),
                self.indices() == s0.indices(),
                self.name_entries() == s0.name_entries(),
                self.file_entries() == s0.file_entries(),
                self.next_id_spec() == s0.next_id_spec(),
                e0 == s0.edges(),
                s0.nodes().contains_key(new_idx),
                forall|i: int| 0 <= i < incoming@.len() ==> {
                    let (s, t, e) = #[trigger] incoming@[i];
                    &&& e0.contains_key(e)
                    &&& e0[e].0 == s
                    &&& e0[e].1 == t
                    &&& t == old_idx
                },
                forall|i: int, j: int| 0 <= i < j < incoming@.len() ==> incoming@[i].2 != incoming@[j].2,
                self.edges() == Map::new(
                    |e: u32| e0.contains_key(e),
                    |e: u32| if listed_before(incoming@, k as int, e) { (e0[e].0, new_idx, e0[e].2) } else { e0[e] },
                ),
            decreases incoming@.len() - k,
        {
            let (s, _t, e) = incoming[k];
            let ghost cur = self.edges();
            proof {
                assert(!listed_before(incoming@, k as int, e)) by {
                    if listed_before(incoming@, k as int, e) {
                        let i = choose|i: int| 0 <= i < k && (#[trigger] incoming@[i]).2 == e;
                        assert(incoming@[i].2 != incoming@[k as int].2);
                    }
                }
                assert(cur.contains_key(e) && cur[e] == e0[e]);
                assert(cur.dom() =~= e0.dom());
            }
            match graph_remove_edge(&mut self.graph, e) {
                Some(w) => {
                    proof {
                        assert(self.edges().dom() =~= e0.dom().remove(e));
                    }
                    let r = graph_add_edge(&mut self.graph, s, new_idx, w);
                    proof {
                        assert(r == e);
                        assert(self.edges() =~= Map::new(
                            |x: u32| e0.contains_key(x),
                            |x: u32| if listed_before(incoming@, k + 1, x) { (e0[x].0, new_idx, e0[x].2) } else { e0[x] },
                        )) by {
                            assert forall|x: u32| e0.contains_key(x) implies (listed_before(incoming@, k + 1, x) <==> (
                                listed_before(incoming@, k as int, x) || x == e)) by {
                                if listed_before(incoming@, k + 1, x) && x != e {
                                    let i = choose|i: int| 0 <= i < k + 1 && (#[trigger] incoming@[i]).2 == x;
                                    assert(i < k);
                                }
                                if x == e {
                                    assert(incoming@[k as int].2 == x);
                                }
                            }
                        }
                    }
                },
                None => {},
            }
            k = k + 1;
        }
        let ghost p1 = self.edges();
        proof {
            assert(p1 =~= Map::new(
                |e: u32| e0.contains_key(e),
                |e: u32| if listed_before(outgoing@, 0, e) { (new_idx, e0[e].1, e0[e].2) } else { p1[e] },
            ));
        }
        let mut k: usize = 0;
        while k < outgoing.len()
            invariant
                k <= outgoing@.len(),
                s0.wf(),
                self.nodes() == s0.nodes(),
                self.indices() == s0.indices(),
                self.name_entries() == s0.name_entries(),
                self.file_entries() == s0.file_entries(),
                self.next_id_spec() == s0.next_id_spec(),
                e0 == s0.edges(),
                p1.dom() == e0.dom(),
                s0.nodes().contains_key(new_idx),
                forall|i: int| 0 <= i < outgoing@.len() ==> {
                    let (s, t, e) = #[trigger] outgoing@[i];
                    &&& e0.contains_key(e)
                    &&& e0[e].0 == s
                    &&& e0[e].1 == t
                    &&& s == old_idx
                },
                forall|i: int, j: int| 0 <= i < j < outgoing@.len() ==> outgoing@[i].2 != outgoing@[j].2,
                self.edges() == Map::new(
                    |e: u32| e0.contains_key(e),
                    |e: u32| if listed_before(outgoing@, k as int, e) { (new_idx, e0[e].1, e0[e].2) } else { p1[e] },
                ),
                forall|e: u32| e0.contains_key(e) ==> (#[trigger] p1[e]).2 == e0[e].2,
            decreases outgoing@.len() - k,
        {
            let (_s, t, e) = outgoing[k];
            let ghost cur = self.edges();
            proof {
                assert(!listed_before(outgoing@, k as int, e)) by {
                    if listed_before(outgoing@, k as int, e) {
                        let i = choose|i: int| 0 <= i < k && (#[trigger] outgoing@[i]).2 == e;
                        assert(outgoing@[i].2 != outgoing@[k as int].2);
                    }
                }
                assert(cur.contains_key(e) && cur[e] == p1[e]);
                assert(cur.dom() =~= e0.dom());
            }
            match graph_remove_edge(&mut self.graph, e) {
                Some(w) => {
                    proof {
                        assert(self.edges().dom() =~= e0.dom().remove(e));
                    }
                    let r = graph_add_edge(&mut self.graph, new_idx, t, w);
                    proof {
                        assert(r == e);
                        assert(self.edges() =~= Map::new(
                            |x: u32| e0.contains_key(x),
                            |x: u32| if listed_before(outgoing@, k + 1, x) { (new_idx, e0[x].1, e0[x].2) } else { p1[x] },
                        )) by {
                            assert forall|x: u32| e0.contains_key(x) implies (listed_before(outgoing@, k + 1, x) <==> (
                                listed_before(outgoing@, k as int, x) || x == e)) by {
                                if listed_before(outgoing@, k + 1, x) && x != e {
                                    let i = choose|i: int| 0 <= i < k + 1 && (#[trigger] outgoing@[i]).2 == x;
                                    assert(i < k);
                                }
                                if x == e {
                                    assert(outgoing@[k as int].2 == x);
                                }
                            }
                        }
                    }
                },
                None => {},
            }
            k = k + 1;
        }
        proof {
            assert(self.edges() =~= retargeted(e0, old_idx, new_idx)) by {
                assert forall|x: u32| e0.contains_key(x) implies (listed_before(incoming@, incoming@.len() as int, x)
                    <==> e0[x].1 == old_idx) by {
                    if e0[x].1 == old_idx {
                        let i = choose|i: int| 0 <= i < incoming@.len() && #[trigger] incoming@[i].2 == x;
                        assert(listed_before(incoming@, incoming@.len() as int, x));
                    }
                }
                assert forall|x: u32| e0.contains_key(x) implies (listed_before(outgoing@, outgoing@.len() as int, x)
                    <==> e0[x].0 == old_idx) by {
                    if e0[x].0 == old_idx {
                        let i = choose|i: int| 0 <= i < outgoing@.len() && #[trigger] outgoing@[i].2 == x;
                        assert(listed_before(outgoing@, outgoing@.len() as int, x));
                    }
                }
            }
            assert forall|x: u32| #[trigger] self.edges().contains_key(x) implies self.nodes().contains_key(self.edges()[x].0)
                && self.nodes().contains_key(self.edges()[x].1) by {
                assert(e0.contains_key(x));
            }
        }
    }

    /// The node ids of the first file (in the file index's order) whose
    /// path ends with `suffix` or is a suffix of it, backslashes read as
    /// forward slashes. Useful when the exact path form differs (relative
    /// against absolute).
    pub fn find_file_by_suffix(&self, suffix: &str) -> (r: Option<Vec<NodeId>>)
        requires
            self.wf(),
        ensures
            match r {
                Some(v) => exists|i: int|
                    0 <= i < self.file_entries().len() && suffix_match(
                        (#[trigger] self.file_entries()[i]).0,
                        suffix@,
                    ) && v@ == self.file_entries()[i].1 && forall|j: int|
                        0 <= j < i ==> !suffix_match(self.file_entries()[j].0, suffix@),
                None => forall|i: int|
                    0 <= i < self.file_entries().len() ==> !suffix_match(
                        (#[trigger] self.file_entries()[i]).0,
                        suffix@,
                    ),
            },
    {
        let sfx = to_slashes(&chars_of(suffix));
        let mut i: usize = 0;
        while i < self.file_index.len()
            invariant
                i <= self.file_index@.len(),
                sfx@ == slashed(suffix@),
                forall|j: int| 0 <= j < i ==> !suffix_match(self.file_entries()[j].0, suffix@),
            decreases self.file_index@.len() - i,
        {
            let p = to_slashes(&chars_of(self.file_index[i].0.as_str()));
            if ends_with_exec(&p, &sfx) || ends_with_exec(&sfx, &p) {
                let v = self.file_index[i].1.clone();
                proof {
                    assert(suffix_match(self.file_entries()[i as int].0, suffix@));
                }
                return Some(v);
            }
            i = i + 1;
        }
        None
    }

    /// All node ids whose name's last segment is `short_name`, in the name
    /// index's order.
    pub fn find_by_short_name(&self, short_name: &str) -> (r: Vec<NodeId>)
        requires
            self.wf(),
        ensures
            r@ == short_name_ids(self.name_entries(), short_name@),
    {
        let short = chars_of(short_name);
        let ghost all = self.name_entries();
        let mut out: Vec<NodeId> = Vec::new();
        let mut i: usize = 0;
        while i < self.name_index.len()
            invariant
                i <= self.name_index@.len(),
                all == self.name_entries(),
                short@ == short_name@,
                out@ == short_name_ids(all.take(i as int), short_name@),
            decreases self.name_index@.len() - i,
        {
            proof {
                assert(all.take(i + 1).drop_last() =~= all.take(i as int));
            }
            let segs = &self.name_index[i].0.segments;
            if segs.len() > 0 && str_eq(&segs[segs.len() - 1], &short) {
                out.push(self.name_index[i].1);
            }
            i = i + 1;
        }
        proof {
            assert(all.take(self.name_index@.len() as int) =~= all);
        }
        out
    }

    /// All edges, in increasing edge index order, as source index, target
    /// index and weight.
    pub fn all_edges(&self) -> (r: Vec<(u32, u32, &UsirEdge)>)
        requires
            self.wf(),
        ensures
            exists|ids: Seq<u32>| #[trigger] lists_edges(self.edges(), r@, ids),
    {
        let ids = graph_edge_indices(&self.graph);
        let mut out: Vec<(u32, u32, &UsirEdge)> = Vec::new();
        let mut i: usize = 0;
        while i < ids.len()
            invariant
                i <= ids@.len(),
                forall|a: int, b: int| 0 <= a < b < ids@.len() ==> ids@[a] < ids@[b],
                forall|e: u32| self.edges().contains_key(e) <==> ids@.contains(e),
                out@.len() == i,
                forall|a: int| 0 <= a < i ==> (#[trigger] out@[a]).0 == self.edges()[ids@[a]].0 && out@[a].1
                    == self.edges()[ids@[a]].1 && *out@[a].2 == self.edges()[ids@[a]].2,
            decreases ids@.len() - i,
        {
            let e = ids[i];
            proof {
                assert(ids@.contains(e));
            }
            let ends = graph_edge_endpoints(&self.graph, e);
            let w = graph_edge_weight(&self.graph, e);
            match (ends, w) {
                (Some((a, b)), Some(w)) => {
                    out.push((a, b, w));
                },
                _ => {},
            }
            i = i + 1;
        }
        proof {
            assert(lists_edges(self.edges(), out@, ids@));
        }
        out
    }

    /// All indexed node ids, each once, in the id index's iteration order.
    pub fn all_node_ids(&self) -> (r: Vec<NodeId>)
        requires
            self.wf(),
        ensures
            r@.len() == self.indices().dom().len(),
            forall|i: int, j: int| 0 <= i < j < r@.len() ==> r@[i] != r@[j],
            forall|k: u64| self.indices().contains_key(k) <==> r@.contains(NodeId(k)),
    {
        let ghost ks = vstd::std_specs::hash::spec_keys_iter(&self.id_to_idx).remaining().unref();
        proof {
            assert(ks.to_set() == self.indices().dom());
            assert(ks.no_duplicates());
        }
        let mut out: Vec<NodeId> = Vec::new();
        for k in it: self.id_to_idx.keys()
            invariant
                it.seq().unref() == ks,
                out@.len() == it.index(),
                it.index() <= ks.len(),
                forall|i: int| 0 <= i < it.index() ==> (#[trigger] out@[i]).0 == ks[i],
        {
            proof {
                assert(*it.seq()[it.index()] == ks[it.index()]);
            }
            out.push(NodeId(*k));
        }
        proof {
            assert(out@.len() == ks.len());
            assert forall|i: int, j: int| 0 <= i < j < out@.len() implies out@[i] != out@[j] by {
                assert(out@[i].0 == ks[i] && out@[j].0 == ks[j]);
            }
            assert forall|k: u64| self.indices().contains_key(k) <==> out@.contains(NodeId(k)) by {
                if self.indices().contains_key(k) {
                    assert(ks.to_set().contains(k));
                    let i = choose|i: int| 0 <= i < ks.len() && ks[i] == k;
                    assert(out@[i] == NodeId(k));
                }
                if out@.contains(NodeId(k)) {
                    let i = choose|i: int| 0 <= i < out@.len() && out@[i] == NodeId(k);
                    assert(ks[i] == k);
                    assert(ks.to_set().contains(k));
                }
            }
        }
        out
    }

    /// The graph itself, for traversals.
    pub(crate) fn graph_ref(&self) -> (r: &Graph)
        ensures
            graph_nodes(*r) == self.nodes(),
            graph_edges(*r) == self.edges(),
    {
        &self.graph
    }

    /// What well-formedness gives: every edge joins two nodes, and every
    /// indexed id leads to a node that carries that id.
    pub proof fn lemma_wf(&self)
        requires
            self.wf(),
        ensures
            self.nodes().dom().finite(),
            self.nodes().len() <= 0xFFFF_FFFF,
            self.edges().dom().finite(),
            self.indices().dom().finite(),
            forall|e: u32| #[trigger] self.edges().contains_key(e) ==> self.nodes().contains_key(self.edges()[e].0)
                && self.nodes().contains_key(self.edges()[e].1),
            forall|k: u64| #[trigger] self.indices().contains_key(k) ==> self.nodes().contains_key(self.indices()[k])
                && self.nodes()[self.indices()[k]].id_spec().0 == k,
    {
    }

    /// No more ids are indexed than there are nodes.
    pub proof fn lemma_index_count(&self)
        requires
            self.wf(),
        ensures
            self.indices().dom().len() <= self.nodes().dom().len(),
            self.indices().dom().len() <= 0xFFFF_FFFF,
    {
        self.lemma_wf();
        let x = self.indices().dom();
        let f = |k: u64| self.indices()[k];
        assert(vstd::relations::injective_on(f, x)) by {
            assert forall|a: u64, b: u64| x.contains(a) && x.contains(b) && #[trigger] f(a) == #[trigger] f(b) implies a == b by {
                assert(self.nodes()[self.indices()[a]].id_spec().0 == a);
                assert(self.nodes()[self.indices()[b]].id_spec().0 == b);
            }
        }
        vstd::set_lib::lemma_map_size(x, x.map(f), f);
        assert(x.map(f).subset_of(self.nodes().dom()));
        vstd::set_lib::lemma_len_subset(x.map(f), self.nodes().dom());
    }

    /// The name index without the entries for `id`, the others in order.
    fn names_without(&self, id: NodeId) -> (r: Vec<(QualifiedName, NodeId)>)
        requires
            keys_unique(self.name_entries()),
        ensures
            r@.map_values(|p: (QualifiedName, NodeId)| (p.0.segs(), p.1)) == names_without_id(self.name_entries(), id),
            keys_unique(r@.map_values(|p: (QualifiedName, NodeId)| (p.0.segs(), p.1))),
    {
        let ghost all = self.name_entries();
        let mut out: Vec<(QualifiedName, NodeId)> = Vec::new();
        let mut i: usize = 0;
        while i < self.name_index.len()
            invariant
                i <= self.name_index@.len(),
                all == self.name_entries(),
                keys_unique(all),
                out@.map_values(|p: (QualifiedName, NodeId)| (p.0.segs(), p.1)) == names_without_id(all.take(i as int), id),
                keys_unique(out@.map_values(|p: (QualifiedName, NodeId)| (p.0.segs(), p.1))),
                forall|a: int| 0 <= a < out@.len() ==> exists|b: int| 0 <= b < i && (#[trigger] out@[a]).0.segs() == all[b].0,
            decreases self.name_index@.len() - i,
        {
            proof {
                assert(all.take(i + 1).drop_last() =~= all.take(i as int));
            }
            if self.name_index[i].1.0 != id.0 {
                let ghost before = out@;
                let n = crate::ir::clone_name(&self.name_index[i].0);
                out.push((n, self.name_index[i].1));
                proof {
                    let m = out@.map_values(|p: (QualifiedName, NodeId)| (p.0.segs(), p.1));
                    assert(m =~= before.map_values(|p: (QualifiedName, NodeId)| (p.0.segs(), p.1)).push(all[i as int]));
                    assert forall|a: int, b: int| 0 <= a < m.len() && 0 <= b < m.len() && a != b implies m[a].0 != m[b].0 by {
                        if a == m.len() - 1 {
                            let c = choose|c: int| 0 <= c < i && (#[trigger] before[b]).0.segs() == all[c].0;
                            assert(all[c].0 != all[i as int].0);
                        } else if b == m.len() - 1 {
                            let c = choose|c: int| 0 <= c < i && (#[trigger] before[a]).0.segs() == all[c].0;
                            assert(all[c].0 != all[i as int].0);
                        } else {
                            assert(m[a] == before.map_values(|p: (QualifiedName, NodeId)| (p.0.segs(), p.1))[a]);
                            assert(m[b] == before.map_values(|p: (QualifiedName, NodeId)| (p.0.segs(), p.1))[b]);
                        }
                    }
                    assert forall|a: int| 0 <= a < out@.len() implies exists|b: int| 0 <= b < i + 1 && (#[trigger] out@[a]).0.segs() == all[b].0 by {
                        if a == out@.len() - 1 {
                            assert(out@[a].0.segs() == all[i as int].0);
                        } else {
                            assert(out@[a] == before[a]);
                        }
                    }
                }
            }
            i = i + 1;
        }
        proof {
            assert(all.take(self.name_index@.len() as int) =~= all);
        }
        out
    }
}

/// The ids of `v` other than `id`, in order.
pub fn without_id(v: &Vec<NodeId>, id: NodeId) -> (r: Vec<NodeId>)
    ensures
        r@ == ids_without(v@, id),
{
    let mut out: Vec<NodeId> = Vec::new();
    let mut i: usize = 0;
    while i < v.len()
        invariant
            i <= v@.len(),
            out@ == ids_without(v@.take(i as int), id),
        decreases v@.len() - i,
    {
        proof {
            assert(v@.take(i + 1).drop_last() =~= v@.take(i as int));
        }
        if v[i].0 != id.0 {
            out.push(v[i]);
        }
        i = i + 1;
    }
    proof {
        assert(v@.take(v@.len() as int) =~= v@);
    }
    out
}


/// Each file list without the occurrences of `id`.
fn strip_id_from_files(files: &mut Vec<(String, Vec<NodeId>)>, id: NodeId)
    ensures
        final(files)@.len() == old(files)@.len(),
        forall|j: int| 0 <= j < final(files)@.len() ==> (#[trigger] final(files)@[j]).0@ == old(files)@[j].0@
            && final(files)@[j].1@ == ids_without(old(files)@[j].1@, id),
{
    let ghost start = files@;
    let mut i: usize = 0;
    while i < files.len()
        invariant
            i <= files@.len(),
            files@.len() == start.len(),
            forall|j: int| 0 <= j < i ==> (#[trigger] files@[j]).0@ == start[j].0@
                && files@[j].1@ == ids_without(start[j].1@, id),
            forall|j: int| i <= j < files@.len() ==> #[trigger] files@[j] == start[j],
        decreases files@.len() - i,
    {
        let ids = without_id(&files[i].1, id);
        let path = files[i].0.clone();
        files.set(i, (path, ids));
        i = i + 1;
    }
}


impl Default for SemanticGraph {
    fn default() -> (r: Self)
        ensures
            r.wf(),
            r.nodes().dom() == Set::<u32>::empty(),
            r.edges().dom() == Set::<u32>::empty(),
            r.indices().dom() == Set::<u64>::empty(),
            r.name_entries().len() == 0,
            r.file_entries().len() == 0,
            r.next_id_spec() == 0,
    {
        Self::new()
    }
}

/// The characters with each backslash turned into a forward slash.
pub fn to_slashes(v: &Vec<char>) -> (r: Vec<char>)
    ensures
        r@ == slashed(v@),
{
    let mut out: Vec<char> = Vec::new();
    let mut i: usize = 0;
    while i < v.len()
        invariant
            i <= v@.len(),
            out@ == slashed(v@.take(i as int)),
        decreases v@.len() - i,
    {
        if v[i] == '\\' {
            out.push('/');
        } else {
            out.push(v[i]);
        }
        proof {
            assert(slashed(v@.take(i + 1)) =~= slashed(v@.take(i as int)).push(if v@[i as int] == '\\' { '/' } else { v@[i as int] }));
        }
        i = i + 1;
    }
    proof {
        assert(v@.take(v@.len() as int) =~= v@);
    }
    out
}

} // verus!
