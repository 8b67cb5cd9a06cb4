//! Cross-file symbol linker.
//!
//! After all files are parsed, calls into other files point at placeholder
//! nodes (functions without a complexity). The linker finds the real
//! definition of each placeholder by its short name, redirects the
//! placeholder's edges to it and removes the placeholder; placeholders that
//! match nothing (external dependencies) stay, one per display name.

use vstd::prelude::*;
use crate::edge::UsirEdge;
use crate::graph::{edges_from, edges_into, ends_at, retargeted, SemanticGraph};
use crate::ir::clone_name;
use crate::ir::{NodeId, QualifiedName, Visibility};
use crate::node::{FunctionNode, UsirNode};
use crate::text::{
    chars_of, contains, contains_exec, lemma_rfind_upto_props, lit, rfind, rfind_exec, slice_chars,
    string_of, views,
};

verus! {

/// The short names of a name given as segments: its last segment, then the
/// part after the last `::` in it, then the part after the last `.` in it
/// (each of these two only when non-empty).
pub open spec fn short_names(segs: Seq<Seq<char>>) -> Seq<Seq<char>> {
    if segs.len() == 0 {
        Seq::empty()
    } else {
        let last = segs.last();
        let a = seq![last];
        let b = if rfind(last, seq![':', ':']) is Some && rfind(last, seq![':', ':'])->0 + 2 < last.len() {
            a.push(last.subrange(rfind(last, seq![':', ':'])->0 + 2, last.len() as int))
        } else {
            a
        };
        if rfind(last, seq!['.']) is Some && rfind(last, seq!['.'])->0 + 1 < last.len() {
            b.push(last.subrange(rfind(last, seq!['.'])->0 + 1, last.len() as int))
        } else {
            b
        }
    }
}

/// Short names for matching: a name whose last segment is
/// `ContentHash::from_bytes` gives `ContentHash::from_bytes` and
/// `from_bytes`; `self.graph.add_node` gives itself and `add_node`;
/// `["Extractor", "extract_function"]` gives `extract_function`.
pub fn extract_short_names(qname: &QualifiedName) -> (r: Vec<String>)
    ensures
        views(r@) == short_names(qname.segs()),
{
    let mut names: Vec<String> = Vec::new();
    let n = qname.segments.len();
    if n == 0 {
        proof {
            assert(views(names@) =~= Seq::<Seq<char>>::empty());
        }
        return names;
    }
    let last = chars_of(qname.segments[n - 1].as_str());
    proof {
        assert(qname.segs().last() == last@);
    }
    names.push(string_of(&last));
    let ghost a = views(names@);
    proof {
        assert(a =~= seq![last@]);
    }
    let colons = lit("::");
    proof {
        reveal_strlit("::");
        assert(colons@ =~= seq![':', ':']);
    }
    proof {
        lemma_rfind_upto_props(last@, colons@, last@.len() - colons@.len());
    }
    match rfind_exec(&last, &colons) {
        Some(pos) => {
            if pos < last.len() && last.len() - pos > 2 {
                let suffix = slice_chars(&last, pos + 2, last.len());
                names.push(string_of(&suffix));
                proof {
                    assert(views(names@) =~= a.push(suffix@));
                }
            }
        },
        None => {},
    }
    let ghost b = views(names@);
    let dot = lit(".");
    proof {
        reveal_strlit(".");
        assert(dot@ =~= seq!['.']);
    }
    proof {
        lemma_rfind_upto_props(last@, dot@, last@.len() - dot@.len());
    }
    match rfind_exec(&last, &dot) {
        Some(pos) => {
            if pos < last.len() && last.len() - pos > 1 {
                let suffix = slice_chars(&last, pos + 1, last.len());
                names.push(string_of(&suffix));
                proof {
                    assert(views(names@) =~= b.push(suffix@));
                }
            }
        },
        None => {},
    }
    names
}

/// Statistics from the linking pass.
#[derive(Debug, Default)]
pub struct LinkResult {
    /// Number of placeholder nodes resolved to a definition.
    pub resolved: usize,
    /// Number of placeholder nodes with no definition (external
    /// dependencies).
    pub unresolved: usize,
    /// Number of edge ends moved from resolved placeholders to their
    /// definitions (an edge at a placeholder counts once per end there).
    pub edges_retargeted: usize,
    /// Number of duplicate placeholders merged.
    pub duplicates_merged: usize,
}

/// The score of a candidate definition: public functions +10, internal
/// ones +5; +20 when it sits in the placeholder's directory; −5 when its
/// path contains `test`.
pub open spec fn score_spec(n: UsirNode, same_dir: bool) -> int {
    let vis: int = match n {
        UsirNode::Function(f) => if f.visibility == Visibility::Public {
            10
        } else if f.visibility == Visibility::Internal {
            5
        } else {
            0
        },
        _ => 0,
    };
    vis + (if same_dir { 20int } else { 0int }) - (if contains(n.span_spec().file@, "test"@) { 5int } else { 0int })
}

/// The candidate scores order definitions: of two functions that differ
/// only in that one's file path contains `test`, that one scores lower; a
/// public function beats an internal one, and an internal one a private or
/// protected one, all else equal; one in the placeholder's directory beats
/// one elsewhere, all else equal.
pub proof fn law_candidate_preferences(f1: FunctionNode, f2: FunctionNode, same_dir: bool)
    ensures
        f1.visibility == f2.visibility && contains(f1.span.file@, "test"@) && !contains(f2.span.file@, "test"@)
            ==> score_spec(UsirNode::Function(f1), same_dir) < score_spec(UsirNode::Function(f2), same_dir),
        contains(f1.span.file@, "test"@) == contains(f2.span.file@, "test"@) && f1.visibility == Visibility::Public
            && f2.visibility != Visibility::Public
            ==> score_spec(UsirNode::Function(f1), same_dir) > score_spec(UsirNode::Function(f2), same_dir),
        contains(f1.span.file@, "test"@) == contains(f2.span.file@, "test"@) && f1.visibility == Visibility::Internal
            && (f2.visibility == Visibility::Private || f2.visibility == Visibility::Protected)
            ==> score_spec(UsirNode::Function(f1), same_dir) > score_spec(UsirNode::Function(f2), same_dir),
        score_spec(UsirNode::Function(f1), true) > score_spec(UsirNode::Function(f1), false),
{
}

/// Of two candidate functions that differ only in that one's file path
/// contains `test`, in either order, the placeholder is resolved to the
/// other one.
pub proof fn law_pick_avoids_tests(g: SemanticGraph, ph: NodeId, a: NodeId, b: NodeId, fa: FunctionNode, fb: FunctionNode)
    requires
        g.lookup(ph) is Some,
        g.lookup(a) == Some(UsirNode::Function(fa)),
        g.lookup(b) == Some(UsirNode::Function(fb)),
        fa.visibility == fb.visibility,
        same_parent(fa.span.file@, g.lookup(ph)->0.span_spec().file@) == same_parent(fb.span.file@, g.lookup(ph)->0.span_spec().file@),
        contains(fa.span.file@, "test"@),
        !contains(fb.span.file@, "test"@),
    ensures
        best_candidate(g, ph, seq![a, b]) == Some(b),
        best_candidate(g, ph, seq![b, a]) == Some(b),
{
    let pf = g.lookup(ph)->0.span_spec().file@;
    let sd = same_parent(fa.span.file@, pf);
    law_candidate_preferences(fa, fb, sd);
    let ab = seq![a, b];
    let ba = seq![b, a];
    assert(ab.drop_last() =~= seq![a]);
    assert(ba.drop_last() =~= seq![b]);
    assert(seq![a].drop_last() =~= Seq::<NodeId>::empty());
    assert(seq![b].drop_last() =~= Seq::<NodeId>::empty());
    let na = UsirNode::Function(fa);
    let nb = UsirNode::Function(fb);
    let xa = score_spec(na, same_parent(na.span_spec().file@, pf));
    let xb = score_spec(nb, same_parent(nb.span_spec().file@, pf));
    assert(xa < xb);
    assert(-5 <= xa <= 30 && -5 <= xb <= 30);
    assert(scored(g, pf, Seq::<NodeId>::empty()) =~= Seq::<(NodeId, i32)>::empty());
    assert(scored(g, pf, seq![a]) =~= seq![(a, xa as i32)]);
    assert(scored(g, pf, seq![b]) =~= seq![(b, xb as i32)]);
    assert(ab.last() == b && ba.last() == a);
    let s1 = scored(g, pf, ab);
    let s2 = scored(g, pf, ba);
    assert(s1 =~= seq![(a, xa as i32), (b, xb as i32)]);
    assert(s2 =~= seq![(b, xb as i32), (a, xa as i32)]);
    assert(s1.len() == 2 && s1[0].0 == a && s1[1].0 == b && s1[0].1 < s1[1].1);
    assert(s2.len() == 2 && s2[0].0 == b && s2[1].0 == a && s2[0].1 > s2[1].1);
    assert(s1.drop_last().len() == 1);
    assert(s2.drop_last().len() == 1);
    assert(best_pos(s1.drop_last()) == 0);
    assert(best_pos(s2.drop_last()) == 0);
    assert(best_pos(s1) == 1);
    assert(best_pos(s2) == 0);
}

/// The score of a candidate definition (see `score_spec`).
pub fn candidate_score(node: &UsirNode, same_dir: bool) -> (r: i32)
    ensures
        r == score_spec(*node, same_dir),
{
    let mut score: i32 = 0;
    match node {
        UsirNode::Function(f) => {
            if f.visibility == Visibility::Public {
                score = score + 10;
            } else if f.visibility == Visibility::Internal {
                score = score + 5;
            }
        },
        _ => {},
    }
    if same_dir {
        score = score + 20;
    }
    let path = chars_of(node.span().file.as_str());
    let test = lit("test");
    if contains_exec(&path, &test) {
        score = score - 5;
    }
    score
}

/// Entry `i` has the highest score, and every entry before it a lower one.
pub open spec fn first_best(s: Seq<(NodeId, i32)>, i: int) -> bool {
    &&& 0 <= i < s.len()
    &&& forall|j: int| 0 <= j < s.len() ==> s[j].1 <= s[i].1
    &&& forall|j: int| 0 <= j < i ==> s[j].1 < s[i].1
}

/// The position of the first of the highest scores (0 for an empty list).
pub open spec fn best_pos(s: Seq<(NodeId, i32)>) -> int
    decreases s.len(),
{
    if s.len() <= 1 {
        0
    } else {
        let b = best_pos(s.drop_last());
        if s.last().1 > s[b].1 { s.len() - 1 } else { b }
    }
}

/// The id of the first of the highest scores, if any.
pub open spec fn best_of(s: Seq<(NodeId, i32)>) -> Option<NodeId> {
    if s.len() == 0 { None } else { Some(s[best_pos(s)].0) }
}

/// The first of the highest scores is where `best_pos` points, and only
/// there.
proof fn lemma_best_pos(s: Seq<(NodeId, i32)>, i: int)
    ensures
        s.len() > 0 ==> first_best(s, best_pos(s)),
        first_best(s, i) ==> i == best_pos(s),
    decreases s.len(),
{
    if s.len() > 1 {
        lemma_best_pos(s.drop_last(), i);
        let b = best_pos(s.drop_last());
        assert(first_best(s.drop_last(), b));
        assert(first_best(s, best_pos(s))) by {
            assert forall|j: int| 0 <= j < s.len() implies (#[trigger] s[j]).1 <= s[best_pos(s)].1 by {
                if j < s.len() - 1 {
                    assert(s.drop_last()[j] == s[j]);
                }
            }
            assert forall|j: int| 0 <= j < best_pos(s) implies (#[trigger] s[j]).1 < s[best_pos(s)].1 by {
                if j < s.len() - 1 {
                    assert(s.drop_last()[j] == s[j]);
                }
            }
        }
    }
    if first_best(s, i) && s.len() > 0 {
        let b = best_pos(s);
        if i < b {
            assert(s[i].1 < s[b].1);
        } else if b < i {
            assert(s[b].1 < s[i].1);
        }
    }
}

/// The first of the highest-scored ids (what a stable sort by descending
/// score puts first).
pub fn best_scored(scored: &Vec<(NodeId, i32)>) -> (r: Option<NodeId>)
    ensures
        r is None <==> scored@.len() == 0,
        r is Some ==> exists|i: int| #[trigger] first_best(scored@, i) && scored@[i].0 == r->0,
        r == best_of(scored@),
{
    if scored.len() == 0 {
        return None;
    }
    let mut best: usize = 0;
    let mut i: usize = 1;
    while i < scored.len()
        invariant
            1 <= i <= scored@.len(),
            best < i,
            forall|j: int| 0 <= j < i ==> scored@[j].1 <= scored@[best as int].1,
            forall|j: int| 0 <= j < best ==> scored@[j].1 < scored@[best as int].1,
        decreases scored@.len() - i,
    {
        if scored[i].1 > scored[best].1 {
            best = i;
        }
        i = i + 1;
    }
    proof {
        assert(first_best(scored@, best as int));
        lemma_best_pos(scored@, best as int);
    }
    Some(scored[best].0)
}

/// Whether two paths have the same parent (`std::path::Path::parent` of
/// each, compared with `Path`'s `==`).
pub uninterp spec fn same_parent(a: Seq<char>, b: Seq<char>) -> bool;

/// `std::path::Path::parent` of both paths, compared with `Path`'s `==`:
/// the result is `same_parent` of the two paths; a path shares its own
/// parent.
#[verifier::external_body]
fn same_parent_dir(a: &String, b: &String) -> (r: bool)
    ensures
        r == same_parent(a@, b@),
        a@ == b@ ==> r,
{
    std::path::Path::new(a.as_str()).parent() == std::path::Path::new(b.as_str()).parent()
}

/// The candidates that have a node, in order, each with its score against
/// a placeholder in file `ph_file`.
pub open spec fn scored(g: SemanticGraph, ph_file: Seq<char>, candidates: Seq<NodeId>) -> Seq<(NodeId, i32)>
    decreases candidates.len(),
{
    if candidates.len() == 0 {
        Seq::empty()
    } else {
        let c = candidates.last();
        let rest = scored(g, ph_file, candidates.drop_last());
        match g.lookup(c) {
            Some(n) => rest.push((c, score_spec(n, same_parent(n.span_spec().file@, ph_file)) as i32)),
            None => rest,
        }
    }
}

/// The candidate a placeholder is resolved to: the best-scored one (see
/// `score_spec`), ties to the earlier.
pub open spec fn best_candidate(g: SemanticGraph, ph: NodeId, candidates: Seq<NodeId>) -> Option<NodeId> {
    match g.lookup(ph) {
        Some(p) => best_of(scored(g, p.span_spec().file@, candidates)),
        None => None,
    }
}

/// The scores depend on the graph only through its nodes and index.
proof fn lemma_scored_same(g1: SemanticGraph, g2: SemanticGraph, f: Seq<char>, c: Seq<NodeId>)
    requires
        g1.nodes() == g2.nodes(),
        g1.indices() == g2.indices(),
    ensures
        scored(g1, f, c) == scored(g2, f, c),
    decreases c.len(),
{
    if c.len() > 0 {
        lemma_scored_same(g1, g2, f, c.drop_last());
    }
}

/// Pick the best candidate when several definitions match: public first,
/// then one in the placeholder's directory, test files last; ties go to
/// the earlier candidate. `None` when the placeholder or every candidate
/// is missing.
pub fn pick_best_candidate(graph: &SemanticGraph, placeholder_id: NodeId, candidates: &Vec<NodeId>) -> (r: Option<NodeId>)
    requires
        graph.wf(),
    ensures
        r == best_candidate(*graph, placeholder_id, candidates@),
{
    let ph_path = match graph.get_node(placeholder_id) {
        Some(n) => crate::text::copy_string(&n.span().file),
        None => return None,
    };
    let mut list: Vec<(NodeId, i32)> = Vec::new();
    let mut i: usize = 0;
    while i < candidates.len()
        invariant
            graph.wf(),
            i <= candidates@.len(),
            list@ == scored(*graph, ph_path@, candidates@.take(i as int)),
        decreases candidates@.len() - i,
    {
        let id = candidates[i];
        proof {
            assert(candidates@.take(i + 1).drop_last() =~= candidates@.take(i as int));
        }
        match graph.get_node(id) {
            Some(node) => {
                let same = same_parent_dir(&node.span().file, &ph_path);
                let score = candidate_score(node, same);
                let ghost before = list@;
                list.push((id, score));
                proof {
                    assert(list@.drop_last() =~= before);
                }
            },
            None => {},
        }
        i = i + 1;
    }
    proof {
        assert(candidates@.take(candidates@.len() as int) =~= candidates@);
    }
    best_scored(&list)
}


/// The name a placeholder is looked up by: the last of its short names.
pub open spec fn link_key(n: UsirNode) -> Seq<char> {
    short_names(n.name_spec().segs()).last()
}

/// A placeholder whose name has at least one segment (and so a key).
pub open spec fn named_placeholder(n: UsirNode) -> bool {
    n.is_placeholder_spec() && n.name_spec().segs().len() > 0
}

/// Node `n` is a definition that the key `key` matches.
pub open spec fn defines(n: UsirNode, key: Seq<char>) -> bool {
    !n.is_placeholder_spec() && short_names(n.name_spec().segs()).contains(key)
}

/// No node of `g` other than the one of id number `k` is a definition
/// that the placeholder `p` matches.
pub open spec fn no_definition(g: SemanticGraph, k: u64, p: UsirNode) -> bool {
    forall|k2: u64|
        #![trigger g.indices().contains_key(k2)]
        g.indices().contains_key(k2) && k2 != k ==> !defines(g.lookup(NodeId(k2))->0, link_key(p))
}

/// The candidates for placeholder `ph` under key `key`: the ids of `ids`,
/// in order, whose node is a definition that `key` matches, `ph` left out.
pub open spec fn candidates_spec(g: SemanticGraph, ids: Seq<NodeId>, ph: NodeId, key: Seq<char>) -> Seq<NodeId>
    decreases ids.len(),
{
    if ids.len() == 0 {
        Seq::empty()
    } else {
        let c = ids.last();
        let rest = candidates_spec(g, ids.drop_last(), ph, key);
        if g.lookup(c) is Some && defines(g.lookup(c)->0, key) && c != ph {
            rest.push(c)
        } else {
            rest
        }
    }
}

/// `infos` describes `ids` in `g`: each id, whether it is a placeholder,
/// and its short names.
pub open spec fn infos_ok(g: SemanticGraph, ids: Seq<NodeId>, infos: Seq<(NodeId, bool, Vec<String>)>) -> bool {
    &&& infos.len() == ids.len()
    &&& forall|k: int| 0 <= k < infos.len() ==> {
        let (id, ph, names) = #[trigger] infos[k];
        &&& id == ids[k]
        &&& g.lookup(id) is Some
        &&& ph == g.lookup(id)->0.is_placeholder_spec()
        &&& views(names@) == short_names(g.lookup(id)->0.name_spec().segs())
    }
}

/// `ids` lists the indexed ids of `g`, each once.
pub open spec fn lists_ids(g: SemanticGraph, ids: Seq<NodeId>) -> bool {
    &&& forall|i: int, j: int| 0 <= i < j < ids.len() ==> ids[i] != ids[j]
    &&& forall|k: u64| g.indices().contains_key(k) <==> ids.contains(NodeId(k))
}

/// Whether `names` holds `key`.
fn holds_name(names: &Vec<String>, key: &Vec<char>) -> (r: bool)
    ensures
        r == views(names@).contains(key@),
{
    let mut i: usize = 0;
    while i < names.len()
        invariant
            i <= names@.len(),
            forall|j: int| 0 <= j < i ==> views(names@)[j] != key@,
        decreases names@.len() - i,
    {
        if crate::text::str_eq(&names[i], key) {
            proof {
                assert(views(names@)[i as int] == key@);
            }
            return true;
        }
        i = i + 1;
    }
    false
}

/// The id, placeholder flag and short names of each listed id.
fn link_infos(graph: &SemanticGraph, ids: &Vec<NodeId>) -> (r: Vec<(NodeId, bool, Vec<String>)>)
    requires
        graph.wf(),
        lists_ids(*graph, ids@),
    ensures
        infos_ok(*graph, ids@, r@),
{
    let mut infos: Vec<(NodeId, bool, Vec<String>)> = Vec::new();
    let mut i: usize = 0;
    while i < ids.len()
        invariant
            graph.wf(),
            lists_ids(*graph, ids@),
            i <= ids@.len(),
            infos_ok(*graph, ids@.take(i as int), infos@),
        decreases ids@.len() - i,
    {
        let id = ids[i];
        proof {
            assert(ids@.contains(id));
            assert(graph.indices().contains_key(id.0));
        }
        match graph.get_node(id) {
            Some(node) => {
                let ph = graph.is_placeholder(id);
                let names = extract_short_names(node.name());
                let ghost before = infos@;
                infos.push((id, ph, names));
                proof {
                    assert forall|k: int| 0 <= k < infos@.len() implies {
                        let (id2, ph2, names2) = #[trigger] infos@[k];
                        &&& id2 == ids@.take(i + 1)[k]
                        &&& graph.lookup(id2) is Some
                        &&& ph2 == graph.lookup(id2)->0.is_placeholder_spec()
                        &&& views(names2@) == short_names(graph.lookup(id2)->0.name_spec().segs())
                    } by {
                        if k < before.len() {
                            assert(infos@[k] == before[k]);
                        }
                    }
                }
            },
            None => {
                proof {
                    assert(false);
                }
            },
        }
        i = i + 1;
    }
    proof {
        assert(ids@.take(ids@.len() as int) =~= ids@);
    }
    infos
}

/// The candidates for placeholder `ph` under `key`, in the order of
/// `infos`.
fn candidates_for(
    graph: &SemanticGraph,
    Ghost(ids): Ghost<Seq<NodeId>>,
    infos: &Vec<(NodeId, bool, Vec<String>)>,
    ph: NodeId,
    key: &Vec<char>,
) -> (r: Vec<NodeId>)
    requires
        infos_ok(*graph, ids, infos@),
    ensures
        r@ == candidates_spec(*graph, ids, ph, key@),
{
    let mut out: Vec<NodeId> = Vec::new();
    let mut k: usize = 0;
    while k < infos.len()
        invariant
            infos_ok(*graph, ids, infos@),
            k <= infos@.len(),
            out@ == candidates_spec(*graph, ids.take(k as int), ph, key@),
        decreases infos@.len() - k,
    {
        proof {
            assert(ids.take(k + 1).drop_last() =~= ids.take(k as int));
            let _ = infos@[k as int];
        }
        if !infos[k].1 && infos[k].0.0 != ph.0 && holds_name(&infos[k].2, key) {
            out.push(infos[k].0);
        }
        k = k + 1;
    }
    proof {
        assert(ids.take(infos@.len() as int) =~= ids);
    }
    out
}


/// Compared with the edges `e0` before linking, the edges `e` keep their
/// indices and weights, and an edge between two non-placeholder nodes is
/// unchanged.
pub open spec fn edges_kept(nodes: Map<u32, UsirNode>, e0: Map<u32, (u32, u32, UsirEdge)>, e: Map<u32, (u32, u32, UsirEdge)>) -> bool {
    &&& e.dom() == e0.dom()
    &&& forall|x: u32| #[trigger] e.contains_key(x) ==> e[x].2 == e0[x].2
    &&& forall|x: u32| #[trigger] e0.contains_key(x) && !nodes[e0[x].0].is_placeholder_spec() && !nodes[e0[x].1].is_placeholder_spec()
        ==> e[x] == e0[x]
}

/// Redirecting the edges of a placeholder keeps `edges_kept`.
proof fn lemma_retarget_kept(
    nodes: Map<u32, UsirNode>,
    e0: Map<u32, (u32, u32, UsirEdge)>,
    e: Map<u32, (u32, u32, UsirEdge)>,
    o: u32,
    n: u32,
)
    requires
        edges_kept(nodes, e0, e),
        nodes[o].is_placeholder_spec(),
    ensures
        edges_kept(nodes, e0, retargeted(e, o, n)),
{
    let r = retargeted(e, o, n);
    assert(r.dom() =~= e0.dom());
    assert forall|x: u32| #[trigger] e0.contains_key(x) && !nodes[e0[x].0].is_placeholder_spec()
        && !nodes[e0[x].1].is_placeholder_spec() implies r[x] == e0[x] by {
        assert(e.contains_key(x));
    }
    assert forall|x: u32| #[trigger] r.contains_key(x) implies r[x].2 == e0[x].2 by {
        assert(e.contains_key(x));
    }
}

/// Everything but the edges is as before linking, and the edges are kept.
pub open spec fn link_frame(o: SemanticGraph, g: SemanticGraph) -> bool {
    &&& g.wf()
    &&& g.nodes() == o.nodes()
    &&& g.indices() == o.indices()
    &&& g.name_entries() == o.name_entries()
    &&& g.file_entries() == o.file_entries()
    &&& g.next_id_spec() == o.next_id_spec()
    &&& edges_kept(o.nodes(), o.edges(), g.edges())
}

/// The number of named placeholders among `ids`.
pub open spec fn count_named(g: SemanticGraph, ids: Seq<NodeId>) -> nat
    decreases ids.len(),
{
    if ids.len() == 0 {
        0
    } else {
        count_named(g, ids.drop_last()) + if g.lookup(ids.last()) is Some && named_placeholder(
            g.lookup(ids.last())->0,
        ) {
            1nat
        } else {
            0nat
        }
    }
}

/// The id numbers of the named placeholders of `g`.
pub open spec fn named_placeholders(g: SemanticGraph) -> Set<u64> {
    g.indices().dom().filter(|k: u64| named_placeholder(g.lookup(NodeId(k))->0))
}

/// Counting named placeholders along a list without repeats counts the set
/// of them.
proof fn lemma_count_named(g: SemanticGraph, ids: Seq<NodeId>)
    requires
        forall|i: int, j: int| 0 <= i < j < ids.len() ==> ids[i] != ids[j],
    ensures
        ({
            let s = Set::new(
                |k: u64| ids.contains(NodeId(k)) && g.lookup(NodeId(k)) is Some && named_placeholder(
                    g.lookup(NodeId(k))->0,
                ),
            );
            s.finite() && s.len() == count_named(g, ids)
        }),
    decreases ids.len(),
{
    let s = Set::new(
        |k: u64| ids.contains(NodeId(k)) && g.lookup(NodeId(k)) is Some && named_placeholder(g.lookup(NodeId(k))->0),
    );
    if ids.len() == 0 {
        assert(s =~= Set::<u64>::empty());
    } else {
        let rest = ids.drop_last();
        lemma_count_named(g, rest);
        let s0 = Set::new(
            |k: u64| rest.contains(NodeId(k)) && g.lookup(NodeId(k)) is Some && named_placeholder(g.lookup(NodeId(k))->0),
        );
        let x = ids.last();
        assert forall|k: u64| rest.contains(NodeId(k)) || NodeId(k) == x <==> ids.contains(NodeId(k)) by {
            if ids.contains(NodeId(k)) {
                let i = choose|i: int| 0 <= i < ids.len() && ids[i] == NodeId(k);
                if i < ids.len() - 1 {
                    assert(rest[i] == ids[i]);
                }
            }
            if rest.contains(NodeId(k)) {
                let i = choose|i: int| 0 <= i < rest.len() && rest[i] == NodeId(k);
                assert(ids[i] == rest[i]);
            }
        }
        assert(!rest.contains(x)) by {
            if rest.contains(x) {
                let i = choose|i: int| 0 <= i < rest.len() && rest[i] == x;
                assert(ids[i] == x && ids[ids.len() - 1] == x);
            }
        }
        if g.lookup(x) is Some && named_placeholder(g.lookup(x)->0) {
            assert(s =~= s0.insert(x.0));
            assert(!s0.contains(x.0));
        } else {
            assert(s =~= s0);
        }
    }
}

/// A listed id whose node is a definition under `key` is a candidate.
proof fn lemma_candidate_listed(g: SemanticGraph, ids: Seq<NodeId>, ph: NodeId, key: Seq<char>, i: int)
    requires
        0 <= i < ids.len(),
        g.lookup(ids[i]) is Some,
        defines(g.lookup(ids[i])->0, key),
        ids[i] != ph,
    ensures
        candidates_spec(g, ids, ph, key).len() > 0,
    decreases ids.len(),
{
    if i < ids.len() - 1 {
        lemma_candidate_listed(g, ids.drop_last(), ph, key, i);
    }
}

/// The candidates depend on the graph only through its nodes and index.
proof fn lemma_candidates_same(g1: SemanticGraph, g2: SemanticGraph, ids: Seq<NodeId>, ph: NodeId, key: Seq<char>)
    requires
        g1.nodes() == g2.nodes(),
        g1.indices() == g2.indices(),
    ensures
        candidates_spec(g1, ids, ph, key) == candidates_spec(g2, ids, ph, key),
    decreases ids.len(),
{
    if ids.len() > 0 {
        lemma_candidates_same(g1, g2, ids.drop_last(), ph, key);
    }
}

/// At most every listed id is a named placeholder.
proof fn lemma_count_le(g: SemanticGraph, ids: Seq<NodeId>)
    ensures
        count_named(g, ids) <= ids.len(),
    decreases ids.len(),
{
    if ids.len() > 0 {
        lemma_count_le(g, ids.drop_last());
    }
}

/// Whether `v` holds `id`.
fn has_id(v: &Vec<NodeId>, id: NodeId) -> (r: bool)
    ensures
        r == v@.contains(id),
{
    let mut i: usize = 0;
    while i < v.len()
        invariant
            i <= v@.len(),
            forall|j: int| 0 <= j < i ==> v@[j] != id,
        decreases v@.len() - i,
    {
        if v[i].0 == id.0 {
            proof {
                assert(v@[i as int] == id);
            }
            return true;
        }
        i = i + 1;
    }
    false
}

// ─── What linking does to the edges ────────────────────────────

/// Placeholder `p` is resolved: a named placeholder with at least one
/// candidate definition.
pub open spec fn resolves(g: SemanticGraph, ids: Seq<NodeId>, p: NodeId) -> bool {
    &&& g.lookup(p) is Some
    &&& named_placeholder(g.lookup(p)->0)
    &&& candidates_spec(g, ids, p, link_key(g.lookup(p)->0)).len() > 0
}

/// The definition a resolved placeholder's edges go to: its only
/// candidate, else the best-scored one (see `pick_best_candidate`).
pub open spec fn link_target(g: SemanticGraph, ids: Seq<NodeId>, p: NodeId) -> NodeId {
    let c = candidates_spec(g, ids, p, link_key(g.lookup(p)->0));
    if c.len() == 1 {
        c[0]
    } else {
        match best_candidate(g, p, c) {
            Some(b) => b,
            None => c[0],
        }
    }
}

/// The edge ends, in and out, at the placeholders of `upto` that are
/// resolved.
pub open spec fn moved_ends(g: SemanticGraph, ids: Seq<NodeId>, upto: Seq<NodeId>) -> nat
    decreases upto.len(),
{
    if upto.len() == 0 {
        0
    } else {
        moved_ends(g, ids, upto.drop_last()) + if resolves(g, ids, upto.last()) {
            ends_at(g.edges(), g.indices()[upto.last().0]).0 + ends_at(g.edges(), g.indices()[upto.last().0]).1
        } else {
            0
        }
    }
}

/// Edge `x` of `o` has its target end (`tgt`) or its source end at node
/// index `i`, and its other end at a node that is not a placeholder.
pub open spec fn end_at(o: SemanticGraph, x: u32, tgt: bool, i: u32) -> bool {
    &&& o.edges().contains_key(x)
    &&& if tgt {
        o.edges()[x].1 == i && !o.nodes()[o.edges()[x].0].is_placeholder_spec()
    } else {
        o.edges()[x].0 == i && !o.nodes()[o.edges()[x].1].is_placeholder_spec()
    }
}

/// In `e`, edge `x` of `o` has that end at `dest`, all else as in `o`.
pub open spec fn moved_to(o: SemanticGraph, e: Map<u32, (u32, u32, UsirEdge)>, x: u32, tgt: bool, dest: u32) -> bool {
    &&& e.contains_key(x)
    &&& e[x] == if tgt {
        (o.edges()[x].0, dest, o.edges()[x].2)
    } else {
        (dest, o.edges()[x].1, o.edges()[x].2)
    }
}

/// Node index `i` is that of a resolved placeholder of `upto`.
pub open spec fn done_index(o: SemanticGraph, ids: Seq<NodeId>, upto: Seq<NodeId>, i: u32) -> bool {
    exists|m: int| 0 <= m < upto.len() && resolves(o, ids, upto[m]) && o.indices()[#[trigger] upto[m].0] == i
}

/// An end of an edge is as in `o`, or was moved off a resolved placeholder
/// of `upto` to a node that is not a placeholder.
pub open spec fn end_ok(o: SemanticGraph, ids: Seq<NodeId>, upto: Seq<NodeId>, now: u32, was: u32) -> bool {
    now == was || (o.nodes().contains_key(now) && !o.nodes()[now].is_placeholder_spec() && done_index(o, ids, upto, was))
}

/// The edges after resolving the placeholders of `upto`, in order.
pub open spec fn p1_state(o: SemanticGraph, ids: Seq<NodeId>, upto: Seq<NodeId>, e: Map<u32, (u32, u32, UsirEdge)>) -> bool {
    &&& e.dom() == o.edges().dom()
    &&& forall|x: u32| #[trigger] o.edges().contains_key(x) ==> e[x].2 == o.edges()[x].2
        && end_ok(o, ids, upto, e[x].0, o.edges()[x].0) && end_ok(o, ids, upto, e[x].1, o.edges()[x].1)
    &&& forall|m: int, x: u32, t: bool|
        #![trigger end_at(o, x, t, o.indices()[upto[m].0])]
        0 <= m < upto.len() && resolves(o, ids, upto[m]) && end_at(o, x, t, o.indices()[upto[m].0])
            ==> moved_to(o, e, x, t, o.indices()[link_target(o, ids, upto[m]).0])
}

/// Node id `k2` is indexed in `o` and a placeholder shown as `k` is.
pub open spec fn kept_like(o: SemanticGraph, k: u64, k2: u64) -> bool {
    &&& o.indices().contains_key(k2)
    &&& o.lookup(NodeId(k2))->0.is_placeholder_spec()
    &&& o.lookup(NodeId(k2))->0.name_spec().shown() == o.lookup(NodeId(k))->0.name_spec().shown()
}

/// Node id `k` is a placeholder of `o` that is not resolved.
pub open spec fn unresolved_ph(o: SemanticGraph, ids: Seq<NodeId>, k: u64) -> bool {
    &&& o.indices().contains_key(k)
    &&& o.lookup(NodeId(k))->0.is_placeholder_spec()
    &&& !resolves(o, ids, NodeId(k))
}

/// The edges once resolved placeholders point at their definitions and
/// the placeholders in `removed` beyond them were merged.
pub open spec fn p2_state(o: SemanticGraph, ids: Seq<NodeId>, e: Map<u32, (u32, u32, UsirEdge)>, removed: Seq<NodeId>) -> bool {
    &&& forall|m: int, x: u32, t: bool|
        #![trigger end_at(o, x, t, o.indices()[ids[m].0])]
        0 <= m < ids.len() && resolves(o, ids, ids[m]) && end_at(o, x, t, o.indices()[ids[m].0])
            ==> moved_to(o, e, x, t, o.indices()[link_target(o, ids, ids[m]).0])
    &&& forall|k: u64, x: u32, t: bool|
        #![trigger end_at(o, x, t, o.indices()[k])]
        unresolved_ph(o, ids, k) && end_at(o, x, t, o.indices()[k]) ==> exists|k2: u64|
            #[trigger] kept_like(o, k, k2) && !removed.contains(NodeId(k2)) && moved_to(o, e, x, t, o.indices()[k2])
}

/// Index numbers name distinct nodes.
proof fn lemma_index_injective(o: SemanticGraph, k1: u64, k2: u64)
    requires
        o.wf(),
        o.indices().contains_key(k1),
        o.indices().contains_key(k2),
        o.indices()[k1] == o.indices()[k2],
    ensures
        k1 == k2,
{
    o.lemma_wf();
}

/// Each candidate has a node that is a definition under the key.
proof fn lemma_candidates_defined(g: SemanticGraph, ids: Seq<NodeId>, ph: NodeId, key: Seq<char>, i: int)
    requires
        0 <= i < candidates_spec(g, ids, ph, key).len(),
    ensures
        g.lookup(candidates_spec(g, ids, ph, key)[i]) is Some,
        defines(g.lookup(candidates_spec(g, ids, ph, key)[i])->0, key),
    decreases ids.len(),
{
    let rest = candidates_spec(g, ids.drop_last(), ph, key);
    if i < rest.len() {
        lemma_candidates_defined(g, ids.drop_last(), ph, key, i);
    }
}

/// Each scored entry is one of the candidates.
proof fn lemma_scored_in(g: SemanticGraph, f: Seq<char>, c: Seq<NodeId>, i: int)
    requires
        0 <= i < scored(g, f, c).len(),
    ensures
        c.contains(scored(g, f, c)[i].0),
    decreases c.len(),
{
    let rest = scored(g, f, c.drop_last());
    if i < rest.len() {
        lemma_scored_in(g, f, c.drop_last(), i);
        let j = choose|j: int| 0 <= j < c.drop_last().len() && c.drop_last()[j] == rest[i].0;
        assert(c[j] == rest[i].0);
    } else {
        assert(c[c.len() - 1] == c.last());
    }
}

/// The target of a resolved placeholder is an indexed definition.
proof fn lemma_target_defined(o: SemanticGraph, ids: Seq<NodeId>, p: NodeId)
    requires
        o.wf(),
        resolves(o, ids, p),
    ensures
        o.indices().contains_key(link_target(o, ids, p).0),
        o.nodes().contains_key(o.indices()[link_target(o, ids, p).0]),
        !o.nodes()[o.indices()[link_target(o, ids, p).0]].is_placeholder_spec(),
        !o.nodes()[o.indices()[p.0]].is_placeholder_spec() == false,
{
    o.lemma_wf();
    let key = link_key(o.lookup(p)->0);
    let c = candidates_spec(o, ids, p, key);
    let t = link_target(o, ids, p);
    assert(c.contains(t)) by {
        if c.len() != 1 {
            match best_candidate(o, p, c) {
                Some(b) => {
                    let s = scored(o, o.lookup(p)->0.span_spec().file@, c);
                    lemma_best_pos(s, 0);
                    lemma_scored_in(o, o.lookup(p)->0.span_spec().file@, c, best_pos(s));
                },
                None => {
                    assert(c[0] == t);
                },
            }
        } else {
            assert(c[0] == t);
        }
    }
    let i = choose|i: int| 0 <= i < c.len() && c[i] == t;
    lemma_candidates_defined(o, ids, p, key, i);
}

/// Before `p` of `upto` is resolved, the edge ends at its node are those
/// of `o`.
proof fn lemma_p1_ends(o: SemanticGraph, ids: Seq<NodeId>, j: int, e: Map<u32, (u32, u32, UsirEdge)>, x: u32)
    requires
        o.wf(),
        lists_ids(o, ids),
        0 <= j < ids.len(),
        o.lookup(ids[j]) is Some,
        o.lookup(ids[j])->0.is_placeholder_spec(),
        p1_state(o, ids, ids.take(j), e),
        o.edges().contains_key(x),
    ensures
        e[x].0 == o.indices()[ids[j].0] <==> o.edges()[x].0 == o.indices()[ids[j].0],
        e[x].1 == o.indices()[ids[j].0] <==> o.edges()[x].1 == o.indices()[ids[j].0],
{
    o.lemma_wf();
    let i = o.indices()[ids[j].0];
    let up = ids.take(j);
    assert(o.nodes()[i].is_placeholder_spec());
    assert(!done_index(o, ids, up, i)) by {
        if done_index(o, ids, up, i) {
            let m = choose|m: int| 0 <= m < up.len() && resolves(o, ids, up[m]) && o.indices()[#[trigger] up[m].0] == i;
            assert(up[m] == ids[m]);
            assert(o.indices().contains_key(ids[m].0));
            lemma_index_injective(o, ids[m].0, ids[j].0);
            assert(ids[m] == ids[j]);
        }
    }
}

/// Resolving the next placeholder keeps `p1_state`.
#[verifier::rlimit(60)]
proof fn lemma_p1_step(o: SemanticGraph, ids: Seq<NodeId>, j: int, e: Map<u32, (u32, u32, UsirEdge)>)
    requires
        o.wf(),
        lists_ids(o, ids),
        0 <= j < ids.len(),
        o.lookup(ids[j]) is Some,
        p1_state(o, ids, ids.take(j), e),
    ensures
        p1_state(
            o,
            ids,
            ids.take(j + 1),
            if resolves(o, ids, ids[j]) {
                retargeted(e, o.indices()[ids[j].0], o.indices()[link_target(o, ids, ids[j]).0])
            } else {
                e
            },
        ),
        resolves(o, ids, ids[j]) ==> ends_at(e, o.indices()[ids[j].0]) == ends_at(o.edges(), o.indices()[ids[j].0]),
{
    o.lemma_wf();
    let up = ids.take(j);
    let up1 = ids.take(j + 1);
    let p = ids[j];
    assert(up1.drop_last() =~= up);
    assert(up1[j] == p);
    assert forall|i: u32| #[trigger] done_index(o, ids, up, i) implies done_index(o, ids, up1, i) by {
        let m = choose|m: int| 0 <= m < up.len() && resolves(o, ids, up[m]) && o.indices()[#[trigger] up[m].0] == i;
        assert(up1[m] == up[m]);
    }
    if resolves(o, ids, p) {
        let ip = o.indices()[p.0];
        let t = link_target(o, ids, p);
        lemma_target_defined(o, ids, p);
        let it = o.indices()[t.0];
        let e2 = retargeted(e, ip, it);
        assert(o.nodes()[ip].is_placeholder_spec());
        assert(done_index(o, ids, up1, ip)) by {
            assert(o.indices()[up1[j].0] == ip);
        }
        assert(e2.dom() =~= o.edges().dom());
        assert forall|x: u32| #[trigger] o.edges().contains_key(x) implies e2[x].2 == o.edges()[x].2
            && end_ok(o, ids, up1, e2[x].0, o.edges()[x].0) && end_ok(o, ids, up1, e2[x].1, o.edges()[x].1) by {
            lemma_p1_ends(o, ids, j, e, x);
        }
        assert forall|m: int, x: u32, tt: bool|
            0 <= m < up1.len() && resolves(o, ids, up1[m]) && end_at(o, x, tt, o.indices()[up1[m].0])
            implies moved_to(o, e2, x, tt, o.indices()[link_target(o, ids, up1[m]).0]) by {
            lemma_p1_ends(o, ids, j, e, x);
            if m < j {
                assert(up1[m] == up[m]);
                assert(end_at(o, x, tt, o.indices()[up[m].0]));
                lemma_target_defined(o, ids, up[m]);
            } else {
                assert(up1[m] == p);
                let ox = o.edges()[x];
                if tt {
                    assert(!o.nodes()[ox.0].is_placeholder_spec());
                    assert(end_ok(o, ids, up, e[x].0, ox.0));
                    if e[x].0 != ox.0 {
                        let mm = choose|mm: int| 0 <= mm < up.len() && resolves(o, ids, up[mm]) && o.indices()[#[trigger] up[mm].0] == ox.0;
                        assert(o.lookup(up[mm]) is Some);
                    }
                } else {
                    assert(!o.nodes()[ox.1].is_placeholder_spec());
                    assert(end_ok(o, ids, up, e[x].1, ox.1));
                    if e[x].1 != ox.1 {
                        let mm = choose|mm: int| 0 <= mm < up.len() && resolves(o, ids, up[mm]) && o.indices()[#[trigger] up[mm].0] == ox.1;
                        assert(o.lookup(up[mm]) is Some);
                    }
                }
            }
        }
        assert(edges_into(e, ip) =~= edges_into(o.edges(), ip)) by {
            assert forall|x: u32| e.dom().contains(x) implies (e[x].1 == ip <==> o.edges()[x].1 == ip) by {
                lemma_p1_ends(o, ids, j, e, x);
            }
        }
        assert(edges_from(e, ip) =~= edges_from(o.edges(), ip)) by {
            assert forall|x: u32| e.dom().contains(x) implies (e[x].0 == ip <==> o.edges()[x].0 == ip) by {
                lemma_p1_ends(o, ids, j, e, x);
            }
        }
    } else {
        assert forall|m: int, x: u32, tt: bool|
            0 <= m < up1.len() && resolves(o, ids, up1[m]) && end_at(o, x, tt, o.indices()[up1[m].0])
            implies moved_to(o, e, x, tt, o.indices()[link_target(o, ids, up1[m]).0]) by {
            if m < j {
                assert(up1[m] == up[m]);
                assert(end_at(o, x, tt, o.indices()[up[m].0]));
            }
        }
    }
}

/// After every placeholder has been looked at, the edges are in
/// `p2_state` with the resolved placeholders as the removed ones.
proof fn lemma_p2_start(o: SemanticGraph, ids: Seq<NodeId>, e: Map<u32, (u32, u32, UsirEdge)>, removed: Seq<NodeId>)
    requires
        o.wf(),
        lists_ids(o, ids),
        p1_state(o, ids, ids, e),
        forall|t: int| 0 <= t < removed.len() ==> resolves(o, ids, #[trigger] removed[t]),
    ensures
        p2_state(o, ids, e, removed),
{
    o.lemma_wf();
    assert forall|k: u64, x: u32, tt: bool| unresolved_ph(o, ids, k) && end_at(o, x, tt, o.indices()[k]) implies exists|k2: u64|
        #[trigger] kept_like(o, k, k2) && !removed.contains(NodeId(k2)) && moved_to(o, e, x, tt, o.indices()[k2]) by {
        assert(kept_like(o, k, k));
        assert(!removed.contains(NodeId(k))) by {
            if removed.contains(NodeId(k)) {
                let t = choose|t: int| 0 <= t < removed.len() && removed[t] == NodeId(k);
                assert(resolves(o, ids, removed[t]));
            }
        }
        let i = o.indices()[k];
        let ox = o.edges()[x];
        assert(!done_index(o, ids, ids, i)) by {
            if done_index(o, ids, ids, i) {
                let m = choose|m: int| 0 <= m < ids.len() && resolves(o, ids, ids[m]) && o.indices()[#[trigger] ids[m].0] == i;
                lemma_index_injective(o, ids[m].0, k);
                assert(ids[m] == NodeId(k));
            }
        }
        if tt {
            if e[x].0 != ox.0 {
                let m = choose|m: int| 0 <= m < ids.len() && resolves(o, ids, ids[m]) && o.indices()[#[trigger] ids[m].0] == ox.0;
                assert(o.lookup(ids[m]) is Some);
            }
        } else {
            if e[x].1 != ox.1 {
                let m = choose|m: int| 0 <= m < ids.len() && resolves(o, ids, ids[m]) && o.indices()[#[trigger] ids[m].0] == ox.1;
                assert(o.lookup(ids[m]) is Some);
            }
        }
        assert(e[x] == ox);
    }
}

/// Merging placeholder `q` into `s`, which shares its display name, keeps
/// `p2_state`.
#[verifier::rlimit(40)]
proof fn lemma_p2_step(o: SemanticGraph, ids: Seq<NodeId>, e: Map<u32, (u32, u32, UsirEdge)>, removed: Seq<NodeId>, q: NodeId, s: NodeId)
    requires
        o.wf(),
        lists_ids(o, ids),
        p2_state(o, ids, e, removed),
        o.indices().contains_key(q.0),
        o.indices().contains_key(s.0),
        o.lookup(q)->0.is_placeholder_spec(),
        o.lookup(s)->0.is_placeholder_spec(),
        o.lookup(q)->0.name_spec().shown() == o.lookup(s)->0.name_spec().shown(),
        q != s,
        !removed.contains(s),
    ensures
        p2_state(o, ids, retargeted(e, o.indices()[q.0], o.indices()[s.0]), removed.push(q)),
{
    o.lemma_wf();
    let iq = o.indices()[q.0];
    let is = o.indices()[s.0];
    let e2 = retargeted(e, iq, is);
    let r2 = removed.push(q);
    assert forall|m: int, x: u32, tt: bool|
        0 <= m < ids.len() && resolves(o, ids, ids[m]) && end_at(o, x, tt, o.indices()[ids[m].0])
        implies moved_to(o, e2, x, tt, o.indices()[link_target(o, ids, ids[m]).0]) by {
        lemma_target_defined(o, ids, ids[m]);
    }
    assert forall|k: u64, x: u32, tt: bool| unresolved_ph(o, ids, k) && end_at(o, x, tt, o.indices()[k]) implies exists|k2: u64|
        #[trigger] kept_like(o, k, k2) && !r2.contains(NodeId(k2)) && moved_to(o, e2, x, tt, o.indices()[k2]) by {
        let k2 = choose|k2: u64| #[trigger] kept_like(o, k, k2) && !removed.contains(NodeId(k2)) && moved_to(o, e, x, tt, o.indices()[k2]);
        if k2 == q.0 {
            assert(kept_like(o, k, s.0));
            assert(!r2.contains(s)) by {
                if r2.contains(s) {
                    let t = choose|t: int| 0 <= t < r2.len() && r2[t] == s;
                    if t < removed.len() {
                        assert(removed[t] == s);
                    }
                }
            }
            assert(moved_to(o, e2, x, tt, is));
        } else {
            if o.indices()[k2] == iq {
                lemma_index_injective(o, k2, q.0);
            }
            assert(!r2.contains(NodeId(k2))) by {
                if r2.contains(NodeId(k2)) {
                    let t = choose|t: int| 0 <= t < r2.len() && r2[t] == NodeId(k2);
                    if t < removed.len() {
                        assert(removed[t] == NodeId(k2));
                    }
                }
            }
            assert(moved_to(o, e2, x, tt, o.indices()[k2]));
        }
    }
}

/// No end of the edge is at the node of an id in `rm`.
pub open spec fn avoids(o: SemanticGraph, rm: Seq<NodeId>, ends: (u32, u32, UsirEdge)) -> bool {
    forall|a: int| 0 <= a < rm.len() ==> o.indices()[#[trigger] rm[a].0] != ends.0 && o.indices()[rm[a].0] != ends.1
}

/// What linking leaves: each end of an edge at a resolved placeholder is
/// at its definition, each end at another placeholder at a remaining
/// placeholder of the same display name; and every placeholder that was
/// not resolved has such a remaining one.
pub open spec fn link_done(o: SemanticGraph, g: SemanticGraph, ids: Seq<NodeId>) -> bool {
    &&& forall|k: u64, x: u32, t: bool|
        #![trigger end_at(o, x, t, o.indices()[k])]
        resolves(o, ids, NodeId(k)) && end_at(o, x, t, o.indices()[k])
            ==> moved_to(o, g.edges(), x, t, o.indices()[link_target(o, ids, NodeId(k)).0])
    &&& forall|k: u64, x: u32, t: bool|
        #![trigger end_at(o, x, t, o.indices()[k])]
        unresolved_ph(o, ids, k) && end_at(o, x, t, o.indices()[k]) ==> exists|k2: u64|
            #[trigger] kept_like(o, k, k2) && g.indices().contains_key(k2) && moved_to(o, g.edges(), x, t, o.indices()[k2])
    &&& forall|k: u64| #[trigger] unresolved_ph(o, ids, k) ==> exists|k2: u64| #[trigger] kept_like(o, k, k2) && g.indices().contains_key(k2)
}

/// The edges that avoid the removed placeholders come through, so the
/// edge facts of `p2_state` hold of the final graph.
proof fn lemma_link_done(
    o: SemanticGraph,
    g: SemanticGraph,
    ids: Seq<NodeId>,
    e1: Map<u32, (u32, u32, UsirEdge)>,
    rm: Seq<NodeId>,
)
    requires
        o.wf(),
        lists_ids(o, ids),
        p2_state(o, ids, e1, rm),
        forall|a: int| 0 <= a < rm.len() ==> o.lookup(#[trigger] rm[a]) is Some && o.lookup(rm[a])->0.is_placeholder_spec(),
        forall|x: u32| #[trigger] e1.contains_key(x) && avoids(o, rm, e1[x]) ==> g.edges().contains_key(x) && g.edges()[x] == e1[x],
        forall|k: u64| #[trigger] g.indices().contains_key(k) <==> (o.indices().contains_key(k) && !rm.contains(NodeId(k))),
        forall|k: u64| #[trigger] unresolved_ph(o, ids, k) ==> exists|k2: u64| #[trigger] kept_like(o, k, k2) && !rm.contains(NodeId(k2)),
    ensures
        link_done(o, g, ids),
{
    o.lemma_wf();
    assert forall|k: u64, x: u32, tt: bool| resolves(o, ids, NodeId(k)) && end_at(o, x, tt, o.indices()[k])
        implies moved_to(o, g.edges(), x, tt, o.indices()[link_target(o, ids, NodeId(k)).0]) by {
        assert(ids.contains(NodeId(k)));
        let m = choose|m: int| 0 <= m < ids.len() && ids[m] == NodeId(k);
        assert(end_at(o, x, tt, o.indices()[ids[m].0]));
        lemma_target_defined(o, ids, NodeId(k));
        let d = o.indices()[link_target(o, ids, NodeId(k)).0];
        assert(avoids(o, rm, e1[x])) by {
            assert forall|a: int| 0 <= a < rm.len() implies o.indices()[#[trigger] rm[a].0] != e1[x].0 && o.indices()[rm[a].0] != e1[x].1 by {
                assert(o.nodes()[o.indices()[rm[a].0]].is_placeholder_spec());
            }
        }
    }
    assert forall|k: u64, x: u32, tt: bool| unresolved_ph(o, ids, k) && end_at(o, x, tt, o.indices()[k]) implies exists|k2: u64|
        #[trigger] kept_like(o, k, k2) && g.indices().contains_key(k2) && moved_to(o, g.edges(), x, tt, o.indices()[k2]) by {
        let k2 = choose|k2: u64| #[trigger] kept_like(o, k, k2) && !rm.contains(NodeId(k2)) && moved_to(o, e1, x, tt, o.indices()[k2]);
        assert(avoids(o, rm, e1[x])) by {
            assert forall|a: int| 0 <= a < rm.len() implies o.indices()[#[trigger] rm[a].0] != e1[x].0 && o.indices()[rm[a].0] != e1[x].1 by {
                assert(o.nodes()[o.indices()[rm[a].0]].is_placeholder_spec());
                assert(o.indices().contains_key(rm[a].0));
                if o.indices()[rm[a].0] == o.indices()[k2] {
                    lemma_index_injective(o, rm[a].0, k2);
                }
            }
        }
        assert(g.indices().contains_key(k2));
    }
    assert forall|k: u64| #[trigger] unresolved_ph(o, ids, k) implies exists|k2: u64| #[trigger] kept_like(o, k, k2) && g.indices().contains_key(k2) by {
        let k2 = choose|k2: u64| #[trigger] kept_like(o, k, k2) && !rm.contains(NodeId(k2));
        assert(g.indices().contains_key(k2));
    }
}

/// A count kept in a `usize`, stopping at its largest value.
pub open spec fn capped(n: nat) -> nat {
    if n > usize::MAX { usize::MAX as nat } else { n }
}

/// Run the cross-file linking pass on the graph.
///
/// 1. Each placeholder (a function without a complexity) is looked up by
///    the last of its short names among the other nodes' short names.
/// 2. No match: it stays (an external dependency). One match: its edges go
///    to that definition. Several: the best-scored one is taken (see
///    `pick_best_candidate`), or the first.
/// 3. Of the placeholders that stay, those with the same display name are
///    merged into the first one met.
/// 4. The resolved and merged placeholders are removed.
pub fn link(graph: &mut SemanticGraph) -> (r: LinkResult)
    requires
        old(graph).wf(),
    ensures
        final(graph).wf(),
        forall|k: u64| #[trigger] final(graph).indices().contains_key(k) ==> old(graph).indices().contains_key(k)
            && final(graph).lookup(NodeId(k)) == old(graph).lookup(NodeId(k)),
        forall|k: u64| #[trigger] old(graph).indices().contains_key(k) && !old(graph).lookup(
            NodeId(k),
        )->0.is_placeholder_spec() ==> final(graph).indices().contains_key(k),
        forall|k: u64| #[trigger] final(graph).indices().contains_key(k) && named_placeholder(
            final(graph).lookup(NodeId(k))->0,
        ) ==> no_definition(*old(graph), k, final(graph).lookup(NodeId(k))->0),
        forall|k1: u64, k2: u64|
            #![trigger final(graph).indices().contains_key(k1), final(graph).indices().contains_key(k2)]
            final(graph).indices().contains_key(k1) && final(graph).indices().contains_key(k2) && k1 != k2
                && final(graph).lookup(NodeId(k1))->0.is_placeholder_spec() && final(graph).lookup(
                NodeId(k2),
            )->0.is_placeholder_spec() ==> final(graph).lookup(NodeId(k1))->0.name_spec().shown()
                != final(graph).lookup(NodeId(k2))->0.name_spec().shown(),
        r.resolved + r.unresolved == named_placeholders(*old(graph)).len(),
        exists|ids: Seq<NodeId>| #[trigger] lists_ids(*old(graph), ids) && link_done(*old(graph), *final(graph), ids)
            && r.edges_retargeted == capped(moved_ends(*old(graph), ids, ids)),
        old(graph).indices().dom().len() == final(graph).indices().dom().len() + r.resolved + r.duplicates_merged,
        final(graph).edges().dom().subset_of(old(graph).edges().dom()),
        forall|x: u32| #[trigger] final(graph).edges().contains_key(x) ==> final(graph).edges()[x].2 == old(
            graph,
        ).edges()[x].2,
        forall|x: u32| #[trigger] old(graph).edges().contains_key(x) && !old(graph).nodes()[old(
            graph,
        ).edges()[x].0].is_placeholder_spec() && !old(graph).nodes()[old(graph).edges()[x].1].is_placeholder_spec()
            ==> final(graph).edges().contains_key(x) && final(graph).edges()[x] == old(graph).edges()[x],
{
    let ghost o = *graph;
    let all_ids = graph.all_node_ids();
    let infos = link_infos(graph, &all_ids);
    let ghost ids = all_ids@;
    let mut result = LinkResult { resolved: 0, unresolved: 0, edges_retargeted: 0, duplicates_merged: 0 };
    let mut to_remove: Vec<NodeId> = Vec::new();
    proof {
        assert(o.edges().dom() =~= graph.edges().dom());
        assert(count_named(o, ids.take(0)) == 0);
    }
    let mut j: usize = 0;
    while j < infos.len()
        invariant
            o.wf(),
            lists_ids(o, ids),
            infos_ok(o, ids, infos@),
            link_frame(o, *graph),
            j <= infos@.len(),
            forall|t: int| 0 <= t < to_remove@.len() ==> o.lookup(#[trigger] to_remove@[t]) is Some
                && o.lookup(to_remove@[t])->0.is_placeholder_spec() && ids.take(j as int).contains(to_remove@[t]),
            forall|a: int, b: int| 0 <= a < b < to_remove@.len() ==> to_remove@[a] != to_remove@[b],
            result.resolved == to_remove@.len(),
            result.edges_retargeted == capped(moved_ends(o, ids, ids.take(j as int))),
            p1_state(o, ids, ids.take(j as int), graph.edges()),
            forall|t: int| 0 <= t < to_remove@.len() ==> resolves(o, ids, #[trigger] to_remove@[t]),
            result.duplicates_merged == 0,
            result.resolved + result.unresolved == count_named(o, ids.take(j as int)),
            forall|m: int| 0 <= m < j && named_placeholder(o.lookup(#[trigger] ids[m])->0) ==> to_remove@.contains(ids[m])
                || no_definition(o, ids[m].0, o.lookup(ids[m])->0),
        decreases infos@.len() - j,
    {
        let ghost tr0 = to_remove@;
        let ghost tj = ids.take(j as int);
        let ghost tj1 = ids.take(j + 1);
        proof {
            assert(tj1.drop_last() =~= tj);
            let _ = infos@[j as int];
            assert(ids.contains(ids[j as int]));
            lemma_p1_step(o, ids, j as int, graph.edges());
            assert(tj1.last() == ids[j as int]);
        }
        let ghost e_start = graph.edges();
        let id = infos[j].0;
        if infos[j].1 {
            let names = &infos[j].2;
            if names.len() > 0 {
                let key = chars_of(names[names.len() - 1].as_str());
                proof {
                    assert(key@ == link_key(o.lookup(id)->0));
                    assert(named_placeholder(o.lookup(id)->0));
                }
                let candidates = candidates_for(graph, Ghost(ids), &infos, id, &key);
                proof {
                    lemma_candidates_same(*graph, o, ids, id, key@);
                    assert(candidates@ == candidates_spec(o, ids, id, key@));
                    lemma_count_le(o, tj);
                }
                if candidates.len() == 0 {
                    result.unresolved = result.unresolved + 1;
                    proof {
                        assert(ids[j as int] == id);
                        assert forall|k2: u64| #![trigger o.indices().contains_key(k2)] o.indices().contains_key(k2) && k2 != id.0
                            implies !defines(o.lookup(NodeId(k2))->0, link_key(o.lookup(id)->0)) by {
                            assert(ids.contains(NodeId(k2)));
                            let i = choose|i: int| 0 <= i < ids.len() && ids[i] == NodeId(k2);
                            if defines(o.lookup(NodeId(k2))->0, link_key(o.lookup(id)->0)) {
                                lemma_candidate_listed(o, ids, id, key@, i);
                            }
                        }
                        assert(no_definition(o, id.0, o.lookup(id)->0));
                    }
                } else {
                    let target = if candidates.len() == 1 {
                        candidates[0]
                    } else {
                        match pick_best_candidate(graph, id, &candidates) {
                            Some(best) => best,
                            None => candidates[0],
                        }
                    };
                    proof {
                        lemma_scored_same(*graph, o, o.lookup(id)->0.span_spec().file@, candidates@);
                        assert(resolves(o, ids, id));
                        assert(target == link_target(o, ids, id));
                        lemma_target_defined(o, ids, id);
                    }
                    let (ends_in, ends_out) = graph.edges_at(id);
                    result.edges_retargeted = result.edges_retargeted.saturating_add(ends_in).saturating_add(ends_out);
                    let ghost e_before = graph.edges();
                    graph.retarget_edges(id, target);
                    proof {
                        assert(o.indices().contains_key(id.0));
                        if o.indices().contains_key(target.0) {
                            lemma_retarget_kept(o.nodes(), o.edges(), e_before, o.indices()[id.0], o.indices()[target.0]);
                        }
                    }
                    to_remove.push(id);
                    result.resolved = result.resolved + 1;
                    proof {
                        assert(!tr0.contains(id)) by {
                            if tr0.contains(id) {
                                let t = choose|t: int| 0 <= t < tr0.len() && tr0[t] == id;
                                assert(tj.contains(id));
                                let m = choose|m: int| 0 <= m < j && tj[m] == id;
                                assert(ids[m] == ids[j as int]);
                            }
                        }
                    }
                }
            }
        }
        proof {
            assert(ids[j as int] == id);
            let _ = infos@[j as int];
            if !infos@[j as int].1 || infos@[j as int].2@.len() == 0 {
                assert(!named_placeholder(o.lookup(id)->0)) by {
                    if infos@[j as int].1 && o.lookup(id)->0.name_spec().segs().len() > 0 {
                        assert(short_names(o.lookup(id)->0.name_spec().segs()).len() > 0);
                        assert(views(infos@[j as int].2@).len() > 0);
                    }
                }
            }
            assert(named_placeholder(o.lookup(id)->0) ==> to_remove@.contains(id)
                || no_definition(o, id.0, o.lookup(id)->0)) by {
                if named_placeholder(o.lookup(id)->0) && !no_definition(o, id.0, o.lookup(id)->0) {
                    assert(to_remove@.len() == tr0.len() + 1);
                    assert(to_remove@[tr0.len() as int] == id);
                }
            }
            assert forall|t: int| 0 <= t < to_remove@.len() implies tj1.contains(#[trigger] to_remove@[t]) by {
                if t < tr0.len() {
                    assert(tr0[t] == to_remove@[t]);
                    assert(tj.contains(tr0[t]));
                    let m = choose|m: int| 0 <= m < j && tj[m] == tr0[t];
                    assert(tj1[m] == tr0[t]);
                } else {
                    assert(tj1[j as int] == id);
                }
            }
            assert forall|m: int| 0 <= m < j + 1 && named_placeholder(o.lookup(#[trigger] ids[m])->0) implies to_remove@.contains(ids[m])
                || no_definition(o, ids[m].0, o.lookup(ids[m])->0) by {
                if m < j && tr0.contains(ids[m]) {
                    let t = choose|t: int| 0 <= t < tr0.len() && tr0[t] == ids[m];
                    assert(to_remove@[t] == ids[m]);
                }
            }
            assert forall|t: int| 0 <= t < to_remove@.len() implies resolves(o, ids, #[trigger] to_remove@[t]) by {
                if t < tr0.len() {
                    assert(to_remove@[t] == tr0[t]);
                }
            }
            if resolves(o, ids, id) {
                assert(to_remove@.len() == tr0.len() + 1);
                assert(graph.edges() == retargeted(e_start, o.indices()[id.0], o.indices()[link_target(o, ids, id).0]));
            } else {
                assert(graph.edges() == e_start);
            }
        }
        j = j + 1;
    }
    proof {
        assert(ids.take(infos@.len() as int) =~= ids);
        lemma_p2_start(o, ids, graph.edges(), to_remove@);
    }
    // Merge placeholders that stay and share a display name.
    let remaining = graph.all_node_ids();
    let ghost rem = remaining@;
    let ghost resolved_ids = to_remove@;
    let mut seen: Vec<(String, NodeId)> = Vec::new();
    let mut i: usize = 0;
    while i < remaining.len()
        invariant
            o.wf(),
            rem == remaining@,
            lists_ids(o, rem),
            lists_ids(o, ids),
            link_frame(o, *graph),
            i <= rem.len(),
            forall|t: int| 0 <= t < to_remove@.len() ==> o.lookup(#[trigger] to_remove@[t]) is Some
                && o.lookup(to_remove@[t])->0.is_placeholder_spec(),
            forall|a: int, b: int| 0 <= a < b < to_remove@.len() ==> to_remove@[a] != to_remove@[b],
            forall|t: int| 0 <= t < resolved_ids.len() ==> #[trigger] to_remove@[t] == resolved_ids[t],
            resolved_ids.len() <= to_remove@.len(),
            forall|t: int| resolved_ids.len() <= t < to_remove@.len() ==> rem.take(i as int).contains(#[trigger] to_remove@[t]),
            forall|t: int| 0 <= t < resolved_ids.len() ==> !rem.take(i as int).contains(#[trigger] resolved_ids[t])
                || true,
            result.resolved == resolved_ids.len(),
            result.resolved + result.duplicates_merged == to_remove@.len(),
            result.duplicates_merged <= i,
            result.edges_retargeted == capped(moved_ends(o, ids, ids)),
            p2_state(o, ids, graph.edges(), to_remove@),
            forall|t: int| 0 <= t < resolved_ids.len() ==> resolves(o, ids, #[trigger] resolved_ids[t]),
            forall|m: int| 0 <= m < i && o.lookup(#[trigger] rem[m]) is Some && o.lookup(rem[m])->0.is_placeholder_spec()
                && !resolved_ids.contains(rem[m]) ==> exists|a: int| 0 <= a < seen@.len() && (#[trigger] seen@[a]).0@
                == o.lookup(rem[m])->0.name_spec().shown(),
            result.resolved + result.unresolved == count_named(o, ids),
            forall|m: int| 0 <= m < ids.len() && named_placeholder(o.lookup(#[trigger] ids[m])->0) ==> resolved_ids.contains(ids[m])
                || no_definition(o, ids[m].0, o.lookup(ids[m])->0),
            forall|a: int, b: int| 0 <= a < seen@.len() && 0 <= b < seen@.len() && a != b ==> seen@[a].0@ != seen@[b].0@,
            forall|a: int| 0 <= a < seen@.len() ==> {
                let (nm, v) = #[trigger] seen@[a];
                &&& o.lookup(v) is Some
                &&& o.lookup(v)->0.is_placeholder_spec()
                &&& nm@ == o.lookup(v)->0.name_spec().shown()
                &&& !to_remove@.contains(v)
                &&& rem.take(i as int).contains(v)
            },
            forall|m: int| 0 <= m < i && o.lookup(#[trigger] rem[m]) is Some && o.lookup(rem[m])->0.is_placeholder_spec()
                ==> to_remove@.contains(rem[m]) || exists|a: int| 0 <= a < seen@.len() && (#[trigger] seen@[a]).1 == rem[m],
        decreases rem.len() - i,
    {
        let id = remaining[i];
        let ghost tr0 = to_remove@;
        let ghost seen0 = seen@;
        let ghost ri = rem.take(i as int);
        let ghost ri1 = rem.take(i + 1);
        proof {
            assert(rem[i as int] == id);
            assert(rem.contains(id));
            assert(o.indices().contains_key(id.0));
            assert(ri1.drop_last() =~= ri);
        }
        if graph.is_placeholder(id) && !has_id(&to_remove, id) {
            let name = match graph.get_node(id) {
                Some(node) => node.name().display(),
                None => String::new(),
            };
            let mut pos: usize = 0;
            let mut found = false;
            while pos < seen.len()
                invariant_except_break
                    !found,
                invariant
                    pos <= seen@.len(),
                    forall|a: int| 0 <= a < pos ==> seen@[a].0@ != name@,
                ensures
                    found ==> pos < seen@.len() && seen@[pos as int].0@ == name@,
                    !found ==> forall|a: int| 0 <= a < seen@.len() ==> seen@[a].0@ != name@,
                decreases seen@.len() - pos,
            {
                if seen[pos].0 == name {
                    found = true;
                    break;
                }
                pos = pos + 1;
            }
            if found {
                let existing = seen[pos].1;
                proof {
                    let _ = seen@[pos as int];
                    assert(ri.contains(existing));
                    let mm = choose|mm: int| 0 <= mm < ri.len() && ri[mm] == existing;
                    assert(rem[mm] == existing);
                    assert(rem.contains(existing));
                    assert(existing != id) by {
                        if existing == id {
                            assert(rem[mm] == rem[i as int]);
                        }
                    }
                    lemma_p2_step(o, ids, graph.edges(), to_remove@, id, existing);
                }
                let ghost e_before = graph.edges();
                graph.retarget_edges(id, existing);
                proof {
                    if o.indices().contains_key(existing.0) {
                        lemma_retarget_kept(o.nodes(), o.edges(), e_before, o.indices()[id.0], o.indices()[existing.0]);
                    }
                }
                to_remove.push(id);
                result.duplicates_merged = result.duplicates_merged + 1;
                proof {
                    assert forall|a: int| 0 <= a < seen@.len() implies !to_remove@.contains((#[trigger] seen@[a]).1) by {
                        assert(!tr0.contains(seen@[a].1));
                        if seen@[a].1 == id {
                            assert(ri.contains(id));
                            let m = choose|m: int| 0 <= m < ri.len() && ri[m] == id;
                            assert(rem[m] == rem[i as int]);
                        }
                        if to_remove@.contains(seen@[a].1) {
                            let t = choose|t: int| 0 <= t < to_remove@.len() && to_remove@[t] == seen@[a].1;
                            if t < tr0.len() {
                                assert(tr0[t] == seen@[a].1);
                            }
                        }
                    }
                }
            } else {
                let ghost name_v = name@;
                seen.push((name, id));
                proof {
                    assert forall|a: int, b: int| 0 <= a < seen@.len() && 0 <= b < seen@.len() && a != b implies seen@[a].0@
                        != seen@[b].0@ by {
                        if a < seen0.len() && b < seen0.len() {
                            assert(seen@[a] == seen0[a] && seen@[b] == seen0[b]);
                        } else if a < seen0.len() {
                            assert(seen@[a] == seen0[a]);
                        } else {
                            assert(seen@[b] == seen0[b]);
                        }
                    }
                    assert(name_v == o.lookup(id)->0.name_spec().shown());
                    assert(seen@[seen@.len() - 1].0@ == o.lookup(id)->0.name_spec().shown());
                    assert(seen@[seen@.len() - 1].1 == id);
                    assert(!to_remove@.contains(id));
                    assert(o.lookup(id) is Some && o.lookup(id)->0.is_placeholder_spec());
                }
            }
        }
        proof {
            assert forall|t: int| resolved_ids.len() <= t < to_remove@.len() implies ri1.contains(#[trigger] to_remove@[t]) by {
                if t < tr0.len() {
                    assert(to_remove@[t] == tr0[t]);
                    let m = choose|m: int| 0 <= m < i && ri[m] == tr0[t];
                    assert(ri1[m] == tr0[t]);
                } else {
                    assert(ri1[i as int] == id);
                }
            }
            assert forall|t: int| 0 <= t < to_remove@.len() implies o.lookup(#[trigger] to_remove@[t]) is Some
                && o.lookup(to_remove@[t])->0.is_placeholder_spec() by {
                if t < tr0.len() {
                    assert(to_remove@[t] == tr0[t]);
                }
            }
            assert forall|a: int, b: int| 0 <= a < b < to_remove@.len() implies to_remove@[a] != to_remove@[b] by {
                if b < tr0.len() {
                    assert(to_remove@[a] == tr0[a] && to_remove@[b] == tr0[b]);
                } else if b == tr0.len() {
                    assert(to_remove@[a] == tr0[a]);
                }
            }
            assert forall|v: NodeId| ri.contains(v) implies ri1.contains(v) by {
                let m = choose|m: int| 0 <= m < ri.len() && ri[m] == v;
                assert(ri1[m] == ri[m]);
            }
            assert forall|a: int| 0 <= a < seen@.len() implies {
                let (nm, v) = #[trigger] seen@[a];
                &&& o.lookup(v) is Some
                &&& o.lookup(v)->0.is_placeholder_spec()
                &&& nm@ == o.lookup(v)->0.name_spec().shown()
                &&& !to_remove@.contains(v)
                &&& ri1.contains(v)
            } by {
                if a < seen0.len() {
                    assert(seen@[a] == seen0[a]);
                    assert(ri.contains(seen0[a].1));
                    let m = choose|m: int| 0 <= m < ri.len() && ri[m] == seen0[a].1;
                    assert(ri1[m] == ri[m]);
                    assert(seen0[a].1 != id) by {
                        assert(rem[m] == seen0[a].1);
                        if seen0[a].1 == id {
                            assert(rem[m] == rem[i as int]);
                        }
                    }
                    if to_remove@.contains(seen0[a].1) {
                        let t = choose|t: int| 0 <= t < to_remove@.len() && to_remove@[t] == seen0[a].1;
                        if t < tr0.len() {
                            assert(tr0[t] == seen0[a].1);
                        }
                    }
                } else {
                    assert(seen@[a].1 == id);
                    assert(ri1[i as int] == id);
                }
            }
            assert forall|m: int| 0 <= m < i + 1 && o.lookup(#[trigger] rem[m]) is Some && o.lookup(rem[m])->0.is_placeholder_spec()
                implies to_remove@.contains(rem[m]) || exists|a: int| 0 <= a < seen@.len() && (#[trigger] seen@[a]).1 == rem[m] by {
                if m < i {
                    if tr0.contains(rem[m]) {
                        let t = choose|t: int| 0 <= t < tr0.len() && tr0[t] == rem[m];
                        assert(to_remove@[t] == rem[m]);
                    } else {
                        let a = choose|a: int| 0 <= a < seen0.len() && (#[trigger] seen0[a]).1 == rem[m];
                        assert(seen@[a] == seen0[a]);
                    }
                } else {
                    if tr0.contains(id) {
                        let t = choose|t: int| 0 <= t < tr0.len() && tr0[t] == id;
                        assert(to_remove@[t] == id);
                    } else if to_remove@.len() > tr0.len() {
                        assert(to_remove@[tr0.len() as int] == id);
                    } else {
                        assert(seen@[seen@.len() - 1].1 == id);
                    }
                }
            }
            assert forall|m: int| 0 <= m < i + 1 && o.lookup(#[trigger] rem[m]) is Some && o.lookup(rem[m])->0.is_placeholder_spec()
                && !resolved_ids.contains(rem[m]) implies exists|a: int| 0 <= a < seen@.len() && (#[trigger] seen@[a]).0@
                == o.lookup(rem[m])->0.name_spec().shown() by {
                if m < i {
                    let a = choose|a: int| 0 <= a < seen0.len() && (#[trigger] seen0[a]).0@ == o.lookup(rem[m])->0.name_spec().shown();
                    assert(seen@[a] == seen0[a]);
                } else {
                    assert(!tr0.contains(id)) by {
                        if tr0.contains(id) {
                            let t = choose|t: int| 0 <= t < tr0.len() && tr0[t] == id;
                            if t < resolved_ids.len() {
                                assert(resolved_ids[t] == id);
                            } else {
                                assert(ri.contains(tr0[t]));
                                let mm = choose|mm: int| 0 <= mm < ri.len() && ri[mm] == id;
                                assert(rem[mm] == rem[i as int]);
                            }
                        }
                    }
                    if seen@.len() > seen0.len() {
                        assert(seen@[seen@.len() - 1].0@ == o.lookup(id)->0.name_spec().shown());
                    } else {
                        let a = choose|a: int| 0 <= a < seen@.len() && seen@[a].0@ == o.lookup(id)->0.name_spec().shown();
                        assert(seen@[a].0@ == o.lookup(id)->0.name_spec().shown());
                    }
                }
            }
        }
        i = i + 1;
    }
    // Remove the resolved and merged placeholders.
    let ghost rm = to_remove@;
    let ghost g1 = *graph;
    let mut t: usize = 0;
    while t < to_remove.len()
        invariant
            o.wf(),
            link_frame(o, g1),
            graph.wf(),
            rm == to_remove@,
            t <= rm.len(),
            forall|a: int| 0 <= a < rm.len() ==> o.lookup(#[trigger] rm[a]) is Some && o.lookup(rm[a])->0.is_placeholder_spec(),
            forall|a: int, b: int| 0 <= a < b < rm.len() ==> rm[a] != rm[b],
            forall|k: u64| #[trigger] graph.indices().contains_key(k) <==> (o.indices().contains_key(k)
                && !rm.take(t as int).contains(NodeId(k))),
            forall|k: u64| #[trigger] graph.indices().contains_key(k) ==> graph.lookup(NodeId(k)) == o.lookup(NodeId(k)),
            graph.indices().dom().len() + t == o.indices().dom().len(),
            forall|x: u32| #[trigger] graph.nodes().contains_key(x) ==> o.nodes().contains_key(x) && graph.nodes()[x]
                == o.nodes()[x],
            graph.edges().dom().subset_of(o.edges().dom()),
            forall|x: u32| #[trigger] graph.edges().contains_key(x) ==> graph.edges()[x].2 == o.edges()[x].2,
            forall|x: u32| #[trigger] o.edges().contains_key(x) && !o.nodes()[o.edges()[x].0].is_placeholder_spec()
                && !o.nodes()[o.edges()[x].1].is_placeholder_spec() ==> graph.edges().contains_key(x) && graph.edges()[x]
                == o.edges()[x],
            forall|x: u32| #[trigger] graph.edges().contains_key(x) ==> g1.edges().contains_key(x) && graph.edges()[x] == g1.edges()[x],
            forall|x: u32| #[trigger] g1.edges().contains_key(x) && avoids(o, rm, g1.edges()[x]) ==> graph.edges().contains_key(x)
                && graph.edges()[x] == g1.edges()[x],
            forall|k: u64| #[trigger] graph.indices().contains_key(k) ==> graph.indices()[k] == o.indices()[k],
        decreases rm.len() - t,
    {
        let id = to_remove[t];
        let ghost before = *graph;
        let ghost rt = rm.take(t as int);
        let ghost rt1 = rm.take(t + 1);
        proof {
            assert(rt1.drop_last() =~= rt);
            assert(!rt.contains(id)) by {
                if rt.contains(id) {
                    let a = choose|a: int| 0 <= a < t && rt[a] == id;
                    assert(rm[a] == rm[t as int]);
                }
            }
            assert(before.indices().contains_key(id.0));
            before.lemma_wf();
            o.lemma_wf();
        }
        let _ = graph.remove_node(id);
        proof {
            let idx = before.indices()[id.0];
            assert(before.lookup(id) == o.lookup(id));
            assert(before.nodes()[idx].is_placeholder_spec());
            assert(rt1 =~= rt.push(id));
            assert forall|k: u64| #[trigger] graph.indices().contains_key(k) <==> (o.indices().contains_key(k)
                && !rt1.contains(NodeId(k))) by {
                if NodeId(k) == id {
                    assert(rt1[t as int] == id);
                }
                if rt1.contains(NodeId(k)) && NodeId(k) != id {
                    let a = choose|a: int| 0 <= a < t + 1 && rt1[a] == NodeId(k);
                    assert(rt[a] == NodeId(k));
                }
                if rt.contains(NodeId(k)) {
                    let a = choose|a: int| 0 <= a < t && rt[a] == NodeId(k);
                    assert(rt1[a] == NodeId(k));
                }
            }
            assert forall|k: u64| #[trigger] graph.indices().contains_key(k) implies graph.lookup(NodeId(k)) == o.lookup(NodeId(k)) by {
                assert(before.indices().contains_key(k));
                assert(before.indices()[k] != idx);
            }
            assert(graph.indices().dom() =~= before.indices().dom().remove(id.0));
            assert forall|x: u32| #[trigger] o.edges().contains_key(x) && !o.nodes()[o.edges()[x].0].is_placeholder_spec()
                && !o.nodes()[o.edges()[x].1].is_placeholder_spec() implies graph.edges().contains_key(x) && graph.edges()[x]
                == o.edges()[x] by {
                assert(before.edges().contains_key(x));
                assert(o.nodes().contains_key(idx));
            }
            assert forall|x: u32| #[trigger] graph.edges().contains_key(x) implies g1.edges().contains_key(x) && graph.edges()[x] == g1.edges()[x] by {
                assert(before.edges().contains_key(x));
            }
            assert forall|x: u32| #[trigger] g1.edges().contains_key(x) && avoids(o, rm, g1.edges()[x]) implies graph.edges().contains_key(x)
                && graph.edges()[x] == g1.edges()[x] by {
                assert(o.indices()[rm[t as int].0] != g1.edges()[x].0);
                assert(before.indices()[id.0] == o.indices()[id.0]);
            }
            assert forall|x: u32| #[trigger] graph.edges().contains_key(x) implies graph.edges()[x].2 == o.edges()[x].2 by {
                assert(before.edges().contains_key(x));
            }
        }
        t = t + 1;
    }
    proof {
        assert(rm.take(rm.len() as int) =~= rm);
        assert(rem.take(rem.len() as int) =~= rem);
        assert forall|k: u64| #[trigger] unresolved_ph(o, ids, k) implies exists|k2: u64| #[trigger] kept_like(o, k, k2)
            && !rm.contains(NodeId(k2)) by {
            assert(rem.contains(NodeId(k)));
            let m = choose|m: int| 0 <= m < rem.len() && rem[m] == NodeId(k);
            assert(!resolved_ids.contains(NodeId(k))) by {
                if resolved_ids.contains(NodeId(k)) {
                    let t = choose|t: int| 0 <= t < resolved_ids.len() && resolved_ids[t] == NodeId(k);
                    assert(resolves(o, ids, resolved_ids[t]));
                }
            }
            assert(o.lookup(rem[m]) is Some);
            let a = choose|a: int| 0 <= a < seen@.len() && (#[trigger] seen@[a]).0@ == o.lookup(rem[m])->0.name_spec().shown();
            let v = seen@[a].1;
            assert(rem.take(rem.len() as int).contains(v));
            assert(rem.contains(v));
            assert(o.indices().contains_key(v.0));
            assert(kept_like(o, k, v.0));
            assert(!rm.contains(v));
        }
        lemma_link_done(o, *graph, ids, g1.edges(), rm);
        assert(lists_ids(o, ids));
        lemma_count_named(o, ids);
        let s = Set::new(
            |k: u64| ids.contains(NodeId(k)) && o.lookup(NodeId(k)) is Some && named_placeholder(o.lookup(NodeId(k))->0),
        );
        assert(s =~= named_placeholders(o));
        assert forall|k: u64| #[trigger] graph.indices().contains_key(k) && named_placeholder(
            graph.lookup(NodeId(k))->0,
        ) implies no_definition(o, k, graph.lookup(NodeId(k))->0) by {
            assert(ids.contains(NodeId(k)));
            let m = choose|m: int| 0 <= m < ids.len() && ids[m] == NodeId(k);
            if resolved_ids.contains(NodeId(k)) {
                let a = choose|a: int| 0 <= a < resolved_ids.len() && resolved_ids[a] == NodeId(k);
                assert(rm[a] == NodeId(k));
                assert(rm.contains(NodeId(k)));
            }
        }
        assert forall|k1: u64, k2: u64|
            #![trigger graph.indices().contains_key(k1), graph.indices().contains_key(k2)]
            graph.indices().contains_key(k1) && graph.indices().contains_key(k2) && k1 != k2
                && graph.lookup(NodeId(k1))->0.is_placeholder_spec() && graph.lookup(NodeId(k2))->0.is_placeholder_spec()
            implies graph.lookup(NodeId(k1))->0.name_spec().shown() != graph.lookup(NodeId(k2))->0.name_spec().shown() by {
            assert(rem.contains(NodeId(k1)));
            assert(rem.contains(NodeId(k2)));
            let m1 = choose|m: int| 0 <= m < rem.len() && rem[m] == NodeId(k1);
            let m2 = choose|m: int| 0 <= m < rem.len() && rem[m] == NodeId(k2);
            assert(o.lookup(rem[m1]) is Some && o.lookup(rem[m2]) is Some);
            let a1 = choose|a: int| 0 <= a < seen@.len() && (#[trigger] seen@[a]).1 == rem[m1];
            let a2 = choose|a: int| 0 <= a < seen@.len() && (#[trigger] seen@[a]).1 == rem[m2];
            assert(a1 != a2);
        }
    }
    result
}

} // verus!
