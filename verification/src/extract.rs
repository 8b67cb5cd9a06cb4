//! What the language frontends build while they read a syntax tree: the IR
//! nodes and edges of a file, as plain values, and the state a frontend
//! carries through the tree (the nodes and edges so far, the enclosing
//! names, the names seen, the enclosing container, the next id).

use vstd::prelude::*;
use crate::edge::{CallCondition, CallEdge, ContainsEdge, ImplementsEdge, UsirEdge};
use crate::ir::{NodeId, QualifiedName, SourceSpan, Visibility};
use crate::node::{DataTypeKind, Field, Param, UsirNode};
use crate::syntax::SyntaxNode;
use crate::text::views;
use crate::types::{tmodel, tmodels, TypeModel, TypeRef};

verus! {

pub type SpanV = (Seq<char>, usize, usize, u32, u32, u32, u32);

pub type ParamV = (Seq<char>, Option<TypeModel>, bool);

pub type FieldV = (Seq<char>, Option<TypeModel>, Visibility);

pub type ImportV = (Seq<char>, Seq<Seq<char>>, bool);

/// An IR node as plain values.
pub enum NodeModel {
    Function {
        id: NodeId,
        name: Seq<Seq<char>>,
        params: Seq<ParamV>,
        ret: Option<TypeModel>,
        vis: Visibility,
        is_async: bool,
        is_unsafe: bool,
        span: SpanV,
        complexity: Option<u32>,
    },
    DataType {
        id: NodeId,
        name: Seq<Seq<char>>,
        kind: DataTypeKind,
        fields: Seq<FieldV>,
        methods: Seq<NodeId>,
        implements: Seq<TypeModel>,
        vis: Visibility,
        span: SpanV,
    },
    Module { id: NodeId, name: Seq<Seq<char>>, exports: Seq<NodeId>, imports: Seq<ImportV>, span: SpanV },
    Endpoint { id: NodeId },
    Binding {
        id: NodeId,
        name: Seq<Seq<char>>,
        type_ref: Option<TypeModel>,
        is_mutable: bool,
        is_constant: bool,
        vis: Visibility,
        span: SpanV,
    },
}

/// The condition under which a call happens, as a plain value.
pub enum CondModel {
    Conditional(Seq<char>),
    InLoop,
    ErrorPath,
    Fallible,
}

/// An IR edge as plain values.
pub enum EdgeModel {
    Calls { caller: NodeId, callee: NodeId, site: SpanV, cond: Option<CondModel>, dynamic: bool },
    Contains { parent: NodeId, child: NodeId },
    Implements { implementor: NodeId, interface: NodeId },
    Other,
}

pub open spec fn span_model(s: SourceSpan) -> SpanV {
    (s.file@, s.start_byte, s.end_byte, s.start_line, s.start_col, s.end_line, s.end_col)
}

pub open spec fn opt_type(t: Option<TypeRef>) -> Option<TypeModel> {
    match t {
        Some(x) => Some(tmodel(x)),
        None => None,
    }
}

pub open spec fn param_model(p: Param) -> ParamV {
    (p.name@, opt_type(p.type_ref), p.has_default)
}

pub open spec fn field_model(f: Field) -> FieldV {
    (f.name@, opt_type(f.type_ref), f.visibility)
}

pub open spec fn cond_model(c: CallCondition) -> CondModel {
    match c {
        CallCondition::Conditional(s) => CondModel::Conditional(s@),
        CallCondition::InLoop => CondModel::InLoop,
        CallCondition::ErrorPath => CondModel::ErrorPath,
        CallCondition::Fallible => CondModel::Fallible,
    }
}

pub open spec fn opt_cond(c: Option<CallCondition>) -> Option<CondModel> {
    match c {
        Some(x) => Some(cond_model(x)),
        None => None,
    }
}

pub open spec fn node_model(n: UsirNode) -> NodeModel {
    match n {
        UsirNode::Function(f) => NodeModel::Function {
            id: f.id,
            name: f.name.segs(),
            params: f.params@.map_values(|p: Param| param_model(p)),
            ret: opt_type(f.return_type),
            vis: f.visibility,
            is_async: f.is_async,
            is_unsafe: f.is_unsafe,
            span: span_model(f.span),
            complexity: f.complexity,
        },
        UsirNode::DataType(d) => NodeModel::DataType {
            id: d.id,
            name: d.name.segs(),
            kind: d.kind,
            fields: d.fields@.map_values(|f: Field| field_model(f)),
            methods: d.methods@,
            implements: tmodels(d.implements@),
            vis: d.visibility,
            span: span_model(d.span),
        },
        UsirNode::Module(m) => NodeModel::Module {
            id: m.id,
            name: m.name.segs(),
            exports: m.exports@,
            imports: m.imports@.map_values(|i: crate::node::Import| (i.source@, views(i.symbols@), i.is_wildcard)),
            span: span_model(m.span),
        },
        UsirNode::ApiEndpoint(a) => NodeModel::Endpoint { id: a.id },
        UsirNode::Binding(b) => NodeModel::Binding {
            id: b.id,
            name: b.name.segs(),
            type_ref: opt_type(b.type_ref),
            is_mutable: b.is_mutable,
            is_constant: b.is_constant,
            vis: b.visibility,
            span: span_model(b.span),
        },
    }
}

pub open spec fn edge_model(e: UsirEdge) -> EdgeModel {
    match e {
        UsirEdge::Calls(c) => EdgeModel::Calls {
            caller: c.caller,
            callee: c.callee,
            site: span_model(c.call_site),
            cond: opt_cond(c.condition),
            dynamic: c.is_dynamic,
        },
        UsirEdge::Contains(c) => EdgeModel::Contains { parent: c.parent, child: c.child },
        UsirEdge::Implements(i) => EdgeModel::Implements { implementor: i.implementor, interface: i.interface },
        _ => EdgeModel::Other,
    }
}

pub open spec fn nodes_model(v: Seq<UsirNode>) -> Seq<NodeModel> {
    v.map_values(|n: UsirNode| node_model(n))
}

pub open spec fn edges_model(v: Seq<UsirEdge>) -> Seq<EdgeModel> {
    v.map_values(|e: UsirEdge| edge_model(e))
}

// ─── Positions ─────────────────────────────────────────────────

/// A row from zero as a line from one, in 32 bits (wrapping).
pub open spec fn line_of(row: usize) -> u32 {
    if (row as u32) == u32::MAX { 0 } else { ((row as u32) + 1) as u32 }
}

/// Where a syntax node lies in the file at `path`.
pub open spec fn span_at(path: Seq<char>, n: SyntaxNode) -> SpanV {
    (path, n.start_byte, n.end_byte, line_of(n.start_row), n.start_col as u32, line_of(n.end_row), n.end_col as u32)
}

/// Where a syntax node lies in the file at `path` (see `span_at`).
pub fn span_of(path: &str, n: &SyntaxNode) -> (r: SourceSpan)
    ensures
        span_model(r) == span_at(path@, *n),
{
    let sr = n.start_row as u32;
    let er = n.end_row as u32;
    SourceSpan {
        file: String::from_str(path),
        start_byte: n.start_byte,
        end_byte: n.end_byte,
        start_line: if sr == u32::MAX { 0 } else { sr + 1 },
        start_col: n.start_col as u32,
        end_line: if er == u32::MAX { 0 } else { er + 1 },
        end_col: n.end_col as u32,
    }
}

// ─── Names seen ────────────────────────────────────────────────

/// The names seen so far, each with the id it was last given.
pub open spec fn names_map(s: Seq<(Seq<char>, NodeId)>) -> Map<Seq<char>, NodeId>
    decreases s.len(),
{
    if s.len() == 0 {
        Map::empty()
    } else {
        names_map(s.drop_last()).insert(s.last().0, s.last().1)
    }
}

pub open spec fn names_view(v: Seq<(String, NodeId)>) -> Seq<(Seq<char>, NodeId)> {
    v.map_values(|e: (String, NodeId)| (e.0@, e.1))
}

proof fn lemma_names_tail(s: Seq<(Seq<char>, NodeId)>, i: int, k: Seq<char>)
    requires
        0 <= i <= s.len(),
        forall|j: int| i <= j < s.len() ==> s[j].0 != k,
    ensures
        names_map(s).contains_key(k) == names_map(s.take(i)).contains_key(k),
        names_map(s).contains_key(k) ==> names_map(s)[k] == names_map(s.take(i))[k],
    decreases s.len() - i,
{
    if i < s.len() {
        lemma_names_tail(s.drop_last(), i, k);
        assert(s.drop_last().take(i) =~= s.take(i));
    } else {
        assert(s.take(i) =~= s);
    }
}

// ─── The state carried through a tree ──────────────────────────

/// What a frontend has built and knows while it reads a tree.
pub struct Extraction {
    pub nodes: Vec<UsirNode>,
    pub edges: Vec<UsirEdge>,
    /// The names of the enclosing modules, classes and impls.
    pub scope: Vec<String>,
    /// The names seen, in the order seen (a later entry overrides).
    pub names: Vec<(String, NodeId)>,
    /// The enclosing class or module, if any.
    pub container: Option<NodeId>,
    /// The next node id to hand out.
    pub next_id: u64,
}

/// The state as plain values.
pub struct ExtModel {
    pub nodes: Seq<NodeModel>,
    pub edges: Seq<EdgeModel>,
    pub scope: Seq<Seq<char>>,
    pub names: Map<Seq<char>, NodeId>,
    pub container: Option<NodeId>,
    pub next_id: u64,
}

impl Extraction {
    pub open spec fn model(&self) -> ExtModel {
        ExtModel {
            nodes: nodes_model(self.nodes@),
            edges: edges_model(self.edges@),
            scope: views(self.scope@),
            names: names_map(names_view(self.names@)),
            container: self.container,
            next_id: self.next_id,
        }
    }

    /// A fresh state that hands out ids from `next_id`.
    pub fn new(next_id: u64) -> (r: Self)
        ensures
            r.model() == (ExtModel {
                nodes: Seq::empty(),
                edges: Seq::empty(),
                scope: Seq::empty(),
                names: Map::empty(),
                container: None,
                next_id,
            }),
    {
        let r = Extraction {
            nodes: Vec::new(),
            edges: Vec::new(),
            scope: Vec::new(),
            names: Vec::new(),
            container: None,
            next_id,
        };
        proof {
            assert(r.model().nodes =~= Seq::<NodeModel>::empty());
            assert(r.model().edges =~= Seq::<EdgeModel>::empty());
            assert(r.model().scope =~= Seq::<Seq<char>>::empty());
            assert(names_view(r.names@) =~= Seq::<(Seq<char>, NodeId)>::empty());
        }
        r
    }

    /// Hands out the next id (the counter wraps as an atomic counter does).
    pub fn fresh_id(&mut self) -> (r: NodeId)
        ensures
            r == NodeId(old(self).next_id),
            final(self).model() == alloc_model(old(self).model()),
    {
        let id = NodeId(self.next_id);
        self.next_id = if self.next_id == u64::MAX { 0 } else { self.next_id + 1 };
        id
    }

    pub fn push_node(&mut self, n: UsirNode)
        ensures
            final(self).model() == with_node(old(self).model(), node_model(n)),
    {
        self.nodes.push(n);
        proof {
            assert(nodes_model(self.nodes@) =~= nodes_model(old(self).nodes@).push(node_model(n)));
        }
    }

    pub fn push_edge(&mut self, e: UsirEdge)
        ensures
            final(self).model() == with_edge(old(self).model(), edge_model(e)),
    {
        self.edges.push(e);
        proof {
            assert(edges_model(self.edges@) =~= edges_model(old(self).edges@).push(edge_model(e)));
        }
    }

    /// Records that `name` stands for `id`.
    pub fn put_name(&mut self, name: String, id: NodeId)
        ensures
            final(self).model() == with_name(old(self).model(), name@, id),
    {
        let ghost k = name@;
        self.names.push((name, id));
        proof {
            assert(names_view(self.names@) =~= names_view(old(self).names@).push((k, id)));
            assert(names_view(self.names@).drop_last() =~= names_view(old(self).names@));
        }
    }

    /// The id that `name` last stood for.
    pub fn get_name(&self, name: &[char]) -> (r: Option<NodeId>)
        ensures
            r == (if self.model().names.contains_key(name@) {
                Some(self.model().names[name@])
            } else {
                None
            }),
    {
        let ghost s = names_view(self.names@);
        let mut i: usize = self.names.len();
        while i > 0
            invariant
                i <= self.names@.len(),
                s == names_view(self.names@),
                forall|j: int| i <= j < s.len() ==> s[j].0 != name@,
            decreases i,
        {
            if crate::text::str_eq(&self.names[i - 1].0, name) {
                proof {
                    lemma_names_tail(s, i as int, name@);
                    assert(s.take(i as int).drop_last() =~= s.take(i - 1));
                }
                return Some(self.names[i - 1].1);
            }
            i = i - 1;
        }
        proof {
            lemma_names_tail(s, 0, name@);
            assert(names_map(s.take(0)) =~= Map::<Seq<char>, NodeId>::empty());
        }
        None
    }

    pub fn push_scope(&mut self, name: String)
        ensures
            final(self).model() == with_scope(old(self).model(), old(self).model().scope.push(name@)),
    {
        self.scope.push(name);
        proof {
            assert(views(self.scope@) =~= views(old(self).scope@).push(name@));
        }
    }

    pub fn pop_scope(&mut self)
        ensures
            final(self).model() == with_scope(old(self).model(), popped(old(self).model().scope)),
    {
        if self.scope.len() > 0 {
            self.scope.pop();
            proof {
                assert(views(self.scope@) =~= views(old(self).scope@).drop_last());
            }
        }
    }

    pub fn set_container(&mut self, c: Option<NodeId>)
        ensures
            final(self).model() == with_container(old(self).model(), c),
    {
        self.container = c;
    }

    /// The name `name` inside the enclosing scope.
    pub fn qualified(&self, name: &String) -> (r: QualifiedName)
        ensures
            r.segs() == self.model().scope.push(name@),
    {
        let mut segs = crate::text::copy_strings(&self.scope);
        let ghost before = segs@;
        segs.push(crate::text::copy_string(name));
        proof {
            assert(views(segs@) =~= views(before).push(name@));
        }
        QualifiedName { segments: segs }
    }
}

pub open spec fn alloc_model(m: ExtModel) -> ExtModel {
    ExtModel {
        nodes: m.nodes,
        edges: m.edges,
        scope: m.scope,
        names: m.names,
        container: m.container,
        next_id: if m.next_id == u64::MAX { 0 } else { (m.next_id + 1) as u64 },
    }
}

pub open spec fn with_node(m: ExtModel, n: NodeModel) -> ExtModel {
    ExtModel {
        nodes: m.nodes.push(n),
        edges: m.edges,
        scope: m.scope,
        names: m.names,
        container: m.container,
        next_id: m.next_id,
    }
}

pub open spec fn with_edge(m: ExtModel, e: EdgeModel) -> ExtModel {
    ExtModel {
        nodes: m.nodes,
        edges: m.edges.push(e),
        scope: m.scope,
        names: m.names,
        container: m.container,
        next_id: m.next_id,
    }
}

pub open spec fn with_name(m: ExtModel, k: Seq<char>, id: NodeId) -> ExtModel {
    ExtModel {
        nodes: m.nodes,
        edges: m.edges,
        scope: m.scope,
        names: m.names.insert(k, id),
        container: m.container,
        next_id: m.next_id,
    }
}

pub open spec fn with_scope(m: ExtModel, scope: Seq<Seq<char>>) -> ExtModel {
    ExtModel {
        nodes: m.nodes,
        edges: m.edges,
        scope,
        names: m.names,
        container: m.container,
        next_id: m.next_id,
    }
}

/// A scope without its innermost name (unchanged when empty).
pub open spec fn popped(s: Seq<Seq<char>>) -> Seq<Seq<char>> {
    if s.len() > 0 { s.drop_last() } else { s }
}

pub open spec fn with_container(m: ExtModel, c: Option<NodeId>) -> ExtModel {
    ExtModel {
        nodes: m.nodes,
        edges: m.edges,
        scope: m.scope,
        names: m.names,
        container: c,
        next_id: m.next_id,
    }
}

/// The id `name` last stood for, if any.
pub open spec fn name_of(m: ExtModel, name: Seq<char>) -> Option<NodeId> {
    if m.names.contains_key(name) { Some(m.names[name]) } else { None }
}

/// A placeholder for a called function that the file does not define: the
/// bare name, no parameters, private, with no complexity.
pub open spec fn placeholder(id: NodeId, name: Seq<char>, span: SpanV) -> NodeModel {
    NodeModel::Function {
        id,
        name: seq![name],
        params: Seq::empty(),
        ret: None,
        vis: Visibility::Private,
        is_async: false,
        is_unsafe: false,
        span,
        complexity: None,
    }
}

/// A placeholder node (see `placeholder`).
pub fn placeholder_node(id: NodeId, name: &String, span: SourceSpan) -> (r: UsirNode)
    ensures
        node_model(r) == placeholder(id, name@, span_model(span)),
{
    let segs = vec![crate::text::copy_string(name)];
    let params: Vec<Param> = Vec::new();
    proof {
        assert(views(segs@) =~= seq![name@]);
        assert(params@.map_values(|p: Param| param_model(p)) =~= Seq::<ParamV>::empty());
    }
    UsirNode::Function(crate::node::FunctionNode {
        id,
        name: QualifiedName { segments: segs },
        params,
        return_type: None,
        visibility: Visibility::Private,
        is_async: false,
        is_unsafe: false,
        span,
        complexity: None,
    })
}

/// The node kind is one of `kinds`.
pub open spec fn kind_in(n: SyntaxNode, kinds: Seq<Seq<char>>) -> bool {
    kinds.contains(n.kind@)
}

/// Whether a node's kind is one of `kinds` (see `kind_in`).
pub fn kind_among(n: &SyntaxNode, kinds: &Vec<Vec<char>>) -> (r: bool)
    ensures
        r == kind_in(*n, crate::text::vviews(kinds@)),
{
    let k = crate::text::chars_of(n.kind.as_str());
    let mut i: usize = 0;
    while i < kinds.len()
        invariant
            i <= kinds@.len(),
            k@ == n.kind@,
            forall|j: int| 0 <= j < i ==> crate::text::vviews(kinds@)[j] != n.kind@,
        decreases kinds@.len() - i,
    {
        proof {
            assert(crate::text::vviews(kinds@)[i as int] == kinds@[i as int]@);
        }
        if crate::text::eq_chars(k.as_slice(), kinds[i].as_slice()) {
            proof {
                assert(crate::text::vviews(kinds@).contains(n.kind@));
            }
            return true;
        }
        i = i + 1;
    }
    false
}

/// Whether a node is of kind `k`.
pub fn kind_is(n: &SyntaxNode, k: &str) -> (r: bool)
    ensures
        r == (n.kind@ == k@),
{
    crate::text::str_eq(&n.kind, crate::text::chars_of(k).as_slice())
}

// ─── Complexity ────────────────────────────────────────────────

/// The nodes of the tree under `n`, `n` included, whose kind is one of
/// `kinds`.
pub open spec fn decisions(n: SyntaxNode, kinds: Seq<Seq<char>>) -> nat
    decreases n,
{
    (if kinds.contains(n.kind@) { 1nat } else { 0nat }) + decisions_list(n.children@, kinds)
}

pub open spec fn decisions_list(cs: Seq<SyntaxNode>, kinds: Seq<Seq<char>>) -> nat
    decreases cs,
{
    if cs.len() == 0 {
        0
    } else {
        decisions(cs[0], kinds) + decisions_list(cs.drop_first(), kinds)
    }
}

/// A count kept in 32 bits, wrapping.
pub open spec fn wrap32(x: int) -> u32 {
    (x % 0x1_0000_0000) as u32
}

/// Cyclomatic complexity: one, plus one for each decision point.
pub open spec fn complexity_of(n: SyntaxNode, kinds: Seq<Seq<char>>) -> u32 {
    wrap32(1 + decisions(n, kinds) as int)
}

proof fn lemma_wrap32(a: int, b: int)
    requires
        a >= 0,
        b >= 0,
    ensures
        wrap32(wrap32(a) + b) == wrap32(a + b),
{
    let m: int = 0x1_0000_0000;
    assert(0 <= a % m < m);
    assert(wrap32(a) as int == a % m);
    vstd::arithmetic::div_mod::lemma_add_mod_noop_right(b, a, m);
}

fn count_decisions(n: &SyntaxNode, kinds: &Vec<Vec<char>>, c: &mut u32)
    ensures
        *final(c) == wrap32(*old(c) + decisions(*n, crate::text::vviews(kinds@)) as int),
    decreases n,
{
    let ghost kv = crate::text::vviews(kinds@);
    let ghost c0 = *c as int;
    if kind_among(n, kinds) {
        proof {
            lemma_wrap32(c0, 0);
        }
        *c = if *c == u32::MAX { 0 } else { *c + 1 };
    } else {
        proof {
            assert(wrap32(c0) == *c) by {
                assert(c0 % 0x1_0000_0000 == c0);
            }
        }
    }
    let ghost own: int = if kv.contains(n.kind@) { 1 } else { 0 };
    let ghost target = wrap32(c0 + decisions(*n, kv) as int);
    proof {
        lemma_wrap32(c0 + own, decisions_list(n.children@, kv) as int);
        assert(*c == wrap32(c0 + own));
        assert(n.children@.skip(0) =~= n.children@);
    }
    let mut i: usize = 0;
    while i < n.children.len()
        invariant
            i <= n.children@.len(),
            kv == crate::text::vviews(kinds@),
            target == wrap32(*c + decisions_list(n.children@.skip(i as int), kv) as int),
        decreases n.children@.len() - i,
    {
        let ghost before = *c as int;
        let ghost rest = n.children@.skip(i as int);
        proof {
            assert(rest[0] == n.children@[i as int]);
            assert(rest.drop_first() =~= n.children@.skip(i + 1));
        }
        count_decisions(&n.children[i], kinds, c);
        proof {
            let d = decisions(n.children@[i as int], kv) as int;
            let l = decisions_list(n.children@.skip(i + 1), kv) as int;
            lemma_wrap32(before + d, l);
        }
        i = i + 1;
    }
    proof {
        assert(n.children@.skip(i as int) =~= Seq::<SyntaxNode>::empty());
        assert(*c as int % 0x1_0000_0000 == *c as int);
    }
}

/// Cyclomatic complexity (see `complexity_of`).
pub fn complexity(n: &SyntaxNode, kinds: &Vec<Vec<char>>) -> (r: u32)
    ensures
        r == complexity_of(*n, crate::text::vviews(kinds@)),
{
    let mut c: u32 = 1;
    count_decisions(n, kinds, &mut c);
    c
}

} // verus!
