//! The Rust frontend's reading of a syntax tree: functions, structs with
//! their fields, enums, traits with their methods, impl blocks (their
//! methods, and an implements edge for a trait impl), modules, constants
//! and statics, and the calls each function makes.

use vstd::prelude::*;
use crate::edge::{CallCondition, CallEdge, ContainsEdge, ImplementsEdge, UsirEdge};
use crate::extract::{
    alloc_model, complexity, complexity_of, edge_model, field_model, name_of, node_model, opt_cond, opt_type,
    param_model, placeholder, placeholder_node, popped, span_at, span_of, with_container, with_edge, with_name,
    with_node, with_scope, CondModel, EdgeModel, ExtModel, Extraction, FieldV, NodeModel, ParamV,
};
use crate::frontend::ParseResult;
use crate::ir::{NodeId, QualifiedName, Visibility};
use crate::node::{BindingNode, DataTypeKind, DataTypeNode, Field, FunctionNode, ModuleNode, Param, UsirNode};
use crate::rustlang::{parse_type_str, rust_type};
use crate::syntax::{
    field_index, field_position, field_text, field_text_or_default, field_text_or_empty, text_of_field,
    text_or_default, text_or_empty, SyntaxNode,
};
use crate::text::{chars_of, contains, contains_exec, lit, starts_with, starts_with_exec, vviews};
use crate::types::{TypeModel, TypeRef};

verus! {

/// The decision points of Rust code.
pub open spec fn rs_decision_kinds() -> Seq<Seq<char>> {
    seq![
        "if_expression"@, "else_clause"@, "while_expression"@, "for_expression"@, "match_arm"@, "&&"@,
        "||"@,
    ]
}

fn decision_kinds() -> (r: Vec<Vec<char>>)
    ensures
        vviews(r@) == rs_decision_kinds(),
{
    let r = vec![
        lit("if_expression"), lit("else_clause"), lit("while_expression"), lit("for_expression"),
        lit("match_arm"), lit("&&"), lit("||"),
    ];
    proof {
        assert(vviews(r@) =~= rs_decision_kinds());
    }
    r
}

// ─── Parts of items ────────────────────────────────────────────

/// A type annotation under field `f`, as a type.
pub open spec fn rs_field_type(n: SyntaxNode, f: Seq<char>, source: Seq<u8>) -> Option<TypeModel> {
    match field_text(n, f, source) {
        Some(t) => Some(rust_type(t)),
        None => None,
    }
}

fn field_type_exec(n: &SyntaxNode, f: &str, source: &[u8]) -> (r: Option<TypeRef>)
    ensures
        opt_type(r) == rs_field_type(*n, f@, source@),
{
    match text_of_field(n, f, source) {
        Some(t) => Some(parse_type_str(t.as_str())),
        None => None,
    }
}

/// The visibility a modifier's text gives.
pub open spec fn rs_vis_text(t: Seq<char>) -> Visibility {
    if contains(t, "pub(crate)"@) {
        Visibility::Internal
    } else if contains(t, "pub(super)"@) {
        Visibility::Protected
    } else if starts_with(t, "pub"@) {
        Visibility::Public
    } else {
        Visibility::Private
    }
}

/// No text occurs inside `s` at or after `from` when its character at
/// `k` occurs nowhere there.
proof fn lemma_absent_char(s: Seq<char>, p: Seq<char>, k: int, from: int)
    requires
        0 <= k < p.len(),
        0 <= from,
        forall|i: int| from <= i < s.len() ==> s[i] != p[k],
    ensures
        forall|j: int| from <= j ==> !crate::text::match_at(s, p, j),
{
    assert forall|j: int| from <= j implies !crate::text::match_at(s, p, j) by {
        if crate::text::match_at(s, p, j) {
            assert(s.subrange(j, j + p.len())[k] == s[j + k]);
        }
    }
}

/// With a modifier text `pub…`, `pub(crate)…` or `pub(super)…` (the rest
/// without parentheses) an item is public, crate-internal or visible to
/// the parent module; with any other text without parentheses, private.
pub proof fn law_rust_visibility(x: Seq<char>)
    requires
        forall|i: int| 0 <= i < x.len() ==> #[trigger] x[i] != '(',
    ensures
        rs_vis_text("pub"@ + x) == Visibility::Public,
        rs_vis_text("pub(crate)"@ + x) == Visibility::Internal,
        rs_vis_text("pub(super)"@ + x) == Visibility::Protected,
        !starts_with(x, "pub"@) ==> rs_vis_text(x) == Visibility::Private,
{
    reveal_strlit("pub");
    reveal_strlit("pub(crate)");
    reveal_strlit("pub(super)");
    let pc = "pub(crate)"@;
    let ps = "pub(super)"@;
    let a = "pub"@ + x;
    assert(starts_with(a, "pub"@)) by {
        assert(a.subrange(0, 3) =~= "pub"@);
    }
    // `a` holds no parenthesis, so neither longer modifier occurs in it
    lemma_absent_char(a, pc, 3, 0);
    lemma_absent_char(a, ps, 3, 0);
    crate::text::lemma_find_bounds(a, pc);
    crate::text::lemma_find_bounds(a, ps);
    let b = pc + x;
    assert(crate::text::match_at(b, pc, 0)) by {
        assert(b.subrange(0, 10) =~= pc);
    }
    crate::text::lemma_find_at(b, pc, 0);
    let c = ps + x;
    assert(crate::text::match_at(c, ps, 0)) by {
        assert(c.subrange(0, 10) =~= ps);
    }
    crate::text::lemma_find_at(c, ps, 0);
    assert forall|j: int| 0 <= j implies !crate::text::match_at(c, pc, j) by {
        if crate::text::match_at(c, pc, j) {
            if j == 0 {
                assert(c.subrange(0, 10)[4] == c[4]);
            } else {
                assert(c.subrange(j, j + 10)[3] == c[j + 3]);
                assert(j + 3 >= 4);
                if j + 3 < 10 {
                    assert(c[j + 3] == ps[j + 3]);
                } else {
                    assert(c[j + 3] == x[j + 3 - 10]);
                }
            }
        }
    }
    crate::text::lemma_find_bounds(c, pc);
    lemma_absent_char(x, pc, 3, 0);
    lemma_absent_char(x, ps, 3, 0);
    crate::text::lemma_find_bounds(x, pc);
    crate::text::lemma_find_bounds(x, ps);
}

/// The visibility of the first modifier among `cs`; private without one.
pub open spec fn rs_vis_in(cs: Seq<SyntaxNode>, source: Seq<u8>) -> Visibility
    decreases cs.len(),
{
    if cs.len() == 0 {
        Visibility::Private
    } else if cs[0].kind@ == "visibility_modifier"@ {
        rs_vis_text(text_or_empty(cs[0], source))
    } else {
        rs_vis_in(cs.drop_first(), source)
    }
}

pub open spec fn rs_visibility(n: SyntaxNode, source: Seq<u8>) -> Visibility {
    rs_vis_in(n.children@, source)
}

fn visibility_exec(n: &SyntaxNode, source: &[u8]) -> (r: Visibility)
    ensures
        r == rs_visibility(*n, source@),
{
    let ghost cs = n.children@;
    let mut i: usize = 0;
    proof {
        assert(cs.skip(0) =~= cs);
    }
    while i < n.children.len()
        invariant
            i <= cs.len(),
            cs == n.children@,
            rs_visibility(*n, source@) == rs_vis_in(cs.skip(i as int), source@),
        decreases cs.len() - i,
    {
        proof {
            assert(cs.skip(i as int)[0] == cs[i as int]);
            assert(cs.skip(i as int).drop_first() =~= cs.skip(i + 1));
        }
        if crate::extract::kind_is(&n.children[i], "visibility_modifier") {
            let t = chars_of(text_or_default(&n.children[i], source).as_str());
            return if contains_exec(t.as_slice(), lit("pub(crate)").as_slice()) {
                Visibility::Internal
            } else if contains_exec(t.as_slice(), lit("pub(super)").as_slice()) {
                Visibility::Protected
            } else if starts_with_exec(t.as_slice(), lit("pub").as_slice()) {
                Visibility::Public
            } else {
                Visibility::Private
            };
        }
        i = i + 1;
    }
    proof {
        assert(cs.skip(i as int) =~= Seq::<SyntaxNode>::empty());
    }
    Visibility::Private
}

/// What a child of a parameter list declares: a parameter (named by its
/// pattern), or `self`.
pub open spec fn rs_param(c: SyntaxNode, source: Seq<u8>) -> Option<ParamV> {
    if c.kind@ == "parameter"@ {
        Some((field_text_or_empty(c, "pattern"@, source), rs_field_type(c, "type"@, source), false))
    } else if c.kind@ == "self_parameter"@ {
        Some(("self"@, Some(TypeModel::Unresolved("Self"@)), false))
    } else {
        None
    }
}

pub open spec fn rs_params_in(cs: Seq<SyntaxNode>, source: Seq<u8>) -> Seq<ParamV>
    decreases cs.len(),
{
    if cs.len() == 0 {
        Seq::empty()
    } else {
        let prev = rs_params_in(cs.drop_last(), source);
        match rs_param(cs.last(), source) {
            Some(p) => prev.push(p),
            None => prev,
        }
    }
}

/// The parameters of a function item, in order.
pub open spec fn rs_params(n: SyntaxNode, source: Seq<u8>) -> Seq<ParamV> {
    match field_index(n, "parameters"@) {
        Some(i) => rs_params_in(n.children@[i].children@, source),
        None => Seq::empty(),
    }
}

fn param_exec(c: &SyntaxNode, source: &[u8]) -> (r: Option<Param>)
    ensures
        match r {
            Some(p) => rs_param(*c, source@) == Some(param_model(p)),
            None => rs_param(*c, source@) is None,
        },
{
    if crate::extract::kind_is(c, "parameter") {
        Some(Param {
            name: field_text_or_default(c, "pattern", source),
            type_ref: field_type_exec(c, "type", source),
            has_default: false,
        })
    } else if crate::extract::kind_is(c, "self_parameter") {
        Some(Param {
            name: String::from_str("self"),
            type_ref: Some(TypeRef::Unresolved(String::from_str("Self"))),
            has_default: false,
        })
    } else {
        None
    }
}

/// The parameters of a function item (see `rs_params`).
pub fn extract_params(n: &SyntaxNode, source: &[u8]) -> (r: Vec<Param>)
    ensures
        r@.map_values(|p: Param| param_model(p)) == rs_params(*n, source@),
{
    let mut out: Vec<Param> = Vec::new();
    match field_position(n, "parameters") {
        Some(k) => {
            let cs = &n.children[k].children;
            let mut i: usize = 0;
            while i < cs.len()
                invariant
                    i <= cs@.len(),
                    out@.map_values(|p: Param| param_model(p)) == rs_params_in(cs@.take(i as int), source@),
                decreases cs@.len() - i,
            {
                proof {
                    assert(cs@.take(i + 1).drop_last() =~= cs@.take(i as int));
                    assert(cs@.take(i + 1).last() == cs@[i as int]);
                }
                let ghost before = out@;
                match param_exec(&cs[i], source) {
                    Some(p) => {
                        out.push(p);
                        proof {
                            assert(out@.map_values(|p: Param| param_model(p)) =~= before.map_values(
                                |p: Param| param_model(p),
                            ).push(param_model(p)));
                        }
                    },
                    None => {},
                }
                i = i + 1;
            }
            proof {
                assert(cs@.take(cs@.len() as int) =~= cs@);
            }
        },
        None => {
            proof {
                assert(out@.map_values(|p: Param| param_model(p)) =~= Seq::<ParamV>::empty());
            }
        },
    }
    out
}

pub open spec fn rs_fields_in(cs: Seq<SyntaxNode>, source: Seq<u8>) -> Seq<FieldV>
    decreases cs.len(),
{
    if cs.len() == 0 {
        Seq::empty()
    } else {
        let prev = rs_fields_in(cs.drop_last(), source);
        let c = cs.last();
        if c.kind@ == "field_declaration"@ {
            prev.push((field_text_or_empty(c, "name"@, source), rs_field_type(c, "type"@, source), rs_visibility(c, source)))
        } else {
            prev
        }
    }
}

/// The fields of a struct item, in order.
pub open spec fn rs_fields(n: SyntaxNode, source: Seq<u8>) -> Seq<FieldV> {
    match field_index(n, "body"@) {
        Some(i) => rs_fields_in(n.children@[i].children@, source),
        None => Seq::empty(),
    }
}

/// The fields of a struct item (see `rs_fields`).
pub fn extract_struct_fields(n: &SyntaxNode, source: &[u8]) -> (r: Vec<Field>)
    ensures
        r@.map_values(|f: Field| field_model(f)) == rs_fields(*n, source@),
{
    let mut out: Vec<Field> = Vec::new();
    match field_position(n, "body") {
        Some(k) => {
            let cs = &n.children[k].children;
            let mut i: usize = 0;
            while i < cs.len()
                invariant
                    i <= cs@.len(),
                    out@.map_values(|f: Field| field_model(f)) == rs_fields_in(cs@.take(i as int), source@),
                decreases cs@.len() - i,
            {
                proof {
                    assert(cs@.take(i + 1).drop_last() =~= cs@.take(i as int));
                    assert(cs@.take(i + 1).last() == cs@[i as int]);
                }
                let ghost before = out@;
                let c = &cs[i];
                if crate::extract::kind_is(c, "field_declaration") {
                    let f = Field {
                        name: field_text_or_default(c, "name", source),
                        type_ref: field_type_exec(c, "type", source),
                        visibility: visibility_exec(c, source),
                    };
                    out.push(f);
                    proof {
                        assert(out@.map_values(|f: Field| field_model(f)) =~= before.map_values(
                            |f: Field| field_model(f),
                        ).push(field_model(f)));
                    }
                }
                i = i + 1;
            }
            proof {
                assert(cs@.take(cs@.len() as int) =~= cs@);
            }
        },
        None => {
            proof {
                assert(out@.map_values(|f: Field| field_model(f)) =~= Seq::<FieldV>::empty());
            }
        },
    }
    out
}

/// Some child of `n` is of kind `k`.
pub open spec fn has_child_kind(n: SyntaxNode, k: Seq<char>) -> bool {
    exists|i: int| 0 <= i < n.children@.len() && (#[trigger] n.children@[i]).kind@ == k
}

fn has_child_kind_exec(n: &SyntaxNode, k: &str) -> (r: bool)
    ensures
        r == has_child_kind(*n, k@),
{
    let mut i: usize = 0;
    while i < n.children.len()
        invariant
            i <= n.children@.len(),
            forall|j: int| 0 <= j < i ==> (#[trigger] n.children@[j]).kind@ != k@,
        decreases n.children@.len() - i,
    {
        if crate::extract::kind_is(&n.children[i], k) {
            return true;
        }
        i = i + 1;
    }
    false
}

// ─── Calls ─────────────────────────────────────────────────────

/// The id a called name refers to: the last id given to that name, else a
/// new placeholder located at `at`.
pub open spec fn rs_resolve(m: ExtModel, name: Seq<char>, at: SyntaxNode, path: Seq<char>) -> (NodeId, ExtModel) {
    match name_of(m, name) {
        Some(id) => (id, m),
        None => {
            let id = NodeId(m.next_id);
            (id, with_node(with_name(alloc_model(m), name, id), placeholder(id, name, span_at(path, at))))
        },
    }
}

/// A call through field `f` of `n` (the function of a call, the method of a
/// method call): an edge to what the callee's text names.
pub open spec fn rs_call_edge(m: ExtModel, caller: NodeId, n: SyntaxNode, f: Seq<char>, cond: Option<CondModel>, dynamic: bool, path: Seq<char>, source: Seq<u8>) -> ExtModel {
    match field_index(n, f) {
        Some(i) => if 0 <= i < n.children@.len() {
            let c = n.children@[i];
            let name = text_or_empty(c, source);
            let (callee, m2) = rs_resolve(m, name, c, path);
            with_edge(m2, EdgeModel::Calls { caller, callee, site: span_at(path, n), cond, dynamic })
        } else {
            m
        },
        None => m,
    }
}

/// The calls made within the tree under `n` by the function `caller`:
/// calls (static) and method calls (dynamic); under an `if` or a `match`
/// conditional on its kind, under a loop in the loop, under `?` fallible.
pub open spec fn rs_calls(m: ExtModel, caller: NodeId, n: SyntaxNode, cond: Option<CondModel>, path: Seq<char>, source: Seq<u8>) -> ExtModel
    decreases n, 1nat,
{
    if n.kind@ == "call_expression"@ {
        rs_calls_in(rs_call_edge(m, caller, n, "function"@, cond, false, path, source), caller, n.children@, cond, path, source)
    } else if n.kind@ == "method_call_expression"@ {
        rs_calls_in(rs_call_edge(m, caller, n, "name"@, cond, true, path, source), caller, n.children@, cond, path, source)
    } else if n.kind@ == "if_expression"@ || n.kind@ == "match_expression"@ {
        rs_calls_in(m, caller, n.children@, Some(CondModel::Conditional(n.kind@)), path, source)
    } else if n.kind@ == "loop_expression"@ || n.kind@ == "while_expression"@ || n.kind@ == "for_expression"@ {
        rs_calls_in(m, caller, n.children@, Some(CondModel::InLoop), path, source)
    } else if n.kind@ == "try_expression"@ {
        rs_calls_in(m, caller, n.children@, Some(CondModel::Fallible), path, source)
    } else {
        rs_calls_in(m, caller, n.children@, cond, path, source)
    }
}

pub open spec fn rs_calls_in(m: ExtModel, caller: NodeId, cs: Seq<SyntaxNode>, cond: Option<CondModel>, path: Seq<char>, source: Seq<u8>) -> ExtModel
    decreases cs, 0nat,
{
    if cs.len() == 0 {
        m
    } else {
        rs_calls_in(rs_calls(m, caller, cs[0], cond, path, source), caller, cs.drop_first(), cond, path, source)
    }
}

fn cond_exec(c: &Option<CallCondition>) -> (r: Option<CallCondition>)
    ensures
        opt_cond(r) == opt_cond(*c),
{
    match c {
        Some(CallCondition::Conditional(s)) => Some(CallCondition::Conditional(crate::text::copy_string(s))),
        Some(CallCondition::InLoop) => Some(CallCondition::InLoop),
        Some(CallCondition::ErrorPath) => Some(CallCondition::ErrorPath),
        Some(CallCondition::Fallible) => Some(CallCondition::Fallible),
        None => None,
    }
}

fn call_edge_exec(
    st: &mut Extraction,
    caller: NodeId,
    n: &SyntaxNode,
    f: &str,
    cond: &Option<CallCondition>,
    dynamic: bool,
    path: &str,
    source: &[u8],
)
    ensures
        final(st).model() == rs_call_edge(old(st).model(), caller, *n, f@, opt_cond(*cond), dynamic, path@, source@),
{
    match field_position(n, f) {
        Some(k) => {
            let c = &n.children[k];
            let name = text_or_default(c, source);
            let callee = match st.get_name(chars_of(name.as_str()).as_slice()) {
                Some(id) => id,
                None => {
                    let id = st.fresh_id();
                    st.put_name(crate::text::copy_string(&name), id);
                    st.push_node(placeholder_node(id, &name, span_of(path, c)));
                    id
                },
            };
            st.push_edge(UsirEdge::Calls(CallEdge {
                caller,
                callee,
                call_site: span_of(path, n),
                condition: cond_exec(cond),
                is_dynamic: dynamic,
            }));
        },
        None => {},
    }
}

/// The calls made within a tree (see `rs_calls`).
pub fn visit_for_calls(
    st: &mut Extraction,
    caller: NodeId,
    n: &SyntaxNode,
    cond: Option<CallCondition>,
    path: &str,
    source: &[u8],
)
    ensures
        final(st).model() == rs_calls(old(st).model(), caller, *n, opt_cond(cond), path@, source@),
    decreases n, 1nat,
{
    if crate::extract::kind_is(n, "call_expression") {
        call_edge_exec(st, caller, n, "function", &cond, false, path, source);
        calls_in(st, caller, n, cond, path, source);
    } else if crate::extract::kind_is(n, "method_call_expression") {
        call_edge_exec(st, caller, n, "name", &cond, true, path, source);
        calls_in(st, caller, n, cond, path, source);
    } else if crate::extract::kind_is(n, "if_expression") || crate::extract::kind_is(n, "match_expression") {
        let c = Some(CallCondition::Conditional(crate::text::copy_string(&n.kind)));
        calls_in(st, caller, n, c, path, source);
    } else if crate::extract::kind_is(n, "loop_expression") || crate::extract::kind_is(n, "while_expression")
        || crate::extract::kind_is(n, "for_expression") {
        calls_in(st, caller, n, Some(CallCondition::InLoop), path, source);
    } else if crate::extract::kind_is(n, "try_expression") {
        calls_in(st, caller, n, Some(CallCondition::Fallible), path, source);
    } else {
        calls_in(st, caller, n, cond, path, source);
    }
}

fn calls_in(st: &mut Extraction, caller: NodeId, n: &SyntaxNode, cond: Option<CallCondition>, path: &str, source: &[u8])
    ensures
        final(st).model() == rs_calls_in(old(st).model(), caller, n.children@, opt_cond(cond), path@, source@),
    decreases n, 0nat,
{
    let ghost cs = n.children@;
    let ghost target = rs_calls_in(st.model(), caller, cs, opt_cond(cond), path@, source@);
    proof {
        assert(cs.skip(0) =~= cs);
    }
    let mut i: usize = 0;
    while i < n.children.len()
        invariant
            i <= cs.len(),
            cs == n.children@,
            target == rs_calls_in(st.model(), caller, cs.skip(i as int), opt_cond(cond), path@, source@),
        decreases cs.len() - i,
    {
        proof {
            assert(cs.skip(i as int)[0] == cs[i as int]);
            assert(cs.skip(i as int).drop_first() =~= cs.skip(i + 1));
        }
        visit_for_calls(st, caller, &n.children[i], cond_exec(&cond), path, source);
        i = i + 1;
    }
    proof {
        assert(cs.skip(i as int) =~= Seq::<SyntaxNode>::empty());
    }
}

// ─── Items ─────────────────────────────────────────────────────

/// A function item: a function node named within the enclosing scope,
/// contained in the enclosing module if any, then the calls of its body.
pub open spec fn rs_function(m: ExtModel, n: SyntaxNode, path: Seq<char>, source: Seq<u8>) -> ExtModel {
    let name = field_text_or_empty(n, "name"@, source);
    let id = NodeId(m.next_id);
    let m1 = alloc_model(m);
    let node = NodeModel::Function {
        id,
        name: m1.scope.push(name),
        params: rs_params(n, source),
        ret: rs_field_type(n, "return_type"@, source),
        vis: rs_visibility(n, source),
        is_async: has_child_kind(n, "async"@),
        is_unsafe: has_child_kind(n, "unsafe"@),
        span: span_at(path, n),
        complexity: Some(complexity_of(n, rs_decision_kinds())),
    };
    let m2 = with_node(with_name(m1, name, id), node);
    let m3 = match m2.container {
        Some(c) => with_edge(m2, EdgeModel::Contains { parent: c, child: id }),
        None => m2,
    };
    match field_index(n, "body"@) {
        Some(i) => if 0 <= i < n.children@.len() { rs_calls(m3, id, n.children@[i], None, path, source) } else { m3 },
        None => m3,
    }
}

/// The function items among `cs` (and function signatures, when `sigs`),
/// one after another.
pub open spec fn rs_fns_in(m: ExtModel, cs: Seq<SyntaxNode>, sigs: bool, path: Seq<char>, source: Seq<u8>) -> ExtModel
    decreases cs.len(),
{
    if cs.len() == 0 {
        m
    } else {
        let c = cs[0];
        let m1 = if c.kind@ == "function_item"@ || (sigs && c.kind@ == "function_signature_item"@) {
            rs_function(m, c, path, source)
        } else {
            m
        };
        rs_fns_in(m1, cs.drop_first(), sigs, path, source)
    }
}

/// A data type item (struct, enum, trait) as a node.
pub open spec fn rs_data_type(id: NodeId, scope: Seq<Seq<char>>, name: Seq<char>, kind: DataTypeKind, fields: Seq<FieldV>, n: SyntaxNode, path: Seq<char>, source: Seq<u8>) -> NodeModel {
    NodeModel::DataType {
        id,
        name: scope.push(name),
        kind,
        fields,
        methods: Seq::empty(),
        implements: Seq::empty(),
        vis: rs_visibility(n, source),
        span: span_at(path, n),
    }
}

/// A struct item, with its fields, contained in the enclosing module.
pub open spec fn rs_struct(m: ExtModel, n: SyntaxNode, path: Seq<char>, source: Seq<u8>) -> ExtModel {
    let name = field_text_or_empty(n, "name"@, source);
    let id = NodeId(m.next_id);
    let m1 = alloc_model(m);
    let m2 = with_node(with_name(m1, name, id), rs_data_type(id, m1.scope, name, DataTypeKind::Struct, rs_fields(n, source), n, path, source));
    match m2.container {
        Some(c) => with_edge(m2, EdgeModel::Contains { parent: c, child: id }),
        None => m2,
    }
}

/// An enum item.
pub open spec fn rs_enum(m: ExtModel, n: SyntaxNode, path: Seq<char>, source: Seq<u8>) -> ExtModel {
    let name = field_text_or_empty(n, "name"@, source);
    let id = NodeId(m.next_id);
    let m1 = alloc_model(m);
    with_node(with_name(m1, name, id), rs_data_type(id, m1.scope, name, DataTypeKind::Enum, Seq::empty(), n, path, source))
}

/// A trait item, then its methods (and signatures) within its scope.
pub open spec fn rs_trait(m: ExtModel, n: SyntaxNode, path: Seq<char>, source: Seq<u8>) -> ExtModel {
    let name = field_text_or_empty(n, "name"@, source);
    let id = NodeId(m.next_id);
    let m1 = alloc_model(m);
    let m2 = with_node(with_name(m1, name, id), rs_data_type(id, m1.scope, name, DataTypeKind::Trait, Seq::empty(), n, path, source));
    let m3 = with_scope(m2, m2.scope.push(name));
    let m4 = match field_index(n, "body"@) {
        Some(i) => if 0 <= i < n.children@.len() { rs_fns_in(m3, n.children@[i].children@, true, path, source) } else { m3 },
        None => m3,
    };
    with_scope(m4, popped(m4.scope))
}

/// An impl block: for a trait impl whose type and trait names are both
/// known, an implements edge; then its methods within the type's scope.
pub open spec fn rs_impl(m: ExtModel, n: SyntaxNode, path: Seq<char>, source: Seq<u8>) -> ExtModel {
    let impl_type = field_text_or_empty(n, "type"@, source);
    let m1 = match field_text(n, "trait"@, source) {
        Some(tn) => match (name_of(m, impl_type), name_of(m, tn)) {
            (Some(a), Some(b)) => with_edge(m, EdgeModel::Implements { implementor: a, interface: b }),
            _ => m,
        },
        None => m,
    };
    let m2 = with_scope(m1, m1.scope.push(impl_type));
    let m3 = match field_index(n, "body"@) {
        Some(i) => if 0 <= i < n.children@.len() { rs_fns_in(m2, n.children@[i].children@, false, path, source) } else { m2 },
        None => m2,
    };
    with_scope(m3, popped(m3.scope))
}

/// A constant (immutable) or a static (mutable) binding.
pub open spec fn rs_binding(m: ExtModel, n: SyntaxNode, path: Seq<char>, source: Seq<u8>) -> ExtModel {
    let name = field_text_or_empty(n, "name"@, source);
    let id = NodeId(m.next_id);
    let m1 = alloc_model(m);
    let is_constant = n.kind@ == "const_item"@;
    let node = NodeModel::Binding {
        id,
        name: m1.scope.push(name),
        type_ref: rs_field_type(n, "type"@, source),
        is_mutable: !is_constant,
        is_constant,
        vis: rs_visibility(n, source),
        span: span_at(path, n),
    };
    with_node(with_name(m1, name, id), node)
}

/// A module item: a module node, then its body read within its scope, the
/// module as container.
pub open spec fn rs_module(m: ExtModel, n: SyntaxNode, path: Seq<char>, source: Seq<u8>) -> ExtModel
    decreases n, 1nat,
{
    let name = field_text_or_empty(n, "name"@, source);
    let id = NodeId(m.next_id);
    let m1 = alloc_model(m);
    let node = NodeModel::Module {
        id,
        name: m1.scope.push(name),
        exports: Seq::empty(),
        imports: Seq::empty(),
        span: span_at(path, n),
    };
    let m2 = with_node(with_name(with_container(m1, Some(id)), name, id), node);
    let m3 = with_scope(m2, m2.scope.push(name));
    let m4 = match field_index(n, "body"@) {
        Some(i) => if 0 <= i < n.children@.len() { rs_visit_in(m3, n.children@[i].children@, path, source) } else { m3 },
        None => m3,
    };
    with_container(with_scope(m4, popped(m4.scope)), m.container)
}

/// Reading a node: items are read as such, anything else through its
/// children.
pub open spec fn rs_visit(m: ExtModel, n: SyntaxNode, path: Seq<char>, source: Seq<u8>) -> ExtModel
    decreases n, 2nat,
{
    if n.kind@ == "function_item"@ {
        rs_function(m, n, path, source)
    } else if n.kind@ == "struct_item"@ {
        rs_struct(m, n, path, source)
    } else if n.kind@ == "enum_item"@ {
        rs_enum(m, n, path, source)
    } else if n.kind@ == "trait_item"@ {
        rs_trait(m, n, path, source)
    } else if n.kind@ == "impl_item"@ {
        rs_impl(m, n, path, source)
    } else if n.kind@ == "mod_item"@ {
        rs_module(m, n, path, source)
    } else if n.kind@ == "const_item"@ || n.kind@ == "static_item"@ {
        rs_binding(m, n, path, source)
    } else {
        rs_visit_in(m, n.children@, path, source)
    }
}

pub open spec fn rs_visit_in(m: ExtModel, cs: Seq<SyntaxNode>, path: Seq<char>, source: Seq<u8>) -> ExtModel
    decreases cs, 0nat,
{
    if cs.len() == 0 {
        m
    } else {
        rs_visit_in(rs_visit(m, cs[0], path, source), cs.drop_first(), path, source)
    }
}

fn extract_function(st: &mut Extraction, n: &SyntaxNode, path: &str, source: &[u8])
    ensures
        final(st).model() == rs_function(old(st).model(), *n, path@, source@),
{
    let name = field_text_or_default(n, "name", source);
    let id = st.fresh_id();
    let params = extract_params(n, source);
    let ret = field_type_exec(n, "return_type", source);
    let vis = visibility_exec(n, source);
    let is_async = has_child_kind_exec(n, "async");
    let is_unsafe = has_child_kind_exec(n, "unsafe");
    let qn = st.qualified(&name);
    let cx = complexity(n, &decision_kinds());
    st.put_name(name, id);
    st.push_node(UsirNode::Function(FunctionNode {
        id,
        name: qn,
        params,
        return_type: ret,
        visibility: vis,
        is_async,
        is_unsafe,
        span: span_of(path, n),
        complexity: Some(cx),
    }));
    match st.container {
        Some(c) => st.push_edge(UsirEdge::Contains(ContainsEdge { parent: c, child: id })),
        None => {},
    }
    match field_position(n, "body") {
        Some(k) => visit_for_calls(st, id, &n.children[k], None, path, source),
        None => {},
    }
}

fn fns_in(st: &mut Extraction, parent: &SyntaxNode, sigs: bool, path: &str, source: &[u8])
    ensures
        final(st).model() == rs_fns_in(old(st).model(), parent.children@, sigs, path@, source@),
{
    let ghost cs = parent.children@;
    let ghost target = rs_fns_in(st.model(), cs, sigs, path@, source@);
    proof {
        assert(cs.skip(0) =~= cs);
    }
    let mut i: usize = 0;
    while i < parent.children.len()
        invariant
            i <= cs.len(),
            cs == parent.children@,
            target == rs_fns_in(st.model(), cs.skip(i as int), sigs, path@, source@),
        decreases cs.len() - i,
    {
        proof {
            assert(cs.skip(i as int)[0] == cs[i as int]);
            assert(cs.skip(i as int).drop_first() =~= cs.skip(i + 1));
        }
        let c = &parent.children[i];
        if crate::extract::kind_is(c, "function_item") || (sigs && crate::extract::kind_is(c, "function_signature_item")) {
            extract_function(st, c, path, source);
        }
        i = i + 1;
    }
    proof {
        assert(cs.skip(i as int) =~= Seq::<SyntaxNode>::empty());
    }
}

fn data_type_exec(st: &Extraction, id: NodeId, name: &String, kind: DataTypeKind, fields: Vec<Field>, n: &SyntaxNode, path: &str, source: &[u8]) -> (r: UsirNode)
    ensures
        node_model(r) == rs_data_type(id, st.model().scope, name@, kind, fields@.map_values(|f: Field| field_model(f)), *n, path@, source@),
{
    let methods: Vec<NodeId> = Vec::new();
    let implements: Vec<TypeRef> = Vec::new();
    proof {
        assert(methods@ =~= Seq::<NodeId>::empty());
        assert(crate::types::tmodels(implements@) =~= Seq::<TypeModel>::empty()) by {
            crate::types::lemma_tmodels_len(implements@);
        }
    }
    UsirNode::DataType(DataTypeNode {
        id,
        name: st.qualified(name),
        kind,
        fields,
        methods,
        implements,
        visibility: visibility_exec(n, source),
        span: span_of(path, n),
    })
}

fn extract_struct(st: &mut Extraction, n: &SyntaxNode, path: &str, source: &[u8])
    ensures
        final(st).model() == rs_struct(old(st).model(), *n, path@, source@),
{
    let name = field_text_or_default(n, "name", source);
    let id = st.fresh_id();
    let fields = extract_struct_fields(n, source);
    let node = data_type_exec(st, id, &name, DataTypeKind::Struct, fields, n, path, source);
    st.put_name(name, id);
    st.push_node(node);
    match st.container {
        Some(c) => st.push_edge(UsirEdge::Contains(ContainsEdge { parent: c, child: id })),
        None => {},
    }
}

fn no_fields() -> (r: Vec<Field>)
    ensures
        r@.map_values(|f: Field| field_model(f)) == Seq::<FieldV>::empty(),
{
    let r: Vec<Field> = Vec::new();
    proof {
        assert(r@.map_values(|f: Field| field_model(f)) =~= Seq::<FieldV>::empty());
    }
    r
}

fn extract_enum(st: &mut Extraction, n: &SyntaxNode, path: &str, source: &[u8])
    ensures
        final(st).model() == rs_enum(old(st).model(), *n, path@, source@),
{
    let name = field_text_or_default(n, "name", source);
    let id = st.fresh_id();
    let node = data_type_exec(st, id, &name, DataTypeKind::Enum, no_fields(), n, path, source);
    st.put_name(name, id);
    st.push_node(node);
}

fn extract_trait(st: &mut Extraction, n: &SyntaxNode, path: &str, source: &[u8])
    ensures
        final(st).model() == rs_trait(old(st).model(), *n, path@, source@),
{
    let name = field_text_or_default(n, "name", source);
    let id = st.fresh_id();
    let node = data_type_exec(st, id, &name, DataTypeKind::Trait, no_fields(), n, path, source);
    st.put_name(crate::text::copy_string(&name), id);
    st.push_node(node);
    st.push_scope(name);
    match field_position(n, "body") {
        Some(k) => fns_in(st, &n.children[k], true, path, source),
        None => {},
    }
    st.pop_scope();
}

fn extract_impl(st: &mut Extraction, n: &SyntaxNode, path: &str, source: &[u8])
    ensures
        final(st).model() == rs_impl(old(st).model(), *n, path@, source@),
{
    let impl_type = field_text_or_default(n, "type", source);
    match text_of_field(n, "trait", source) {
        Some(tn) => {
            match st.get_name(chars_of(impl_type.as_str()).as_slice()) {
                Some(a) => match st.get_name(chars_of(tn.as_str()).as_slice()) {
                    Some(b) => st.push_edge(UsirEdge::Implements(ImplementsEdge { implementor: a, interface: b })),
                    None => {},
                },
                None => {},
            }
        },
        None => {},
    }
    st.push_scope(impl_type);
    match field_position(n, "body") {
        Some(k) => fns_in(st, &n.children[k], false, path, source),
        None => {},
    }
    st.pop_scope();
}

fn extract_binding(st: &mut Extraction, n: &SyntaxNode, path: &str, source: &[u8])
    ensures
        final(st).model() == rs_binding(old(st).model(), *n, path@, source@),
{
    let name = field_text_or_default(n, "name", source);
    let id = st.fresh_id();
    let is_constant = crate::extract::kind_is(n, "const_item");
    let node = UsirNode::Binding(BindingNode {
        id,
        name: st.qualified(&name),
        type_ref: field_type_exec(n, "type", source),
        is_mutable: !is_constant,
        is_constant,
        visibility: visibility_exec(n, source),
        span: span_of(path, n),
    });
    st.put_name(name, id);
    st.push_node(node);
}

fn extract_module(st: &mut Extraction, n: &SyntaxNode, path: &str, source: &[u8])
    ensures
        final(st).model() == rs_module(old(st).model(), *n, path@, source@),
    decreases n, 1nat,
{
    let name = field_text_or_default(n, "name", source);
    let id = st.fresh_id();
    let exports: Vec<NodeId> = Vec::new();
    let imports: Vec<crate::node::Import> = Vec::new();
    proof {
        assert(exports@ =~= Seq::<NodeId>::empty());
        assert(imports@.map_values(|i: crate::node::Import| (i.source@, crate::text::views(i.symbols@), i.is_wildcard))
            =~= Seq::<crate::extract::ImportV>::empty());
    }
    let node = UsirNode::Module(ModuleNode { id, name: st.qualified(&name), exports, imports, span: span_of(path, n) });
    let prev = st.container;
    st.set_container(Some(id));
    st.put_name(crate::text::copy_string(&name), id);
    st.push_node(node);
    st.push_scope(name);
    match field_position(n, "body") {
        Some(k) => visit_in(st, &n.children[k], path, source),
        None => {},
    }
    st.pop_scope();
    st.set_container(prev);
}

/// Reads a node of a Rust syntax tree (see `rs_visit`).
pub fn visit_node(st: &mut Extraction, n: &SyntaxNode, path: &str, source: &[u8])
    ensures
        final(st).model() == rs_visit(old(st).model(), *n, path@, source@),
    decreases n, 2nat,
{
    if crate::extract::kind_is(n, "function_item") {
        extract_function(st, n, path, source);
    } else if crate::extract::kind_is(n, "struct_item") {
        extract_struct(st, n, path, source);
    } else if crate::extract::kind_is(n, "enum_item") {
        extract_enum(st, n, path, source);
    } else if crate::extract::kind_is(n, "trait_item") {
        extract_trait(st, n, path, source);
    } else if crate::extract::kind_is(n, "impl_item") {
        extract_impl(st, n, path, source);
    } else if crate::extract::kind_is(n, "mod_item") {
        extract_module(st, n, path, source);
    } else if crate::extract::kind_is(n, "const_item") || crate::extract::kind_is(n, "static_item") {
        extract_binding(st, n, path, source);
    } else {
        visit_in(st, n, path, source);
    }
}

fn visit_in(st: &mut Extraction, parent: &SyntaxNode, path: &str, source: &[u8])
    ensures
        final(st).model() == rs_visit_in(old(st).model(), parent.children@, path@, source@),
    decreases parent.children@, 0nat,
{
    let ghost cs = parent.children@;
    let ghost target = rs_visit_in(st.model(), cs, path@, source@);
    proof {
        assert(cs.skip(0) =~= cs);
    }
    let mut i: usize = 0;
    while i < parent.children.len()
        invariant
            i <= cs.len(),
            cs == parent.children@,
            target == rs_visit_in(st.model(), cs.skip(i as int), path@, source@),
        decreases cs.len() - i,
    {
        proof {
            assert(cs.skip(i as int)[0] == cs[i as int]);
            assert(cs.skip(i as int).drop_first() =~= cs.skip(i + 1));
        }
        visit_node(st, &parent.children[i], path, source);
        i = i + 1;
    }
    proof {
        assert(cs.skip(i as int) =~= Seq::<SyntaxNode>::empty());
    }
}

/// What reading a whole Rust tree gives, ids handed out from `next`.
pub open spec fn rs_file(t: SyntaxNode, path: Seq<char>, source: Seq<u8>, next: u64) -> ExtModel {
    rs_visit(
        ExtModel {
            nodes: Seq::empty(),
            edges: Seq::empty(),
            scope: Seq::empty(),
            names: Map::empty(),
            container: None,
            next_id: next,
        },
        t,
        path,
        source,
    )
}

/// The nodes and edges of a Rust syntax tree (see `rs_file`); `next` is the
/// id counter, shared with other files.
pub fn extract_rust(tree: &SyntaxNode, path: &str, source: &[u8], next: &mut u64) -> (r: ParseResult)
    ensures
        crate::extract::nodes_model(r.nodes@) == rs_file(*tree, path@, source@, *old(next)).nodes,
        crate::extract::edges_model(r.edges@) == rs_file(*tree, path@, source@, *old(next)).edges,
        *final(next) == rs_file(*tree, path@, source@, *old(next)).next_id,
{
    let mut st = Extraction::new(*next);
    visit_node(&mut st, tree, path, source);
    *next = st.next_id;
    ParseResult { nodes: st.nodes, edges: st.edges }
}

} // verus!
