//! The TypeScript frontend's reading of a syntax tree: function
//! declarations, functions bound to variables (arrow functions and function
//! expressions) and other variable bindings, classes with their heritage and
//! methods, interfaces with their properties, type aliases, enums, exports,
//! and the calls (and constructions) each function makes.

use vstd::prelude::*;
use crate::edge::{CallCondition, CallEdge, ContainsEdge, UsirEdge};
use crate::extract::{
    alloc_model, complexity, complexity_of, edge_model, field_model, name_of, node_model, opt_cond, opt_type,
    param_model, placeholder, placeholder_node, popped, span_at, span_of, with_container, with_edge, with_name,
    with_node, with_scope, CondModel, EdgeModel, ExtModel, Extraction, FieldV, NodeModel, ParamV,
};
use crate::frontend::ParseResult;
use crate::ir::{NodeId, Visibility};
use crate::node::{BindingNode, DataTypeKind, DataTypeNode, Field, FunctionNode, Param, UsirNode};
use crate::pyparse::{after_last_dot, deref_opt};
use crate::syntax::{
    field_index, field_position, field_text, field_text_or_default, field_text_or_empty, node_text, text_of,
    text_of_field, text_or_default, text_or_empty, SyntaxNode,
};
use crate::text::{chars_of, contains, contains_exec, lit, split, split_exec, starts_with, starts_with_exec, string_of, trim, trim_exec, vviews};
use crate::types::{tmodels, TypeModel, TypeRef};
use crate::typescript::{drop_colons, parse_ts_type, ts_type};

verus! {

/// The decision points of TypeScript code.
pub open spec fn ts_decision_kinds() -> Seq<Seq<char>> {
    seq![
        "if_statement"@, "else_clause"@, "while_statement"@, "for_statement"@, "for_in_statement"@,
        "switch_case"@, "catch_clause"@, "ternary_expression"@, "&&"@, "||"@, "??"@,
    ]
}

fn decision_kinds() -> (r: Vec<Vec<char>>)
    ensures
        vviews(r@) == ts_decision_kinds(),
{
    let r = vec![
        lit("if_statement"), lit("else_clause"), lit("while_statement"), lit("for_statement"),
        lit("for_in_statement"), lit("switch_case"), lit("catch_clause"), lit("ternary_expression"),
        lit("&&"), lit("||"), lit("??"),
    ];
    proof {
        assert(vviews(r@) =~= ts_decision_kinds());
    }
    r
}

/// The node's parent is an export statement.
pub open spec fn exported_by(parent: Option<SyntaxNode>) -> bool {
    match parent {
        Some(p) => p.kind@ == "export_statement"@,
        None => false,
    }
}

fn exported_exec(parent: Option<&SyntaxNode>) -> (r: bool)
    ensures
        r == exported_by(deref_opt(parent)),
{
    match parent {
        Some(p) => crate::extract::kind_is(p, "export_statement"),
        None => false,
    }
}

/// Some child of `n` is of kind `k`.
pub open spec fn has_child_kind(n: SyntaxNode, k: Seq<char>) -> bool {
    exists|i: int| 0 <= i < n.children@.len() && (#[trigger] n.children@[i]).kind@ == k
}

fn has_child_kind_exec(n: &SyntaxNode, k: &str) -> (r: bool)
    ensures
        r == has_child_kind(*n, k@),
{
    let mut i: usize = 0;
    while i < n.children.len()
        invariant
            i <= n.children@.len(),
            forall|j: int| 0 <= j < i ==> (#[trigger] n.children@[j]).kind@ != k@,
        decreases n.children@.len() - i,
    {
        if crate::extract::kind_is(&n.children[i], k) {
            return true;
        }
        i = i + 1;
    }
    false
}

// ─── Parameters, types ─────────────────────────────────────────

/// A type annotation under field `f`, as a type.
pub open spec fn ts_field_type(n: SyntaxNode, f: Seq<char>, source: Seq<u8>) -> Option<TypeModel> {
    match field_text(n, f, source) {
        Some(t) => Some(ts_type(t)),
        None => None,
    }
}

fn field_type_exec(n: &SyntaxNode, f: &str, source: &[u8]) -> (r: Option<TypeRef>)
    ensures
        opt_type(r) == ts_field_type(*n, f@, source@),
{
    match text_of_field(n, f, source) {
        Some(t) => Some(parse_ts_type(t.as_str())),
        None => None,
    }
}

/// What a child of a parameter list declares: required and optional
/// parameters (named by their pattern, else their name; with a default
/// when they have a value), and rest parameters (untyped).
pub open spec fn ts_param(c: SyntaxNode, source: Seq<u8>) -> Option<ParamV> {
    if c.kind@ == "required_parameter"@ || c.kind@ == "optional_parameter"@ {
        let name = match field_text(c, "pattern"@, source) {
            Some(t) => t,
            None => field_text_or_empty(c, "name"@, source),
        };
        Some((name, ts_field_type(c, "type"@, source), field_index(c, "value"@) is Some))
    } else if c.kind@ == "rest_parameter"@ {
        let name = match field_text(c, "pattern"@, source) {
            Some(t) => t,
            None => "...rest"@,
        };
        Some((name, None, false))
    } else {
        None
    }
}

pub open spec fn ts_params_in(cs: Seq<SyntaxNode>, source: Seq<u8>) -> Seq<ParamV>
    decreases cs.len(),
{
    if cs.len() == 0 {
        Seq::empty()
    } else {
        let prev = ts_params_in(cs.drop_last(), source);
        match ts_param(cs.last(), source) {
            Some(p) => prev.push(p),
            None => prev,
        }
    }
}

/// The parameters of a function, in order.
pub open spec fn ts_params(n: SyntaxNode, source: Seq<u8>) -> Seq<ParamV> {
    match field_index(n, "parameters"@) {
        Some(i) => ts_params_in(n.children@[i].children@, source),
        None => Seq::empty(),
    }
}

fn param_exec(c: &SyntaxNode, source: &[u8]) -> (r: Option<Param>)
    ensures
        match r {
            Some(p) => ts_param(*c, source@) == Some(param_model(p)),
            None => ts_param(*c, source@) is None,
        },
{
    if crate::extract::kind_is(c, "required_parameter") || crate::extract::kind_is(c, "optional_parameter") {
        let name = match text_of_field(c, "pattern", source) {
            Some(t) => t,
            None => field_text_or_default(c, "name", source),
        };
        Some(Param {
            name,
            type_ref: field_type_exec(c, "type", source),
            has_default: field_position(c, "value").is_some(),
        })
    } else if crate::extract::kind_is(c, "rest_parameter") {
        let name = match text_of_field(c, "pattern", source) {
            Some(t) => t,
            None => String::from_str("...rest"),
        };
        Some(Param { name, type_ref: None, has_default: false })
    } else {
        None
    }
}

/// The parameters of a function (see `ts_params`).
pub fn extract_params(n: &SyntaxNode, source: &[u8]) -> (r: Vec<Param>)
    ensures
        r@.map_values(|p: Param| param_model(p)) == ts_params(*n, source@),
{
    let mut out: Vec<Param> = Vec::new();
    match field_position(n, "parameters") {
        Some(k) => {
            let cs = &n.children[k].children;
            let mut i: usize = 0;
            while i < cs.len()
                invariant
                    i <= cs@.len(),
                    out@.map_values(|p: Param| param_model(p)) == ts_params_in(cs@.take(i as int), source@),
                decreases cs@.len() - i,
            {
                proof {
                    assert(cs@.take(i + 1).drop_last() =~= cs@.take(i as int));
                    assert(cs@.take(i + 1).last() == cs@[i as int]);
                }
                let ghost before = out@;
                match param_exec(&cs[i], source) {
                    Some(p) => {
                        out.push(p);
                        proof {
                            assert(out@.map_values(|p: Param| param_model(p)) =~= before.map_values(
                                |p: Param| param_model(p),
                            ).push(param_model(p)));
                        }
                    },
                    None => {},
                }
                i = i + 1;
            }
            proof {
                assert(cs@.take(cs@.len() as int) =~= cs@);
            }
        },
        None => {
            proof {
                assert(out@.map_values(|p: Param| param_model(p)) =~= Seq::<ParamV>::empty());
            }
        },
    }
    out
}

/// The return annotation of a function, without its leading colons.
pub open spec fn ts_return(n: SyntaxNode, source: Seq<u8>) -> Option<TypeModel> {
    match field_text(n, "return_type"@, source) {
        Some(t) => Some(ts_type(trim(drop_colons(trim(t))))),
        None => None,
    }
}

/// The return annotation of a function (see `ts_return`).
pub fn extract_ts_return_type(n: &SyntaxNode, source: &[u8]) -> (r: Option<TypeRef>)
    ensures
        opt_type(r) == ts_return(*n, source@),
{
    match text_of_field(n, "return_type", source) {
        Some(t) => {
            let a = trim_exec(chars_of(t.as_str()).as_slice());
            let b = crate::typescript::drop_colons_exec(&a);
            let c = trim_exec(b.as_slice());
            Some(parse_ts_type(string_of(c.as_slice()).as_str()))
        },
        None => None,
    }
}

/// The properties of an interface, each public.
pub open spec fn ts_props_in(cs: Seq<SyntaxNode>, source: Seq<u8>) -> Seq<FieldV>
    decreases cs.len(),
{
    if cs.len() == 0 {
        Seq::empty()
    } else {
        let prev = ts_props_in(cs.drop_last(), source);
        let c = cs.last();
        if c.kind@ == "property_signature"@ {
            prev.push((field_text_or_empty(c, "name"@, source), ts_field_type(c, "type"@, source), Visibility::Public))
        } else {
            prev
        }
    }
}

pub open spec fn ts_iface_fields(n: SyntaxNode, source: Seq<u8>) -> Seq<FieldV> {
    match field_index(n, "body"@) {
        Some(i) => ts_props_in(n.children@[i].children@, source),
        None => Seq::empty(),
    }
}

/// The properties of an interface (see `ts_iface_fields`).
pub fn extract_interface_fields(n: &SyntaxNode, source: &[u8]) -> (r: Vec<Field>)
    ensures
        r@.map_values(|f: Field| field_model(f)) == ts_iface_fields(*n, source@),
{
    let mut out: Vec<Field> = Vec::new();
    match field_position(n, "body") {
        Some(k) => {
            let cs = &n.children[k].children;
            let mut i: usize = 0;
            while i < cs.len()
                invariant
                    i <= cs@.len(),
                    out@.map_values(|f: Field| field_model(f)) == ts_props_in(cs@.take(i as int), source@),
                decreases cs@.len() - i,
            {
                proof {
                    assert(cs@.take(i + 1).drop_last() =~= cs@.take(i as int));
                    assert(cs@.take(i + 1).last() == cs@[i as int]);
                }
                let ghost before = out@;
                let c = &cs[i];
                if crate::extract::kind_is(c, "property_signature") {
                    let f = Field {
                        name: field_text_or_default(c, "name", source),
                        type_ref: field_type_exec(c, "type", source),
                        visibility: Visibility::Public,
                    };
                    out.push(f);
                    proof {
                        assert(out@.map_values(|f: Field| field_model(f)) =~= before.map_values(
                            |f: Field| field_model(f),
                        ).push(field_model(f)));
                    }
                }
                i = i + 1;
            }
            proof {
                assert(cs@.take(cs@.len() as int) =~= cs@);
            }
        },
        None => {
            proof {
                assert(out@.map_values(|f: Field| field_model(f)) =~= Seq::<FieldV>::empty());
            }
        },
    }
    out
}

// ─── Calls ─────────────────────────────────────────────────────

/// The id a called name refers to: the last id given to the text after its
/// last dot, else to the whole name, else a new placeholder.
pub open spec fn ts_resolve(m: ExtModel, name: Seq<char>, at: SyntaxNode, path: Seq<char>) -> (NodeId, ExtModel) {
    crate::pyparse::py_resolve(m, name, at, path)
}

/// An edge for the callee under field `f` of `n` (a call's function, dynamic
/// when its name has a dot; a construction's constructor, static).
pub open spec fn ts_call_edge(m: ExtModel, caller: NodeId, n: SyntaxNode, f: Seq<char>, cond: Option<CondModel>, dotted: bool, path: Seq<char>, source: Seq<u8>) -> ExtModel {
    match field_index(n, f) {
        Some(i) => if 0 <= i < n.children@.len() {
            let c = n.children@[i];
            let name = text_or_empty(c, source);
            let (callee, m2) = ts_resolve(m, name, c, path);
            with_edge(m2, EdgeModel::Calls { caller, callee, site: span_at(path, n), cond, dynamic: dotted && contains(name, "."@) })
        } else {
            m
        },
        None => m,
    }
}

/// The calls made within the tree under `n` by the function `caller`: calls
/// and constructions; under a branch (`if`, ternary, `switch`) conditional
/// on its kind, under a loop in the loop, under `try` fallible, in a
/// `catch` clause on the error path.
pub open spec fn ts_calls(m: ExtModel, caller: NodeId, n: SyntaxNode, cond: Option<CondModel>, path: Seq<char>, source: Seq<u8>) -> ExtModel
    decreases n, 1nat,
{
    if n.kind@ == "call_expression"@ {
        ts_calls_in(ts_call_edge(m, caller, n, "function"@, cond, true, path, source), caller, n.children@, cond, false, path, source)
    } else if n.kind@ == "new_expression"@ {
        ts_calls_in(ts_call_edge(m, caller, n, "constructor"@, cond, false, path, source), caller, n.children@, cond, false, path, source)
    } else if n.kind@ == "if_statement"@ || n.kind@ == "ternary_expression"@ || n.kind@ == "switch_statement"@ {
        ts_calls_in(m, caller, n.children@, Some(CondModel::Conditional(n.kind@)), false, path, source)
    } else if n.kind@ == "for_statement"@ || n.kind@ == "for_in_statement"@ || n.kind@ == "while_statement"@
        || n.kind@ == "do_statement"@ {
        ts_calls_in(m, caller, n.children@, Some(CondModel::InLoop), false, path, source)
    } else if n.kind@ == "try_statement"@ {
        ts_calls_in(m, caller, n.children@, cond, true, path, source)
    } else {
        ts_calls_in(m, caller, n.children@, cond, false, path, source)
    }
}

pub open spec fn ts_calls_in(
    m: ExtModel,
    caller: NodeId,
    cs: Seq<SyntaxNode>,
    cond: Option<CondModel>,
    in_try: bool,
    path: Seq<char>,
    source: Seq<u8>,
) -> ExtModel
    decreases cs, 0nat,
{
    if cs.len() == 0 {
        m
    } else {
        let c = if in_try {
            if cs[0].kind@ == "catch_clause"@ { Some(CondModel::ErrorPath) } else { Some(CondModel::Fallible) }
        } else {
            cond
        };
        ts_calls_in(ts_calls(m, caller, cs[0], c, path, source), caller, cs.drop_first(), cond, in_try, path, source)
    }
}

fn cond_exec(c: &Option<CallCondition>) -> (r: Option<CallCondition>)
    ensures
        opt_cond(r) == opt_cond(*c),
{
    match c {
        Some(CallCondition::Conditional(s)) => Some(CallCondition::Conditional(crate::text::copy_string(s))),
        Some(CallCondition::InLoop) => Some(CallCondition::InLoop),
        Some(CallCondition::ErrorPath) => Some(CallCondition::ErrorPath),
        Some(CallCondition::Fallible) => Some(CallCondition::Fallible),
        None => None,
    }
}

fn resolve_exec(st: &mut Extraction, name: &String, at: &SyntaxNode, path: &str) -> (r: NodeId)
    ensures
        (r, final(st).model()) == ts_resolve(old(st).model(), name@, *at, path@),
{
    let full = chars_of(name.as_str());
    let short = after_last_dot_exec(&full);
    match st.get_name(short.as_slice()) {
        Some(id) => id,
        None => match st.get_name(full.as_slice()) {
            Some(id) => id,
            None => {
                let id = st.fresh_id();
                st.put_name(crate::text::copy_string(name), id);
                st.push_node(placeholder_node(id, name, span_of(path, at)));
                id
            },
        },
    }
}

fn after_last_dot_exec(name: &Vec<char>) -> (r: Vec<char>)
    ensures
        r@ == after_last_dot(name@),
{
    let dot = lit(".");
    proof {
        reveal_strlit(".");
        assert(dot@.len() == 1);
    }
    match crate::text::rfind_exec(name.as_slice(), dot.as_slice()) {
        Some(i) => {
            proof {
                crate::text::lemma_rfind_bounds(name@, "."@);
            }
            let n = name.len();
            assert(i < n);
            crate::text::slice_chars(name.as_slice(), i + 1, n)
        },
        None => crate::text::slice_chars(name.as_slice(), 0, name.len()),
    }
}

fn call_edge_exec(
    st: &mut Extraction,
    caller: NodeId,
    n: &SyntaxNode,
    f: &str,
    cond: &Option<CallCondition>,
    dotted: bool,
    path: &str,
    source: &[u8],
)
    ensures
        final(st).model() == ts_call_edge(old(st).model(), caller, *n, f@, opt_cond(*cond), dotted, path@, source@),
{
    match field_position(n, f) {
        Some(k) => {
            let c = &n.children[k];
            let name = text_or_default(c, source);
            let callee = resolve_exec(st, &name, c, path);
            let dynamic = dotted && contains_exec(chars_of(name.as_str()).as_slice(), lit(".").as_slice());
            st.push_edge(UsirEdge::Calls(CallEdge {
                caller,
                callee,
                call_site: span_of(path, n),
                condition: cond_exec(cond),
                is_dynamic: dynamic,
            }));
        },
        None => {},
    }
}

/// The calls made within a tree (see `ts_calls`).
pub fn extract_calls(
    st: &mut Extraction,
    caller: NodeId,
    n: &SyntaxNode,
    cond: Option<CallCondition>,
    path: &str,
    source: &[u8],
)
    ensures
        final(st).model() == ts_calls(old(st).model(), caller, *n, opt_cond(cond), path@, source@),
    decreases n, 1nat,
{
    if crate::extract::kind_is(n, "call_expression") {
        call_edge_exec(st, caller, n, "function", &cond, true, path, source);
        calls_in(st, caller, n, cond, false, path, source);
    } else if crate::extract::kind_is(n, "new_expression") {
        call_edge_exec(st, caller, n, "constructor", &cond, false, path, source);
        calls_in(st, caller, n, cond, false, path, source);
    } else if crate::extract::kind_is(n, "if_statement") || crate::extract::kind_is(n, "ternary_expression")
        || crate::extract::kind_is(n, "switch_statement") {
        let c = Some(CallCondition::Conditional(crate::text::copy_string(&n.kind)));
        calls_in(st, caller, n, c, false, path, source);
    } else if crate::extract::kind_is(n, "for_statement") || crate::extract::kind_is(n, "for_in_statement")
        || crate::extract::kind_is(n, "while_statement") || crate::extract::kind_is(n, "do_statement") {
        calls_in(st, caller, n, Some(CallCondition::InLoop), false, path, source);
    } else if crate::extract::kind_is(n, "try_statement") {
        calls_in(st, caller, n, cond, true, path, source);
    } else {
        calls_in(st, caller, n, cond, false, path, source);
    }
}

fn calls_in(
    st: &mut Extraction,
    caller: NodeId,
    n: &SyntaxNode,
    cond: Option<CallCondition>,
    in_try: bool,
    path: &str,
    source: &[u8],
)
    ensures
        final(st).model() == ts_calls_in(old(st).model(), caller, n.children@, opt_cond(cond), in_try, path@, source@),
    decreases n, 0nat,
{
    let ghost cs = n.children@;
    let ghost target = ts_calls_in(st.model(), caller, cs, opt_cond(cond), in_try, path@, source@);
    proof {
        assert(cs.skip(0) =~= cs);
    }
    let mut i: usize = 0;
    while i < n.children.len()
        invariant
            i <= cs.len(),
            cs == n.children@,
            target == ts_calls_in(st.model(), caller, cs.skip(i as int), opt_cond(cond), in_try, path@, source@),
        decreases cs.len() - i,
    {
        proof {
            assert(cs.skip(i as int)[0] == cs[i as int]);
            assert(cs.skip(i as int).drop_first() =~= cs.skip(i + 1));
        }
        let c = if in_try {
            if crate::extract::kind_is(&n.children[i], "catch_clause") {
                Some(CallCondition::ErrorPath)
            } else {
                Some(CallCondition::Fallible)
            }
        } else {
            cond_exec(&cond)
        };
        extract_calls(st, caller, &n.children[i], c, path, source);
        i = i + 1;
    }
    proof {
        assert(cs.skip(i as int) =~= Seq::<SyntaxNode>::empty());
    }
}

// ─── Declarations ──────────────────────────────────────────────

/// A function node for the function `f`, under `name` within `scope`.
pub open spec fn ts_fn_node(id: NodeId, scope: Seq<Seq<char>>, name: Seq<char>, f: SyntaxNode, vis: Visibility, span: crate::extract::SpanV, source: Seq<u8>) -> NodeModel {
    NodeModel::Function {
        id,
        name: scope.push(name),
        params: ts_params(f, source),
        ret: ts_return(f, source),
        vis,
        is_async: has_child_kind(f, "async"@),
        is_unsafe: false,
        span,
        complexity: Some(complexity_of(f, ts_decision_kinds())),
    }
}

/// The calls in the body of function `f`, made by `id`.
pub open spec fn ts_body_calls(m: ExtModel, id: NodeId, f: SyntaxNode, path: Seq<char>, source: Seq<u8>) -> ExtModel {
    match field_index(f, "body"@) {
        Some(i) => if 0 <= i < f.children@.len() { ts_calls(m, id, f.children@[i], None, path, source) } else { m },
        None => m,
    }
}

/// A node's `name` field, or `dflt`.
pub open spec fn name_or(n: SyntaxNode, dflt: Seq<char>, source: Seq<u8>) -> Seq<char> {
    match field_text(n, "name"@, source) {
        Some(t) => t,
        None => dflt,
    }
}

/// The node contained in the enclosing container, if any.
pub open spec fn contained(m: ExtModel, id: NodeId) -> ExtModel {
    match m.container {
        Some(c) => with_edge(m, EdgeModel::Contains { parent: c, child: id }),
        None => m,
    }
}

/// A function declaration, public when exported.
pub open spec fn ts_function(m: ExtModel, n: SyntaxNode, exported: bool, path: Seq<char>, source: Seq<u8>) -> ExtModel {
    let name = name_or(n, "anonymous"@, source);
    let id = NodeId(m.next_id);
    let m1 = alloc_model(m);
    let vis = if exported { Visibility::Public } else { Visibility::Private };
    let m2 = with_node(with_name(m1, name, id), ts_fn_node(id, m1.scope, name, n, vis, span_at(path, n), source));
    ts_body_calls(contained(m2, id), id, n, path, source)
}

/// The visibility a method's text gives through its access modifier.
pub open spec fn ts_method_vis(text: Seq<char>) -> Visibility {
    if contains(text, "private "@) {
        Visibility::Private
    } else if contains(text, "protected "@) {
        Visibility::Protected
    } else {
        Visibility::Public
    }
}

/// A class member whose text starts with `private ` is private; one that
/// starts with `protected ` (and has no `private ` after it) is protected;
/// one whose text has neither word is public.
pub proof fn law_typescript_access(x: Seq<char>)
    ensures
        ts_method_vis("private "@ + x) == Visibility::Private,
        !contains(x, "private "@) ==> ts_method_vis("protected "@ + x) == Visibility::Protected,
        !contains(x, "private "@) && !contains(x, "protected "@) ==> ts_method_vis(x) == Visibility::Public,
{
    reveal_strlit("private ");
    reveal_strlit("protected ");
    let pv = "private "@;
    let pt = "protected "@;
    let a = pv + x;
    assert(crate::text::match_at(a, pv, 0)) by {
        assert(a.subrange(0, 8) =~= pv);
    }
    crate::text::lemma_find_from_props(a, pv, 0);
    let b = pt + x;
    assert(crate::text::match_at(b, pt, 0)) by {
        assert(b.subrange(0, 10) =~= pt);
    }
    crate::text::lemma_find_from_props(b, pt, 0);
    if !contains(x, pv) {
        crate::text::lemma_find_from_props(x, pv, 0);
        assert forall|j: int| 0 <= j implies !crate::text::match_at(b, pv, j) by {
            if crate::text::match_at(b, pv, j) {
                let w = b.subrange(j, j + 8);
                if j == 0 {
                    assert(w[2] == b[2]);
                } else if j < 10 {
                    assert(w[0] == b[j]);
                    assert(b[j] == pt[j]);
                } else {
                    assert(x.subrange(j - 10, j - 10 + 8) =~= w);
                    assert(crate::text::match_at(x, pv, j - 10));
                }
            }
        }
        crate::text::lemma_find_from_props(b, pv, 0);
    }
    crate::text::lemma_find_from_props(x, pt, 0);
}

/// A method (or field) of a class.
pub open spec fn ts_method(m: ExtModel, n: SyntaxNode, path: Seq<char>, source: Seq<u8>) -> ExtModel {
    let name = name_or(n, "anonymous"@, source);
    let id = NodeId(m.next_id);
    let m1 = alloc_model(m);
    let vis = ts_method_vis(text_or_empty(n, source));
    let m2 = with_node(with_name(m1, name, id), ts_fn_node(id, m1.scope, name, n, vis, span_at(path, n), source));
    ts_body_calls(contained(m2, id), id, n, path, source)
}

pub open spec fn is_function_value(v: SyntaxNode) -> bool {
    v.kind@ == "arrow_function"@ || v.kind@ == "function_expression"@ || v.kind@ == "generator_function"@
}

/// A declaration is constant when it is lexical and starts with `const`.
pub open spec fn ts_is_const(decl: SyntaxNode, source: Seq<u8>) -> bool {
    decl.kind@ == "lexical_declaration"@ && match node_text(decl, source) {
        Some(t) => starts_with(t, "const"@),
        None => false,
    }
}

/// A declarator of declaration `decl` with a value: a function when the
/// value is one (public when the declaration is exported), else a private
/// binding; nothing without a value.
pub open spec fn ts_declarator(m: ExtModel, c: SyntaxNode, decl: SyntaxNode, parent: Option<SyntaxNode>, path: Seq<char>, source: Seq<u8>) -> ExtModel {
    let name = field_text_or_empty(c, "name"@, source);
    match field_index(c, "value"@) {
        Some(i) => if 0 <= i < c.children@.len() {
            let val = c.children@[i];
            let id = NodeId(m.next_id);
            let m1 = alloc_model(m);
            if is_function_value(val) {
                let vis = if exported_by(parent) { Visibility::Public } else { Visibility::Private };
                let m2 = with_node(with_name(m1, name, id), ts_fn_node(id, m1.scope, name, val, vis, span_at(path, c), source));
                ts_body_calls(m2, id, val, path, source)
            } else {
                let is_const = ts_is_const(decl, source);
                let node = NodeModel::Binding {
                    id,
                    name: m1.scope.push(name),
                    type_ref: ts_field_type(c, "type"@, source),
                    is_mutable: !is_const,
                    is_constant: is_const,
                    vis: Visibility::Private,
                    span: span_at(path, c),
                };
                with_node(with_name(m1, name, id), node)
            }
        } else {
            m
        },
        None => m,
    }
}

/// The variable declarators among `cs`, one after another.
pub open spec fn ts_decls_in(m: ExtModel, cs: Seq<SyntaxNode>, decl: SyntaxNode, parent: Option<SyntaxNode>, path: Seq<char>, source: Seq<u8>) -> ExtModel
    decreases cs.len(),
{
    if cs.len() == 0 {
        m
    } else {
        let m1 = if cs[0].kind@ == "variable_declarator"@ { ts_declarator(m, cs[0], decl, parent, path, source) } else { m };
        ts_decls_in(m1, cs.drop_first(), decl, parent, path, source)
    }
}

/// The interfaces a class's heritage clauses implement.
pub open spec fn ts_heritage(cs: Seq<SyntaxNode>, source: Seq<u8>) -> Seq<TypeModel>
    decreases cs.len(),
{
    if cs.len() == 0 {
        Seq::empty()
    } else {
        let prev = ts_heritage(cs.drop_last(), source);
        let c = cs.last();
        let t = text_or_empty(c, source);
        if c.kind@ == "class_heritage"@ && contains(t, "implements"@) && split(t, "implements"@).len() > 1 {
            prev + crate::pyparse::bases_in(split(split(t, "implements"@)[1], ","@))
        } else {
            prev
        }
    }
}

/// The methods and fields among `cs`, one after another.
pub open spec fn ts_methods_in(m: ExtModel, cs: Seq<SyntaxNode>, path: Seq<char>, source: Seq<u8>) -> ExtModel
    decreases cs.len(),
{
    if cs.len() == 0 {
        m
    } else {
        let m1 = if cs[0].kind@ == "method_definition"@ || cs[0].kind@ == "public_field_definition"@ {
            ts_method(m, cs[0], path, source)
        } else {
            m
        };
        ts_methods_in(m1, cs.drop_first(), path, source)
    }
}

/// A class declaration (public when exported), then its methods within its
/// scope, the class as container.
pub open spec fn ts_class(m: ExtModel, n: SyntaxNode, parent: Option<SyntaxNode>, path: Seq<char>, source: Seq<u8>) -> ExtModel {
    let name = name_or(n, "Anonymous"@, source);
    let id = NodeId(m.next_id);
    let m1 = alloc_model(m);
    let node = NodeModel::DataType {
        id,
        name: m1.scope.push(name),
        kind: DataTypeKind::Class,
        fields: Seq::empty(),
        methods: Seq::empty(),
        implements: ts_heritage(n.children@, source),
        vis: if exported_by(parent) { Visibility::Public } else { Visibility::Private },
        span: span_at(path, n),
    };
    let m2 = with_node(with_name(m1, name, id), node);
    let m3 = with_scope(with_container(m2, Some(id)), m2.scope.push(name));
    let m4 = match field_index(n, "body"@) {
        Some(i) => if 0 <= i < n.children@.len() { ts_methods_in(m3, n.children@[i].children@, path, source) } else { m3 },
        None => m3,
    };
    with_container(with_scope(m4, popped(m4.scope)), m.container)
}

/// An interface, type alias or enum declaration: a public data type.
pub open spec fn ts_data_type(m: ExtModel, n: SyntaxNode, kind: DataTypeKind, fields: Seq<FieldV>, path: Seq<char>, source: Seq<u8>) -> ExtModel {
    let name = field_text_or_empty(n, "name"@, source);
    let id = NodeId(m.next_id);
    let m1 = alloc_model(m);
    let node = NodeModel::DataType {
        id,
        name: m1.scope.push(name),
        kind,
        fields,
        methods: Seq::empty(),
        implements: Seq::empty(),
        vis: Visibility::Public,
        span: span_at(path, n),
    };
    with_node(with_name(m1, name, id), node)
}

/// The declarations a node stands for, when it is one that the frontend
/// reads directly (not an export or a plain statement).
pub open spec fn ts_declaration(m: ExtModel, n: SyntaxNode, parent: Option<SyntaxNode>, exported: bool, path: Seq<char>, source: Seq<u8>) -> Option<ExtModel> {
    if n.kind@ == "function_declaration"@ || n.kind@ == "generator_function_declaration"@ {
        Some(ts_function(m, n, exported, path, source))
    } else if n.kind@ == "lexical_declaration"@ || n.kind@ == "variable_declaration"@ {
        Some(ts_decls_in(m, n.children@, n, parent, path, source))
    } else if n.kind@ == "class_declaration"@ {
        Some(ts_class(m, n, parent, path, source))
    } else if n.kind@ == "interface_declaration"@ {
        Some(ts_data_type(m, n, DataTypeKind::Interface, ts_iface_fields(n, source), path, source))
    } else if n.kind@ == "type_alias_declaration"@ {
        Some(ts_data_type(m, n, DataTypeKind::TypeAlias, Seq::empty(), path, source))
    } else if n.kind@ == "enum_declaration"@ {
        Some(ts_data_type(m, n, DataTypeKind::Enum, Seq::empty(), path, source))
    } else {
        None
    }
}

/// Reading a node: declarations are read as such (function declarations
/// private), an export statement through its children (its function
/// declarations public), anything else through its children.
pub open spec fn ts_visit(m: ExtModel, n: SyntaxNode, parent: Option<SyntaxNode>, path: Seq<char>, source: Seq<u8>) -> ExtModel
    decreases n, 1nat,
{
    if n.kind@ == "export_statement"@ {
        ts_visit_in(m, n.children@, n, true, path, source)
    } else {
        match ts_declaration(m, n, parent, false, path, source) {
            Some(m1) => m1,
            None => ts_visit_in(m, n.children@, n, false, path, source),
        }
    }
}

/// Reading the children `cs` of `parent`, one after another; in an export
/// statement (`export`) declarations are read directly, as exported.
pub open spec fn ts_visit_in(m: ExtModel, cs: Seq<SyntaxNode>, parent: SyntaxNode, export: bool, path: Seq<char>, source: Seq<u8>) -> ExtModel
    decreases cs, 0nat,
{
    if cs.len() == 0 {
        m
    } else {
        let m1 = if export {
            match ts_declaration(m, cs[0], Some(parent), true, path, source) {
                Some(x) => x,
                None => ts_visit(m, cs[0], Some(parent), path, source),
            }
        } else {
            ts_visit(m, cs[0], Some(parent), path, source)
        };
        ts_visit_in(m1, cs.drop_first(), parent, export, path, source)
    }
}

fn name_or_exec(n: &SyntaxNode, dflt: &str, source: &[u8]) -> (r: String)
    ensures
        r@ == name_or(*n, dflt@, source@),
{
    match text_of_field(n, "name", source) {
        Some(t) => t,
        None => String::from_str(dflt),
    }
}

fn fn_node_exec(st: &Extraction, id: NodeId, name: &String, f: &SyntaxNode, vis: Visibility, span: crate::ir::SourceSpan, source: &[u8]) -> (r: UsirNode)
    ensures
        node_model(r) == ts_fn_node(id, st.model().scope, name@, *f, vis, crate::extract::span_model(span), source@),
{
    UsirNode::Function(FunctionNode {
        id,
        name: st.qualified(name),
        params: extract_params(f, source),
        return_type: extract_ts_return_type(f, source),
        visibility: vis,
        is_async: has_child_kind_exec(f, "async"),
        is_unsafe: false,
        span,
        complexity: Some(complexity(f, &decision_kinds())),
    })
}

fn body_calls_exec(st: &mut Extraction, id: NodeId, f: &SyntaxNode, path: &str, source: &[u8])
    ensures
        final(st).model() == ts_body_calls(old(st).model(), id, *f, path@, source@),
{
    match field_position(f, "body") {
        Some(k) => extract_calls(st, id, &f.children[k], None, path, source),
        None => {},
    }
}

fn contain_exec(st: &mut Extraction, id: NodeId)
    ensures
        final(st).model() == contained(old(st).model(), id),
{
    match st.container {
        Some(c) => st.push_edge(UsirEdge::Contains(ContainsEdge { parent: c, child: id })),
        None => {},
    }
}

fn extract_function(st: &mut Extraction, n: &SyntaxNode, exported: bool, path: &str, source: &[u8])
    ensures
        final(st).model() == ts_function(old(st).model(), *n, exported, path@, source@),
{
    let name = name_or_exec(n, "anonymous", source);
    let id = st.fresh_id();
    let vis = if exported { Visibility::Public } else { Visibility::Private };
    let node = fn_node_exec(st, id, &name, n, vis, span_of(path, n), source);
    st.put_name(name, id);
    st.push_node(node);
    contain_exec(st, id);
    body_calls_exec(st, id, n, path, source);
}

fn extract_method(st: &mut Extraction, n: &SyntaxNode, path: &str, source: &[u8])
    ensures
        final(st).model() == ts_method(old(st).model(), *n, path@, source@),
{
    let name = name_or_exec(n, "anonymous", source);
    let id = st.fresh_id();
    let text = chars_of(text_or_default(n, source).as_str());
    let vis = if contains_exec(text.as_slice(), lit("private ").as_slice()) {
        Visibility::Private
    } else if contains_exec(text.as_slice(), lit("protected ").as_slice()) {
        Visibility::Protected
    } else {
        Visibility::Public
    };
    let node = fn_node_exec(st, id, &name, n, vis, span_of(path, n), source);
    st.put_name(name, id);
    st.push_node(node);
    contain_exec(st, id);
    body_calls_exec(st, id, n, path, source);
}

fn is_const_exec(decl: &SyntaxNode, source: &[u8]) -> (r: bool)
    ensures
        r == ts_is_const(*decl, source@),
{
    crate::extract::kind_is(decl, "lexical_declaration") && match text_of(decl, source) {
        Some(t) => starts_with_exec(chars_of(t.as_str()).as_slice(), lit("const").as_slice()),
        None => false,
    }
}

fn extract_declarator(st: &mut Extraction, c: &SyntaxNode, decl: &SyntaxNode, parent: Option<&SyntaxNode>, path: &str, source: &[u8])
    ensures
        final(st).model() == ts_declarator(old(st).model(), *c, *decl, deref_opt(parent), path@, source@),
{
    let name = field_text_or_default(c, "name", source);
    match field_position(c, "value") {
        Some(k) => {
            let val = &c.children[k];
            let id = st.fresh_id();
            if crate::extract::kind_is(val, "arrow_function") || crate::extract::kind_is(val, "function_expression")
                || crate::extract::kind_is(val, "generator_function") {
                let vis = if exported_exec(parent) { Visibility::Public } else { Visibility::Private };
                let node = fn_node_exec(st, id, &name, val, vis, span_of(path, c), source);
                st.put_name(name, id);
                st.push_node(node);
                body_calls_exec(st, id, val, path, source);
            } else {
                let is_const = is_const_exec(decl, source);
                let node = UsirNode::Binding(BindingNode {
                    id,
                    name: st.qualified(&name),
                    type_ref: field_type_exec(c, "type", source),
                    is_mutable: !is_const,
                    is_constant: is_const,
                    visibility: Visibility::Private,
                    span: span_of(path, c),
                });
                st.put_name(name, id);
                st.push_node(node);
            }
        },
        None => {},
    }
}

fn extract_var_decl(st: &mut Extraction, n: &SyntaxNode, parent: Option<&SyntaxNode>, path: &str, source: &[u8])
    ensures
        final(st).model() == ts_decls_in(old(st).model(), n.children@, *n, deref_opt(parent), path@, source@),
{
    let ghost cs = n.children@;
    let ghost target = ts_decls_in(st.model(), cs, *n, deref_opt(parent), path@, source@);
    proof {
        assert(cs.skip(0) =~= cs);
    }
    let mut i: usize = 0;
    while i < n.children.len()
        invariant
            i <= cs.len(),
            cs == n.children@,
            target == ts_decls_in(st.model(), cs.skip(i as int), *n, deref_opt(parent), path@, source@),
        decreases cs.len() - i,
    {
        proof {
            assert(cs.skip(i as int)[0] == cs[i as int]);
            assert(cs.skip(i as int).drop_first() =~= cs.skip(i + 1));
        }
        if crate::extract::kind_is(&n.children[i], "variable_declarator") {
            extract_declarator(st, &n.children[i], n, parent, path, source);
        }
        i = i + 1;
    }
    proof {
        assert(cs.skip(i as int) =~= Seq::<SyntaxNode>::empty());
    }
}

fn heritage_exec(n: &SyntaxNode, source: &[u8]) -> (r: Vec<TypeRef>)
    ensures
        tmodels(r@) == ts_heritage(n.children@, source@),
{
    let mut out: Vec<TypeRef> = Vec::new();
    proof {
        crate::types::lemma_tmodels_len(out@);
        assert(tmodels(out@) =~= Seq::<TypeModel>::empty());
    }
    let ghost cs = n.children@;
    let mut i: usize = 0;
    while i < n.children.len()
        invariant
            i <= cs.len(),
            cs == n.children@,
            tmodels(out@) == ts_heritage(cs.take(i as int), source@),
        decreases cs.len() - i,
    {
        proof {
            assert(cs.take(i + 1).drop_last() =~= cs.take(i as int));
            assert(cs.take(i + 1).last() == cs[i as int]);
        }
        let c = &n.children[i];
        let t = chars_of(text_or_default(c, source).as_str());
        let imp = lit("implements");
        if crate::extract::kind_is(c, "class_heritage") && contains_exec(t.as_slice(), imp.as_slice()) {
            let pieces = split_exec(t.as_slice(), imp.as_slice());
            if pieces.len() > 1 {
                let parts = split_exec(pieces[1].as_slice(), lit(",").as_slice());
                let mut j: usize = 0;
                let ghost base = tmodels(out@);
                proof {
                    assert(vviews(pieces@)[1] == pieces@[1]@);
                    assert(crate::pyparse::bases_in(vviews(parts@).take(0)) =~= Seq::<TypeModel>::empty());
                    assert(base + Seq::<TypeModel>::empty() =~= base);
                }
                while j < parts.len()
                    invariant
                        j <= parts@.len(),
                        tmodels(out@) == base + crate::pyparse::bases_in(vviews(parts@).take(j as int)),
                    decreases parts@.len() - j,
                {
                    proof {
                        assert(vviews(parts@).take(j + 1).drop_last() =~= vviews(parts@).take(j as int));
                        assert(vviews(parts@).take(j + 1).last() == parts@[j as int]@);
                    }
                    let b = trim_exec(parts[j].as_slice());
                    if b.len() > 0 {
                        let ghost before = out@;
                        let x = TypeRef::Unresolved(string_of(b.as_slice()));
                        out.push(x);
                        proof {
                            crate::types::lemma_tmodels_push(before, x);
                            assert(base + crate::pyparse::bases_in(vviews(parts@).take(j as int)).push(x@)
                                =~= (base + crate::pyparse::bases_in(vviews(parts@).take(j as int))).push(x@));
                        }
                    }
                    j = j + 1;
                }
                proof {
                    assert(vviews(parts@).take(parts@.len() as int) =~= vviews(parts@));
                }
            }
        }
        i = i + 1;
    }
    proof {
        assert(cs.take(cs.len() as int) =~= cs);
    }
    out
}

fn methods_in(st: &mut Extraction, parent: &SyntaxNode, path: &str, source: &[u8])
    ensures
        final(st).model() == ts_methods_in(old(st).model(), parent.children@, path@, source@),
{
    let ghost cs = parent.children@;
    let ghost target = ts_methods_in(st.model(), cs, path@, source@);
    proof {
        assert(cs.skip(0) =~= cs);
    }
    let mut i: usize = 0;
    while i < parent.children.len()
        invariant
            i <= cs.len(),
            cs == parent.children@,
            target == ts_methods_in(st.model(), cs.skip(i as int), path@, source@),
        decreases cs.len() - i,
    {
        proof {
            assert(cs.skip(i as int)[0] == cs[i as int]);
            assert(cs.skip(i as int).drop_first() =~= cs.skip(i + 1));
        }
        let c = &parent.children[i];
        if crate::extract::kind_is(c, "method_definition") || crate::extract::kind_is(c, "public_field_definition") {
            extract_method(st, c, path, source);
        }
        i = i + 1;
    }
    proof {
        assert(cs.skip(i as int) =~= Seq::<SyntaxNode>::empty());
    }
}

fn extract_class(st: &mut Extraction, n: &SyntaxNode, parent: Option<&SyntaxNode>, path: &str, source: &[u8])
    ensures
        final(st).model() == ts_class(old(st).model(), *n, deref_opt(parent), path@, source@),
{
    let name = name_or_exec(n, "Anonymous", source);
    let id = st.fresh_id();
    let fields: Vec<Field> = Vec::new();
    let methods: Vec<NodeId> = Vec::new();
    proof {
        assert(fields@.map_values(|f: Field| field_model(f)) =~= Seq::<FieldV>::empty());
        assert(methods@ =~= Seq::<NodeId>::empty());
    }
    let node = UsirNode::DataType(DataTypeNode {
        id,
        name: st.qualified(&name),
        kind: DataTypeKind::Class,
        fields,
        methods,
        implements: heritage_exec(n, source),
        visibility: if exported_exec(parent) { Visibility::Public } else { Visibility::Private },
        span: span_of(path, n),
    });
    st.put_name(crate::text::copy_string(&name), id);
    st.push_node(node);
    let prev = st.container;
    st.set_container(Some(id));
    st.push_scope(name);
    match field_position(n, "body") {
        Some(k) => methods_in(st, &n.children[k], path, source),
        None => {},
    }
    st.pop_scope();
    st.set_container(prev);
}

fn data_type_decl(st: &mut Extraction, n: &SyntaxNode, kind: DataTypeKind, fields: Vec<Field>, path: &str, source: &[u8])
    ensures
        final(st).model() == ts_data_type(old(st).model(), *n, kind, fields@.map_values(|f: Field| field_model(f)), path@, source@),
{
    let name = field_text_or_default(n, "name", source);
    let id = st.fresh_id();
    let methods: Vec<NodeId> = Vec::new();
    let implements: Vec<TypeRef> = Vec::new();
    proof {
        assert(methods@ =~= Seq::<NodeId>::empty());
        crate::types::lemma_tmodels_len(implements@);
        assert(tmodels(implements@) =~= Seq::<TypeModel>::empty());
    }
    let node = UsirNode::DataType(DataTypeNode {
        id,
        name: st.qualified(&name),
        kind,
        fields,
        methods,
        implements,
        visibility: Visibility::Public,
        span: span_of(path, n),
    });
    st.put_name(name, id);
    st.push_node(node);
}

fn no_fields() -> (r: Vec<Field>)
    ensures
        r@.map_values(|f: Field| field_model(f)) == Seq::<FieldV>::empty(),
{
    let r: Vec<Field> = Vec::new();
    proof {
        assert(r@.map_values(|f: Field| field_model(f)) =~= Seq::<FieldV>::empty());
    }
    r
}

/// Reads `n` when it is a declaration (see `ts_declaration`); tells whether
/// it was.
fn declaration(st: &mut Extraction, n: &SyntaxNode, parent: Option<&SyntaxNode>, exported: bool, path: &str, source: &[u8]) -> (r: bool)
    ensures
        match ts_declaration(old(st).model(), *n, deref_opt(parent), exported, path@, source@) {
            Some(m) => r && final(st).model() == m,
            None => !r && final(st).model() == old(st).model(),
        },
{
    if crate::extract::kind_is(n, "function_declaration") || crate::extract::kind_is(n, "generator_function_declaration") {
        extract_function(st, n, exported, path, source);
        true
    } else if crate::extract::kind_is(n, "lexical_declaration") || crate::extract::kind_is(n, "variable_declaration") {
        extract_var_decl(st, n, parent, path, source);
        true
    } else if crate::extract::kind_is(n, "class_declaration") {
        extract_class(st, n, parent, path, source);
        true
    } else if crate::extract::kind_is(n, "interface_declaration") {
        let fields = extract_interface_fields(n, source);
        data_type_decl(st, n, DataTypeKind::Interface, fields, path, source);
        true
    } else if crate::extract::kind_is(n, "type_alias_declaration") {
        data_type_decl(st, n, DataTypeKind::TypeAlias, no_fields(), path, source);
        true
    } else if crate::extract::kind_is(n, "enum_declaration") {
        data_type_decl(st, n, DataTypeKind::Enum, no_fields(), path, source);
        true
    } else {
        false
    }
}

/// Reads a node of a TypeScript syntax tree (see `ts_visit`).
pub fn visit(st: &mut Extraction, n: &SyntaxNode, parent: Option<&SyntaxNode>, path: &str, source: &[u8])
    ensures
        final(st).model() == ts_visit(old(st).model(), *n, deref_opt(parent), path@, source@),
    decreases n, 1nat,
{
    if crate::extract::kind_is(n, "export_statement") {
        visit_in(st, n, true, path, source);
    } else if !declaration(st, n, parent, false, path, source) {
        visit_in(st, n, false, path, source);
    }
}

fn visit_in(st: &mut Extraction, parent: &SyntaxNode, export: bool, path: &str, source: &[u8])
    ensures
        final(st).model() == ts_visit_in(old(st).model(), parent.children@, *parent, export, path@, source@),
    decreases parent.children@, 0nat,
{
    let ghost cs = parent.children@;
    let ghost target = ts_visit_in(st.model(), cs, *parent, export, path@, source@);
    proof {
        assert(cs.skip(0) =~= cs);
    }
    let mut i: usize = 0;
    while i < parent.children.len()
        invariant
            i <= cs.len(),
            cs == parent.children@,
            target == ts_visit_in(st.model(), cs.skip(i as int), *parent, export, path@, source@),
        decreases cs.len() - i,
    {
        proof {
            assert(cs.skip(i as int)[0] == cs[i as int]);
            assert(cs.skip(i as int).drop_first() =~= cs.skip(i + 1));
        }
        let c = &parent.children[i];
        if export {
            if !declaration(st, c, Some(parent), true, path, source) {
                visit(st, c, Some(parent), path, source);
            }
        } else {
            visit(st, c, Some(parent), path, source);
        }
        i = i + 1;
    }
    proof {
        assert(cs.skip(i as int) =~= Seq::<SyntaxNode>::empty());
    }
}

/// What reading a whole TypeScript tree gives, ids handed out from `next`.
pub open spec fn ts_file(t: SyntaxNode, path: Seq<char>, source: Seq<u8>, next: u64) -> ExtModel {
    ts_visit(
        ExtModel {
            nodes: Seq::empty(),
            edges: Seq::empty(),
            scope: Seq::empty(),
            names: Map::empty(),
            container: None,
            next_id: next,
        },
        t,
        None,
        path,
        source,
    )
}

/// The nodes and edges of a TypeScript syntax tree (see `ts_file`); `next`
/// is the id counter, shared with other files.
pub fn extract_typescript(tree: &SyntaxNode, path: &str, source: &[u8], next: &mut u64) -> (r: ParseResult)
    ensures
        crate::extract::nodes_model(r.nodes@) == ts_file(*tree, path@, source@, *old(next)).nodes,
        crate::extract::edges_model(r.edges@) == ts_file(*tree, path@, source@, *old(next)).edges,
        *final(next) == ts_file(*tree, path@, source@, *old(next)).next_id,
{
    let mut st = Extraction::new(*next);
    visit(&mut st, tree, None, path, source);
    *next = st.next_id;
    ParseResult { nodes: st.nodes, edges: st.edges }
}

/// Parses a TypeScript (or, with `is_tsx`, TSX) source file into IR nodes
/// and edges: the tree that tree-sitter's grammar gives, read as `ts_file`
/// says; an error exactly when the source does not parse into a tree.
pub fn parse(path: &str, source: &[u8], is_tsx: bool, next: &mut u64) -> (r: Result<ParseResult, String>)
    ensures
        r matches Ok(pr) ==> exists|t: SyntaxNode| {
            &&& crate::syntax::syntax_walk(
                if is_tsx { crate::syntax::Grammar::Tsx } else { crate::syntax::Grammar::TypeScript },
                source@,
            ) == Some(crate::syntax::walk_of(t))
            &&& crate::extract::nodes_model(pr.nodes@) == ts_file(t, path@, source@, *old(next)).nodes
            &&& crate::extract::edges_model(pr.edges@) == ts_file(t, path@, source@, *old(next)).edges
            &&& *final(next) == ts_file(t, path@, source@, *old(next)).next_id
        },
        r is Err ==> *final(next) == *old(next),
        r is Err <==> !crate::syntax::parses(
            if is_tsx { crate::syntax::Grammar::Tsx } else { crate::syntax::Grammar::TypeScript },
            source@,
        ),
{
    let g = if is_tsx { crate::syntax::Grammar::Tsx } else { crate::syntax::Grammar::TypeScript };
    match crate::syntax::parse_syntax(g, source) {
        Ok(t) => Ok(extract_typescript(&t, path, source, next)),
        Err(e) => Err(e),
    }
}

} // verus!
