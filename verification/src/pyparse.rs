//! The Python frontend's reading of a syntax tree: functions (with their
//! parameters, return type, async-ness, visibility by naming convention and
//! complexity), classes with their bases and methods, and the calls each
//! function makes, with the condition under which it makes them.

use vstd::prelude::*;
use crate::edge::{CallCondition, CallEdge, ContainsEdge, UsirEdge};
use crate::extract::{
    alloc_model, complexity, complexity_of, edge_model, field_model, name_of, node_model, opt_cond, opt_type,
    param_model, placeholder, placeholder_node, popped, span_at, span_of, with_container, with_edge, with_name,
    with_node, with_scope, CondModel, EdgeModel, ExtModel, Extraction, NodeModel, ParamV,
};
use crate::frontend::{strip_set, strip_set_exec, ParseResult};
use crate::ir::{NodeId, Visibility};
use crate::node::{DataTypeKind, DataTypeNode, Field, FunctionNode, Param, UsirNode};
use crate::python::{parse_py_type, py_type};
use crate::syntax::{
    field_index, field_position, field_text, field_text_or_default, field_text_or_empty, node_text, opt_chars,
    text_of, text_of_field, text_or_default, text_or_empty, SyntaxNode,
};
use crate::text::{
    chars_of, contains, contains_exec, ends_with, ends_with_exec, lit, rfind, rfind_exec, split, split_exec,
    starts_with, starts_with_exec, string_of, trim, trim_exec, vviews,
};
use crate::types::{tmodel, tmodels, TypeModel, TypeRef};

verus! {

// ─── Kinds ─────────────────────────────────────────────────────

/// The decision points of Python code.
pub open spec fn py_decision_kinds() -> Seq<Seq<char>> {
    seq![
        "if_statement"@, "elif_clause"@, "while_statement"@, "for_statement"@, "except_clause"@,
        "conditional_expression"@, "boolean_operator"@, "match_statement"@,
    ]
}

pub open spec fn py_branch_kinds() -> Seq<Seq<char>> {
    seq!["if_statement"@, "elif_clause"@, "conditional_expression"@]
}

pub open spec fn py_loop_kinds() -> Seq<Seq<char>> {
    seq![
        "for_statement"@, "while_statement"@, "list_comprehension"@, "dictionary_comprehension"@,
        "set_comprehension"@, "generator_expression"@,
    ]
}

fn decision_kinds() -> (r: Vec<Vec<char>>)
    ensures
        vviews(r@) == py_decision_kinds(),
{
    let r = vec![
        lit("if_statement"), lit("elif_clause"), lit("while_statement"), lit("for_statement"),
        lit("except_clause"), lit("conditional_expression"), lit("boolean_operator"), lit("match_statement"),
    ];
    proof {
        assert(vviews(r@) =~= py_decision_kinds());
    }
    r
}

fn branch_kinds() -> (r: Vec<Vec<char>>)
    ensures
        vviews(r@) == py_branch_kinds(),
{
    let r = vec![lit("if_statement"), lit("elif_clause"), lit("conditional_expression")];
    proof {
        assert(vviews(r@) =~= py_branch_kinds());
    }
    r
}

fn loop_kinds() -> (r: Vec<Vec<char>>)
    ensures
        vviews(r@) == py_loop_kinds(),
{
    let r = vec![
        lit("for_statement"), lit("while_statement"), lit("list_comprehension"),
        lit("dictionary_comprehension"), lit("set_comprehension"), lit("generator_expression"),
    ];
    proof {
        assert(vviews(r@) =~= py_loop_kinds());
    }
    r
}

// ─── Parameters and return type ────────────────────────────────

pub open spec fn is_receiver(name: Seq<char>) -> bool {
    name == "self"@ || name == "cls"@
}

/// The annotation of a parameter, as a type.
pub open spec fn annotation(c: SyntaxNode, source: Seq<u8>) -> Option<TypeModel> {
    match field_text(c, "type"@, source) {
        Some(t) => Some(py_type(t)),
        None => None,
    }
}

/// What a child of a parameter list declares, if a parameter other than
/// `self` or `cls`: plain identifiers, typed parameters (named by their
/// first child), and parameters with a default (named by their `name`).
pub open spec fn py_param(c: SyntaxNode, source: Seq<u8>) -> Option<ParamV> {
    if c.kind@ == "identifier"@ {
        let name = text_or_empty(c, source);
        if is_receiver(name) { None } else { Some((name, None, false)) }
    } else if c.kind@ == "typed_parameter"@ {
        let name = if c.children@.len() > 0 { text_or_empty(c.children@[0], source) } else { Seq::empty() };
        if is_receiver(name) { None } else { Some((name, annotation(c, source), false)) }
    } else if c.kind@ == "default_parameter"@ || c.kind@ == "typed_default_parameter"@ {
        let name = field_text_or_empty(c, "name"@, source);
        if is_receiver(name) { None } else { Some((name, annotation(c, source), true)) }
    } else {
        None
    }
}

pub open spec fn py_params_in(cs: Seq<SyntaxNode>, source: Seq<u8>) -> Seq<ParamV>
    decreases cs.len(),
{
    if cs.len() == 0 {
        Seq::empty()
    } else {
        let prev = py_params_in(cs.drop_last(), source);
        match py_param(cs.last(), source) {
            Some(p) => prev.push(p),
            None => prev,
        }
    }
}

/// The parameters of a function definition, in order.
pub open spec fn py_params(n: SyntaxNode, source: Seq<u8>) -> Seq<ParamV> {
    match field_index(n, "parameters"@) {
        Some(i) => py_params_in(n.children@[i].children@, source),
        None => Seq::empty(),
    }
}

/// The return annotation of a function definition, as a type.
pub open spec fn py_return(n: SyntaxNode, source: Seq<u8>) -> Option<TypeModel> {
    match field_text(n, "return_type"@, source) {
        Some(t) => Some(py_type(trim(t))),
        None => None,
    }
}

fn annotation_exec(c: &SyntaxNode, source: &[u8]) -> (r: Option<TypeRef>)
    ensures
        opt_type(r) == annotation(*c, source@),
{
    match text_of_field(c, "type", source) {
        Some(t) => Some(parse_py_type(t.as_str())),
        None => None,
    }
}

fn is_receiver_exec(name: &String) -> (r: bool)
    ensures
        r == is_receiver(name@),
{
    crate::text::str_eq(name, lit("self").as_slice()) || crate::text::str_eq(name, lit("cls").as_slice())
}

fn py_param_exec(c: &SyntaxNode, source: &[u8]) -> (r: Option<Param>)
    ensures
        match r {
            Some(p) => py_param(*c, source@) == Some(param_model(p)),
            None => py_param(*c, source@) is None,
        },
{
    if crate::extract::kind_is(c, "identifier") {
        let name = text_or_default(c, source);
        if is_receiver_exec(&name) { None } else { Some(Param { name, type_ref: None, has_default: false }) }
    } else if crate::extract::kind_is(c, "typed_parameter") {
        let name = if c.children.len() > 0 { text_or_default(&c.children[0], source) } else { String::new() };
        if is_receiver_exec(&name) {
            None
        } else {
            Some(Param { name, type_ref: annotation_exec(c, source), has_default: false })
        }
    } else if crate::extract::kind_is(c, "default_parameter") || crate::extract::kind_is(c, "typed_default_parameter") {
        let name = field_text_or_default(c, "name", source);
        if is_receiver_exec(&name) {
            None
        } else {
            Some(Param { name, type_ref: annotation_exec(c, source), has_default: true })
        }
    } else {
        None
    }
}

/// The parameters of a function definition (see `py_params`).
pub fn extract_params(n: &SyntaxNode, source: &[u8]) -> (r: Vec<Param>)
    ensures
        r@.map_values(|p: Param| param_model(p)) == py_params(*n, source@),
{
    let mut out: Vec<Param> = Vec::new();
    match field_position(n, "parameters") {
        Some(k) => {
            let cs = &n.children[k].children;
            let mut i: usize = 0;
            while i < cs.len()
                invariant
                    i <= cs@.len(),
                    out@.map_values(|p: Param| param_model(p)) == py_params_in(cs@.take(i as int), source@),
                decreases cs@.len() - i,
            {
                proof {
                    assert(cs@.take(i + 1).drop_last() =~= cs@.take(i as int));
                    assert(cs@.take(i + 1).last() == cs@[i as int]);
                }
                let ghost before = out@;
                match py_param_exec(&cs[i], source) {
                    Some(p) => {
                        out.push(p);
                        proof {
                            assert(out@.map_values(|p: Param| param_model(p)) =~= before.map_values(
                                |p: Param| param_model(p),
                            ).push(param_model(p)));
                        }
                    },
                    None => {},
                }
                i = i + 1;
            }
            proof {
                assert(cs@.take(cs@.len() as int) =~= cs@);
            }
        },
        None => {
            proof {
                assert(out@.map_values(|p: Param| param_model(p)) =~= Seq::<ParamV>::empty());
            }
        },
    }
    out
}

/// The return annotation of a function definition (see `py_return`).
pub fn extract_return_type(n: &SyntaxNode, source: &[u8]) -> (r: Option<TypeRef>)
    ensures
        opt_type(r) == py_return(*n, source@),
{
    match text_of_field(n, "return_type", source) {
        Some(t) => {
            let tt = string_of(trim_exec(chars_of(t.as_str()).as_slice()).as_slice());
            Some(parse_py_type(tt.as_str()))
        },
        None => None,
    }
}

// ─── Names ─────────────────────────────────────────────────────

/// Python's naming convention: dunder names are public, other names with a
/// leading underscore private, the rest public.
pub open spec fn py_fn_visibility(name: Seq<char>) -> Visibility {
    if starts_with(name, "__"@) && ends_with(name, "__"@) {
        Visibility::Public
    } else if starts_with(name, "_"@) {
        Visibility::Private
    } else {
        Visibility::Public
    }
}

/// A name that does not start with an underscore is public; one with a
/// single leading underscore is private; a dunder name `__x__` is public.
pub proof fn law_python_naming(x: Seq<char>)
    ensures
        x.len() > 0 && x[0] != '_' ==> py_fn_visibility(x) == Visibility::Public,
        x.len() > 0 && x[0] != '_' ==> py_fn_visibility(seq!['_'] + x) == Visibility::Private,
        py_fn_visibility(seq!['_', '_'] + x + seq!['_', '_']) == Visibility::Public,
{
    reveal_strlit("__");
    reveal_strlit("_");
    if x.len() > 0 && x[0] != '_' {
        assert(!starts_with(x, "_"@)) by {
            if starts_with(x, "_"@) {
                assert(x.subrange(0, 1)[0] == x[0]);
            }
        }
        assert(!starts_with(x, "__"@)) by {
            if starts_with(x, "__"@) {
                assert(x.subrange(0, 2)[0] == x[0]);
            }
        }
        let y = seq!['_'] + x;
        assert(!starts_with(y, "__"@)) by {
            if starts_with(y, "__"@) {
                assert(y.subrange(0, 2)[1] == y[1]);
                assert(y[1] == x[0]);
            }
        }
        assert(starts_with(y, "_"@)) by {
            assert(y.subrange(0, 1) =~= "_"@);
        }
    }
    let z = seq!['_', '_'] + x + seq!['_', '_'];
    assert(starts_with(z, "__"@)) by {
        assert(z.subrange(0, 2) =~= "__"@);
    }
    assert(ends_with(z, "__"@)) by {
        assert(z.subrange(z.len() - 2, z.len() as int) =~= "__"@);
    }
}

fn fn_visibility(name: &String) -> (r: Visibility)
    ensures
        r == py_fn_visibility(name@),
{
    let c = chars_of(name.as_str());
    let du = lit("__");
    if starts_with_exec(c.as_slice(), du.as_slice()) && ends_with_exec(c.as_slice(), du.as_slice()) {
        Visibility::Public
    } else if starts_with_exec(c.as_slice(), lit("_").as_slice()) {
        Visibility::Private
    } else {
        Visibility::Public
    }
}

pub open spec fn starts_async(t: Option<Seq<char>>) -> bool {
    match t {
        Some(x) => starts_with(x, "async"@),
        None => false,
    }
}

/// A function is async when its parent's text or its own starts with
/// `async`.
pub open spec fn py_is_async(n: SyntaxNode, parent: Option<SyntaxNode>, source: Seq<u8>) -> bool {
    (match parent {
        Some(p) => starts_async(node_text(p, source)),
        None => false,
    }) || starts_async(node_text(n, source))
}

fn starts_async_exec(t: Option<String>) -> (r: bool)
    ensures
        r == starts_async(opt_chars(t)),
{
    match t {
        Some(x) => starts_with_exec(chars_of(x.as_str()).as_slice(), lit("async").as_slice()),
        None => false,
    }
}

/// The text after the last dot of a name (all of it when it has none).
pub open spec fn after_last_dot(name: Seq<char>) -> Seq<char> {
    match rfind(name, "."@) {
        Some(i) => name.skip(i + 1),
        None => name,
    }
}

/// The bases listed in a class's superclass list: its text without the
/// surrounding parentheses, split at commas, each trimmed, the empty ones
/// dropped.
pub open spec fn bases_in(pieces: Seq<Seq<char>>) -> Seq<TypeModel>
    decreases pieces.len(),
{
    if pieces.len() == 0 {
        Seq::empty()
    } else {
        let prev = bases_in(pieces.drop_last());
        let b = trim(pieces.last());
        if b.len() > 0 { prev.push(TypeModel::Unresolved(b)) } else { prev }
    }
}

pub open spec fn py_bases(n: SyntaxNode, source: Seq<u8>) -> Seq<TypeModel> {
    match field_index(n, "superclasses"@) {
        Some(i) => bases_in(split(strip_set(text_or_empty(n.children@[i], source), "()"@, false), ","@)),
        None => Seq::empty(),
    }
}

fn bases_exec(n: &SyntaxNode, source: &[u8]) -> (r: Vec<TypeRef>)
    ensures
        tmodels(r@) == py_bases(*n, source@),
{
    let mut out: Vec<TypeRef> = Vec::new();
    proof {
        crate::types::lemma_tmodels_len(out@);
        assert(tmodels(out@) =~= Seq::<TypeModel>::empty());
    }
    match field_position(n, "superclasses") {
        Some(k) => {
            let t = text_or_default(&n.children[k], source);
            let inner = strip_set_exec(chars_of(t.as_str()).as_slice(), lit("()").as_slice(), false);
            let pieces = split_exec(inner.as_slice(), lit(",").as_slice());
            let mut i: usize = 0;
            while i < pieces.len()
                invariant
                    i <= pieces@.len(),
                    tmodels(out@) == bases_in(vviews(pieces@).take(i as int)),
                decreases pieces@.len() - i,
            {
                proof {
                    assert(vviews(pieces@).take(i + 1).drop_last() =~= vviews(pieces@).take(i as int));
                    assert(vviews(pieces@).take(i + 1).last() == pieces@[i as int]@);
                }
                let b = trim_exec(pieces[i].as_slice());
                if b.len() > 0 {
                    let ghost before = out@;
                    let t = TypeRef::Unresolved(string_of(b.as_slice()));
                    out.push(t);
                    proof {
                        crate::types::lemma_tmodels_push(before, t);
                    }
                }
                i = i + 1;
            }
            proof {
                assert(vviews(pieces@).take(pieces@.len() as int) =~= vviews(pieces@));
            }
        },
        None => {},
    }
    out
}

// ─── Calls ─────────────────────────────────────────────────────

/// The id a called name refers to: the last id given to the text after its
/// last dot, else to the whole name, else a new placeholder.
pub open spec fn py_resolve(m: ExtModel, name: Seq<char>, at: SyntaxNode, path: Seq<char>) -> (NodeId, ExtModel) {
    match name_of(m, after_last_dot(name)) {
        Some(id) => (id, m),
        None => match name_of(m, name) {
            Some(id) => (id, m),
            None => {
                let id = NodeId(m.next_id);
                (id, with_node(with_name(alloc_model(m), name, id), placeholder(id, name, span_at(path, at))))
            },
        },
    }
}

/// The calls made within the tree under `n` by the function `caller`: each
/// `call` gives an edge to what its callee names, dynamic when the name has
/// a dot; under a branch the calls are conditional on the branch's kind,
/// under a loop in the loop, under a `try` fallible, or on the error path
/// in an `except` clause.
pub open spec fn py_calls(m: ExtModel, caller: NodeId, n: SyntaxNode, cond: Option<CondModel>, path: Seq<char>, source: Seq<u8>) -> ExtModel
    decreases n, 1nat,
{
    if n.kind@ == "call"@ {
        let m1 = match field_index(n, "function"@) {
            Some(i) => if 0 <= i < n.children@.len() {
                let f = n.children@[i];
                let name = text_or_empty(f, source);
                let (callee, m2) = py_resolve(m, name, f, path);
                with_edge(m2, EdgeModel::Calls { caller, callee, site: span_at(path, n), cond, dynamic: contains(name, "."@) })
            } else {
                m
            },
            None => m,
        };
        py_calls_in(m1, caller, n.children@, cond, false, path, source)
    } else if py_branch_kinds().contains(n.kind@) {
        py_calls_in(m, caller, n.children@, Some(CondModel::Conditional(n.kind@)), false, path, source)
    } else if py_loop_kinds().contains(n.kind@) {
        py_calls_in(m, caller, n.children@, Some(CondModel::InLoop), false, path, source)
    } else if n.kind@ == "try_statement"@ {
        py_calls_in(m, caller, n.children@, cond, true, path, source)
    } else {
        py_calls_in(m, caller, n.children@, cond, false, path, source)
    }
}

/// The calls within a list of trees, one after another; in a `try`, each
/// `except` clause is on the error path and the rest fallible.
pub open spec fn py_calls_in(
    m: ExtModel,
    caller: NodeId,
    cs: Seq<SyntaxNode>,
    cond: Option<CondModel>,
    in_try: bool,
    path: Seq<char>,
    source: Seq<u8>,
) -> ExtModel
    decreases cs, 0nat,
{
    if cs.len() == 0 {
        m
    } else {
        let c = if in_try {
            if cs[0].kind@ == "except_clause"@ { Some(CondModel::ErrorPath) } else { Some(CondModel::Fallible) }
        } else {
            cond
        };
        py_calls_in(py_calls(m, caller, cs[0], c, path, source), caller, cs.drop_first(), cond, in_try, path, source)
    }
}

pub(crate) fn after_last_dot_exec(name: &Vec<char>) -> (r: Vec<char>)
    ensures
        r@ == after_last_dot(name@),
{
    let dot = lit(".");
    proof {
        reveal_strlit(".");
        assert(dot@.len() == 1);
    }
    match rfind_exec(name.as_slice(), dot.as_slice()) {
        Some(i) => {
            proof {
                crate::text::lemma_rfind_bounds(name@, "."@);
            }
            let n = name.len();
            assert(i < n);
            crate::text::slice_chars(name.as_slice(), i + 1, n)
        },
        None => crate::text::slice_chars(name.as_slice(), 0, name.len()),
    }
}

fn resolve_exec(st: &mut Extraction, name: &String, at: &SyntaxNode, path: &str) -> (r: NodeId)
    ensures
        (r, final(st).model()) == py_resolve(old(st).model(), name@, *at, path@),
{
    let full = chars_of(name.as_str());
    let short = after_last_dot_exec(&full);
    match st.get_name(short.as_slice()) {
        Some(id) => id,
        None => match st.get_name(full.as_slice()) {
            Some(id) => id,
            None => {
                let id = st.fresh_id();
                st.put_name(crate::text::copy_string(name), id);
                let node = placeholder_node(id, name, span_of(path, at));
                st.push_node(node);
                id
            },
        },
    }
}

fn cond_exec(c: &Option<CallCondition>) -> (r: Option<CallCondition>)
    ensures
        opt_cond(r) == opt_cond(*c),
{
    match c {
        Some(CallCondition::Conditional(s)) => Some(CallCondition::Conditional(crate::text::copy_string(s))),
        Some(CallCondition::InLoop) => Some(CallCondition::InLoop),
        Some(CallCondition::ErrorPath) => Some(CallCondition::ErrorPath),
        Some(CallCondition::Fallible) => Some(CallCondition::Fallible),
        None => None,
    }
}

/// The calls made within a tree (see `py_calls`).
pub fn extract_calls(
    st: &mut Extraction,
    caller: NodeId,
    n: &SyntaxNode,
    cond: Option<CallCondition>,
    path: &str,
    source: &[u8],
)
    ensures
        final(st).model() == py_calls(old(st).model(), caller, *n, opt_cond(cond), path@, source@),
    decreases n, 1nat,
{
    if crate::extract::kind_is(n, "call") {
        match field_position(n, "function") {
            Some(k) => {
                let f = &n.children[k];
                let name = text_or_default(f, source);
                let callee = resolve_exec(st, &name, f, path);
                let dynamic = contains_exec(chars_of(name.as_str()).as_slice(), lit(".").as_slice());
                let e = UsirEdge::Calls(CallEdge {
                    caller,
                    callee,
                    call_site: span_of(path, n),
                    condition: cond_exec(&cond),
                    is_dynamic: dynamic,
                });
                st.push_edge(e);
            },
            None => {},
        }
        calls_in(st, caller, n, cond, false, path, source);
    } else if kind_among(n, &branch_kinds()) {
        let c = Some(CallCondition::Conditional(crate::text::copy_string(&n.kind)));
        calls_in(st, caller, n, c, false, path, source);
    } else if kind_among(n, &loop_kinds()) {
        calls_in(st, caller, n, Some(CallCondition::InLoop), false, path, source);
    } else if crate::extract::kind_is(n, "try_statement") {
        calls_in(st, caller, n, cond, true, path, source);
    } else {
        calls_in(st, caller, n, cond, false, path, source);
    }
}

fn kind_among(n: &SyntaxNode, kinds: &Vec<Vec<char>>) -> (r: bool)
    ensures
        r == vviews(kinds@).contains(n.kind@),
{
    crate::extract::kind_among(n, kinds)
}

fn calls_in(
    st: &mut Extraction,
    caller: NodeId,
    n: &SyntaxNode,
    cond: Option<CallCondition>,
    in_try: bool,
    path: &str,
    source: &[u8],
)
    ensures
        final(st).model() == py_calls_in(old(st).model(), caller, n.children@, opt_cond(cond), in_try, path@, source@),
    decreases n, 0nat,
{
    let ghost cs = n.children@;
    let ghost target = py_calls_in(st.model(), caller, cs, opt_cond(cond), in_try, path@, source@);
    proof {
        assert(cs.skip(0) =~= cs);
    }
    let mut i: usize = 0;
    while i < n.children.len()
        invariant
            i <= cs.len(),
            cs == n.children@,
            target == py_calls_in(st.model(), caller, cs.skip(i as int), opt_cond(cond), in_try, path@, source@),
        decreases cs.len() - i,
    {
        let ghost rest = cs.skip(i as int);
        proof {
            assert(rest[0] == cs[i as int]);
            assert(rest.drop_first() =~= cs.skip(i + 1));
        }
        let c = if in_try {
            if crate::extract::kind_is(&n.children[i], "except_clause") {
                Some(CallCondition::ErrorPath)
            } else {
                Some(CallCondition::Fallible)
            }
        } else {
            cond_exec(&cond)
        };
        extract_calls(st, caller, &n.children[i], c, path, source);
        i = i + 1;
    }
    proof {
        assert(cs.skip(i as int) =~= Seq::<SyntaxNode>::empty());
    }
}

// ─── Definitions ───────────────────────────────────────────────

/// Which children of a node are read as definitions.
#[derive(Debug, Clone, Copy, PartialEq, Eq, Structural)]
pub enum ListMode {
    /// Every child.
    All,
    /// Only function and class definitions (under a decorator).
    Definitions,
    /// Functions, and decorated definitions (in a class body).
    ClassBody,
}

pub open spec fn deref_opt(p: Option<&SyntaxNode>) -> Option<SyntaxNode> {
    match p {
        Some(x) => Some(*x),
        None => None,
    }
}

/// A function definition: a function node named within the enclosing
/// scope, contained in the enclosing class if any, then the calls of its
/// body.
pub open spec fn py_function(m: ExtModel, n: SyntaxNode, parent: Option<SyntaxNode>, path: Seq<char>, source: Seq<u8>) -> ExtModel {
    let name = field_text_or_empty(n, "name"@, source);
    let id = NodeId(m.next_id);
    let m1 = alloc_model(m);
    let node = NodeModel::Function {
        id,
        name: m1.scope.push(name),
        params: py_params(n, source),
        ret: py_return(n, source),
        vis: py_fn_visibility(name),
        is_async: py_is_async(n, parent, source),
        is_unsafe: false,
        span: span_at(path, n),
        complexity: Some(complexity_of(n, py_decision_kinds())),
    };
    let m2 = with_node(with_name(m1, name, id), node);
    let m3 = match m2.container {
        Some(c) => with_edge(m2, EdgeModel::Contains { parent: c, child: id }),
        None => m2,
    };
    match field_index(n, "body"@) {
        Some(i) => if 0 <= i < n.children@.len() { py_calls(m3, id, n.children@[i], None, path, source) } else { m3 },
        None => m3,
    }
}

/// A class definition: a class node with its bases, then its body read
/// within the class's scope, the class as container.
pub open spec fn py_class(m: ExtModel, n: SyntaxNode, path: Seq<char>, source: Seq<u8>) -> ExtModel
    decreases n, 1nat,
{
    let name = field_text_or_empty(n, "name"@, source);
    let id = NodeId(m.next_id);
    let m1 = alloc_model(m);
    let node = NodeModel::DataType {
        id,
        name: m1.scope.push(name),
        kind: DataTypeKind::Class,
        fields: Seq::empty(),
        methods: Seq::empty(),
        implements: py_bases(n, source),
        vis: if starts_with(name, "_"@) { Visibility::Private } else { Visibility::Public },
        span: span_at(path, n),
    };
    let m2 = with_node(with_name(m1, name, id), node);
    let m3 = with_scope(with_container(m2, Some(id)), m2.scope.push(name));
    let m4 = match field_index(n, "body"@) {
        Some(i) => if 0 <= i < n.children@.len() {
            py_visit_in(m3, n.children@[i].children@, n.children@[i], ListMode::ClassBody, path, source)
        } else {
            m3
        },
        None => m3,
    };
    with_container(with_scope(m4, popped(m4.scope)), m2.container)
}

/// Reading a node: function and class definitions are read as such, a
/// decorated definition through its definitions, anything else through all
/// its children.
pub open spec fn py_visit(m: ExtModel, n: SyntaxNode, parent: Option<SyntaxNode>, path: Seq<char>, source: Seq<u8>) -> ExtModel
    decreases n, 2nat,
{
    if n.kind@ == "function_definition"@ {
        py_function(m, n, parent, path, source)
    } else if n.kind@ == "class_definition"@ {
        py_class(m, n, path, source)
    } else if n.kind@ == "decorated_definition"@ {
        py_visit_in(m, n.children@, n, ListMode::Definitions, path, source)
    } else {
        py_visit_in(m, n.children@, n, ListMode::All, path, source)
    }
}

/// Reading the children `cs` of `parent`, one after another, as `mode`
/// says.
pub open spec fn py_visit_in(m: ExtModel, cs: Seq<SyntaxNode>, parent: SyntaxNode, mode: ListMode, path: Seq<char>, source: Seq<u8>) -> ExtModel
    decreases cs, 0nat,
{
    if cs.len() == 0 {
        m
    } else {
        let c = cs[0];
        let m1 = match mode {
            ListMode::All => py_visit(m, c, Some(parent), path, source),
            ListMode::Definitions => if c.kind@ == "function_definition"@ || c.kind@ == "class_definition"@ {
                py_visit(m, c, Some(parent), path, source)
            } else {
                m
            },
            ListMode::ClassBody => if c.kind@ == "function_definition"@ {
                py_function(m, c, Some(parent), path, source)
            } else if c.kind@ == "decorated_definition"@ {
                py_visit(m, c, Some(parent), path, source)
            } else {
                m
            },
        };
        py_visit_in(m1, cs.drop_first(), parent, mode, path, source)
    }
}

fn extract_function(st: &mut Extraction, n: &SyntaxNode, parent: Option<&SyntaxNode>, path: &str, source: &[u8])
    ensures
        final(st).model() == py_function(old(st).model(), *n, deref_opt(parent), path@, source@),
{
    let name = field_text_or_default(n, "name", source);
    let id = st.fresh_id();
    let params = extract_params(n, source);
    let ret = extract_return_type(n, source);
    let is_async = match parent {
        Some(p) => starts_async_exec(text_of(p, source)),
        None => false,
    } || starts_async_exec(text_of(n, source));
    let vis = fn_visibility(&name);
    let cx = complexity(n, &decision_kinds());
    let qn = st.qualified(&name);
    st.put_name(name, id);
    let node = UsirNode::Function(FunctionNode {
        id,
        name: qn,
        params,
        return_type: ret,
        visibility: vis,
        is_async,
        is_unsafe: false,
        span: span_of(path, n),
        complexity: Some(cx),
    });
    st.push_node(node);
    match st.container {
        Some(c) => st.push_edge(UsirEdge::Contains(ContainsEdge { parent: c, child: id })),
        None => {},
    }
    match field_position(n, "body") {
        Some(k) => extract_calls(st, id, &n.children[k], None, path, source),
        None => {},
    }
}

fn extract_class(st: &mut Extraction, n: &SyntaxNode, path: &str, source: &[u8])
    ensures
        final(st).model() == py_class(old(st).model(), *n, path@, source@),
    decreases n, 1nat,
{
    let name = field_text_or_default(n, "name", source);
    let id = st.fresh_id();
    let implements = bases_exec(n, source);
    let vis = if starts_with_exec(chars_of(name.as_str()).as_slice(), lit("_").as_slice()) {
        Visibility::Private
    } else {
        Visibility::Public
    };
    let qn = st.qualified(&name);
    let fields: Vec<Field> = Vec::new();
    let methods: Vec<NodeId> = Vec::new();
    proof {
        assert(fields@.map_values(|f: Field| field_model(f)) =~= Seq::<crate::extract::FieldV>::empty());
        assert(methods@ =~= Seq::<NodeId>::empty());
    }
    let node = UsirNode::DataType(DataTypeNode {
        id,
        name: qn,
        kind: DataTypeKind::Class,
        fields,
        methods,
        implements,
        visibility: vis,
        span: span_of(path, n),
    });
    st.put_name(crate::text::copy_string(&name), id);
    st.push_node(node);
    let prev = st.container;
    st.set_container(Some(id));
    st.push_scope(name);
    match field_position(n, "body") {
        Some(k) => visit_in(st, &n.children[k], ListMode::ClassBody, path, source),
        None => {},
    }
    st.pop_scope();
    st.set_container(prev);
}

/// Reads a node of a Python syntax tree (see `py_visit`).
pub fn visit(st: &mut Extraction, n: &SyntaxNode, parent: Option<&SyntaxNode>, path: &str, source: &[u8])
    ensures
        final(st).model() == py_visit(old(st).model(), *n, deref_opt(parent), path@, source@),
    decreases n, 2nat,
{
    if crate::extract::kind_is(n, "function_definition") {
        extract_function(st, n, parent, path, source);
    } else if crate::extract::kind_is(n, "class_definition") {
        extract_class(st, n, path, source);
    } else if crate::extract::kind_is(n, "decorated_definition") {
        visit_in(st, n, ListMode::Definitions, path, source);
    } else {
        visit_in(st, n, ListMode::All, path, source);
    }
}

fn visit_in(st: &mut Extraction, parent: &SyntaxNode, mode: ListMode, path: &str, source: &[u8])
    ensures
        final(st).model() == py_visit_in(old(st).model(), parent.children@, *parent, mode, path@, source@),
    decreases parent.children@, 0nat,
{
    let ghost cs = parent.children@;
    let ghost target = py_visit_in(st.model(), cs, *parent, mode, path@, source@);
    proof {
        assert(cs.skip(0) =~= cs);
    }
    let mut i: usize = 0;
    while i < parent.children.len()
        invariant
            i <= cs.len(),
            cs == parent.children@,
            target == py_visit_in(st.model(), cs.skip(i as int), *parent, mode, path@, source@),
        decreases cs.len() - i,
    {
        let ghost rest = cs.skip(i as int);
        proof {
            assert(rest[0] == cs[i as int]);
            assert(rest.drop_first() =~= cs.skip(i + 1));
        }
        let c = &parent.children[i];
        match mode {
            ListMode::All => visit(st, c, Some(parent), path, source),
            ListMode::Definitions => {
                if crate::extract::kind_is(c, "function_definition") || crate::extract::kind_is(c, "class_definition") {
                    visit(st, c, Some(parent), path, source);
                }
            },
            ListMode::ClassBody => {
                if crate::extract::kind_is(c, "function_definition") {
                    extract_function(st, c, Some(parent), path, source);
                } else if crate::extract::kind_is(c, "decorated_definition") {
                    visit(st, c, Some(parent), path, source);
                }
            },
        }
        i = i + 1;
    }
    proof {
        assert(cs.skip(i as int) =~= Seq::<SyntaxNode>::empty());
    }
}

/// What reading a whole Python tree gives, ids handed out from `next`.
pub open spec fn py_file(t: SyntaxNode, path: Seq<char>, source: Seq<u8>, next: u64) -> ExtModel {
    py_visit(
        ExtModel {
            nodes: Seq::empty(),
            edges: Seq::empty(),
            scope: Seq::empty(),
            names: Map::empty(),
            container: None,
            next_id: next,
        },
        t,
        None,
        path,
        source,
    )
}

/// The nodes and edges of a Python syntax tree (see `py_file`); `next` is
/// the id counter, shared with other files.
pub fn extract_python(tree: &SyntaxNode, path: &str, source: &[u8], next: &mut u64) -> (r: ParseResult)
    ensures
        crate::extract::nodes_model(r.nodes@) == py_file(*tree, path@, source@, *old(next)).nodes,
        crate::extract::edges_model(r.edges@) == py_file(*tree, path@, source@, *old(next)).edges,
        *final(next) == py_file(*tree, path@, source@, *old(next)).next_id,
{
    let mut st = Extraction::new(*next);
    visit(&mut st, tree, None, path, source);
    *next = st.next_id;
    ParseResult { nodes: st.nodes, edges: st.edges }
}

/// Parses a Python source file into IR nodes and edges: the tree that
/// tree-sitter's Python grammar gives, read as `py_file` says; an error
/// when the source cannot be parsed.
pub fn parse(path: &str, source: &[u8], next: &mut u64) -> (r: Result<ParseResult, String>)
    ensures
        r matches Ok(pr) ==> exists|t: SyntaxNode| {
            &&& crate::syntax::python_syntax(source@) == Some(crate::syntax::walk_of(t))
            &&& crate::extract::nodes_model(pr.nodes@) == py_file(t, path@, source@, *old(next)).nodes
            &&& crate::extract::edges_model(pr.edges@) == py_file(t, path@, source@, *old(next)).edges
            &&& *final(next) == py_file(t, path@, source@, *old(next)).next_id
        },
        r is Err ==> *final(next) == *old(next),
        r is Err <==> !crate::syntax::parses(crate::syntax::Grammar::Python, source@),
{
    match crate::syntax::parse_syntax(crate::syntax::Grammar::Python, source) {
        Ok(t) => Ok(extract_python(&t, path, source, next)),
        Err(e) => Err(e),
    }
}

} // verus!
