//! Building the project snapshot from the semantic graph: which files the
//! graph covers, each file's functions and types, who calls what, the
//! hotspots and the health score.

use vstd::prelude::*;
use crate::graph::{slashed, to_slashes, SemanticGraph};
use crate::impact::{id_one_step, listed_id, one_step, ImpactResult};
use crate::ir::{NodeId, Visibility};
use crate::node::{DataTypeKind, DataTypeNode, FunctionNode, UsirNode};
use crate::numtext::{decimal, decimal_string};
use crate::snapshot::{format_type, is_test_name, opt_str, show_type, test_name, FunctionInfo, TypeInfo};
use crate::sorting::{keys_of, sort_dedup, strictly_sorted};
use crate::store::Direction;
use crate::text::{chars_of, copy_string, lit, rfind, rfind_exec, slice_chars, starts_with, starts_with_exec, string_of, views, vviews};

verus! {

// ─── Paths and languages ───────────────────────────────────────

/// A file's path relative to the working directory, with forward slashes:
/// the directory and its `/` are dropped from the front where they stand
/// there.
pub open spec fn relative_path(file: Seq<char>, cwd: Seq<char>) -> Seq<char> {
    let a = slashed(file);
    let pre = slashed(cwd) + "/"@;
    if starts_with(a, pre) {
        a.skip(pre.len() as int)
    } else {
        a
    }
}

/// What follows the last `.` of a path (the whole path where there is none).
pub open spec fn extension_of(p: Seq<char>) -> Seq<char> {
    match rfind(p, "."@) {
        Some(i) => p.skip(i + 1),
        None => p,
    }
}

/// The language a path's extension names.
pub open spec fn language_of(p: Seq<char>) -> Seq<char> {
    let e = extension_of(p);
    if e == "rs"@ {
        "rust"@
    } else if e == "ts"@ || e == "tsx"@ || e == "js"@ || e == "jsx"@ {
        "typescript"@
    } else if e == "py"@ {
        "python"@
    } else if e == "vue"@ {
        "vue"@
    } else {
        "other"@
    }
}

pub fn relative_path_exec(file: &str, cwd: &str) -> (r: String)
    ensures
        r@ == relative_path(file@, cwd@),
{
    let a = to_slashes(&chars_of(file));
    let mut pre = to_slashes(&chars_of(cwd));
    pre.push('/');
    proof {
        reveal_strlit("/");
        assert(pre@ =~= slashed(cwd@) + "/"@);
    }
    if starts_with_exec(&a, &pre) {
        let rest = slice_chars(&a, pre.len(), a.len());
        proof {
            assert(rest@ =~= a@.skip(pre@.len() as int));
        }
        string_of(&rest)
    } else {
        string_of(&a)
    }
}

pub fn language_of_exec(p: &str) -> (r: String)
    ensures
        r@ == language_of(p@),
{
    let pc = chars_of(p);
    let dot = lit(".");
    let e = match rfind_exec(&pc, &dot) {
        Some(i) => {
            proof {
                reveal_strlit(".");
                crate::text::lemma_rfind_bounds(pc@, "."@);
            }
            let n = pc.len();
            let s = slice_chars(&pc, i + 1, n);
            proof {
                assert(s@ =~= pc@.skip(i + 1));
            }
            s
        },
        None => pc,
    };
    let es = string_of(&e);
    if crate::text::str_eq(&es, &lit("rs")) {
        String::from_str("rust")
    } else if crate::text::str_eq(&es, &lit("ts")) || crate::text::str_eq(&es, &lit("tsx"))
        || crate::text::str_eq(&es, &lit("js")) || crate::text::str_eq(&es, &lit("jsx")) {
        String::from_str("typescript")
    } else if crate::text::str_eq(&es, &lit("py")) {
        String::from_str("python")
    } else if crate::text::str_eq(&es, &lit("vue")) {
        String::from_str("vue")
    } else {
        String::from_str("other")
    }
}

// ─── What a function and a type look like in the snapshot ──────

/// A visibility as the snapshot writes it.
pub open spec fn visibility_text(v: Visibility) -> Seq<char> {
    match v {
        Visibility::Public => "public"@,
        Visibility::Private => "private"@,
        Visibility::Protected => "protected"@,
        Visibility::Internal => "internal"@,
    }
}

/// A kind of data type as the snapshot writes it.
pub open spec fn kind_text(k: DataTypeKind) -> Seq<char> {
    match k {
        DataTypeKind::Struct => "Struct"@,
        DataTypeKind::Class => "Class"@,
        DataTypeKind::Interface => "Interface"@,
        DataTypeKind::Trait => "Trait"@,
        DataTypeKind::Enum => "Enum"@,
        DataTypeKind::Union => "Union"@,
        DataTypeKind::TypeAlias => "TypeAlias"@,
    }
}

fn visibility_text_exec(v: &Visibility) -> (r: String)
    ensures
        r@ == visibility_text(*v),
{
    match v {
        Visibility::Public => String::from_str("public"),
        Visibility::Private => String::from_str("private"),
        Visibility::Protected => String::from_str("protected"),
        Visibility::Internal => String::from_str("internal"),
    }
}

fn kind_text_exec(k: &DataTypeKind) -> (r: String)
    ensures
        r@ == kind_text(*k),
{
    match k {
        DataTypeKind::Struct => String::from_str("Struct"),
        DataTypeKind::Class => String::from_str("Class"),
        DataTypeKind::Interface => String::from_str("Interface"),
        DataTypeKind::Trait => String::from_str("Trait"),
        DataTypeKind::Enum => String::from_str("Enum"),
        DataTypeKind::Union => String::from_str("Union"),
        DataTypeKind::TypeAlias => String::from_str("TypeAlias"),
    }
}

/// The display name of the node id `nid` leads to, unless that node is a
/// placeholder.
pub open spec fn shown_name_of(g: SemanticGraph, nid: NodeId) -> Option<Seq<char>> {
    match g.lookup(nid) {
        Some(n) => if n.is_placeholder_spec() {
            None
        } else {
            Some(n.name_spec().shown())
        },
        None => None,
    }
}

/// The display names of the nodes one step from the node of id `id` (other
/// than placeholders); with `no_tests`, without names that look like tests'.
pub open spec fn neighbor_names(g: SemanticGraph, id: NodeId, dir: Direction, no_tests: bool) -> Set<Seq<char>> {
    Set::new(|x: Seq<char>| exists|y: u32|
        one_step(g.edges(), g.indices()[id.0], y, dir) && shown_name_of(g, #[trigger] g.nodes()[y].id_spec()) == Some(x)
            && !(no_tests && test_name(x)))
}

/// `v` holds the names of `s`, each once, in order.
pub open spec fn sorted_names(v: Seq<Seq<char>>, s: Set<Seq<char>>) -> bool {
    &&& strictly_sorted(v)
    &&& forall|x: Seq<char>| v.contains(x) <==> s.contains(x)
}

/// What the snapshot records of a function.
pub open spec fn function_info_ok(fi: FunctionInfo, g: SemanticGraph, f: FunctionNode) -> bool {
    &&& fi.name@ == f.name.shown()
    &&& fi.line == f.span.start_line
    &&& fi.visibility@ == visibility_text(f.visibility)
    &&& views(fi.params@) == f.params@.map_values(|p: crate::node::Param| p.name@)
    &&& opt_str(fi.return_type) == (match f.return_type {
        Some(t) => Some(show_type(t@)),
        None => None,
    })
    &&& fi.complexity == f.complexity->0
    &&& fi.is_async == f.is_async
    &&& sorted_names(views(fi.calls@), neighbor_names(g, f.id, Direction::Forward, false))
    &&& sorted_names(views(fi.called_by@), neighbor_names(g, f.id, Direction::Reverse, true))
}

/// What the snapshot records of a data type.
pub open spec fn type_info_ok(ti: TypeInfo, t: DataTypeNode) -> bool {
    &&& ti.name@ == t.name.shown()
    &&& ti.kind@ == kind_text(t.kind)
    &&& ti.line == t.span.start_line
    &&& views(ti.fields@) == t.fields@.map_values(|f: crate::node::Field| f.name@)
    &&& ti.visibility@ == visibility_text(t.visibility)
}

/// The names of the direct entries (other than placeholders), as the graph
/// knows them; with `no_tests`, without names that look like tests'.
fn direct_names(g: &SemanticGraph, r: &ImpactResult, no_tests: bool) -> (out: Vec<String>)
    requires
        g.wf(),
    ensures
        forall|x: Seq<char>| views(out@).contains(x) <==> exists|i: int| 0 <= i < r.direct@.len()
            && shown_name_of(*g, (#[trigger] r.direct@[i]).node_id) == Some(x) && !(no_tests && test_name(x)),
{
    let mut out: Vec<String> = Vec::new();
    let mut i: usize = 0;
    while i < r.direct.len()
        invariant
            i <= r.direct@.len(),
            g.wf(),
            forall|x: Seq<char>| views(out@).contains(x) <==> exists|j: int| 0 <= j < i
                && shown_name_of(*g, (#[trigger] r.direct@[j]).node_id) == Some(x) && !(no_tests && test_name(x)),
        decreases r.direct@.len() - i,
    {
        let nid = r.direct[i].node_id;
        let ghost before = views(out@);
        match g.get_node(nid) {
            Some(n) => {
                proof {
                    g.lemma_wf();
                }
                if !g.is_placeholder(n.id()) {
                    let name = n.name().display();
                    if !(no_tests && is_test_name(name.as_str())) {
                        out.push(name);
                        proof {
                            assert(views(out@) =~= before.push(name@));
                        }
                    }
                }
            },
            None => {},
        }
        proof {
            assert forall|x: Seq<char>| views(out@).contains(x) <==> exists|j: int| 0 <= j < i + 1
                && shown_name_of(*g, (#[trigger] r.direct@[j]).node_id) == Some(x) && !(no_tests && test_name(x)) by {
                if views(out@).contains(x) && !before.contains(x) {
                    let t = choose|t: int| 0 <= t < views(out@).len() && views(out@)[t] == x;
                    assert(t == before.len());
                    assert(shown_name_of(*g, r.direct@[i as int].node_id) == Some(x));
                }
                if before.contains(x) {
                    let t = choose|t: int| 0 <= t < before.len() && before[t] == x;
                    assert(views(out@)[t] == x);
                }
                if exists|j: int| 0 <= j < i + 1 && shown_name_of(*g, (#[trigger] r.direct@[j]).node_id) == Some(x) && !(no_tests && test_name(x)) {
                    let j = choose|j: int| 0 <= j < i + 1 && shown_name_of(*g, (#[trigger] r.direct@[j]).node_id) == Some(x) && !(no_tests && test_name(x));
                    if j == i {
                        assert(views(out@)[views(out@).len() - 1] == x);
                    }
                }
            }
        }
        i = i + 1;
    }
    out
}

/// The sorted distinct names of the nodes one step from `id`.
fn neighbor_names_exec(g: &SemanticGraph, id: NodeId, dir: Direction, no_tests: bool) -> (r: (Vec<String>, usize))
    requires
        g.wf(),
        g.indices().contains_key(id.0),
    ensures
        sorted_names(views(r.0@), neighbor_names(*g, id, dir, no_tests)),
        r.1 == Set::new(|y: u32| one_step(g.edges(), g.indices()[id.0], y, dir)).len(),
{
    let res = match dir {
        Direction::Forward => g.impact_forward(id, 1),
        Direction::Reverse => g.impact_reverse(id, 1),
    };
    proof {
        g.lemma_impact_one_step(id, dir, res);
    }
    let names = direct_names(g, &res, no_tests);
    let sorted = sort_dedup(&names);
    proof {
        let s = g.indices()[id.0];
        assert forall|x: Seq<char>| views(sorted@).contains(x) <==> neighbor_names(*g, id, dir, no_tests).contains(x) by {
            if views(names@).contains(x) {
                let i = choose|i: int| 0 <= i < res.direct@.len()
                    && shown_name_of(*g, (#[trigger] res.direct@[i]).node_id) == Some(x) && !(no_tests && test_name(x));
                assert(id_one_step(g.nodes(), g.edges(), s, dir, res.direct@[i].node_id));
                let y = choose|y: u32| one_step(g.edges(), s, y, dir) && g.nodes()[y].id_spec() == res.direct@[i].node_id;
                assert(shown_name_of(*g, g.nodes()[y].id_spec()) == Some(x));
            }
            if neighbor_names(*g, id, dir, no_tests).contains(x) {
                let y = choose|y: u32| one_step(g.edges(), s, y, dir) && shown_name_of(*g, #[trigger] g.nodes()[y].id_spec()) == Some(x)
                    && !(no_tests && test_name(x));
                assert(listed_id(res.direct@, g.nodes()[y].id_spec()));
                let i = choose|i: int| 0 <= i < res.direct@.len() && res.direct@[i].node_id == g.nodes()[y].id_spec();
                assert(shown_name_of(*g, (res.direct@[i]).node_id) == Some(x));
            }
        }
    }
    (sorted, res.total_affected)
}

// ─── Cross-file dependencies ───────────────────────────────────

/// A dependency as plain values: caller file, caller, callee file, callee.
pub open spec fn dependency_view(d: crate::snapshot::Dependency) -> (Seq<char>, Seq<char>, Seq<char>, Seq<char>) {
    (d.from_file@, d.from_function@, d.to_file@, d.to_function@)
}

/// The dependency that a caller node gives a function of file `file`: the
/// caller's file and name, and the function's; none where the caller looks
/// like a test or sits in the same file.
pub open spec fn caller_dependency(c: UsirNode, cwd: Seq<char>, file: Seq<char>, callee: Seq<char>)
    -> Option<(Seq<char>, Seq<char>, Seq<char>, Seq<char>)>
{
    let name = c.name_spec().shown();
    let cf = relative_path(c.span_spec().file@, cwd);
    if test_name(name) || cf == file {
        None
    } else {
        Some((cf, name, file, callee))
    }
}

/// The dependency that the node found for an id gives, if any.
pub open spec fn dependency_of(o: Option<UsirNode>, cwd: Seq<char>, file: Seq<char>, callee: Seq<char>)
    -> Option<(Seq<char>, Seq<char>, Seq<char>, Seq<char>)>
{
    match o {
        Some(c) => caller_dependency(c, cwd, file, callee),
        None => None,
    }
}

/// The dependencies on the function of id `id`: one from each node one step
/// before it, as `caller_dependency` gives it.
pub open spec fn dependency_from(g: SemanticGraph, id: NodeId, cwd: Seq<char>, file: Seq<char>, callee: Seq<char>,
    d: (Seq<char>, Seq<char>, Seq<char>, Seq<char>)) -> bool
{
    exists|y: u32| one_step(g.edges(), g.indices()[id.0], y, Direction::Reverse)
        && dependency_of(g.lookup(#[trigger] g.nodes()[y].id_spec()), cwd, file, callee) == Some(d)
}

/// Each entry of `deps` is a dependency on the function, and each
/// dependency on it is there.
pub open spec fn dependencies_ok(deps: Seq<(Seq<char>, Seq<char>, Seq<char>, Seq<char>)>, g: SemanticGraph, id: NodeId,
    cwd: Seq<char>, file: Seq<char>, callee: Seq<char>) -> bool
{
    forall|d: (Seq<char>, Seq<char>, Seq<char>, Seq<char>)| deps.contains(d) <==> dependency_from(g, id, cwd, file, callee, d)
}

pub open spec fn dependency_views(s: Seq<crate::snapshot::Dependency>) -> Seq<(Seq<char>, Seq<char>, Seq<char>, Seq<char>)> {
    s.map_values(|d: crate::snapshot::Dependency| dependency_view(d))
}

/// The dependencies on a function from its callers in other files.
fn caller_dependencies(g: &SemanticGraph, r: &ImpactResult, id: NodeId, cwd: &str, file: &String, callee: &String)
    -> (out: Vec<crate::snapshot::Dependency>)
    requires
        g.wf(),
        g.indices().contains_key(id.0),
        g.impact_spec(id, 1, Direction::Reverse, *r),
    ensures
        dependencies_ok(dependency_views(out@), *g, id, cwd@, file@, callee@),
{
    proof {
        g.lemma_impact_one_step(id, Direction::Reverse, *r);
        g.lemma_wf();
    }
    let ghost s = g.indices()[id.0];
    let mut out: Vec<crate::snapshot::Dependency> = Vec::new();
    let mut i: usize = 0;
    while i < r.direct.len()
        invariant
            i <= r.direct@.len(),
            g.wf(),
            forall|d: (Seq<char>, Seq<char>, Seq<char>, Seq<char>)| dependency_views(out@).contains(d) <==> exists|j: int|
                0 <= j < i && dependency_of(g.lookup((#[trigger] r.direct@[j]).node_id), cwd@, file@, callee@) == Some(d),
        decreases r.direct@.len() - i,
    {
        let nid = r.direct[i].node_id;
        let ghost before = dependency_views(out@);
        match g.get_node(nid) {
            Some(c) => {
                let name = c.name().display();
                if !is_test_name(name.as_str()) {
                    let cf = relative_path_exec(c.span().file.as_str(), cwd);
                    if !crate::text::str_eq(&cf, &chars_of(file.as_str())) {
                        let d = crate::snapshot::Dependency {
                            from_file: cf,
                            from_function: name,
                            to_file: copy_string(file),
                            to_function: copy_string(callee),
                        };
                        out.push(d);
                        proof {
                            assert(dependency_views(out@) =~= before.push(dependency_view(d)));
                        }
                    }
                }
            },
            None => {},
        }
        proof {
            assert forall|d: (Seq<char>, Seq<char>, Seq<char>, Seq<char>)| dependency_views(out@).contains(d) <==> exists|j: int|
                0 <= j < i + 1 && dependency_of(g.lookup((#[trigger] r.direct@[j]).node_id), cwd@, file@, callee@) == Some(d) by {
                if dependency_views(out@).contains(d) && !before.contains(d) {
                    let t = choose|t: int| 0 <= t < dependency_views(out@).len() && dependency_views(out@)[t] == d;
                    assert(t == before.len());
                    assert(g.lookup(r.direct@[i as int].node_id) is Some);
                }
                if before.contains(d) {
                    let t = choose|t: int| 0 <= t < before.len() && before[t] == d;
                    assert(dependency_views(out@)[t] == d);
                }
                if exists|j: int| 0 <= j < i + 1 && dependency_of(g.lookup((#[trigger] r.direct@[j]).node_id), cwd@, file@, callee@) == Some(d) {
                    let j = choose|j: int| 0 <= j < i + 1 && dependency_of(g.lookup((#[trigger] r.direct@[j]).node_id), cwd@, file@, callee@) == Some(d);
                    if j == i {
                        assert(dependency_views(out@)[dependency_views(out@).len() - 1] == d);
                    }
                }
            }
        }
        i = i + 1;
    }
    proof {
        assert forall|d: (Seq<char>, Seq<char>, Seq<char>, Seq<char>)| dependency_views(out@).contains(d) <==> dependency_from(*g, id, cwd@, file@, callee@, d) by {
            if dependency_views(out@).contains(d) {
                let j = choose|j: int| 0 <= j < r.direct@.len() && dependency_of(g.lookup((#[trigger] r.direct@[j]).node_id), cwd@, file@, callee@) == Some(d);
                assert(id_one_step(g.nodes(), g.edges(), s, Direction::Reverse, r.direct@[j].node_id));
                let y = choose|y: u32| one_step(g.edges(), s, y, Direction::Reverse) && g.nodes()[y].id_spec() == r.direct@[j].node_id;
                assert(g.lookup(g.nodes()[y].id_spec()) is Some);
            }
            if dependency_from(*g, id, cwd@, file@, callee@, d) {
                let y = choose|y: u32| one_step(g.edges(), s, y, Direction::Reverse)
                    && dependency_of(g.lookup(#[trigger] g.nodes()[y].id_spec()), cwd@, file@, callee@) == Some(d);
                assert(listed_id(r.direct@, g.nodes()[y].id_spec()));
                let j = choose|j: int| 0 <= j < r.direct@.len() && r.direct@[j].node_id == g.nodes()[y].id_spec();
                assert(g.lookup(r.direct@[j].node_id) is Some);
            }
        }
    }
    out
}

// ─── Per node ──────────────────────────────────────────────────

/// The ids, in order, of the nodes that the walk keeps: those the graph
/// knows and that are not placeholders.
pub open spec fn kept_ids(g: SemanticGraph, ids: Seq<NodeId>) -> Seq<NodeId>
    decreases ids.len(),
{
    if ids.len() == 0 {
        Seq::empty()
    } else {
        let rest = kept_ids(g, ids.drop_last());
        if g.lookup(ids.last()) matches Some(n) && !n.is_placeholder_spec() {
            rest.push(ids.last())
        } else {
            rest
        }
    }
}

/// The node an id leads to.
pub open spec fn node_of(g: SemanticGraph, k: NodeId) -> UsirNode {
    g.lookup(k)->0
}

/// The relative path of the file a node is in.
pub open spec fn path_of(g: SemanticGraph, cwd: Seq<char>, k: NodeId) -> Seq<char> {
    relative_path(node_of(g, k).span_spec().file@, cwd)
}

/// How many nodes stand one step before the node of id `id`.
pub open spec fn caller_count(g: SemanticGraph, id: NodeId) -> nat {
    Set::new(|y: u32| one_step(g.edges(), g.indices()[id.0], y, Direction::Reverse)).len()
}

/// A hotspot as plain values: file, function, line, reason.
pub type HotspotView = (Seq<char>, Seq<char>, u32, Seq<char>);

pub open spec fn hotspot_view(h: crate::snapshot::Hotspot) -> HotspotView {
    (h.file@, h.function@, h.line, h.reason@)
}

pub open spec fn hotspot_views(s: Seq<crate::snapshot::Hotspot>) -> Seq<HotspotView> {
    s.map_values(|h: crate::snapshot::Hotspot| hotspot_view(h))
}

/// The hotspots of a function in file `file`: one for a complexity over
/// fifteen, one for a public function with more than five callers.
pub open spec fn function_hotspots(g: SemanticGraph, f: FunctionNode, file: Seq<char>) -> Seq<HotspotView> {
    let c = f.complexity->0;
    let n = caller_count(g, f.id);
    let name = f.name.shown();
    let line = f.span.start_line;
    (if c > 15 { seq![(file, name, line, "complexity "@ + decimal(c as nat))] } else { Seq::empty() })
        + (if f.visibility == Visibility::Public && n > 5 { seq![(file, name, line, decimal(n) + " callers"@)] } else { Seq::empty() })
}

/// The hotspots of the kept nodes, node after node.
pub open spec fn hotspots_of(g: SemanticGraph, cwd: Seq<char>, kept: Seq<NodeId>) -> Seq<HotspotView>
    decreases kept.len(),
{
    if kept.len() == 0 {
        Seq::empty()
    } else {
        let rest = hotspots_of(g, cwd, kept.drop_last());
        match node_of(g, kept.last()) {
            UsirNode::Function(f) => if f.complexity is Some {
                rest + function_hotspots(g, f, path_of(g, cwd, kept.last()))
            } else {
                rest
            },
            _ => rest,
        }
    }
}

/// The functions (with a complexity) among the kept nodes of file `file`.
pub open spec fn functions_in(g: SemanticGraph, cwd: Seq<char>, kept: Seq<NodeId>, file: Seq<char>) -> Seq<FunctionNode>
    decreases kept.len(),
{
    if kept.len() == 0 {
        Seq::empty()
    } else {
        let rest = functions_in(g, cwd, kept.drop_last(), file);
        match node_of(g, kept.last()) {
            UsirNode::Function(f) => if f.complexity is Some && path_of(g, cwd, kept.last()) == file {
                rest.push(f)
            } else {
                rest
            },
            _ => rest,
        }
    }
}

/// The data types among the kept nodes of file `file`.
pub open spec fn types_in(g: SemanticGraph, cwd: Seq<char>, kept: Seq<NodeId>, file: Seq<char>) -> Seq<DataTypeNode>
    decreases kept.len(),
{
    if kept.len() == 0 {
        Seq::empty()
    } else {
        let rest = types_in(g, cwd, kept.drop_last(), file);
        match node_of(g, kept.last()) {
            UsirNode::DataType(t) => if path_of(g, cwd, kept.last()) == file {
                rest.push(t)
            } else {
                rest
            },
            _ => rest,
        }
    }
}

/// How many kept nodes are functions with a complexity.
pub open spec fn function_count(g: SemanticGraph, kept: Seq<NodeId>) -> nat
    decreases kept.len(),
{
    if kept.len() == 0 {
        0
    } else {
        function_count(g, kept.drop_last()) + if node_of(g, kept.last()) matches UsirNode::Function(f) && f.complexity is Some { 1nat } else { 0nat }
    }
}

/// How many kept nodes are data types.
pub open spec fn type_count(g: SemanticGraph, kept: Seq<NodeId>) -> nat
    decreases kept.len(),
{
    if kept.len() == 0 {
        0
    } else {
        type_count(g, kept.drop_last()) + if node_of(g, kept.last()) is DataType { 1nat } else { 0nat }
    }
}

/// `d` is a dependency on the function of id `k`.
pub open spec fn function_dependency(g: SemanticGraph, cwd: Seq<char>, k: NodeId, d: (Seq<char>, Seq<char>, Seq<char>, Seq<char>)) -> bool {
    match node_of(g, k) {
        UsirNode::Function(f) => f.complexity is Some && dependency_from(g, k, cwd, path_of(g, cwd, k), f.name.shown(), d),
        _ => false,
    }
}

/// A dependency on one of the kept functions.
pub open spec fn kept_dependency(g: SemanticGraph, cwd: Seq<char>, kept: Seq<NodeId>, d: (Seq<char>, Seq<char>, Seq<char>, Seq<char>)) -> bool {
    exists|i: int| 0 <= i < kept.len() && function_dependency(g, cwd, #[trigger] kept[i], d)
}

/// What a function node gives the snapshot: its record, its hotspots and
/// the dependencies on it.
fn function_parts(g: &SemanticGraph, f: &FunctionNode, cwd: &str, file: &String)
    -> (r: (FunctionInfo, Vec<crate::snapshot::Hotspot>, Vec<crate::snapshot::Dependency>))
    requires
        g.wf(),
        g.indices().contains_key(f.id.0),
        f.complexity is Some,
    ensures
        function_info_ok(r.0, *g, *f),
        hotspot_views(r.1@) == function_hotspots(*g, *f, file@),
        dependencies_ok(dependency_views(r.2@), *g, f.id, cwd@, file@, f.name.shown()),
{
    let complexity = match f.complexity {
        Some(c) => c,
        None => 0,
    };
    let (calls, _) = neighbor_names_exec(g, f.id, Direction::Forward, false);
    let reverse = g.impact_reverse(f.id, 1);
    proof {
        g.lemma_impact_one_step(f.id, Direction::Reverse, reverse);
    }
    let names = direct_names(g, &reverse, true);
    let called_by = sort_dedup(&names);
    proof {
        let s = g.indices()[f.id.0];
        assert forall|x: Seq<char>| views(called_by@).contains(x) <==> neighbor_names(*g, f.id, Direction::Reverse, true).contains(x) by {
            if views(names@).contains(x) {
                let i = choose|i: int| 0 <= i < reverse.direct@.len()
                    && shown_name_of(*g, (#[trigger] reverse.direct@[i]).node_id) == Some(x) && !(true && test_name(x));
                assert(id_one_step(g.nodes(), g.edges(), s, Direction::Reverse, reverse.direct@[i].node_id));
                let y = choose|y: u32| one_step(g.edges(), s, y, Direction::Reverse) && g.nodes()[y].id_spec() == reverse.direct@[i].node_id;
                assert(shown_name_of(*g, g.nodes()[y].id_spec()) == Some(x));
            }
            if neighbor_names(*g, f.id, Direction::Reverse, true).contains(x) {
                let y = choose|y: u32| one_step(g.edges(), s, y, Direction::Reverse) && shown_name_of(*g, #[trigger] g.nodes()[y].id_spec()) == Some(x)
                    && !(true && test_name(x));
                assert(listed_id(reverse.direct@, g.nodes()[y].id_spec()));
                let i = choose|i: int| 0 <= i < reverse.direct@.len() && reverse.direct@[i].node_id == g.nodes()[y].id_spec();
                assert(shown_name_of(*g, (reverse.direct@[i]).node_id) == Some(x));
            }
        }
    }
    let name = f.name.display();
    let deps = caller_dependencies(g, &reverse, f.id, cwd, file, &name);
    let mut hotspots: Vec<crate::snapshot::Hotspot> = Vec::new();
    if complexity > 15 {
        let mut reason = String::from_str("complexity ");
        reason.append(decimal_string(complexity as u64).as_str());
        hotspots.push(crate::snapshot::Hotspot {
            file: copy_string(file),
            function: copy_string(&name),
            line: f.span.start_line,
            reason,
        });
    }
    let n = reverse.total_affected;
    if f.visibility == Visibility::Public && n > 5 {
        let mut reason = decimal_string(n as u64);
        reason.append(" callers");
        hotspots.push(crate::snapshot::Hotspot {
            file: copy_string(file),
            function: copy_string(&name),
            line: f.span.start_line,
            reason,
        });
    }
    proof {
        assert(hotspot_views(hotspots@) =~= function_hotspots(*g, *f, file@));
    }
    let mut params: Vec<String> = Vec::new();
    let mut i: usize = 0;
    while i < f.params.len()
        invariant
            i <= f.params@.len(),
            views(params@) == f.params@.take(i as int).map_values(|p: crate::node::Param| p.name@),
        decreases f.params@.len() - i,
    {
        let ghost before = params@;
        params.push(copy_string(&f.params[i].name));
        proof {
            assert(views(params@) =~= views(before).push(f.params@[i as int].name@));
            assert(f.params@.take(i + 1).map_values(|p: crate::node::Param| p.name@)
                =~= f.params@.take(i as int).map_values(|p: crate::node::Param| p.name@).push(f.params@[i as int].name@));
        }
        i = i + 1;
    }
    proof {
        assert(f.params@.take(f.params@.len() as int) =~= f.params@);
    }
    let return_type = match &f.return_type {
        Some(t) => Some(format_type(t)),
        None => None,
    };
    let info = FunctionInfo {
        name,
        line: f.span.start_line,
        visibility: visibility_text_exec(&f.visibility),
        params,
        return_type,
        complexity,
        is_async: f.is_async,
        calls,
        called_by,
    };
    (info, hotspots, deps)
}

fn type_info(t: &DataTypeNode) -> (r: TypeInfo)
    ensures
        type_info_ok(r, *t),
{
    let mut fields: Vec<String> = Vec::new();
    let mut i: usize = 0;
    while i < t.fields.len()
        invariant
            i <= t.fields@.len(),
            views(fields@) == t.fields@.take(i as int).map_values(|f: crate::node::Field| f.name@),
        decreases t.fields@.len() - i,
    {
        let ghost before = fields@;
        fields.push(copy_string(&t.fields[i].name));
        proof {
            assert(views(fields@) =~= views(before).push(t.fields@[i as int].name@));
            assert(t.fields@.take(i + 1).map_values(|f: crate::node::Field| f.name@)
                =~= t.fields@.take(i as int).map_values(|f: crate::node::Field| f.name@).push(t.fields@[i as int].name@));
        }
        i = i + 1;
    }
    proof {
        assert(t.fields@.take(t.fields@.len() as int) =~= t.fields@);
    }
    TypeInfo {
        name: t.name.display(),
        kind: kind_text_exec(&t.kind),
        line: t.span.start_line,
        fields,
        visibility: visibility_text_exec(&t.visibility),
    }
}

// ─── Files ─────────────────────────────────────────────────────

/// What the snapshot records of file `file` after the kept nodes.
pub open spec fn file_matches(info: crate::snapshot::FileInfo, g: SemanticGraph, cwd: Seq<char>, kept: Seq<NodeId>, file: Seq<char>) -> bool {
    &&& info.language@ == language_of(file)
    &&& info.functions@.len() == functions_in(g, cwd, kept, file).len()
    &&& forall|j: int| 0 <= j < info.functions@.len() ==> function_info_ok(#[trigger] info.functions@[j], g, functions_in(g, cwd, kept, file)[j])
    &&& info.types@.len() == types_in(g, cwd, kept, file).len()
    &&& forall|j: int| 0 <= j < info.types@.len() ==> type_info_ok(#[trigger] info.types@[j], types_in(g, cwd, kept, file)[j])
    &&& info.imports@.len() == 0
}

/// The paths of the kept nodes.
pub open spec fn kept_paths(g: SemanticGraph, cwd: Seq<char>, kept: Seq<NodeId>) -> Seq<Seq<char>> {
    kept.map_values(|k: NodeId| path_of(g, cwd, k))
}

/// The files hold one entry for each path of a kept node, in path order,
/// each with what its kept nodes give it.
pub open spec fn files_match(files: Seq<(String, crate::snapshot::FileInfo)>, g: SemanticGraph, cwd: Seq<char>, kept: Seq<NodeId>) -> bool {
    &&& strictly_sorted(keys_of(files))
    &&& forall|p: Seq<char>| keys_of(files).contains(p) <==> kept_paths(g, cwd, kept).contains(p)
    &&& forall|i: int| 0 <= i < files.len() ==> file_matches((#[trigger] files[i]).1, g, cwd, kept, files[i].0@)
}

proof fn lemma_nothing_in(g: SemanticGraph, cwd: Seq<char>, kept: Seq<NodeId>, file: Seq<char>)
    requires
        !kept_paths(g, cwd, kept).contains(file),
    ensures
        functions_in(g, cwd, kept, file).len() == 0,
        types_in(g, cwd, kept, file).len() == 0,
    decreases kept.len(),
{
    if kept.len() > 0 {
        let kp = kept_paths(g, cwd, kept);
        assert(kept_paths(g, cwd, kept.drop_last()) =~= kp.drop_last());
        if kept_paths(g, cwd, kept.drop_last()).contains(file) {
            let j = choose|j: int| 0 <= j < kp.len() - 1 && kp.drop_last()[j] == file;
            assert(kp[j] == file);
        }
        lemma_nothing_in(g, cwd, kept.drop_last(), file);
        assert(kp[kept.len() - 1] == path_of(g, cwd, kept.last()));
    }
}

/// Enters a kept node's record in its file's entry, making the entry where
/// there is none yet.
fn enter_node(files: &mut Vec<(String, crate::snapshot::FileInfo)>, path: String, lang: String,
    fi: Option<FunctionInfo>, ti: Option<TypeInfo>,
    Ghost(g): Ghost<SemanticGraph>, Ghost(cwd): Ghost<Seq<char>>, Ghost(kept): Ghost<Seq<NodeId>>, Ghost(k): Ghost<NodeId>)
    requires
        files_match(old(files)@, g, cwd, kept),
        path@ == path_of(g, cwd, k),
        lang@ == language_of(path@),
        match node_of(g, k) {
            UsirNode::Function(f) => if f.complexity is Some {
                fi matches Some(x) && function_info_ok(x, g, f) && ti is None
            } else {
                fi is None && ti is None
            },
            UsirNode::DataType(t) => ti matches Some(x) && type_info_ok(x, t) && fi is None,
            _ => fi is None && ti is None,
        },
    ensures
        files_match(final(files)@, g, cwd, kept.push(k)),
{
    let ghost nk = kept.push(k);
    proof {
        assert(nk.drop_last() =~= kept);
        assert(kept_paths(g, cwd, nk) =~= kept_paths(g, cwd, kept).push(path@));
    }
    let pc = chars_of(path.as_str());
    let (slot, found) = crate::sorting::find_slot(files, &pc);
    let ghost ov = files@;
    let ghost ok = keys_of(ov);
    if !found {
        proof {
            assert(!kept_paths(g, cwd, kept).contains(path@));
            lemma_nothing_in(g, cwd, kept, path@);
        }
        let entry = (path, crate::snapshot::FileInfo { language: lang, functions: Vec::new(), types: Vec::new(), imports: Vec::new() });
        files.insert(slot, entry);
        proof {
            let nv = files@;
            let nkeys = keys_of(nv);
            assert(nkeys =~= ok.insert(slot as int, pc@));
            assert forall|a: int, b: int| 0 <= a < b < nkeys.len() implies crate::sorting::lex_lt(nkeys[a], nkeys[b]) by {
                if b < slot {
                } else if b == slot {
                } else if a < slot {
                    if b - 1 > slot {
                        crate::sorting::lemma_lex_transitive(pc@, ok[slot as int], ok[b - 1]);
                    }
                    crate::sorting::lemma_lex_transitive(ok[a], pc@, ok[b - 1]);
                } else if a == slot {
                    if b - 1 > slot {
                        crate::sorting::lemma_lex_transitive(pc@, ok[slot as int], ok[b - 1]);
                    }
                }
            }
            assert forall|q: Seq<char>| nkeys.contains(q) <==> (ok.contains(q) || q == pc@) by {
                if nkeys.contains(q) {
                    let a = choose|a: int| 0 <= a < nkeys.len() && nkeys[a] == q;
                    if a < slot {
                        assert(ok[a] == q);
                    } else if a > slot {
                        assert(ok[a - 1] == q);
                    }
                }
                if ok.contains(q) {
                    let a = choose|a: int| 0 <= a < ok.len() && ok[a] == q;
                    if a < slot {
                        assert(nkeys[a] == q);
                    } else {
                        assert(nkeys[a + 1] == q);
                    }
                }
                if q == pc@ {
                    assert(nkeys[slot as int] == q);
                }
            }
            assert forall|i: int| 0 <= i < nv.len() implies file_matches((#[trigger] nv[i]).1, g, cwd, kept, nv[i].0@) by {
                if i < slot {
                    assert(nv[i] == ov[i]);
                } else if i > slot {
                    assert(nv[i] == ov[i - 1]);
                } else {
                    assert(nv[i].0@ == path@);
                }
            }
        }
    }
    let ghost mv = files@;
    let ghost mk = keys_of(mv);
    proof {
        assert(mk[slot as int] == pc@) by {
            if found {
            } else {
                assert(mv[slot as int].0@ == path@);
            }
        }
        assert(strictly_sorted(mk));
        assert(forall|i: int| 0 <= i < mv.len() ==> file_matches((#[trigger] mv[i]).1, g, cwd, kept, mv[i].0@));
    }
    let mut e = files.remove(slot);
    match fi {
        Some(x) => {
            e.1.functions.push(x);
        },
        None => {},
    }
    match ti {
        Some(x) => {
            e.1.types.push(x);
        },
        None => {},
    }
    files.insert(slot, e);
    proof {
        let nv = files@;
        assert(nv =~= mv.update(slot as int, e));
        assert(keys_of(nv) =~= mk);
        assert forall|q: Seq<char>| keys_of(nv).contains(q) <==> kept_paths(g, cwd, nk).contains(q) by {
            crate::sorting::lemma_push_contains(kept_paths(g, cwd, kept), path@, q);
            if q == path@ {
                assert(mk[slot as int] == q);
            }
            if found {
                assert(mk =~= ok);
                assert(ok.contains(q) <==> kept_paths(g, cwd, kept).contains(q));
            } else {
                assert(mk.contains(q) <==> (ok.contains(q) || q == pc@));
                assert(ok.contains(q) <==> kept_paths(g, cwd, kept).contains(q));
            }
        }
        assert forall|i: int| 0 <= i < nv.len() implies file_matches((#[trigger] nv[i]).1, g, cwd, nk, nv[i].0@) by {
            let q = nv[i].0@;
            assert(functions_in(g, cwd, nk, q) == (match node_of(g, k) {
                UsirNode::Function(f) => if f.complexity is Some && path_of(g, cwd, k) == q {
                    functions_in(g, cwd, kept, q).push(f)
                } else {
                    functions_in(g, cwd, kept, q)
                },
                _ => functions_in(g, cwd, kept, q),
            }));
            assert(types_in(g, cwd, nk, q) == (match node_of(g, k) {
                UsirNode::DataType(t) => if path_of(g, cwd, k) == q {
                    types_in(g, cwd, kept, q).push(t)
                } else {
                    types_in(g, cwd, kept, q)
                },
                _ => types_in(g, cwd, kept, q),
            }));
            if i != slot {
                assert(nv[i] == mv[i]);
                assert(mk[i] != mk[slot as int]) by {
                    if i < slot {
                        crate::sorting::lemma_lex_irreflexive(mk[i]);
                    } else {
                        crate::sorting::lemma_lex_irreflexive(mk[slot as int]);
                    }
                }
            } else {
                assert(mv[slot as int].1.functions@ =~= e.1.functions@.take(mv[slot as int].1.functions@.len() as int)) by {
                }
            }
        }
    }
}

// ─── Fixed texts ───────────────────────────────────────────────

/// The commands the snapshot offers, with what each does.
pub open spec fn capability_texts() -> Seq<(Seq<char>, Seq<char>)> {
    seq![
        ("houndlens verify --format json --diff <ref>"@,
            "Compare current code against a git ref. Returns semantic changes, risk score, breaking changes."@),
        ("houndlens impact <file> --fn <name>"@, "Show what calls this function and what it calls."@),
        ("houndlens query \"FIND functions WHERE ...\""@,
            "Search codebase with HoundQL. Fields: name, complexity, visibility, params, async. Ops: = != > < ~"@),
        ("houndlens fix"@, "Generate tests for untested public functions and run them."@),
    ]
}

/// How the assistant is asked to behave.
pub open spec fn behavior_texts() -> Seq<Seq<char>> {
    seq![
        "After reading this, tell the developer the project is analyzed and ask what they need."@,
        "Use summary.json data to answer questions without opening files."@,
        "BEFORE modifying any file, check the call graph in summary.json to understand dependencies."@,
        "After completing a logical unit of work (not per file), run `houndlens` (~10ms) then read .houndlens/changes.json."@,
        "changes.json shows exactly what was affected: broken deps, added/removed functions, health delta."@,
        "Then run `houndlens verify --format json --diff HEAD` for syntax and breaking change check."@,
        "Run project linter/formatter from tooling on ONLY the files you changed."@,
        "If errors found, fix and repeat the cycle. If editing 5 files for one task, finish all 5 first, then check once."@,
        "NEVER run any tool on the entire project. Only on files you changed."@,
        "Full project analysis is houndlens's job. Your job is only the files you touched."@,
        "Do NOT show houndlens commands to the developer. Use them internally."@,
        "Speak as a colleague who knows the codebase, not as a tool."@,
    ]
}

/// What the assistant is asked to say once it has read the snapshot.
pub open spec fn ready_text(files: nat, functions: nat, types: nat, health: nat) -> Seq<char> {
    "Project analyzed. "@ + decimal(files) + " files, "@ + decimal(functions) + " functions, "@ + decimal(types)
        + " types. Health "@ + decimal(health) + "/100. Ready to help — ask the developer what they need."@
}

/// The health score for a number of hotspots: three points off per hotspot,
/// at most thirty.
pub open spec fn health_score(hotspots: nat) -> nat {
    if 3 * hotspots >= 30 {
        70
    } else {
        (100 - 3 * hotspots) as nat
    }
}

/// A project without hotspots scores a hundred; each hotspot takes three
/// points off until the score reaches seventy, below which it never goes.
pub proof fn law_health_per_hotspot(n: nat)
    ensures
        health_score(0) == 100,
        70 <= health_score(n) <= 100,
        health_score(n + 1) <= health_score(n),
        health_score(n + 1) > 70 ==> health_score(n + 1) + 3 == health_score(n),
        n >= 10 ==> health_score(n) == 70,
{
}

fn capabilities() -> (r: Vec<crate::snapshot::Capability>)
    ensures
        r@.map_values(|c: crate::snapshot::Capability| (c.command@, c.description@)) == capability_texts(),
{
    let r = vec![
        crate::snapshot::Capability {
            command: String::from_str("houndlens verify --format json --diff <ref>"),
            description: String::from_str("Compare current code against a git ref. Returns semantic changes, risk score, breaking changes."),
        },
        crate::snapshot::Capability {
            command: String::from_str("houndlens impact <file> --fn <name>"),
            description: String::from_str("Show what calls this function and what it calls."),
        },
        crate::snapshot::Capability {
            command: String::from_str("houndlens query \"FIND functions WHERE ...\""),
            description: String::from_str("Search codebase with HoundQL. Fields: name, complexity, visibility, params, async. Ops: = != > < ~"),
        },
        crate::snapshot::Capability {
            command: String::from_str("houndlens fix"),
            description: String::from_str("Generate tests for untested public functions and run them."),
        },
    ];
    proof {
        assert(r@.map_values(|c: crate::snapshot::Capability| (c.command@, c.description@)) =~= capability_texts());
    }
    r
}

fn behavior() -> (r: Vec<String>)
    ensures
        views(r@) == behavior_texts(),
{
    let r = vec![
        String::from_str("After reading this, tell the developer the project is analyzed and ask what they need."),
        String::from_str("Use summary.json data to answer questions without opening files."),
        String::from_str("BEFORE modifying any file, check the call graph in summary.json to understand dependencies."),
        String::from_str("After completing a logical unit of work (not per file), run `houndlens` (~10ms) then read .houndlens/changes.json."),
        String::from_str("changes.json shows exactly what was affected: broken deps, added/removed functions, health delta."),
        String::from_str("Then run `houndlens verify --format json --diff HEAD` for syntax and breaking change check."),
        String::from_str("Run project linter/formatter from tooling on ONLY the files you changed."),
        String::from_str("If errors found, fix and repeat the cycle. If editing 5 files for one task, finish all 5 first, then check once."),
        String::from_str("NEVER run any tool on the entire project. Only on files you changed."),
        String::from_str("Full project analysis is houndlens's job. Your job is only the files you touched."),
        String::from_str("Do NOT show houndlens commands to the developer. Use them internally."),
        String::from_str("Speak as a colleague who knows the codebase, not as a tool."),
    ];
    proof {
        assert(views(r@) =~= behavior_texts());
    }
    r
}

fn ready_text_exec(files: usize, functions: usize, types: usize, health: u32) -> (r: String)
    ensures
        r@ == ready_text(files as nat, functions as nat, types as nat, health as nat),
{
    let mut s = String::from_str("Project analyzed. ");
    s.append(decimal_string(files as u64).as_str());
    s.append(" files, ");
    s.append(decimal_string(functions as u64).as_str());
    s.append(" functions, ");
    s.append(decimal_string(types as u64).as_str());
    s.append(" types. Health ");
    s.append(decimal_string(health as u64).as_str());
    s.append("/100. Ready to help — ask the developer what they need.");
    s
}

// ─── The snapshot ──────────────────────────────────────────────

/// The languages of the kept nodes' files.
pub open spec fn kept_language(g: SemanticGraph, cwd: Seq<char>, kept: Seq<NodeId>, l: Seq<char>) -> bool {
    exists|i: int| 0 <= i < kept.len() && language_of(#[trigger] path_of(g, cwd, kept[i])) == l
}

fn holds_string(v: &Vec<String>, x: &String) -> (r: bool)
    ensures
        r == views(v@).contains(x@),
{
    let xc = chars_of(x.as_str());
    let mut i: usize = 0;
    while i < v.len()
        invariant
            i <= v@.len(),
            xc@ == x@,
            forall|j: int| 0 <= j < i ==> v@[j]@ != x@,
        decreases v@.len() - i,
    {
        if crate::text::str_eq(&v[i], &xc) {
            proof {
                assert(views(v@)[i as int] == x@);
            }
            return true;
        }
        i = i + 1;
    }
    proof {
        if views(v@).contains(x@) {
            let k = choose|k: int| 0 <= k < views(v@).len() && views(v@)[k] == x@;
            assert(v@[k]@ == x@);
        }
    }
    false
}

/// A node that is not a function with a complexity adds no dependency.
proof fn lemma_no_new_dependency(g: SemanticGraph, cwd: Seq<char>, kept: Seq<NodeId>, id: NodeId)
    requires
        !(node_of(g, id) matches UsirNode::Function(f) && f.complexity is Some),
    ensures
        forall|d: (Seq<char>, Seq<char>, Seq<char>, Seq<char>)|
            kept_dependency(g, cwd, kept.push(id), d) <==> kept_dependency(g, cwd, kept, d),
{
    let nk = kept.push(id);
    assert forall|d: (Seq<char>, Seq<char>, Seq<char>, Seq<char>)|
        kept_dependency(g, cwd, nk, d) <==> kept_dependency(g, cwd, kept, d) by {
        if kept_dependency(g, cwd, nk, d) {
            let j = choose|j: int| 0 <= j < nk.len() && function_dependency(g, cwd, #[trigger] nk[j], d);
            if j == kept.len() {
                assert(!function_dependency(g, cwd, id, d));
            }
            assert(nk[j] == kept[j]);
        }
        if kept_dependency(g, cwd, kept, d) {
            let j = choose|j: int| 0 <= j < kept.len() && function_dependency(g, cwd, #[trigger] kept[j], d);
            assert(nk[j] == kept[j]);
        }
    }
}

/// `r` is the snapshot of graph `g` walked in the order of `ids` (see
/// `snapshot_from`), before file imports are read.
pub open spec fn built_from(r: crate::snapshot::Snapshot, g: SemanticGraph, ids: Seq<NodeId>, cwd: Seq<char>, duration_ms: u64,
    now: Seq<char>, tooling: crate::snapshot::Tooling, invariants: Seq<Seq<char>>) -> bool
{
    let kept = kept_ids(g, ids);
    &&& r.generated_at@ == now
    &&& r.analysis_ms == duration_ms
    &&& files_match(r.files@, g, cwd, kept)
    &&& r.project.total_files == r.files@.len()
    &&& r.project.total_functions == function_count(g, kept)
    &&& r.project.total_types == type_count(g, kept)
    &&& r.project.framework is None
    &&& views(r.project.languages@).no_duplicates()
    &&& forall|l: Seq<char>| views(r.project.languages@).contains(l) <==> kept_language(g, cwd, kept, l)
    &&& hotspot_views(r.health.hotspots@) == hotspots_of(g, cwd, kept)
    &&& r.health.score == health_score(r.health.hotspots@.len())
    &&& views(r.health.invariants@) == invariants
    &&& forall|d: (Seq<char>, Seq<char>, Seq<char>, Seq<char>)|
        dependency_views(r.dependencies@).contains(d) <==> kept_dependency(g, cwd, kept, d)
    &&& r.tooling == tooling
    &&& r.capabilities@.map_values(|c: crate::snapshot::Capability| (c.command@, c.description@)) == capability_texts()
    &&& views(r.ai_instructions.behavior@) == behavior_texts()
    &&& r.ai_instructions.on_ready@ == ready_text(r.files@.len(), function_count(g, kept), type_count(g, kept), r.health.score as nat)
}

/// The snapshot of the graph, walking the nodes in the order of `ids`
/// (placeholders and unknown ids skipped): one entry per file of a kept
/// node, in path order, with the file's language and, in walk order, its
/// functions (those with a complexity) and types; the counts of files,
/// functions and types; the languages; the hotspots node after node; every
/// dependency on a kept function from a caller in another file; the health
/// score; and the given time, duration, tooling and invariants, with the
/// fixed capabilities and instructions. File imports are left empty.
pub fn snapshot_from(g: &SemanticGraph, ids: &Vec<NodeId>, cwd: &str, duration_ms: u64, now: String,
    tooling: crate::snapshot::Tooling, invariants: Vec<String>) -> (r: crate::snapshot::Snapshot)
    requires
        g.wf(),
    ensures
        built_from(r, *g, ids@, cwd@, duration_ms, now@, tooling, views(invariants@)),
{
    let mut files: Vec<(String, crate::snapshot::FileInfo)> = Vec::new();
    let mut languages: Vec<String> = Vec::new();
    let mut total_functions: usize = 0;
    let mut total_types: usize = 0;
    let mut hotspots: Vec<crate::snapshot::Hotspot> = Vec::new();
    let mut deps: Vec<crate::snapshot::Dependency> = Vec::new();
    let ghost mut kept: Seq<NodeId> = Seq::empty();
    proof {
        assert(keys_of(files@) =~= Seq::<Seq<char>>::empty());
        assert(kept_paths(*g, cwd@, kept) =~= Seq::<Seq<char>>::empty());
        assert(views(languages@) =~= Seq::<Seq<char>>::empty());
        assert(hotspot_views(hotspots@) =~= Seq::<HotspotView>::empty());
        assert(dependency_views(deps@) =~= Seq::<(Seq<char>, Seq<char>, Seq<char>, Seq<char>)>::empty());
        assert(ids@.take(0) =~= Seq::<NodeId>::empty());
    }
    let mut i: usize = 0;
    while i < ids.len()
        invariant
            i <= ids@.len(),
            g.wf(),
            kept == kept_ids(*g, ids@.take(i as int)),
            kept.len() <= i,
            files_match(files@, *g, cwd@, kept),
            views(languages@).no_duplicates(),
            forall|l: Seq<char>| views(languages@).contains(l) <==> kept_language(*g, cwd@, kept, l),
            total_functions == function_count(*g, kept),
            total_types == type_count(*g, kept),
            function_count(*g, kept) <= kept.len(),
            type_count(*g, kept) <= kept.len(),
            hotspot_views(hotspots@) == hotspots_of(*g, cwd@, kept),
            forall|d: (Seq<char>, Seq<char>, Seq<char>, Seq<char>)|
                #![trigger dependency_views(deps@).contains(d)]
                #![trigger kept_dependency(*g, cwd@, kept, d)]
                dependency_views(deps@).contains(d) <==> kept_dependency(*g, cwd@, kept, d),
        decreases ids@.len() - i,
    {
        proof {
            assert(ids@.take(i + 1).drop_last() =~= ids@.take(i as int));
            assert(ids@.take(i + 1).last() == ids@[i as int]);
        }
        let id = ids[i];
        match g.get_node(id) {
            Some(node) => {
                if !g.is_placeholder(id) {
                    proof {
                        g.lemma_wf();
                        assert(node_of(*g, id) == *node);
                    }
                    let ghost nk = kept.push(id);
                    let path = relative_path_exec(node.span().file.as_str(), cwd);
                    let lang = language_of_exec(path.as_str());
                    proof {
                        assert(nk.drop_last() =~= kept);
                        assert(path@ == path_of(*g, cwd@, id));
                    }
                    // Languages.
                    let ghost lb = views(languages@);
                    let held = holds_string(&languages, &lang);
                    if !held {
                        languages.push(copy_string(&lang));
                        proof {
                            let lv = views(languages@);
                            assert(lv =~= lb.push(lang@));
                            assert(lv[lv.len() - 1] == lang@);
                            assert forall|a: int, b: int| 0 <= a < lv.len() && 0 <= b < lv.len() && a != b implies lv[a] != lv[b] by {
                                if a == lv.len() - 1 {
                                    assert(lb.contains(lv[b]) || b == lv.len() - 1);
                                } else if b == lv.len() - 1 {
                                    assert(lb.contains(lv[a]));
                                }
                            }
                            assert forall|l: Seq<char>| lb.contains(l) implies lv.contains(l) by {
                                let t = choose|t: int| 0 <= t < lb.len() && lb[t] == l;
                                assert(lv[t] == l);
                            }
                            assert forall|l: Seq<char>| lv.contains(l) implies lb.contains(l) || l == lang@ by {
                                let t = choose|t: int| 0 <= t < lv.len() && lv[t] == l;
                                if t < lb.len() {
                                    assert(lb[t] == l);
                                }
                            }
                        }
                    }
                    proof {
                        let lv = views(languages@);
                        assert(lv.contains(lang@));
                        assert(forall|l: Seq<char>| lv.contains(l) <==> (lb.contains(l) || l == lang@));
                        assert forall|l: Seq<char>| lv.contains(l) <==> kept_language(*g, cwd@, nk, l) by {
                            if kept_language(*g, cwd@, kept, l) {
                                let j = choose|j: int| 0 <= j < kept.len() && language_of(#[trigger] path_of(*g, cwd@, kept[j])) == l;
                                assert(nk[j] == kept[j]);
                            }
                            if kept_language(*g, cwd@, nk, l) {
                                let j = choose|j: int| 0 <= j < nk.len() && language_of(#[trigger] path_of(*g, cwd@, nk[j])) == l;
                                if j < kept.len() {
                                    assert(nk[j] == kept[j]);
                                    assert(kept_language(*g, cwd@, kept, l));
                                } else {
                                    assert(l == lang@);
                                }
                            }
                            if l == lang@ {
                                assert(path_of(*g, cwd@, nk[kept.len() as int]) == path@);
                            }
                        }
                    }
                    match node {
                        UsirNode::Function(f) => {
                            if f.complexity.is_some() {
                                let (fi, hs, ds) = function_parts(g, f, cwd, &path);
                                enter_node(&mut files, path, lang, Some(fi), None, Ghost(*g), Ghost(cwd@), Ghost(kept), Ghost(id));
                                total_functions = total_functions + 1;
                                let ghost hb = hotspot_views(hotspots@);
                                let ghost db = dependency_views(deps@);
                                let mut hs2 = hs;
                                let mut ds2 = ds;
                                hotspots.append(&mut hs2);
                                deps.append(&mut ds2);
                                proof {
                                    assert(hotspot_views(hotspots@) =~= hb + hotspot_views(hs@));
                                    assert(f.id == id);
                                    let dv = dependency_views(deps@);
                                    assert(dv =~= db + dependency_views(ds@));
                                    assert forall|d: (Seq<char>, Seq<char>, Seq<char>, Seq<char>)|
                                        dv.contains(d) <==> kept_dependency(*g, cwd@, nk, d) by {
                                        if dv.contains(d) {
                                            let t = choose|t: int| 0 <= t < dv.len() && dv[t] == d;
                                            if t < db.len() {
                                                assert(db[t] == d);
                                                assert(db.contains(d));
                                                assert(kept_dependency(*g, cwd@, kept, d));
                                                let j = choose|j: int| 0 <= j < kept.len() && function_dependency(*g, cwd@, #[trigger] kept[j], d);
                                                assert(nk[j] == kept[j]);
                                            } else {
                                                assert(dependency_views(ds@)[t - db.len()] == d);
                                                assert(dependency_views(ds@).contains(d));
                                                assert(dependency_from(*g, f.id, cwd@, path@, f.name.shown(), d));
                                                assert(nk[kept.len() as int] == id);
                                                assert(function_dependency(*g, cwd@, nk[kept.len() as int], d));
                                            }
                                        }
                                        if kept_dependency(*g, cwd@, nk, d) {
                                            let j = choose|j: int| 0 <= j < nk.len() && function_dependency(*g, cwd@, #[trigger] nk[j], d);
                                            if j < kept.len() {
                                                assert(nk[j] == kept[j]);
                                                assert(kept_dependency(*g, cwd@, kept, d));
                                                let t = choose|t: int| 0 <= t < db.len() && db[t] == d;
                                                assert(dv[t] == d);
                                            } else {
                                                assert(dependency_views(ds@).contains(d));
                                                let t = choose|t: int| 0 <= t < dependency_views(ds@).len() && dependency_views(ds@)[t] == d;
                                                assert(dv[db.len() + t] == d);
                                            }
                                        }
                                    }
                                }
                            } else {
                                enter_node(&mut files, path, lang, None, None, Ghost(*g), Ghost(cwd@), Ghost(kept), Ghost(id));
                                proof {
                                    lemma_no_new_dependency(*g, cwd@, kept, id);
                                }
                            }
                        },
                        UsirNode::DataType(t) => {
                            let ti = type_info(t);
                            enter_node(&mut files, path, lang, None, Some(ti), Ghost(*g), Ghost(cwd@), Ghost(kept), Ghost(id));
                            total_types = total_types + 1;
                            proof {
                                lemma_no_new_dependency(*g, cwd@, kept, id);
                            }
                        },
                        _ => {
                            enter_node(&mut files, path, lang, None, None, Ghost(*g), Ghost(cwd@), Ghost(kept), Ghost(id));
                            proof {
                                lemma_no_new_dependency(*g, cwd@, kept, id);
                            }
                        },
                    }
                    proof {
                        kept = nk;
                    }
                }
            },
            None => {},
        }
        i = i + 1;
    }
    proof {
        assert(ids@.take(ids@.len() as int) =~= ids@);
    }
    let h = hotspots.len();
    let score: u32 = if h >= 10 { 70 } else { (100 - 3 * h) as u32 };
    let total_files = files.len();
    let on_ready = ready_text_exec(total_files, total_functions, total_types, score);
    crate::snapshot::Snapshot {
        generated_at: now,
        analysis_ms: duration_ms,
        project: crate::snapshot::ProjectOverview {
            languages,
            framework: None,
            total_files,
            total_functions,
            total_types,
        },
        files,
        dependencies: deps,
        health: crate::snapshot::Health { score, hotspots, invariants },
        capabilities: capabilities(),
        tooling,
        ai_instructions: crate::snapshot::AiInstructions { on_ready, behavior: behavior() },
    }
}

// ─── Imports read from source text ─────────────────────────────

/// Index of the first quote (`"` or `'`) in `s`.
pub open spec fn first_quote(s: Seq<char>) -> Option<int>
    decreases s.len(),
{
    if s.len() == 0 {
        None
    } else if s[0] == '"' || s[0] == '\'' {
        Some(0)
    } else {
        match first_quote(s.drop_first()) {
            Some(i) => Some(i + 1),
            None => None,
        }
    }
}

/// The modules a trimmed TypeScript/JavaScript line imports: the quoted
/// module after `from ` in an `import` line, and the module of a
/// `require("..")` call.
pub open spec fn ts_line_imports(t: Seq<char>) -> Seq<Seq<char>> {
    let a = if starts_with(t, "import "@) {
        match crate::text::find(t, "from "@) {
            Some(p) => {
                let m = crate::frontend::strip_set(crate::text::trim(t.skip(p + 5)), "\"'; "@, false);
                if m.len() > 0 { seq![m] } else { Seq::empty() }
            },
            None => Seq::empty(),
        }
    } else {
        Seq::empty()
    };
    let st = match crate::text::find(t, "require(\""@) {
        Some(i) => Some(i),
        None => crate::text::find(t, "require('"@),
    };
    let b = if crate::text::contains(t, "require("@) {
        match st {
            Some(i) => match first_quote(t.skip(i + 9)) {
                Some(e) => seq![t.skip(i + 9).take(e)],
                None => Seq::empty(),
            },
            None => Seq::empty(),
        }
    } else {
        Seq::empty()
    };
    a + b
}

/// The module names of the comma-separated list of an `import` line, each
/// without its ` as ` alias, the empty ones left out.
pub open spec fn module_list(pieces: Seq<Seq<char>>) -> Seq<Seq<char>>
    decreases pieces.len(),
{
    if pieces.len() == 0 {
        Seq::empty()
    } else {
        let rest = module_list(pieces.drop_last());
        let m = crate::text::trim(crate::frontend::before_as(pieces.last()));
        if m.len() > 0 { rest.push(m) } else { rest }
    }
}

/// The modules a trimmed Python line imports.
pub open spec fn py_line_imports(t: Seq<char>) -> Seq<Seq<char>> {
    if starts_with(t, "from "@) {
        let parts = crate::text::splitn(t, " "@, 3);
        if parts.len() >= 2 { seq![parts[1]] } else { Seq::empty() }
    } else if starts_with(t, "import "@) {
        module_list(crate::text::split(t.skip(7), ","@))
    } else {
        Seq::empty()
    }
}

/// The path a trimmed Rust `use` line imports, unless it starts at `self`
/// or `super`.
pub open spec fn rs_line_imports(t: Seq<char>) -> Seq<Seq<char>> {
    if starts_with(t, "use "@) {
        let path = crate::text::trim(crate::frontend::strip_set_end(t.skip(4), ";"@, false));
        let first = crate::text::trim(crate::text::split(path, "::"@)[0]);
        if first.len() > 0 && first != "self"@ && first != "super"@ { seq![path] } else { Seq::empty() }
    } else {
        Seq::empty()
    }
}

/// The imports of one line in the given language.
pub open spec fn line_imports(line: Seq<char>, language: Seq<char>) -> Seq<Seq<char>> {
    let t = crate::text::trim(line);
    if language == "typescript"@ || language == "javascript"@ {
        ts_line_imports(t)
    } else if language == "python"@ {
        py_line_imports(t)
    } else if language == "rust"@ {
        rs_line_imports(t)
    } else {
        Seq::empty()
    }
}

/// The imports of the lines, line after line.
pub open spec fn text_imports(ls: Seq<Seq<char>>, language: Seq<char>) -> Seq<Seq<char>>
    decreases ls.len(),
{
    if ls.len() == 0 {
        Seq::empty()
    } else {
        text_imports(ls.drop_last(), language) + line_imports(ls.last(), language)
    }
}

fn first_quote_exec(s: &Vec<char>) -> (r: Option<usize>)
    ensures
        match r {
            Some(i) => first_quote(s@) == Some(i as int) && i < s@.len(),
            None => first_quote(s@) is None,
        },
{
    let mut i: usize = 0;
    proof {
        assert(s@.skip(0) =~= s@);
    }
    while i < s.len()
        invariant
            i <= s@.len(),
            first_quote(s@) == (match first_quote(s@.skip(i as int)) {
                Some(k) => Some(k + i),
                None => None,
            }),
        decreases s@.len() - i,
    {
        proof {
            assert(s@.skip(i as int).drop_first() =~= s@.skip(i + 1));
            assert(s@.skip(i as int)[0] == s@[i as int]);
        }
        if s[i] == '"' || s[i] == '\'' {
            return Some(i);
        }
        i = i + 1;
    }
    None
}

fn ts_line_imports_exec(t: &Vec<char>) -> (r: Vec<Vec<char>>)
    ensures
        vviews(r@) == ts_line_imports(t@),
{
    proof {
        reveal_strlit("from ");
        reveal_strlit("require(\"");
        reveal_strlit("require('");
        crate::text::lemma_find_bounds(t@, "from "@);
        crate::text::lemma_find_bounds(t@, "require(\""@);
        crate::text::lemma_find_bounds(t@, "require('"@);
    }
    let n = t.len();
    let mut out: Vec<Vec<char>> = Vec::new();
    if starts_with_exec(t, &lit("import ")) {
        match crate::text::find_exec(t, &lit("from ")) {
            Some(p) => {
                let after = slice_chars(t, p + 5, n);
                proof {
                    assert(after@ =~= t@.skip(p + 5));
                }
                let m = crate::frontend::strip_set_exec(&crate::text::trim_exec(&after), &lit("\"'; "), false);
                if m.len() > 0 {
                    out.push(m);
                }
            },
            None => {},
        }
    }
    let ghost a = vviews(out@);
    proof {
        assert(a == (if starts_with(t@, "import "@) {
            match crate::text::find(t@, "from "@) {
                Some(p) => {
                    let m = crate::frontend::strip_set(crate::text::trim(t@.skip(p + 5)), "\"'; "@, false);
                    if m.len() > 0 { seq![m] } else { Seq::<Seq<char>>::empty() }
                },
                None => Seq::<Seq<char>>::empty(),
            }
        } else {
            Seq::<Seq<char>>::empty()
        })) by {
            if vviews(out@).len() == 1 {
                assert(vviews(out@) =~= seq![out@[0]@]);
            } else {
                assert(vviews(out@) =~= Seq::<Seq<char>>::empty());
            }
        }
    }
    if crate::text::contains_exec(t, &lit("require(")) {
        let st = match crate::text::find_exec(t, &lit("require(\"")) {
            Some(i) => Some(i),
            None => crate::text::find_exec(t, &lit("require('")),
        };
        match st {
            Some(i) => {
                let rest = slice_chars(t, i + 9, n);
                proof {
                    assert(rest@ =~= t@.skip(i + 9));
                }
                match first_quote_exec(&rest) {
                    Some(e) => {
                        let m = slice_chars(&rest, 0, e);
                        proof {
                            assert(m@ =~= rest@.take(e as int));
                        }
                        let ghost before = vviews(out@);
                        out.push(m);
                        proof {
                            assert(vviews(out@) =~= before.push(m@));
                        }
                    },
                    None => {},
                }
            },
            None => {},
        }
    }
    proof {
        assert(vviews(out@) =~= ts_line_imports(t@));
    }
    out
}

fn module_list_exec(pieces: &Vec<Vec<char>>) -> (r: Vec<Vec<char>>)
    ensures
        vviews(r@) == module_list(vviews(pieces@)),
{
    let mut out: Vec<Vec<char>> = Vec::new();
    let mut i: usize = 0;
    while i < pieces.len()
        invariant
            i <= pieces@.len(),
            vviews(out@) == module_list(vviews(pieces@).take(i as int)),
        decreases pieces@.len() - i,
    {
        proof {
            assert(vviews(pieces@).take(i + 1).drop_last() =~= vviews(pieces@).take(i as int));
            assert(vviews(pieces@).take(i + 1).last() == pieces@[i as int]@);
        }
        let m = crate::text::trim_exec(&crate::frontend::before_as_exec(&pieces[i]));
        if m.len() > 0 {
            let ghost before = vviews(out@);
            out.push(m);
            proof {
                assert(vviews(out@) =~= before.push(m@));
            }
        }
        i = i + 1;
    }
    proof {
        assert(vviews(pieces@).take(pieces@.len() as int) =~= vviews(pieces@));
    }
    out
}

fn py_line_imports_exec(t: &Vec<char>) -> (r: Vec<Vec<char>>)
    ensures
        vviews(r@) == py_line_imports(t@),
{
    let mut out: Vec<Vec<char>> = Vec::new();
    if starts_with_exec(t, &lit("from ")) {
        let parts = crate::text::splitn_exec(t, &lit(" "), 3);
        if parts.len() >= 2 {
            let p1 = slice_chars(&parts[1], 0, parts[1].len());
            proof {
                assert(p1@ =~= parts@[1]@);
                assert(vviews(parts@)[1] == parts@[1]@);
            }
            out.push(p1);
            proof {
                assert(vviews(out@) =~= seq![p1@]);
            }
        } else {
            proof {
                assert(vviews(out@) =~= Seq::<Seq<char>>::empty());
            }
        }
        out
    } else if starts_with_exec(t, &lit("import ")) {
        proof {
            reveal_strlit("import ");
        }
        let rest = slice_chars(t, 7, t.len());
        proof {
            assert(rest@ =~= t@.skip(7));
        }
        let pieces = crate::text::split_exec(&rest, &lit(","));
        module_list_exec(&pieces)
    } else {
        proof {
            assert(vviews(out@) =~= Seq::<Seq<char>>::empty());
        }
        out
    }
}

fn rs_line_imports_exec(t: &Vec<char>) -> (r: Vec<Vec<char>>)
    ensures
        vviews(r@) == rs_line_imports(t@),
{
    let mut out: Vec<Vec<char>> = Vec::new();
    if starts_with_exec(t, &lit("use ")) {
        proof {
            reveal_strlit("use ");
        }
        let rest = slice_chars(t, 4, t.len());
        proof {
            assert(rest@ =~= t@.skip(4));
        }
        let path = crate::text::trim_exec(&crate::frontend::strip_set_exec_end(&rest, &lit(";")));
        let sep = lit("::");
        let pieces = crate::text::split_exec(&path, &sep);
        proof {
            reveal_strlit("::");
            crate::typeparse::lemma_split_pieces(path@, sep@);
            assert(vviews(pieces@)[0] == pieces@[0]@);
        }
        let first = crate::text::trim_exec(&pieces[0]);
        if first.len() > 0 && !crate::text::eq_chars(&first, &lit("self")) && !crate::text::eq_chars(&first, &lit("super")) {
            out.push(path);
            proof {
                assert(vviews(out@) =~= seq![path@]);
            }
        } else {
            proof {
                assert(vviews(out@) =~= Seq::<Seq<char>>::empty());
            }
        }
    } else {
        proof {
            assert(vviews(out@) =~= Seq::<Seq<char>>::empty());
        }
    }
    out
}

/// The imports a source file declares, read line by line in its language
/// (TypeScript/JavaScript `import .. from` and `require`, Python `import`
/// and `from`, Rust `use`), sorted, each once.
pub fn extract_imports(source: &str, language: &str) -> (r: Vec<String>)
    ensures
        strictly_sorted(views(r@)),
        forall|x: Seq<char>| views(r@).contains(x) <==> text_imports(crate::text::lines(source@), language@).contains(x),
{
    let ls = crate::text::lines_exec(&chars_of(source));
    let lang = chars_of(language);
    let is_ts = crate::text::eq_chars(&lang, &lit("typescript")) || crate::text::eq_chars(&lang, &lit("javascript"));
    let is_py = crate::text::eq_chars(&lang, &lit("python"));
    let is_rs = crate::text::eq_chars(&lang, &lit("rust"));
    let mut all: Vec<String> = Vec::new();
    let mut i: usize = 0;
    while i < ls.len()
        invariant
            i <= ls@.len(),
            vviews(ls@) == crate::text::lines(source@),
            lang@ == language@,
            is_ts == (language@ == "typescript"@ || language@ == "javascript"@),
            is_py == (language@ == "python"@),
            is_rs == (language@ == "rust"@),
            views(all@) == text_imports(vviews(ls@).take(i as int), language@),
        decreases ls@.len() - i,
    {
        proof {
            let lv = vviews(ls@);
            assert(lv.take(i + 1).drop_last() =~= lv.take(i as int));
            assert(lv.take(i + 1).last() == ls@[i as int]@);
        }
        let t = crate::text::trim_exec(&ls[i]);
        let found = if is_ts {
            ts_line_imports_exec(&t)
        } else if is_py {
            py_line_imports_exec(&t)
        } else if is_rs {
            rs_line_imports_exec(&t)
        } else {
            let e: Vec<Vec<char>> = Vec::new();
            proof {
                assert(vviews(e@) =~= Seq::<Seq<char>>::empty());
            }
            e
        };
        let strs = crate::frontend::strings_of(&found);
        let ghost before = views(all@);
        let mut strs2 = strs;
        all.append(&mut strs2);
        proof {
            assert(views(all@) =~= before + vviews(found@));
        }
        i = i + 1;
    }
    proof {
        assert(vviews(ls@).take(ls@.len() as int) =~= vviews(ls@));
    }
    sort_dedup(&all)
}

/// The snapshot of the graph (see `snapshot_from`), its nodes walked in the
/// order the id index gives them, which is not fixed; its invariants are
/// the descriptions of the discovered invariants (numbered from `next` on)
/// with a confidence of at least nine in ten.
pub fn generate(g: &SemanticGraph, cwd: &str, duration_ms: u64, now: String, tooling: crate::snapshot::Tooling,
    next: &mut u64) -> (r: crate::snapshot::Snapshot)
    requires
        g.wf(),
        3 * g.nodes().len() + g.edges().len() <= usize::MAX,
    ensures
        exists|ids: Seq<NodeId>, invs: Seq<crate::rules::Invariant>| {
            &&& crate::discovery::index_order(*g, ids)
            &&& (exists|ids2: Seq<NodeId>| crate::discovery::index_order(*g, ids2) && crate::discovery::passes_ok(invs, *g, ids2))
            &&& crate::discovery::numbered(invs, *old(next), *final(next))
            &&& built_from(r, *g, ids, cwd@, duration_ms, now@, tooling, crate::discovery::high_descriptions(invs))
        },
{
    let ids = g.all_node_ids();
    let found = crate::discovery::discover(g, next);
    let mut descriptions: Vec<String> = Vec::new();
    let mut i: usize = 0;
    while i < found.invariants.len()
        invariant
            i <= found.invariants@.len(),
            views(descriptions@) == crate::discovery::high_descriptions(found.invariants@.take(i as int)),
        decreases found.invariants@.len() - i,
    {
        proof {
            assert(found.invariants@.take(i + 1).drop_last() =~= found.invariants@.take(i as int));
        }
        if found.invariants[i].confidence.is_at_least(9, 10) {
            let ghost before = views(descriptions@);
            descriptions.push(copy_string(&found.invariants[i].description));
            proof {
                assert(views(descriptions@) =~= before.push(found.invariants@[i as int].description@));
            }
        }
        i = i + 1;
    }
    proof {
        assert(found.invariants@.take(found.invariants@.len() as int) =~= found.invariants@);
    }
    let r = snapshot_from(g, &ids, cwd, duration_ms, now, tooling, descriptions);
    proof {
        assert(ids@.no_duplicates()) by {
            assert forall|a: int, b: int| 0 <= a < ids@.len() && 0 <= b < ids@.len() && a != b implies ids@[a] != ids@[b] by {
                if a < b {
                } else {
                }
            }
        }
        assert(crate::discovery::index_order(*g, ids@));
    }
    r
}

/// The snapshot with each file's imports read from its content: where the
/// content of file `i` is known, its imports are those the content declares
/// (see `extract_imports`); everything else stays as it was.
pub fn fill_imports(snapshot: &mut crate::snapshot::Snapshot, contents: &Vec<Option<String>>)
    requires
        contents@.len() == old(snapshot).files@.len(),
    ensures
        final(snapshot).files@.len() == old(snapshot).files@.len(),
        forall|i: int| 0 <= i < final(snapshot).files@.len() ==> {
            let (p, f) = #[trigger] final(snapshot).files@[i];
            let (p0, f0) = old(snapshot).files@[i];
            &&& p == p0
            &&& f.language == f0.language
            &&& f.functions == f0.functions
            &&& f.types == f0.types
            &&& match contents@[i] {
                Some(c) => strictly_sorted(views(f.imports@)) && forall|x: Seq<char>|
                    views(f.imports@).contains(x) <==> text_imports(crate::text::lines(c@), f0.language@).contains(x),
                None => f.imports == f0.imports,
            }
        },
        final(snapshot).generated_at == old(snapshot).generated_at,
        final(snapshot).analysis_ms == old(snapshot).analysis_ms,
        final(snapshot).project == old(snapshot).project,
        final(snapshot).dependencies == old(snapshot).dependencies,
        final(snapshot).health == old(snapshot).health,
        final(snapshot).capabilities == old(snapshot).capabilities,
        final(snapshot).tooling == old(snapshot).tooling,
        final(snapshot).ai_instructions == old(snapshot).ai_instructions,
{
    let n = snapshot.files.len();
    let mut i: usize = 0;
    while i < n
        invariant
            i <= n,
            n == old(snapshot).files@.len(),
            contents@.len() == n,
            snapshot.files@.len() == n,
            forall|j: int| i <= j < n ==> snapshot.files@[j] == old(snapshot).files@[j],
            forall|j: int| 0 <= j < i ==> {
                let (p, f) = #[trigger] snapshot.files@[j];
                let (p0, f0) = old(snapshot).files@[j];
                &&& p == p0
                &&& f.language == f0.language
                &&& f.functions == f0.functions
                &&& f.types == f0.types
                &&& match contents@[j] {
                    Some(c) => strictly_sorted(views(f.imports@)) && forall|x: Seq<char>|
                        views(f.imports@).contains(x) <==> text_imports(crate::text::lines(c@), f0.language@).contains(x),
                    None => f.imports == f0.imports,
                }
            },
            snapshot.generated_at == old(snapshot).generated_at,
            snapshot.analysis_ms == old(snapshot).analysis_ms,
            snapshot.project == old(snapshot).project,
            snapshot.dependencies == old(snapshot).dependencies,
            snapshot.health == old(snapshot).health,
            snapshot.capabilities == old(snapshot).capabilities,
            snapshot.tooling == old(snapshot).tooling,
            snapshot.ai_instructions == old(snapshot).ai_instructions,
        decreases n - i,
    {
        match &contents[i] {
            Some(c) => {
                let ghost before = snapshot.files@;
                let mut e = snapshot.files.remove(i);
                let imports = extract_imports(c.as_str(), e.1.language.as_str());
                e.1.imports = imports;
                snapshot.files.insert(i, e);
                proof {
                    assert(snapshot.files@ =~= before.update(i as int, e));
                }
            },
            None => {},
        }
        i = i + 1;
    }
}

/// The functions listed across the files.
pub open spec fn listed_functions(files: Seq<(String, crate::snapshot::FileInfo)>) -> nat
    decreases files.len(),
{
    if files.len() == 0 {
        0
    } else {
        listed_functions(files.drop_last()) + files.last().1.functions@.len()
    }
}

/// The functions of the kept nodes in each of the paths `ps`, added up.
pub open spec fn functions_per_path(g: SemanticGraph, cwd: Seq<char>, kept: Seq<NodeId>, ps: Seq<Seq<char>>) -> nat
    decreases ps.len(),
{
    if ps.len() == 0 {
        0
    } else {
        functions_per_path(g, cwd, kept, ps.drop_last()) + functions_in(g, cwd, kept, ps.last()).len()
    }
}

/// How many times `q` occurs in `ps`.
pub open spec fn occurrences(ps: Seq<Seq<char>>, q: Seq<char>) -> nat
    decreases ps.len(),
{
    if ps.len() == 0 {
        0
    } else {
        occurrences(ps.drop_last(), q) + if ps.last() == q { 1nat } else { 0nat }
    }
}

proof fn lemma_occurrences_once(ps: Seq<Seq<char>>, q: Seq<char>)
    requires
        ps.no_duplicates(),
    ensures
        occurrences(ps, q) == if ps.contains(q) { 1nat } else { 0nat },
    decreases ps.len(),
{
    if ps.len() > 0 {
        let rest = ps.drop_last();
        assert(rest.no_duplicates()) by {
            assert forall|a: int, b: int| 0 <= a < rest.len() && 0 <= b < rest.len() && a != b implies rest[a] != rest[b] by {
                assert(rest[a] == ps[a] && rest[b] == ps[b]);
            }
        }
        lemma_occurrences_once(rest, q);
        if ps.last() == q && rest.contains(q) {
            let a = choose|a: int| 0 <= a < rest.len() && rest[a] == q;
            assert(ps[a] == ps[ps.len() - 1]);
        }
        if ps.contains(q) && ps.last() != q {
            let a = choose|a: int| 0 <= a < ps.len() && ps[a] == q;
            assert(rest[a] == q);
        }
        if rest.contains(q) {
            let a = choose|a: int| 0 <= a < rest.len() && rest[a] == q;
            assert(ps[a] == q);
        }
    }
}

proof fn lemma_per_path_step(g: SemanticGraph, cwd: Seq<char>, kept: Seq<NodeId>, ps: Seq<Seq<char>>)
    requires
        kept.len() > 0,
    ensures
        functions_per_path(g, cwd, kept, ps) == functions_per_path(g, cwd, kept.drop_last(), ps) + if node_of(g, kept.last()) matches UsirNode::Function(f)
            && f.complexity is Some {
            occurrences(ps, path_of(g, cwd, kept.last()))
        } else {
            0nat
        },
    decreases ps.len(),
{
    if ps.len() > 0 {
        lemma_per_path_step(g, cwd, kept, ps.drop_last());
    }
}

proof fn lemma_per_path_empty(g: SemanticGraph, cwd: Seq<char>, ps: Seq<Seq<char>>)
    ensures
        functions_per_path(g, cwd, Seq::empty(), ps) == 0,
    decreases ps.len(),
{
    if ps.len() > 0 {
        lemma_per_path_empty(g, cwd, ps.drop_last());
    }
}

proof fn lemma_per_path_count(g: SemanticGraph, cwd: Seq<char>, kept: Seq<NodeId>, ps: Seq<Seq<char>>)
    requires
        ps.no_duplicates(),
        forall|j: int| 0 <= j < kept.len() ==> ps.contains(#[trigger] path_of(g, cwd, kept[j])),
    ensures
        functions_per_path(g, cwd, kept, ps) == function_count(g, kept),
    decreases kept.len(),
{
    if kept.len() == 0 {
        lemma_per_path_empty(g, cwd, ps);
        assert(kept =~= Seq::<NodeId>::empty());
    } else {
        let rest = kept.drop_last();
        assert forall|j: int| 0 <= j < rest.len() implies ps.contains(#[trigger] path_of(g, cwd, rest[j])) by {
            assert(rest[j] == kept[j]);
        }
        lemma_per_path_count(g, cwd, rest, ps);
        lemma_per_path_step(g, cwd, kept, ps);
        assert(ps.contains(path_of(g, cwd, kept[kept.len() - 1])));
        lemma_occurrences_once(ps, path_of(g, cwd, kept.last()));
    }
}

proof fn lemma_listed_per_path(files: Seq<(String, crate::snapshot::FileInfo)>, g: SemanticGraph, cwd: Seq<char>, kept: Seq<NodeId>)
    requires
        forall|i: int| 0 <= i < files.len() ==> file_matches((#[trigger] files[i]).1, g, cwd, kept, files[i].0@),
    ensures
        listed_functions(files) == functions_per_path(g, cwd, kept, keys_of(files)),
    decreases files.len(),
{
    if files.len() > 0 {
        let rest = files.drop_last();
        assert forall|i: int| 0 <= i < rest.len() implies file_matches((#[trigger] rest[i]).1, g, cwd, kept, rest[i].0@) by {
            assert(rest[i] == files[i]);
        }
        lemma_listed_per_path(rest, g, cwd, kept);
        assert(keys_of(files).drop_last() =~= keys_of(rest));
        assert(file_matches(files[files.len() - 1].1, g, cwd, kept, files[files.len() - 1].0@));
    }
}

/// In a snapshot, the function count is the number of functions listed
/// across its files, and each function's callees and callers are listed in
/// order, each once.
pub proof fn law_snapshot_functions_add_up(r: crate::snapshot::Snapshot, g: SemanticGraph, ids: Seq<NodeId>, cwd: Seq<char>,
    duration_ms: u64, now: Seq<char>, tooling: crate::snapshot::Tooling, invariants: Seq<Seq<char>>)
    requires
        built_from(r, g, ids, cwd, duration_ms, now, tooling, invariants),
    ensures
        r.project.total_functions == listed_functions(r.files@),
        forall|i: int, j: int| 0 <= i < r.files@.len() && 0 <= j < r.files@[i].1.functions@.len() ==> strictly_sorted(
            views((#[trigger] r.files@[i].1.functions@[j]).calls@),
        ) && strictly_sorted(views(r.files@[i].1.functions@[j].called_by@)),
{
    let kept = kept_ids(g, ids);
    let files = r.files@;
    let ps = keys_of(files);
    lemma_listed_per_path(files, g, cwd, kept);
    assert(ps.no_duplicates()) by {
        assert forall|a: int, b: int| 0 <= a < ps.len() && 0 <= b < ps.len() && a != b implies ps[a] != ps[b] by {
            if a < b {
                assert(crate::sorting::lex_lt(ps[a], ps[b]));
                if ps[a] == ps[b] {
                    crate::sorting::lemma_lex_irreflexive(ps[a]);
                }
            } else {
                assert(crate::sorting::lex_lt(ps[b], ps[a]));
                if ps[a] == ps[b] {
                    crate::sorting::lemma_lex_irreflexive(ps[a]);
                }
            }
        }
    }
    assert forall|j: int| 0 <= j < kept.len() implies ps.contains(#[trigger] path_of(g, cwd, kept[j])) by {
        assert(kept_paths(g, cwd, kept)[j] == path_of(g, cwd, kept[j]));
        assert(kept_paths(g, cwd, kept).contains(path_of(g, cwd, kept[j])));
    }
    lemma_per_path_count(g, cwd, kept, ps);
    assert forall|i: int, j: int| 0 <= i < files.len() && 0 <= j < files[i].1.functions@.len() implies strictly_sorted(
        views((#[trigger] files[i].1.functions@[j]).calls@),
    ) && strictly_sorted(views(files[i].1.functions@[j].called_by@)) by {
        assert(file_matches(files[i].1, g, cwd, kept, files[i].0@));
        assert(function_info_ok(files[i].1.functions@[j], g, functions_in(g, cwd, kept, files[i].0@)[j]));
    }
}

/// The hotspot that flags a busy function: its caller count, then
/// ` callers`.
pub open spec fn caller_hotspot(g: SemanticGraph, cwd: Seq<char>, k: NodeId, f: FunctionNode) -> HotspotView {
    (path_of(g, cwd, k), f.name.shown(), f.span.start_line, decimal(caller_count(g, f.id)) + " callers"@)
}

proof fn lemma_decimal_ends_in_digit(n: nat)
    ensures
        decimal(n).len() > 0,
        is_digit_char(decimal(n).last()),
    decreases n,
{
    if n >= 10 {
        lemma_decimal_ends_in_digit(n / 10);
    }
}

/// A digit character.
pub open spec fn is_digit_char(c: char) -> bool {
    '0' <= c && c <= '9'
}

proof fn lemma_busy_listed(g: SemanticGraph, cwd: Seq<char>, kept: Seq<NodeId>, k: NodeId, f: FunctionNode)
    requires
        kept.contains(k),
        node_of(g, k) == UsirNode::Function(f),
        f.complexity is Some,
        f.visibility == Visibility::Public,
        caller_count(g, f.id) > 5,
    ensures
        hotspots_of(g, cwd, kept).contains(caller_hotspot(g, cwd, k, f)),
    decreases kept.len(),
{
    let rest = kept.drop_last();
    let e = caller_hotspot(g, cwd, k, f);
    if kept.last() == k {
        let fh = function_hotspots(g, f, path_of(g, cwd, k));
        assert(fh.last() == e);
        assert(fh.contains(e));
        let h = hotspots_of(g, cwd, kept);
        assert(h == hotspots_of(g, cwd, rest) + fh);
        assert(h[h.len() - 1] == e);
    } else {
        let j = choose|j: int| 0 <= j < kept.len() && kept[j] == k;
        assert(rest[j] == k);
        lemma_busy_listed(g, cwd, rest, k, f);
        let hr = hotspots_of(g, cwd, rest);
        let m = choose|m: int| 0 <= m < hr.len() && hr[m] == e;
        let h = hotspots_of(g, cwd, kept);
        assert(h[m] == e);
    }
}

proof fn lemma_caller_entries(g: SemanticGraph, cwd: Seq<char>, kept: Seq<NodeId>, i: int)
    requires
        0 <= i < hotspots_of(g, cwd, kept).len(),
        crate::text::ends_with(hotspots_of(g, cwd, kept)[i].3, " callers"@),
    ensures
        exists|j: int, f: FunctionNode| 0 <= j < kept.len() && node_of(g, kept[j]) == UsirNode::Function(f)
            && f.complexity is Some && f.visibility == Visibility::Public && caller_count(g, f.id) > 5
            && hotspots_of(g, cwd, kept)[i] == #[trigger] caller_hotspot(g, cwd, kept[j], f),
    decreases kept.len(),
{
    reveal_strlit(" callers");
    let rest = kept.drop_last();
    let hr = hotspots_of(g, cwd, rest);
    let h = hotspots_of(g, cwd, kept);
    match node_of(g, kept.last()) {
        UsirNode::Function(f) => {
            if f.complexity is Some {
                let fh = function_hotspots(g, f, path_of(g, cwd, kept.last()));
                assert(h == hr + fh);
                if i < hr.len() {
                    assert(h[i] == hr[i]);
                    lemma_caller_entries(g, cwd, rest, i);
                    let (j, f2) = choose|j: int, f2: FunctionNode| 0 <= j < rest.len() && node_of(g, rest[j]) == UsirNode::Function(f2)
                        && f2.complexity is Some && f2.visibility == Visibility::Public && caller_count(g, f2.id) > 5
                        && hr[i] == #[trigger] caller_hotspot(g, cwd, rest[j], f2);
                    assert(kept[j] == rest[j]);
                } else {
                    let x = h[i];
                    assert(x == fh[i - hr.len()]);
                    let c = f.complexity->0;
                    let cx = "complexity "@ + decimal(c as nat);
                    if f.complexity->0 > 15 && i - hr.len() == 0 {
                        lemma_decimal_ends_in_digit(c as nat);
                        assert(x.3 == cx);
                        assert(cx.last() == decimal(c as nat).last());
                        assert(x.3.subrange(x.3.len() - 8, x.3.len() as int)[7] == x.3.last());
                        assert((" callers"@)[7] == 's');
                    } else {
                        assert(f.visibility == Visibility::Public && caller_count(g, f.id) > 5);
                        assert(kept[kept.len() - 1] == kept.last());
                        assert(x == caller_hotspot(g, cwd, kept[kept.len() - 1], f));
                    }
                }
            } else {
                assert(h == hr);
                lemma_caller_entries(g, cwd, rest, i);
                let (j, f2) = choose|j: int, f2: FunctionNode| 0 <= j < rest.len() && node_of(g, rest[j]) == UsirNode::Function(f2)
                    && f2.complexity is Some && f2.visibility == Visibility::Public && caller_count(g, f2.id) > 5
                    && hr[i] == #[trigger] caller_hotspot(g, cwd, rest[j], f2);
                assert(kept[j] == rest[j]);
            }
        },
        _ => {
            assert(h == hr);
            lemma_caller_entries(g, cwd, rest, i);
            let (j, f2) = choose|j: int, f2: FunctionNode| 0 <= j < rest.len() && node_of(g, rest[j]) == UsirNode::Function(f2)
                && f2.complexity is Some && f2.visibility == Visibility::Public && caller_count(g, f2.id) > 5
                && hr[i] == #[trigger] caller_hotspot(g, cwd, rest[j], f2);
            assert(kept[j] == rest[j]);
        },
    }
}

/// In a snapshot, every listed public function with more than five
/// callers is a hotspot whose reason is its caller count followed by
/// ` callers`; and every hotspot with such a reason is one of these, so no
/// function that is not public gets one.
pub proof fn law_busy_public_functions_are_hotspots(r: crate::snapshot::Snapshot, g: SemanticGraph, ids: Seq<NodeId>,
    cwd: Seq<char>, duration_ms: u64, now: Seq<char>, tooling: crate::snapshot::Tooling, invariants: Seq<Seq<char>>)
    requires
        built_from(r, g, ids, cwd, duration_ms, now, tooling, invariants),
    ensures
        forall|k: NodeId, f: FunctionNode| kept_ids(g, ids).contains(k) && node_of(g, k) == UsirNode::Function(f)
            && f.complexity is Some && f.visibility == Visibility::Public && caller_count(g, f.id) > 5
            ==> #[trigger] hotspot_views(r.health.hotspots@).contains(caller_hotspot(g, cwd, k, f)),
        forall|i: int| 0 <= i < r.health.hotspots@.len() && crate::text::ends_with(#[trigger] r.health.hotspots@[i].reason@, " callers"@)
            ==> exists|k: NodeId, f: FunctionNode| kept_ids(g, ids).contains(k) && node_of(g, k) == UsirNode::Function(f)
                && f.visibility == Visibility::Public && caller_count(g, f.id) > 5
                && hotspot_view(r.health.hotspots@[i]) == #[trigger] caller_hotspot(g, cwd, k, f),
{
    let kept = kept_ids(g, ids);
    assert forall|k: NodeId, f: FunctionNode| kept.contains(k) && node_of(g, k) == UsirNode::Function(f)
        && f.complexity is Some && f.visibility == Visibility::Public && caller_count(g, f.id) > 5
        implies #[trigger] hotspot_views(r.health.hotspots@).contains(caller_hotspot(g, cwd, k, f)) by {
        lemma_busy_listed(g, cwd, kept, k, f);
    }
    assert forall|i: int| 0 <= i < r.health.hotspots@.len() && crate::text::ends_with(#[trigger] r.health.hotspots@[i].reason@, " callers"@)
        implies exists|k: NodeId, f: FunctionNode| kept.contains(k) && node_of(g, k) == UsirNode::Function(f)
            && f.visibility == Visibility::Public && caller_count(g, f.id) > 5
            && hotspot_view(r.health.hotspots@[i]) == #[trigger] caller_hotspot(g, cwd, k, f) by {
        assert(hotspot_views(r.health.hotspots@)[i] == hotspot_view(r.health.hotspots@[i]));
        lemma_caller_entries(g, cwd, kept, i);
        let (j, f) = choose|j: int, f: FunctionNode| 0 <= j < kept.len() && node_of(g, kept[j]) == UsirNode::Function(f)
            && f.complexity is Some && f.visibility == Visibility::Public && caller_count(g, f.id) > 5
            && hotspots_of(g, cwd, kept)[i] == #[trigger] caller_hotspot(g, cwd, kept[j], f);
        assert(kept.contains(kept[j]));
        assert(hotspot_view(r.health.hotspots@[i]) == caller_hotspot(g, cwd, kept[j], f));
    }
}

/// The hotspot entry for a function of complexity above 15.
pub open spec fn complexity_hotspot(g: SemanticGraph, cwd: Seq<char>, k: NodeId, f: FunctionNode) -> HotspotView {
    (path_of(g, cwd, k), f.name.shown(), f.span.start_line, "complexity "@ + decimal(f.complexity->0 as nat))
}

proof fn lemma_decimal_starts_with_digit(n: nat)
    ensures
        decimal(n).len() > 0,
        is_digit_char(decimal(n)[0]),
    decreases n,
{
    if n >= 10 {
        lemma_decimal_starts_with_digit(n / 10);
    }
}

proof fn lemma_complex_listed(g: SemanticGraph, cwd: Seq<char>, kept: Seq<NodeId>, k: NodeId, f: FunctionNode)
    requires
        kept.contains(k),
        node_of(g, k) == UsirNode::Function(f),
        f.complexity is Some,
        f.complexity->0 > 15,
    ensures
        hotspots_of(g, cwd, kept).contains(complexity_hotspot(g, cwd, k, f)),
    decreases kept.len(),
{
    let rest = kept.drop_last();
    let e = complexity_hotspot(g, cwd, k, f);
    if kept.last() == k {
        let fh = function_hotspots(g, f, path_of(g, cwd, k));
        assert(fh[0] == e);
        let hr = hotspots_of(g, cwd, rest);
        let h = hotspots_of(g, cwd, kept);
        assert(h == hr + fh);
        assert(h[hr.len() as int] == e);
    } else {
        let j = choose|j: int| 0 <= j < kept.len() && kept[j] == k;
        assert(rest[j] == k);
        lemma_complex_listed(g, cwd, rest, k, f);
        let hr = hotspots_of(g, cwd, rest);
        let m = choose|m: int| 0 <= m < hr.len() && hr[m] == e;
        let h = hotspots_of(g, cwd, kept);
        assert(h[m] == e);
    }
}

proof fn lemma_complexity_entries(g: SemanticGraph, cwd: Seq<char>, kept: Seq<NodeId>, i: int)
    requires
        0 <= i < hotspots_of(g, cwd, kept).len(),
        crate::text::starts_with(hotspots_of(g, cwd, kept)[i].3, "complexity "@),
    ensures
        exists|j: int, f: FunctionNode| 0 <= j < kept.len() && node_of(g, kept[j]) == UsirNode::Function(f)
            && f.complexity is Some && f.complexity->0 > 15
            && hotspots_of(g, cwd, kept)[i] == #[trigger] complexity_hotspot(g, cwd, kept[j], f),
    decreases kept.len(),
{
    reveal_strlit("complexity ");
    let rest = kept.drop_last();
    let hr = hotspots_of(g, cwd, rest);
    let h = hotspots_of(g, cwd, kept);
    match node_of(g, kept.last()) {
        UsirNode::Function(f) => {
            if f.complexity is Some {
                let fh = function_hotspots(g, f, path_of(g, cwd, kept.last()));
                assert(h == hr + fh);
                if i >= hr.len() {
                    let x = h[i];
                    assert(x == fh[i - hr.len()]);
                    let c = f.complexity->0;
                    if c > 15 && i - hr.len() == 0 {
                        assert(kept[kept.len() - 1] == kept.last());
                        assert(x == complexity_hotspot(g, cwd, kept[kept.len() - 1], f));
                    } else {
                        let n = caller_count(g, f.id);
                        lemma_decimal_starts_with_digit(n);
                        assert(x.3 == decimal(n) + " callers"@);
                        assert(x.3[0] == decimal(n)[0]);
                        assert(x.3.subrange(0, 11)[0] == x.3[0]);
                        assert(("complexity "@)[0] == 'c');
                        assert(false);
                    }
                } else {
                    assert(h[i] == hr[i]);
                }
            } else {
                assert(h == hr);
            }
        },
        _ => {
            assert(h == hr);
        },
    }
    if i < hr.len() && h[i] == hr[i] {
        lemma_complexity_entries(g, cwd, rest, i);
        let (j, f2) = choose|j: int, f2: FunctionNode| 0 <= j < rest.len() && node_of(g, rest[j]) == UsirNode::Function(f2)
            && f2.complexity is Some && f2.complexity->0 > 15
            && hr[i] == #[trigger] complexity_hotspot(g, cwd, rest[j], f2);
        assert(kept[j] == rest[j]);
    }
}

/// In a snapshot, every listed function whose complexity is above 15 is a
/// hotspot whose reason is `complexity ` followed by that complexity; and
/// every hotspot with such a reason is one of these.
pub proof fn law_complex_functions_are_hotspots(r: crate::snapshot::Snapshot, g: SemanticGraph, ids: Seq<NodeId>,
    cwd: Seq<char>, duration_ms: u64, now: Seq<char>, tooling: crate::snapshot::Tooling, invariants: Seq<Seq<char>>)
    requires
        built_from(r, g, ids, cwd, duration_ms, now, tooling, invariants),
    ensures
        forall|k: NodeId, f: FunctionNode| kept_ids(g, ids).contains(k) && node_of(g, k) == UsirNode::Function(f)
            && f.complexity is Some && f.complexity->0 > 15
            ==> #[trigger] hotspot_views(r.health.hotspots@).contains(complexity_hotspot(g, cwd, k, f)),
        forall|i: int| 0 <= i < r.health.hotspots@.len()
            && crate::text::starts_with(#[trigger] r.health.hotspots@[i].reason@, "complexity "@)
            ==> exists|k: NodeId, f: FunctionNode| kept_ids(g, ids).contains(k) && node_of(g, k) == UsirNode::Function(f)
                && f.complexity is Some && f.complexity->0 > 15
                && hotspot_view(r.health.hotspots@[i]) == #[trigger] complexity_hotspot(g, cwd, k, f),
{
    let kept = kept_ids(g, ids);
    assert forall|k: NodeId, f: FunctionNode| kept.contains(k) && node_of(g, k) == UsirNode::Function(f)
        && f.complexity is Some && f.complexity->0 > 15
        implies #[trigger] hotspot_views(r.health.hotspots@).contains(complexity_hotspot(g, cwd, k, f)) by {
        lemma_complex_listed(g, cwd, kept, k, f);
    }
    assert forall|i: int| 0 <= i < r.health.hotspots@.len()
        && crate::text::starts_with(#[trigger] r.health.hotspots@[i].reason@, "complexity "@)
        implies exists|k: NodeId, f: FunctionNode| kept.contains(k) && node_of(g, k) == UsirNode::Function(f)
            && f.complexity is Some && f.complexity->0 > 15
            && hotspot_view(r.health.hotspots@[i]) == #[trigger] complexity_hotspot(g, cwd, k, f) by {
        assert(hotspot_views(r.health.hotspots@)[i] == hotspot_view(r.health.hotspots@[i]));
        lemma_complexity_entries(g, cwd, kept, i);
        let (j, f) = choose|j: int, f: FunctionNode| 0 <= j < kept.len() && node_of(g, kept[j]) == UsirNode::Function(f)
            && f.complexity is Some && f.complexity->0 > 15
            && hotspots_of(g, cwd, kept)[i] == #[trigger] complexity_hotspot(g, cwd, kept[j], f);
        assert(kept.contains(kept[j]));
    }
}

} // verus!
