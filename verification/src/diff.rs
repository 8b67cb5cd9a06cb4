//! Semantic diff: what changed between two parsed versions of a file, told
//! function by function (signatures, visibility, complexity, async-ness)
//! rather than line by line.

use vstd::prelude::*;
use crate::discovery::{debug_text, debug_text_exec};
use crate::frontend::ParseResult;
use crate::graph::SemanticGraph;
use crate::impact::reach;
use crate::ir::{copy_span, span_view, NodeId, Visibility};
use crate::node::{FunctionNode, Param, UsirNode};
use crate::numtext::{decimal, decimal_string, signed_decimal, signed_decimal_string};
use crate::store::Direction;
use crate::types::{tmodel, type_ref_eq, TypeModel, TypeRef};
use crate::verify::{ChangeRisk, SemanticChange, SemanticChangeKind};

verus! {

/// A change as plain values: its span, kind, description and risk.
pub type ChangeView = ((Seq<char>, usize, usize, u32, u32, u32, u32), SemanticChangeKind, Seq<char>, ChangeRisk);

pub open spec fn change_view(c: SemanticChange) -> ChangeView {
    (span_view(c.location), c.kind, c.description@, c.risk)
}

pub open spec fn changes_view(v: Seq<SemanticChange>) -> Seq<ChangeView> {
    v.map_values(|c: SemanticChange| change_view(c))
}

/// A change located at function `f`.
pub open spec fn at(f: FunctionNode, kind: SemanticChangeKind, text: Seq<char>, risk: ChangeRisk) -> ChangeView {
    (span_view(f.span), kind, text, risk)
}

/// The function's full name between single quotes.
pub open spec fn quoted_name(f: FunctionNode) -> Seq<char> {
    "'"@ + f.name.shown() + "'"@
}

pub open spec fn type_opt(t: Option<TypeRef>) -> Option<TypeModel> {
    match t {
        Some(x) => Some(tmodel(x)),
        None => None,
    }
}

/// An optional type in its debug form: `None`, or `Some(..)` around the type.
pub open spec fn type_opt_debug(t: Option<TypeRef>) -> Seq<char> {
    match t {
        Some(x) => "Some("@ + debug_text(tmodel(x)) + ")"@,
        None => "None"@,
    }
}

pub open spec fn bool_text(b: bool) -> Seq<char> {
    if b { "true"@ } else { "false"@ }
}

/// A change to the signature of `f` breaks callers when `f` is public, and
/// needs review otherwise.
pub open spec fn signature_risk(f: FunctionNode) -> ChangeRisk {
    if f.visibility == Visibility::Public { ChangeRisk::Breaking } else { ChangeRisk::NeedsReview }
}

/// Leaving public breaks callers; becoming public widens the API.
pub open spec fn visibility_risk(old: Visibility, new: Visibility) -> ChangeRisk {
    if old == Visibility::Public {
        ChangeRisk::Breaking
    } else if new == Visibility::Public {
        ChangeRisk::NeedsReview
    } else {
        ChangeRisk::Safe
    }
}

/// One type change for each of the first `k` parameters whose type differs.
pub open spec fn param_changes(old: Seq<Param>, new: Seq<Param>, f: FunctionNode, k: int) -> Seq<ChangeView>
    decreases k,
{
    if k <= 0 {
        Seq::empty()
    } else {
        let prev = param_changes(old, new, f, k - 1);
        if type_opt(old[k - 1].type_ref) != type_opt(new[k - 1].type_ref) {
            prev.push(at(f, SemanticChangeKind::TypeChange,
                quoted_name(f) + ": param '"@ + new[k - 1].name@ + "' type changed"@, signature_risk(f)))
        } else {
            prev
        }
    }
}

pub open spec fn sign_prefix(o: u32, n: u32) -> Seq<char> {
    if n > o { seq!['+'] } else { Seq::empty() }
}

/// The parameter changes: their count, else each one's type.
pub open spec fn sig_part(old: FunctionNode, new: FunctionNode) -> Seq<ChangeView> {
    if old.params@.len() != new.params@.len() {
        seq![at(new, SemanticChangeKind::SignatureChange,
            quoted_name(new) + ": parameter count changed ("@ + decimal(old.params@.len()) + " → "@
                + decimal(new.params@.len()) + ")"@,
            signature_risk(new))]
    } else {
        param_changes(old.params@, new.params@, new, new.params@.len() as int)
    }
}

/// A change of return type.
pub open spec fn ret_part(old: FunctionNode, new: FunctionNode) -> Seq<ChangeView> {
    if type_opt(old.return_type) != type_opt(new.return_type) {
        seq![at(new, SemanticChangeKind::SignatureChange,
            quoted_name(new) + ": return type changed ("@ + type_opt_debug(old.return_type) + " → "@
                + type_opt_debug(new.return_type) + ")"@,
            signature_risk(new))]
    } else {
        Seq::empty()
    }
}

/// A change of visibility.
pub open spec fn vis_part(old: FunctionNode, new: FunctionNode) -> Seq<ChangeView> {
    if old.visibility != new.visibility {
        seq![at(new, SemanticChangeKind::ApiSurfaceChange,
            quoted_name(new) + ": visibility changed ("@ + old.visibility.name_spec() + " → "@
                + new.visibility.name_spec() + ")"@,
            visibility_risk(old.visibility, new.visibility))]
    } else {
        Seq::empty()
    }
}

/// A change of complexity by three or more, when both are known.
pub open spec fn cx_part(old: FunctionNode, new: FunctionNode) -> Seq<ChangeView> {
    match (old.complexity, new.complexity) {
        (Some(o), Some(n)) => if n - o >= 3 || o - n >= 3 {
            seq![at(new, SemanticChangeKind::ComplexityChange { old: o, new: n },
                quoted_name(new) + ": complexity changed ("@ + decimal(o as nat) + " → "@ + decimal(n as nat)
                    + ", "@ + sign_prefix(o, n) + signed_decimal(n - o) + ")"@,
                if n > 20 { ChangeRisk::NeedsReview } else { ChangeRisk::Safe })]
        } else {
            Seq::empty()
        },
        _ => Seq::empty(),
    }
}

/// A change of async-ness.
pub open spec fn async_part(old: FunctionNode, new: FunctionNode) -> Seq<ChangeView> {
    if old.is_async != new.is_async {
        seq![at(new, SemanticChangeKind::ControlFlowChange,
            quoted_name(new) + ": async changed ("@ + bool_text(old.is_async) + " → "@ + bool_text(new.is_async)
                + ")"@,
            signature_risk(new))]
    } else {
        Seq::empty()
    }
}

/// The note on callers for a public function with changes, when more than
/// five nodes reach it.
pub open spec fn callers_part(new: FunctionNode, base: Seq<ChangeView>, affected: nat) -> Seq<ChangeView> {
    if new.visibility == Visibility::Public && base.len() > 0 && affected > 5 {
        seq![at(new, SemanticChangeKind::ApiSurfaceChange,
            quoted_name(new) + ": "@ + decimal(affected) + " callers affected by above changes"@,
            ChangeRisk::NeedsReview)]
    } else {
        Seq::empty()
    }
}

/// The changes between two versions of one function, in this order: its
/// parameters (their count, else each one's type), its return type, its
/// visibility, its complexity (when both are known and they differ by three
/// or more), its async-ness; then, for a public function with changes, a
/// note on the callers when more than five nodes reach it within two steps
/// (`affected`).
pub open spec fn fn_changes(old: FunctionNode, new: FunctionNode, affected: nat) -> Seq<ChangeView> {
    let base = sig_part(old, new) + ret_part(old, new) + vis_part(old, new) + cx_part(old, new) + async_part(old, new);
    base + callers_part(new, base, affected)
}

/// How many other nodes reach the node of id `id` within `depth` steps.
pub open spec fn reverse_reach_count(g: SemanticGraph, id: NodeId, depth: nat) -> nat {
    if g.indices().contains_key(id.0) {
        let s = g.indices()[id.0];
        reach(g.edges(), s, depth, Direction::Reverse).remove(s).len()
    } else {
        0
    }
}

fn push_change(out: &mut Vec<SemanticChange>, c: SemanticChange)
    ensures
        changes_view(final(out)@) == changes_view(old(out)@).push(change_view(c)),
{
    out.push(c);
    proof {
        assert(changes_view(out@) =~= changes_view(old(out)@).push(change_view(c)));
    }
}

fn change_at(f: &FunctionNode, kind: SemanticChangeKind, text: String, risk: ChangeRisk) -> (r: SemanticChange)
    ensures
        change_view(r) == at(*f, kind, text@, risk),
{
    SemanticChange { location: copy_span(&f.span), kind, description: text, risk }
}

fn quoted_name_exec(f: &FunctionNode) -> (r: String)
    ensures
        r@ == quoted_name(*f),
{
    let mut s = String::from_str("'");
    s.append(f.name.display().as_str());
    s.append("'");
    s
}

fn opt_type_eq(a: &Option<TypeRef>, b: &Option<TypeRef>) -> (r: bool)
    ensures
        r == (type_opt(*a) == type_opt(*b)),
{
    match (a, b) {
        (Some(x), Some(y)) => type_ref_eq(x, y),
        (None, None) => true,
        _ => false,
    }
}

fn type_opt_debug_exec(t: &Option<TypeRef>) -> (r: String)
    ensures
        r@ == type_opt_debug(*t),
{
    match t {
        Some(x) => {
            let mut s = String::from_str("Some(");
            s.append(debug_text_exec(x).as_str());
            s.append(")");
            s
        },
        None => String::from_str("None"),
    }
}

fn bool_text_exec(b: bool) -> (r: String)
    ensures
        r@ == bool_text(b),
{
    if b { String::from_str("true") } else { String::from_str("false") }
}

fn signature_risk_exec(f: &FunctionNode) -> (r: ChangeRisk)
    ensures
        r == signature_risk(*f),
{
    if f.visibility == Visibility::Public { ChangeRisk::Breaking } else { ChangeRisk::NeedsReview }
}

/// The type changes of parameters that sit at the same place in both
/// versions of a function.
fn param_type_changes(old: &FunctionNode, new: &FunctionNode) -> (r: Vec<SemanticChange>)
    requires
        old.params@.len() == new.params@.len(),
    ensures
        changes_view(r@) == param_changes(old.params@, new.params@, *new, new.params@.len() as int),
{
    let mut out: Vec<SemanticChange> = Vec::new();
    let mut i: usize = 0;
    proof {
        assert(changes_view(out@) =~= Seq::<ChangeView>::empty());
    }
    while i < new.params.len()
        invariant
            i <= new.params@.len(),
            old.params@.len() == new.params@.len(),
            changes_view(out@) == param_changes(old.params@, new.params@, *new, i as int),
        decreases new.params@.len() - i,
    {
        if !opt_type_eq(&old.params[i].type_ref, &new.params[i].type_ref) {
            let mut s = quoted_name_exec(new);
            s.append(": param '");
            s.append(new.params[i].name.as_str());
            s.append("' type changed");
            let c = change_at(new, SemanticChangeKind::TypeChange, s, signature_risk_exec(new));
            push_change(&mut out, c);
        }
        i = i + 1;
    }
    out
}

fn extend_changes(out: &mut Vec<SemanticChange>, more: Vec<SemanticChange>)
    ensures
        changes_view(final(out)@) == changes_view(old(out)@) + changes_view(more@),
{
    let ghost m = more@;
    let mut more = more;
    out.append(&mut more);
    proof {
        assert(changes_view(out@) =~= changes_view(old(out)@) + changes_view(m));
    }
}

fn sig_changes(old: &FunctionNode, new: &FunctionNode) -> (r: Vec<SemanticChange>)
    ensures
        changes_view(r@) == sig_part(*old, *new),
{
    if old.params.len() != new.params.len() {
        let mut s = quoted_name_exec(new);
        s.append(": parameter count changed (");
        s.append(decimal_string(old.params.len() as u64).as_str());
        s.append(" → ");
        s.append(decimal_string(new.params.len() as u64).as_str());
        s.append(")");
        let c = change_at(new, SemanticChangeKind::SignatureChange, s, signature_risk_exec(new));
        let mut out: Vec<SemanticChange> = Vec::new();
        push_change(&mut out, c);
        proof {
            assert(changes_view(out@) =~= seq![change_view(c)]);
        }
        out
    } else {
        param_type_changes(old, new)
    }
}

fn ret_changes(old: &FunctionNode, new: &FunctionNode) -> (r: Vec<SemanticChange>)
    ensures
        changes_view(r@) == ret_part(*old, *new),
{
    let mut out: Vec<SemanticChange> = Vec::new();
    if !opt_type_eq(&old.return_type, &new.return_type) {
        let mut s = quoted_name_exec(new);
        s.append(": return type changed (");
        s.append(type_opt_debug_exec(&old.return_type).as_str());
        s.append(" → ");
        s.append(type_opt_debug_exec(&new.return_type).as_str());
        s.append(")");
        let c = change_at(new, SemanticChangeKind::SignatureChange, s, signature_risk_exec(new));
        push_change(&mut out, c);
        proof {
            assert(changes_view(out@) =~= seq![change_view(c)]);
        }
    } else {
        proof {
            assert(changes_view(out@) =~= Seq::<ChangeView>::empty());
        }
    }
    out
}

fn vis_changes(old: &FunctionNode, new: &FunctionNode) -> (r: Vec<SemanticChange>)
    ensures
        changes_view(r@) == vis_part(*old, *new),
{
    let mut out: Vec<SemanticChange> = Vec::new();
    if old.visibility != new.visibility {
        let mut s = quoted_name_exec(new);
        s.append(": visibility changed (");
        s.append(old.visibility.debug_name().as_str());
        s.append(" → ");
        s.append(new.visibility.debug_name().as_str());
        s.append(")");
        let risk = if old.visibility == Visibility::Public {
            ChangeRisk::Breaking
        } else if new.visibility == Visibility::Public {
            ChangeRisk::NeedsReview
        } else {
            ChangeRisk::Safe
        };
        let c = change_at(new, SemanticChangeKind::ApiSurfaceChange, s, risk);
        push_change(&mut out, c);
        proof {
            assert(changes_view(out@) =~= seq![change_view(c)]);
        }
    } else {
        proof {
            assert(changes_view(out@) =~= Seq::<ChangeView>::empty());
        }
    }
    out
}

fn cx_changes(old: &FunctionNode, new: &FunctionNode) -> (r: Vec<SemanticChange>)
    ensures
        changes_view(r@) == cx_part(*old, *new),
{
    let mut out: Vec<SemanticChange> = Vec::new();
    proof {
        assert(changes_view(out@) =~= Seq::<ChangeView>::empty());
    }
    if let (Some(oc), Some(nc)) = (old.complexity, new.complexity) {
        let d: i64 = nc as i64 - oc as i64;
        if d >= 3 || d <= -3 {
            let mut s = quoted_name_exec(new);
            s.append(": complexity changed (");
            s.append(decimal_string(oc as u64).as_str());
            s.append(" → ");
            s.append(decimal_string(nc as u64).as_str());
            s.append(", ");
            let ghost before = s@;
            if nc > oc {
                crate::text::push_char(&mut s, '+');
            }
            proof {
                assert(s@ =~= before + sign_prefix(oc, nc));
            }
            s.append(signed_decimal_string(d).as_str());
            s.append(")");
            let risk = if nc > 20 { ChangeRisk::NeedsReview } else { ChangeRisk::Safe };
            let c = change_at(new, SemanticChangeKind::ComplexityChange { old: oc, new: nc }, s, risk);
            push_change(&mut out, c);
            proof {
                assert(changes_view(out@) =~= seq![change_view(c)]);
            }
        }
    }
    out
}

fn async_changes(old: &FunctionNode, new: &FunctionNode) -> (r: Vec<SemanticChange>)
    ensures
        changes_view(r@) == async_part(*old, *new),
{
    let mut out: Vec<SemanticChange> = Vec::new();
    if old.is_async != new.is_async {
        let mut s = quoted_name_exec(new);
        s.append(": async changed (");
        s.append(bool_text_exec(old.is_async).as_str());
        s.append(" → ");
        s.append(bool_text_exec(new.is_async).as_str());
        s.append(")");
        let c = change_at(new, SemanticChangeKind::ControlFlowChange, s, signature_risk_exec(new));
        push_change(&mut out, c);
        proof {
            assert(changes_view(out@) =~= seq![change_view(c)]);
        }
    } else {
        proof {
            assert(changes_view(out@) =~= Seq::<ChangeView>::empty());
        }
    }
    out
}

/// The changes between two versions of the same function (see
/// `fn_changes`); the callers are counted by a reverse impact of two steps.
pub fn diff_functions(old: &FunctionNode, new: &FunctionNode, graph: &SemanticGraph) -> (r: Vec<SemanticChange>)
    requires
        graph.wf(),
    ensures
        changes_view(r@) == fn_changes(*old, *new, reverse_reach_count(*graph, new.id, 2)),
{
    let mut out = sig_changes(old, new);
    extend_changes(&mut out, ret_changes(old, new));
    extend_changes(&mut out, vis_changes(old, new));
    extend_changes(&mut out, cx_changes(old, new));
    extend_changes(&mut out, async_changes(old, new));
    let ghost base = changes_view(out@);
    let mut note: Vec<SemanticChange> = Vec::new();
    if new.visibility == Visibility::Public && out.len() > 0 {
        let impact = graph.impact_reverse(new.id, 2);
        proof {
            if graph.indices().contains_key(new.id.0) {
                graph.lemma_impact_count(new.id, 2, Direction::Reverse, impact);
            }
        }
        if impact.total_affected > 5 {
            let mut s = quoted_name_exec(new);
            s.append(": ");
            s.append(decimal_string(impact.total_affected as u64).as_str());
            s.append(" callers affected by above changes");
            let c = change_at(new, SemanticChangeKind::ApiSurfaceChange, s, ChangeRisk::NeedsReview);
            push_change(&mut note, c);
            proof {
                assert(changes_view(note@) =~= seq![change_view(c)]);
            }
        }
    }
    proof {
        if changes_view(note@).len() == 0 {
            assert(changes_view(note@) =~= Seq::<ChangeView>::empty());
        }
    }
    extend_changes(&mut out, note);
    out
}

// ─── Whole files ───────────────────────────────────────────────

/// A single file's semantic diff result.
pub struct FileDiff {
    pub file: String,
    pub changes: Vec<SemanticChange>,
}

/// One side of a changed file: missing, present but not parsable, or parsed.
pub enum SourceVersion {
    Absent,
    Unparsable,
    Parsed(ParseResult),
}

/// The name a function is matched by across versions: the last segment of
/// its name, or the empty text.
pub open spec fn short_of(f: FunctionNode) -> Seq<char> {
    if f.name.segments@.len() == 0 { Seq::empty() } else { f.name.segments@.last()@ }
}

/// The function that the node at `i` holds.
pub open spec fn fn_at(nodes: Seq<UsirNode>, i: int) -> FunctionNode {
    nodes[i]->Function_0
}

/// The node at `i` is a function with a known complexity (a real function,
/// not a placeholder).
pub open spec fn real_fn_at(nodes: Seq<UsirNode>, i: int) -> bool {
    0 <= i < nodes.len() && nodes[i] is Function && fn_at(nodes, i).complexity is Some
}

/// The first position at or after `i` whose name is `k`.
pub open spec fn key_pos_from(m: Seq<(Seq<char>, int)>, k: Seq<char>, i: int) -> Option<int>
    decreases m.len() - i,
{
    if i < 0 || i >= m.len() {
        None
    } else if m[i].0 == k {
        Some(i)
    } else {
        key_pos_from(m, k, i + 1)
    }
}

pub open spec fn key_pos(m: Seq<(Seq<char>, int)>, k: Seq<char>) -> Option<int> {
    key_pos_from(m, k, 0)
}

/// The real functions of `nodes[..n]` by short name: each name once, in the
/// order first met, with the position of the last function of that name.
pub open spec fn fn_index(nodes: Seq<UsirNode>, n: int) -> Seq<(Seq<char>, int)>
    decreases n,
{
    if n <= 0 {
        Seq::empty()
    } else {
        let prev = fn_index(nodes, n - 1);
        if real_fn_at(nodes, n - 1) {
            let k = short_of(fn_at(nodes, n - 1));
            match key_pos(prev, k) {
                Some(p) => prev.update(p, (k, n - 1)),
                None => prev.push((k, n - 1)),
            }
        } else {
            prev
        }
    }
}

pub open spec fn index_view(v: Seq<(Vec<char>, usize)>) -> Seq<(Seq<char>, int)> {
    v.map_values(|e: (Vec<char>, usize)| (e.0@, e.1 as int))
}

pub open spec fn added_change(f: FunctionNode) -> ChangeView {
    at(f, SemanticChangeKind::FunctionAdded, "New function '"@ + f.name.shown() + "'"@,
        if f.visibility == Visibility::Public { ChangeRisk::NeedsReview } else { ChangeRisk::Safe })
}

pub open spec fn removed_change(f: FunctionNode) -> ChangeView {
    at(f, SemanticChangeKind::FunctionRemoved, "Removed function '"@ + f.name.shown() + "'"@,
        if f.visibility == Visibility::Public { ChangeRisk::Breaking } else { ChangeRisk::Safe })
}

/// Among the first `k` names of the new index `nm`, those the old index
/// `om` lacks, as added functions.
pub open spec fn added_in(om: Seq<(Seq<char>, int)>, nm: Seq<(Seq<char>, int)>, nodes: Seq<UsirNode>, k: int) -> Seq<ChangeView>
    decreases k,
{
    if k <= 0 {
        Seq::empty()
    } else {
        let prev = added_in(om, nm, nodes, k - 1);
        if key_pos(om, nm[k - 1].0) is None {
            prev.push(added_change(fn_at(nodes, nm[k - 1].1)))
        } else {
            prev
        }
    }
}

/// Among the first `k` names of the old index `om`, those the new index
/// `nm` lacks, as removed functions.
pub open spec fn removed_in(om: Seq<(Seq<char>, int)>, nm: Seq<(Seq<char>, int)>, nodes: Seq<UsirNode>, k: int) -> Seq<ChangeView>
    decreases k,
{
    if k <= 0 {
        Seq::empty()
    } else {
        let prev = removed_in(om, nm, nodes, k - 1);
        if key_pos(nm, om[k - 1].0) is None {
            prev.push(removed_change(fn_at(nodes, om[k - 1].1)))
        } else {
            prev
        }
    }
}

/// Among the first `k` names of the new index, those in both versions, with
/// the changes between the two functions of that name.
pub open spec fn modified_in(
    g: SemanticGraph,
    om: Seq<(Seq<char>, int)>,
    nm: Seq<(Seq<char>, int)>,
    old_nodes: Seq<UsirNode>,
    new_nodes: Seq<UsirNode>,
    k: int,
) -> Seq<ChangeView>
    decreases k,
{
    if k <= 0 {
        Seq::empty()
    } else {
        let prev = modified_in(g, om, nm, old_nodes, new_nodes, k - 1);
        match key_pos(om, nm[k - 1].0) {
            Some(p) => {
                let nf = fn_at(new_nodes, nm[k - 1].1);
                prev + fn_changes(fn_at(old_nodes, om[p].1), nf, reverse_reach_count(g, nf.id, 2))
            },
            None => prev,
        }
    }
}

/// The changes between two parsed versions of a file: functions added, then
/// functions removed, then the changes of the functions in both, real
/// functions matched by short name.
pub open spec fn parse_diff(g: SemanticGraph, old: ParseResult, new: ParseResult) -> Seq<ChangeView> {
    let om = fn_index(old.nodes@, old.nodes@.len() as int);
    let nm = fn_index(new.nodes@, new.nodes@.len() as int);
    added_in(om, nm, new.nodes@, nm.len() as int) + removed_in(om, nm, old.nodes@, om.len() as int)
        + modified_in(g, om, nm, old.nodes@, new.nodes@, nm.len() as int)
}

/// Every function among the first `k` nodes, as added or as removed.
pub open spec fn file_fns(nodes: Seq<UsirNode>, k: int, added: bool) -> Seq<ChangeView>
    decreases k,
{
    if k <= 0 {
        Seq::empty()
    } else {
        let prev = file_fns(nodes, k - 1, added);
        match nodes[k - 1] {
            UsirNode::Function(f) => prev.push(if added { added_change(f) } else { removed_change(f) }),
            _ => prev,
        }
    }
}

/// A new file adds all its functions, a deleted file removes all its
/// functions, a changed file is compared function by function; nothing is
/// reported where a side could not be parsed.
pub open spec fn file_diff(g: SemanticGraph, old: SourceVersion, new: SourceVersion) -> Seq<ChangeView> {
    match (old, new) {
        (SourceVersion::Absent, SourceVersion::Parsed(n)) => file_fns(n.nodes@, n.nodes@.len() as int, true),
        (SourceVersion::Parsed(o), SourceVersion::Absent) => file_fns(o.nodes@, o.nodes@.len() as int, false),
        (SourceVersion::Parsed(o), SourceVersion::Parsed(n)) => parse_diff(g, o, n),
        _ => Seq::empty(),
    }
}

proof fn lemma_key_pos_from(m: Seq<(Seq<char>, int)>, k: Seq<char>, i: int)
    requires
        0 <= i,
    ensures
        match key_pos_from(m, k, i) {
            Some(p) => i <= p < m.len() && m[p].0 == k && forall|j: int| i <= j < p ==> m[j].0 != k,
            None => forall|j: int| i <= j < m.len() ==> m[j].0 != k,
        },
    decreases m.len() - i,
{
    if i < m.len() && m[i].0 != k {
        lemma_key_pos_from(m, k, i + 1);
    }
}

proof fn lemma_key_pos(m: Seq<(Seq<char>, int)>, k: Seq<char>)
    ensures
        match key_pos(m, k) {
            Some(p) => 0 <= p < m.len() && m[p].0 == k,
            None => forall|j: int| 0 <= j < m.len() ==> m[j].0 != k,
        },
{
    lemma_key_pos_from(m, k, 0);
}

/// Every entry of the index names a real function at a position below `n`,
/// by that function's short name.
proof fn lemma_fn_index(nodes: Seq<UsirNode>, n: int)
    requires
        n <= nodes.len(),
    ensures
        forall|j: int| 0 <= j < fn_index(nodes, n).len() ==> {
            let e = #[trigger] fn_index(nodes, n)[j];
            &&& real_fn_at(nodes, e.1)
            &&& e.1 < n
            &&& short_of(fn_at(nodes, e.1)) == e.0
        },
    decreases n,
{
    if n > 0 {
        lemma_fn_index(nodes, n - 1);
        let prev = fn_index(nodes, n - 1);
        if real_fn_at(nodes, n - 1) {
            lemma_key_pos(prev, short_of(fn_at(nodes, n - 1)));
        }
    }
}

fn find_key(m: &Vec<(Vec<char>, usize)>, k: &Vec<char>) -> (r: Option<usize>)
    ensures
        match r {
            Some(p) => key_pos(index_view(m@), k@) == Some(p as int),
            None => key_pos(index_view(m@), k@) is None,
        },
{
    let ghost mv = index_view(m@);
    let mut i: usize = 0;
    while i < m.len()
        invariant
            i <= m@.len(),
            mv == index_view(m@),
            key_pos(mv, k@) == key_pos_from(mv, k@, i as int),
        decreases m@.len() - i,
    {
        if crate::text::eq_chars(m[i].0.as_slice(), k.as_slice()) {
            return Some(i);
        }
        i = i + 1;
    }
    None
}

fn short_of_exec(f: &FunctionNode) -> (r: Vec<char>)
    ensures
        r@ == short_of(*f),
{
    let n = f.name.segments.len();
    if n == 0 {
        Vec::new()
    } else {
        crate::text::chars_of(f.name.segments[n - 1].as_str())
    }
}

/// The real functions of `nodes` by short name (see `fn_index`).
pub fn extract_function_map(nodes: &Vec<UsirNode>) -> (r: Vec<(Vec<char>, usize)>)
    ensures
        index_view(r@) == fn_index(nodes@, nodes@.len() as int),
{
    let mut out: Vec<(Vec<char>, usize)> = Vec::new();
    let mut i: usize = 0;
    proof {
        assert(index_view(out@) =~= Seq::<(Seq<char>, int)>::empty());
    }
    while i < nodes.len()
        invariant
            i <= nodes@.len(),
            index_view(out@) == fn_index(nodes@, i as int),
        decreases nodes@.len() - i,
    {
        let ghost prev = out@;
        match &nodes[i] {
            UsirNode::Function(f) => {
                if f.complexity.is_some() {
                    let k = short_of_exec(f);
                    match find_key(&out, &k) {
                        Some(p) => {
                            proof {
                                lemma_key_pos(index_view(prev), k@);
                            }
                            out.set(p, (k, i));
                            proof {
                                assert(index_view(out@) =~= index_view(prev).update(p as int, (short_of(*f), i as int)));
                            }
                        },
                        None => {
                            out.push((k, i));
                            proof {
                                assert(index_view(out@) =~= index_view(prev).push((short_of(*f), i as int)));
                            }
                        },
                    }
                }
            },
            _ => {},
        }
        i = i + 1;
    }
    out
}

fn fn_ref(nodes: &Vec<UsirNode>, i: usize) -> (r: &FunctionNode)
    requires
        i < nodes@.len(),
        nodes@[i as int] is Function,
    ensures
        *r == fn_at(nodes@, i as int),
{
    match &nodes[i] {
        UsirNode::Function(f) => f,
        _ => vstd::pervasive::unreached(),
    }
}

fn added_change_exec(f: &FunctionNode) -> (r: SemanticChange)
    ensures
        change_view(r) == added_change(*f),
{
    let mut s = String::from_str("New function '");
    s.append(f.name.display().as_str());
    s.append("'");
    let risk = if f.visibility == Visibility::Public { ChangeRisk::NeedsReview } else { ChangeRisk::Safe };
    change_at(f, SemanticChangeKind::FunctionAdded, s, risk)
}

fn removed_change_exec(f: &FunctionNode) -> (r: SemanticChange)
    ensures
        change_view(r) == removed_change(*f),
{
    let mut s = String::from_str("Removed function '");
    s.append(f.name.display().as_str());
    s.append("'");
    let risk = if f.visibility == Visibility::Public { ChangeRisk::Breaking } else { ChangeRisk::Safe };
    change_at(f, SemanticChangeKind::FunctionRemoved, s, risk)
}

/// The names of index `from` that index `other` lacks, as added functions
/// (`added`) or as removed ones.
fn missing_changes(
    other: &Vec<(Vec<char>, usize)>,
    from: &Vec<(Vec<char>, usize)>,
    nodes: &Vec<UsirNode>,
    added: bool,
) -> (r: Vec<SemanticChange>)
    requires
        index_view(from@) == fn_index(nodes@, nodes@.len() as int),
    ensures
        added ==> changes_view(r@) == added_in(index_view(other@), index_view(from@), nodes@, from@.len() as int),
        !added ==> changes_view(r@) == removed_in(index_view(from@), index_view(other@), nodes@, from@.len() as int),
{
    let ghost ov = index_view(other@);
    let ghost fv = index_view(from@);
    proof {
        lemma_fn_index(nodes@, nodes@.len() as int);
    }
    let mut out: Vec<SemanticChange> = Vec::new();
    let mut i: usize = 0;
    proof {
        assert(changes_view(out@) =~= Seq::<ChangeView>::empty());
    }
    while i < from.len()
        invariant
            i <= from@.len(),
            ov == index_view(other@),
            fv == index_view(from@),
            fv == fn_index(nodes@, nodes@.len() as int),
            forall|j: int| 0 <= j < fn_index(nodes@, nodes@.len() as int).len() ==> {
                let e = #[trigger] fn_index(nodes@, nodes@.len() as int)[j];
                &&& real_fn_at(nodes@, e.1)
                &&& e.1 < nodes@.len()
                &&& short_of(fn_at(nodes@, e.1)) == e.0
            },
            added ==> changes_view(out@) == added_in(ov, fv, nodes@, i as int),
            !added ==> changes_view(out@) == removed_in(fv, ov, nodes@, i as int),
        decreases from@.len() - i,
    {
        let ghost e = fv[i as int];
        assert(real_fn_at(nodes@, e.1));
        if find_key(other, &from[i].0).is_none() {
            let f = fn_ref(nodes, from[i].1);
            if added {
                push_change(&mut out, added_change_exec(f));
            } else {
                push_change(&mut out, removed_change_exec(f));
            }
        }
        i = i + 1;
    }
    out
}

/// The changes of the functions whose short name both indexes hold.
fn modified_changes(
    om: &Vec<(Vec<char>, usize)>,
    nm: &Vec<(Vec<char>, usize)>,
    old_nodes: &Vec<UsirNode>,
    new_nodes: &Vec<UsirNode>,
    graph: &SemanticGraph,
) -> (r: Vec<SemanticChange>)
    requires
        graph.wf(),
        index_view(om@) == fn_index(old_nodes@, old_nodes@.len() as int),
        index_view(nm@) == fn_index(new_nodes@, new_nodes@.len() as int),
    ensures
        changes_view(r@) == modified_in(*graph, index_view(om@), index_view(nm@), old_nodes@, new_nodes@, nm@.len() as int),
{
    let ghost ov = index_view(om@);
    let ghost nv = index_view(nm@);
    proof {
        lemma_fn_index(old_nodes@, old_nodes@.len() as int);
        lemma_fn_index(new_nodes@, new_nodes@.len() as int);
    }
    let mut out: Vec<SemanticChange> = Vec::new();
    let mut i: usize = 0;
    proof {
        assert(changes_view(out@) =~= Seq::<ChangeView>::empty());
    }
    while i < nm.len()
        invariant
            i <= nm@.len(),
            graph.wf(),
            ov == index_view(om@),
            nv == index_view(nm@),
            ov == fn_index(old_nodes@, old_nodes@.len() as int),
            nv == fn_index(new_nodes@, new_nodes@.len() as int),
            forall|j: int| 0 <= j < fn_index(old_nodes@, old_nodes@.len() as int).len() ==> {
                let e = #[trigger] fn_index(old_nodes@, old_nodes@.len() as int)[j];
                &&& real_fn_at(old_nodes@, e.1)
                &&& e.1 < old_nodes@.len()
            },
            forall|j: int| 0 <= j < fn_index(new_nodes@, new_nodes@.len() as int).len() ==> {
                let e = #[trigger] fn_index(new_nodes@, new_nodes@.len() as int)[j];
                &&& real_fn_at(new_nodes@, e.1)
                &&& e.1 < new_nodes@.len()
            },
            changes_view(out@) == modified_in(*graph, ov, nv, old_nodes@, new_nodes@, i as int),
        decreases nm@.len() - i,
    {
        let ghost e = nv[i as int];
        assert(real_fn_at(new_nodes@, e.1));
        match find_key(om, &nm[i].0) {
            Some(p) => {
                proof {
                    lemma_key_pos(ov, e.0);
                    let oe = ov[p as int];
                    assert(real_fn_at(old_nodes@, oe.1));
                }
                let of = fn_ref(old_nodes, om[p].1);
                let nf = fn_ref(new_nodes, nm[i].1);
                let ch = diff_functions(of, nf, graph);
                extend_changes(&mut out, ch);
            },
            None => {},
        }
        i = i + 1;
    }
    out
}

/// The changes between two parsed versions of a file (see `parse_diff`).
pub fn diff_parse_results(old: &ParseResult, new: &ParseResult, graph: &SemanticGraph) -> (r: Vec<SemanticChange>)
    requires
        graph.wf(),
    ensures
        changes_view(r@) == parse_diff(*graph, *old, *new),
{
    let om = extract_function_map(&old.nodes);
    let nm = extract_function_map(&new.nodes);
    let mut out = missing_changes(&om, &nm, &new.nodes, true);
    extend_changes(&mut out, missing_changes(&nm, &om, &old.nodes, false));
    extend_changes(&mut out, modified_changes(&om, &nm, &old.nodes, &new.nodes, graph));
    out
}

/// Every function of `nodes`, in order, as added (`added`) or as removed.
fn file_fn_changes(nodes: &Vec<UsirNode>, added: bool) -> (r: Vec<SemanticChange>)
    ensures
        changes_view(r@) == file_fns(nodes@, nodes@.len() as int, added),
{
    let mut out: Vec<SemanticChange> = Vec::new();
    let mut i: usize = 0;
    proof {
        assert(changes_view(out@) =~= Seq::<ChangeView>::empty());
    }
    while i < nodes.len()
        invariant
            i <= nodes@.len(),
            changes_view(out@) == file_fns(nodes@, i as int, added),
        decreases nodes@.len() - i,
    {
        match &nodes[i] {
            UsirNode::Function(f) => {
                if added {
                    push_change(&mut out, added_change_exec(f));
                } else {
                    push_change(&mut out, removed_change_exec(f));
                }
            },
            _ => {},
        }
        i = i + 1;
    }
    out
}

/// The changes of one file between its old and its new version (see
/// `file_diff`).
pub fn diff_file(old: &SourceVersion, new: &SourceVersion, graph: &SemanticGraph) -> (r: Vec<SemanticChange>)
    requires
        graph.wf(),
    ensures
        changes_view(r@) == file_diff(*graph, *old, *new),
{
    match (old, new) {
        (SourceVersion::Absent, SourceVersion::Parsed(n)) => file_fn_changes(&n.nodes, true),
        (SourceVersion::Parsed(o), SourceVersion::Absent) => file_fn_changes(&o.nodes, false),
        (SourceVersion::Parsed(o), SourceVersion::Parsed(n)) => diff_parse_results(o, n, graph),
        _ => {
            let out: Vec<SemanticChange> = Vec::new();
            proof {
                assert(changes_view(out@) =~= Seq::<ChangeView>::empty());
            }
            out
        },
    }
}

/// The changes of the first `k` files, one file after another.
pub open spec fn files_diff(g: SemanticGraph, files: Seq<(SourceVersion, SourceVersion)>, k: int) -> Seq<ChangeView>
    decreases k,
{
    if k <= 0 {
        Seq::empty()
    } else {
        files_diff(g, files, k - 1) + file_diff(g, files[k - 1].0, files[k - 1].1)
    }
}

/// The changes of several files, each given by its old and new version, in
/// the order of the files.
pub fn diff_files(files: &Vec<(SourceVersion, SourceVersion)>, graph: &SemanticGraph) -> (r: Vec<SemanticChange>)
    requires
        graph.wf(),
    ensures
        changes_view(r@) == files_diff(*graph, files@, files@.len() as int),
{
    let mut out: Vec<SemanticChange> = Vec::new();
    let mut i: usize = 0;
    proof {
        assert(changes_view(out@) =~= Seq::<ChangeView>::empty());
    }
    while i < files.len()
        invariant
            i <= files@.len(),
            graph.wf(),
            changes_view(out@) == files_diff(*graph, files@, i as int),
        decreases files@.len() - i,
    {
        let ch = diff_file(&files[i].0, &files[i].1, graph);
        extend_changes(&mut out, ch);
        i = i + 1;
    }
    out
}

// ─── Laws ──────────────────────────────────────────────────────

proof fn lemma_fn_index_unique(nodes: Seq<UsirNode>, n: int)
    ensures
        forall|i: int, j: int| 0 <= i < j < fn_index(nodes, n).len() ==> fn_index(nodes, n)[i].0 != fn_index(nodes, n)[j].0,
    decreases n,
{
    if n > 0 {
        lemma_fn_index_unique(nodes, n - 1);
        let prev = fn_index(nodes, n - 1);
        if real_fn_at(nodes, n - 1) {
            lemma_key_pos(prev, short_of(fn_at(nodes, n - 1)));
        }
    }
}

proof fn lemma_key_pos_at(m: Seq<(Seq<char>, int)>, i: int)
    requires
        0 <= i < m.len(),
        forall|a: int, b: int| 0 <= a < b < m.len() ==> m[a].0 != m[b].0,
    ensures
        key_pos(m, m[i].0) == Some(i),
{
    lemma_key_pos(m, m[i].0);
}

proof fn lemma_param_changes_same(ps: Seq<Param>, f: FunctionNode, k: int)
    requires
        k <= ps.len(),
    ensures
        param_changes(ps, ps, f, k) == Seq::<ChangeView>::empty(),
    decreases k,
{
    if k > 0 {
        lemma_param_changes_same(ps, f, k - 1);
    }
}

/// A change of visibility is reported at the new version as an API surface
/// change: breaking when the function stops being public, needing review
/// when it becomes public, safe otherwise.
pub proof fn law_visibility_change_risk(old: FunctionNode, new: FunctionNode, affected: nat)
    requires
        old.visibility != new.visibility,
    ensures
        exists|i: int| 0 <= i < fn_changes(old, new, affected).len() && {
            let c = #[trigger] fn_changes(old, new, affected)[i];
            &&& c.0 == span_view(new.span)
            &&& c.1 == SemanticChangeKind::ApiSurfaceChange
            &&& c.2 == quoted_name(new) + ": visibility changed ("@ + old.visibility.name_spec() + " → "@
                + new.visibility.name_spec() + ")"@
            &&& c.3 == if old.visibility == Visibility::Public {
                ChangeRisk::Breaking
            } else if new.visibility == Visibility::Public {
                ChangeRisk::NeedsReview
            } else {
                ChangeRisk::Safe
            }
        },
{
    let a = sig_part(old, new);
    let b = ret_part(old, new);
    let base = a + b + vis_part(old, new) + cx_part(old, new) + async_part(old, new);
    let i = (a.len() + b.len()) as int;
    assert(base[i] == vis_part(old, new)[0]);
    assert(fn_changes(old, new, affected)[i] == base[i]);
}

/// A change in the number of parameters is the first change reported: a
/// signature change at the new version with both counts, breaking when the
/// function is public and needing review otherwise.
pub proof fn law_parameter_count_change(old: FunctionNode, new: FunctionNode, affected: nat)
    requires
        old.params@.len() != new.params@.len(),
    ensures
        fn_changes(old, new, affected).len() > 0,
        ({
            let c = fn_changes(old, new, affected)[0];
            &&& c.0 == span_view(new.span)
            &&& c.1 == SemanticChangeKind::SignatureChange
            &&& c.2 == quoted_name(new) + ": parameter count changed ("@ + decimal(old.params@.len()) + " → "@
                + decimal(new.params@.len()) + ")"@
            &&& c.3 == if new.visibility == Visibility::Public {
                ChangeRisk::Breaking
            } else {
                ChangeRisk::NeedsReview
            }
        }),
{
    let a = sig_part(old, new);
    let base = a + ret_part(old, new) + vis_part(old, new) + cx_part(old, new) + async_part(old, new);
    assert(base[0] == a[0]);
    assert(fn_changes(old, new, affected)[0] == base[0]);
}

proof fn lemma_param_changes_are_type_changes(old: Seq<Param>, new: Seq<Param>, f: FunctionNode, k: int)
    ensures
        forall|i: int| 0 <= i < param_changes(old, new, f, k).len()
            ==> (#[trigger] param_changes(old, new, f, k)[i]).1 == SemanticChangeKind::TypeChange,
    decreases k,
{
    if k > 0 {
        lemma_param_changes_are_type_changes(old, new, f, k - 1);
    }
}

/// With both complexities known, a difference of three or more is reported
/// as a complexity change carrying both values, needing review when the new
/// complexity is above 20 and safe otherwise; a smaller difference is not
/// reported at all.
pub proof fn law_complexity_change(old: FunctionNode, new: FunctionNode, affected: nat)
    requires
        old.complexity is Some,
        new.complexity is Some,
    ensures
        ({
            let (o, n) = (old.complexity->0, new.complexity->0);
            (n - o >= 3 || o - n >= 3) ==> exists|i: int| 0 <= i < fn_changes(old, new, affected).len() && {
                let c = #[trigger] fn_changes(old, new, affected)[i];
                &&& c.0 == span_view(new.span)
                &&& c.1 == SemanticChangeKind::ComplexityChange { old: o, new: n }
                &&& c.3 == if n > 20 { ChangeRisk::NeedsReview } else { ChangeRisk::Safe }
            }
        }),
        ({
            let (o, n) = (old.complexity->0, new.complexity->0);
            (n - o < 3 && o - n < 3) ==> forall|i: int| 0 <= i < fn_changes(old, new, affected).len()
                ==> !((#[trigger] fn_changes(old, new, affected)[i]).1 is ComplexityChange)
        }),
{
    let a = sig_part(old, new);
    let b = ret_part(old, new);
    let v = vis_part(old, new);
    let x = cx_part(old, new);
    let base = a + b + v + x + async_part(old, new);
    let r = fn_changes(old, new, affected);
    let (o, n) = (old.complexity->0, new.complexity->0);
    if n - o >= 3 || o - n >= 3 {
        let i = (a.len() + b.len() + v.len()) as int;
        assert(base[i] == x[0]);
        assert(r[i] == base[i]);
    } else {
        lemma_param_changes_are_type_changes(old.params@, new.params@, new, new.params@.len() as int);
        assert(x =~= Seq::<ChangeView>::empty());
        assert forall|i: int| 0 <= i < r.len() implies !((#[trigger] r[i]).1 is ComplexityChange) by {
            if i < a.len() {
                assert(r[i] == a[i]);
            } else if i < a.len() + b.len() {
                assert(r[i] == b[i - a.len()]);
            } else if i < a.len() + b.len() + v.len() {
                assert(r[i] == v[i - a.len() - b.len()]);
            } else if i < base.len() {
                assert(r[i] == async_part(old, new)[i - a.len() - b.len() - v.len()]);
            } else {
                assert(r[i] == callers_part(new, base, affected)[i - base.len()]);
            }
        }
    }
}

proof fn lemma_param_change_listed(old: Seq<Param>, new: Seq<Param>, f: FunctionNode, k: int, j: int)
    requires
        0 <= j < k <= old.len(),
        k <= new.len(),
        type_opt(old[j].type_ref) != type_opt(new[j].type_ref),
    ensures
        param_changes(old, new, f, k).contains(at(f, SemanticChangeKind::TypeChange,
            quoted_name(f) + ": param '"@ + new[j].name@ + "' type changed"@, signature_risk(f))),
    decreases k,
{
    let c = at(f, SemanticChangeKind::TypeChange, quoted_name(f) + ": param '"@ + new[j].name@ + "' type changed"@,
        signature_risk(f));
    let prev = param_changes(old, new, f, k - 1);
    if j == k - 1 {
        assert(param_changes(old, new, f, k) == prev.push(c));
        assert(prev.push(c)[prev.len() as int] == c);
    } else {
        lemma_param_change_listed(old, new, f, k - 1, j);
        let i = choose|i: int| 0 <= i < prev.len() && prev[i] == c;
        let cur = param_changes(old, new, f, k);
        if type_opt(old[k - 1].type_ref) != type_opt(new[k - 1].type_ref) {
            assert(cur[i] == c);
        } else {
            assert(cur == prev);
        }
    }
}

/// With the same number of parameters, each parameter whose type changed
/// is reported as a type change naming it, breaking when the function is
/// public and needing review otherwise.
pub proof fn law_parameter_type_change(old: FunctionNode, new: FunctionNode, affected: nat, j: int)
    requires
        old.params@.len() == new.params@.len(),
        0 <= j < new.params@.len(),
        type_opt(old.params@[j].type_ref) != type_opt(new.params@[j].type_ref),
    ensures
        fn_changes(old, new, affected).contains((span_view(new.span), SemanticChangeKind::TypeChange,
            quoted_name(new) + ": param '"@ + new.params@[j].name@ + "' type changed"@,
            if new.visibility == Visibility::Public { ChangeRisk::Breaking } else { ChangeRisk::NeedsReview })),
{
    let a = sig_part(old, new);
    lemma_param_change_listed(old.params@, new.params@, new, new.params@.len() as int, j);
    let c = at(new, SemanticChangeKind::TypeChange,
        quoted_name(new) + ": param '"@ + new.params@[j].name@ + "' type changed"@, signature_risk(new));
    let i = choose|i: int| 0 <= i < a.len() && a[i] == c;
    let base = a + ret_part(old, new) + vis_part(old, new) + cx_part(old, new) + async_part(old, new);
    assert(base[i] == a[i]);
    assert(fn_changes(old, new, affected)[i] == c);
}

/// A change of return type is reported as a signature change at the new
/// version with both types, breaking when the function is public and
/// needing review otherwise.
pub proof fn law_return_type_change(old: FunctionNode, new: FunctionNode, affected: nat)
    requires
        type_opt(old.return_type) != type_opt(new.return_type),
    ensures
        fn_changes(old, new, affected).contains((span_view(new.span), SemanticChangeKind::SignatureChange,
            quoted_name(new) + ": return type changed ("@ + type_opt_debug(old.return_type) + " → "@
                + type_opt_debug(new.return_type) + ")"@,
            if new.visibility == Visibility::Public { ChangeRisk::Breaking } else { ChangeRisk::NeedsReview })),
{
    let a = sig_part(old, new);
    let b = ret_part(old, new);
    let base = a + b + vis_part(old, new) + cx_part(old, new) + async_part(old, new);
    let i = a.len() as int;
    assert(base[i] == b[0]);
    assert(fn_changes(old, new, affected)[i] == base[i]);
}

/// A public function with some change and more than five affected nodes
/// gets, last, a note needing review that counts them; the count of
/// affected nodes changes nothing else, and nothing at all for a function
/// that is not public.
pub proof fn law_callers_note(old: FunctionNode, new: FunctionNode, affected: nat)
    ensures
        new.visibility == Visibility::Public && affected > 5 && fn_changes(old, new, affected).len() > 0 ==> {
            let r = fn_changes(old, new, affected);
            &&& r.last() == (span_view(new.span), SemanticChangeKind::ApiSurfaceChange,
                quoted_name(new) + ": "@ + decimal(affected) + " callers affected by above changes"@,
                ChangeRisk::NeedsReview)
            &&& r.drop_last() == fn_changes(old, new, 0)
        },
        !(new.visibility == Visibility::Public && affected > 5) ==> fn_changes(old, new, affected) == fn_changes(old, new, 0),
{
    let base = sig_part(old, new) + ret_part(old, new) + vis_part(old, new) + cx_part(old, new) + async_part(old, new);
    assert(callers_part(new, base, 0) =~= Seq::<ChangeView>::empty());
    assert(fn_changes(old, new, 0) =~= base);
    if new.visibility == Visibility::Public && affected > 5 && fn_changes(old, new, affected).len() > 0 {
        if base.len() == 0 {
            assert(fn_changes(old, new, affected) =~= base);
        }
        assert(fn_changes(old, new, affected).drop_last() =~= base);
    }
    if !(new.visibility == Visibility::Public && affected > 5) {
        assert(fn_changes(old, new, affected) =~= base);
    }
}

/// A change of async-ness is reported as a control-flow change at the new
/// version, breaking when the function is public and needing review
/// otherwise.
pub proof fn law_async_change(old: FunctionNode, new: FunctionNode, affected: nat)
    requires
        old.is_async != new.is_async,
    ensures
        exists|i: int| 0 <= i < fn_changes(old, new, affected).len() && {
            let c = #[trigger] fn_changes(old, new, affected)[i];
            &&& c.0 == span_view(new.span)
            &&& c.1 == SemanticChangeKind::ControlFlowChange
            &&& c.2 == quoted_name(new) + ": async changed ("@ + bool_text(old.is_async) + " → "@
                + bool_text(new.is_async) + ")"@
            &&& c.3 == if new.visibility == Visibility::Public {
                ChangeRisk::Breaking
            } else {
                ChangeRisk::NeedsReview
            }
        },
{
    let a = sig_part(old, new);
    let b = ret_part(old, new);
    let v = vis_part(old, new);
    let x = cx_part(old, new);
    let base = a + b + v + x + async_part(old, new);
    let i = (a.len() + b.len() + v.len() + x.len()) as int;
    assert(base[i] == async_part(old, new)[0]);
    assert(fn_changes(old, new, affected)[i] == base[i]);
}

/// A function compared with itself shows no change.
pub proof fn law_function_unchanged(f: FunctionNode, affected: nat)
    ensures
        fn_changes(f, f, affected) == Seq::<ChangeView>::empty(),
{
    lemma_param_changes_same(f.params@, f, f.params@.len() as int);
    let base = sig_part(f, f) + ret_part(f, f) + vis_part(f, f) + cx_part(f, f) + async_part(f, f);
    assert(base =~= Seq::<ChangeView>::empty());
    assert(fn_changes(f, f, affected) =~= Seq::<ChangeView>::empty());
}

proof fn lemma_none_missing(m: Seq<(Seq<char>, int)>, nodes: Seq<UsirNode>, k: int)
    requires
        k <= m.len(),
        forall|a: int, b: int| 0 <= a < b < m.len() ==> m[a].0 != m[b].0,
    ensures
        added_in(m, m, nodes, k) == Seq::<ChangeView>::empty(),
        removed_in(m, m, nodes, k) == Seq::<ChangeView>::empty(),
    decreases k,
{
    if k > 0 {
        lemma_none_missing(m, nodes, k - 1);
        lemma_key_pos_at(m, k - 1);
    }
}

proof fn lemma_none_modified(g: SemanticGraph, m: Seq<(Seq<char>, int)>, nodes: Seq<UsirNode>, k: int)
    requires
        k <= m.len(),
        forall|a: int, b: int| 0 <= a < b < m.len() ==> m[a].0 != m[b].0,
    ensures
        modified_in(g, m, m, nodes, nodes, k) == Seq::<ChangeView>::empty(),
    decreases k,
{
    if k > 0 {
        lemma_none_modified(g, m, nodes, k - 1);
        lemma_key_pos_at(m, k - 1);
        let nf = fn_at(nodes, m[k - 1].1);
        law_function_unchanged(nf, reverse_reach_count(g, nf.id, 2));
        assert(Seq::<ChangeView>::empty() + Seq::<ChangeView>::empty() =~= Seq::<ChangeView>::empty());
    }
}

/// A file compared with itself shows no change.
pub proof fn law_file_unchanged(g: SemanticGraph, p: ParseResult)
    ensures
        parse_diff(g, p, p) == Seq::<ChangeView>::empty(),
{
    let m = fn_index(p.nodes@, p.nodes@.len() as int);
    lemma_fn_index_unique(p.nodes@, p.nodes@.len() as int);
    lemma_none_missing(m, p.nodes@, m.len() as int);
    lemma_none_modified(g, m, p.nodes@, m.len() as int);
    assert(parse_diff(g, p, p) =~= Seq::<ChangeView>::empty());
}

} // verus!
