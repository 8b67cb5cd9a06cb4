//! The verification pipeline: from the changed files of a change, the
//! semantic diff, the static findings on the current graph, the findings of
//! the project's own tools, the invariants the change may touch, a risk
//! score and the tests worth writing.

use vstd::prelude::*;
use crate::diff::{at, change_view, changes_view, diff_files, files_diff, ChangeView, SourceVersion};
use crate::discovery::{discover, index_order, numbered, passes_ok};
use crate::graph::{slashed, suffix_match, to_slashes, SemanticGraph};
use crate::ir::{copy_span, span_view, NodeId, SourceSpan};
use crate::node::{FunctionNode, UsirNode};
use crate::rules::{Invariant, InvariantId, InvariantViolation, ViolationSeverity};
use crate::text::{chars_of, copy_string, ends_with, ends_with_exec, lines, lines_exec, views, vviews};
use crate::tool_runner::{ToolError, ToolSeverity};
use crate::verify::{ChangeRisk, DiffSpec, SemanticChange, SemanticChangeKind, TestPriority, TestSuggestion, VerifyResult};
use crate::ir::Visibility;

verus! {

// ─── Files of the graph ────────────────────────────────────────

/// The node ids of the first file entry at or after `i` whose path matches
/// `file` (see `suffix_match`); empty when none does.
pub open spec fn first_match_from(entries: Seq<(Seq<char>, Seq<NodeId>)>, file: Seq<char>, i: int) -> Seq<NodeId>
    decreases entries.len() - i,
{
    if i < 0 || i >= entries.len() {
        Seq::empty()
    } else if suffix_match(entries[i].0, file) {
        entries[i].1
    } else {
        first_match_from(entries, file, i + 1)
    }
}

/// The nodes the graph holds for a changed file.
pub open spec fn file_nodes(g: SemanticGraph, file: Seq<char>) -> Seq<NodeId> {
    first_match_from(g.file_entries(), file, 0)
}

proof fn lemma_first_match(entries: Seq<(Seq<char>, Seq<NodeId>)>, file: Seq<char>, i: int, from: int)
    requires
        0 <= from <= i < entries.len(),
        suffix_match(entries[i].0, file),
        forall|j: int| 0 <= j < i ==> !suffix_match(entries[j].0, file),
    ensures
        first_match_from(entries, file, from) == entries[i].1,
    decreases i - from,
{
    if from < i {
        lemma_first_match(entries, file, i, from + 1);
    }
}

proof fn lemma_no_match(entries: Seq<(Seq<char>, Seq<NodeId>)>, file: Seq<char>, from: int)
    requires
        0 <= from,
        forall|j: int| 0 <= j < entries.len() ==> !suffix_match(#[trigger] entries[j].0, file),
    ensures
        first_match_from(entries, file, from) == Seq::<NodeId>::empty(),
    decreases entries.len() - from,
{
    if from < entries.len() {
        assert(!suffix_match(entries[from].0, file));
        lemma_no_match(entries, file, from + 1);
    }
}

/// The nodes the graph holds for a changed file (see `file_nodes`).
pub fn nodes_for_file(graph: &SemanticGraph, file: &String) -> (r: Vec<NodeId>)
    requires
        graph.wf(),
    ensures
        r@ == file_nodes(*graph, file@),
{
    match graph.find_file_by_suffix(file.as_str()) {
        Some(v) => {
            proof {
                let i = choose|i: int|
                    0 <= i < graph.file_entries().len() && suffix_match(
                        (#[trigger] graph.file_entries()[i]).0,
                        file@,
                    ) && v@ == graph.file_entries()[i].1 && forall|j: int|
                        0 <= j < i ==> !suffix_match(graph.file_entries()[j].0, file@);
                lemma_first_match(graph.file_entries(), file@, i, 0);
            }
            v
        },
        None => {
            proof {
                lemma_no_match(graph.file_entries(), file@, 0);
            }
            Vec::new()
        },
    }
}

// ─── Static findings ───────────────────────────────────────────

/// An unsafe function asks for careful review.
pub open spec fn static_findings(n: UsirNode) -> Seq<ChangeView> {
    match n {
        UsirNode::Function(f) => if f.is_unsafe {
            seq![at(f, SemanticChangeKind::ControlFlowChange,
                "Unsafe function '"@ + f.name.shown() + "' — requires careful review"@,
                ChangeRisk::SecuritySensitive)]
        } else {
            Seq::empty()
        },
        _ => Seq::empty(),
    }
}

/// Static checks on a node of the current graph.
pub fn analyze_node_static(node: &UsirNode) -> (r: Vec<SemanticChange>)
    ensures
        changes_view(r@) == static_findings(*node),
{
    let mut out: Vec<SemanticChange> = Vec::new();
    match node {
        UsirNode::Function(f) => {
            if f.is_unsafe {
                let mut s = String::from_str("Unsafe function '");
                s.append(f.name.display().as_str());
                s.append("' — requires careful review");
                out.push(SemanticChange {
                    location: copy_span(&f.span),
                    kind: SemanticChangeKind::ControlFlowChange,
                    description: s,
                    risk: ChangeRisk::SecuritySensitive,
                });
            }
        },
        _ => {},
    }
    proof {
        assert(changes_view(out@) =~= static_findings(*node));
    }
    out
}

/// The static findings on the first `k` of the ids `ids`.
pub open spec fn ids_findings(g: SemanticGraph, ids: Seq<NodeId>, k: int) -> Seq<ChangeView>
    decreases k,
{
    if k <= 0 {
        Seq::empty()
    } else {
        ids_findings(g, ids, k - 1) + match g.lookup(ids[k - 1]) {
            Some(n) => static_findings(n),
            None => Seq::empty(),
        }
    }
}

/// The static findings on the nodes of the first `k` changed files.
pub open spec fn files_findings(g: SemanticGraph, files: Seq<Seq<char>>, k: int) -> Seq<ChangeView>
    decreases k,
{
    if k <= 0 {
        Seq::empty()
    } else {
        let ids = file_nodes(g, files[k - 1]);
        files_findings(g, files, k - 1) + ids_findings(g, ids, ids.len() as int)
    }
}

fn extend_changes(out: &mut Vec<SemanticChange>, more: Vec<SemanticChange>)
    ensures
        changes_view(final(out)@) == changes_view(old(out)@) + changes_view(more@),
{
    let ghost m = more@;
    let mut more = more;
    out.append(&mut more);
    proof {
        assert(changes_view(out@) =~= changes_view(old(out)@) + changes_view(m));
    }
}

/// The static findings on the nodes of the changed files.
pub fn static_changes(graph: &SemanticGraph, files: &Vec<String>) -> (r: Vec<SemanticChange>)
    requires
        graph.wf(),
    ensures
        changes_view(r@) == files_findings(*graph, views(files@), files@.len() as int),
{
    let mut out: Vec<SemanticChange> = Vec::new();
    let mut i: usize = 0;
    proof {
        assert(changes_view(out@) =~= Seq::<ChangeView>::empty());
    }
    while i < files.len()
        invariant
            i <= files@.len(),
            graph.wf(),
            changes_view(out@) == files_findings(*graph, views(files@), i as int),
        decreases files@.len() - i,
    {
        let ids = nodes_for_file(graph, &files[i]);
        proof {
            assert(views(files@)[i as int] == files@[i as int]@);
        }
        let mut j: usize = 0;
        let ghost base = changes_view(out@);
        proof {
            assert(base =~= base + ids_findings(*graph, ids@, 0));
        }
        while j < ids.len()
            invariant
                j <= ids@.len(),
                graph.wf(),
                changes_view(out@) == base + ids_findings(*graph, ids@, j as int),
            decreases ids@.len() - j,
        {
            let ghost before = changes_view(out@);
            match graph.get_node(ids[j]) {
                Some(n) => {
                    let extra = analyze_node_static(n);
                    extend_changes(&mut out, extra);
                },
                None => {},
            }
            proof {
                let add = match graph.lookup(ids@[j as int]) {
                    Some(n) => static_findings(n),
                    None => Seq::<ChangeView>::empty(),
                };
                assert(changes_view(out@) =~= before + add);
                assert(base + ids_findings(*graph, ids@, j + 1) =~= base + ids_findings(*graph, ids@, j as int) + add);
            }
            j = j + 1;
        }
        i = i + 1;
    }
    out
}

// ─── Findings of the project's tools ───────────────────────────

/// A tool's finding as a change: at its file, line and column, prefixed
/// with the tool's name; errors break, warnings need review.
pub open spec fn tool_change(e: ToolError) -> ChangeView {
    (
        (e.file@, 0usize, 0usize, e.line, e.col, e.line, e.col),
        SemanticChangeKind::ControlFlowChange,
        "["@ + e.tool@ + "] "@ + e.message@,
        if e.severity == ToolSeverity::Error { ChangeRisk::Breaking } else { ChangeRisk::NeedsReview },
    )
}

pub open spec fn tool_changes(es: Seq<ToolError>) -> Seq<ChangeView> {
    es.map_values(|e: ToolError| tool_change(e))
}

fn tool_change_exec(e: &ToolError) -> (r: SemanticChange)
    ensures
        change_view(r) == tool_change(*e),
{
    let mut s = String::from_str("[");
    s.append(e.tool.as_str());
    s.append("] ");
    s.append(e.message.as_str());
    SemanticChange {
        location: SourceSpan {
            file: copy_string(&e.file),
            start_byte: 0,
            end_byte: 0,
            start_line: e.line,
            start_col: e.col,
            end_line: e.line,
            end_col: e.col,
        },
        kind: SemanticChangeKind::ControlFlowChange,
        description: s,
        risk: match e.severity {
            ToolSeverity::Error => ChangeRisk::Breaking,
            ToolSeverity::Warning => ChangeRisk::NeedsReview,
        },
    }
}

/// The findings of the project's tools as changes, in order.
pub fn tool_findings(errors: &Vec<ToolError>) -> (r: Vec<SemanticChange>)
    ensures
        changes_view(r@) == tool_changes(errors@),
{
    let mut out: Vec<SemanticChange> = Vec::new();
    let mut i: usize = 0;
    while i < errors.len()
        invariant
            i <= errors@.len(),
            changes_view(out@) == tool_changes(errors@.take(i as int)),
        decreases errors@.len() - i,
    {
        let c = tool_change_exec(&errors[i]);
        let ghost prev = out@;
        out.push(c);
        proof {
            assert(errors@.take(i + 1) =~= errors@.take(i as int).push(errors@[i as int]));
            assert(changes_view(out@) =~= changes_view(prev).push(change_view(c)));
            assert(tool_changes(errors@.take(i + 1)) =~= tool_changes(errors@.take(i as int)).push(tool_change(errors@[i as int])));
        }
        i = i + 1;
    }
    proof {
        assert(errors@.take(errors@.len() as int) =~= errors@);
    }
    out
}

// ─── Invariants the change may touch ───────────────────────────

/// A violation as plain values.
pub type ViolationView = (InvariantId, (Seq<char>, usize, usize, u32, u32, u32, u32), Seq<char>, ViolationSeverity, Option<Seq<char>>);

pub open spec fn violation_view(v: InvariantViolation) -> ViolationView {
    (v.invariant, span_view(v.location), v.description@, v.severity,
        match v.suggested_fix { Some(x) => Some(x@), None => None })
}

pub open spec fn violations_view(v: Seq<InvariantViolation>) -> Seq<ViolationView> {
    v.map_values(|x: InvariantViolation| violation_view(x))
}

/// Some changed file matches `path`.
pub open spec fn touched(files: Seq<Seq<char>>, path: Seq<char>) -> bool {
    exists|i: int| 0 <= i < files.len() && suffix_match(path, #[trigger] files[i])
}

/// For the first `k` nodes in the scope of `inv` that the graph holds and
/// whose file was changed, a warning that the change may affect it.
pub open spec fn scope_violations(g: SemanticGraph, inv: Invariant, files: Seq<Seq<char>>, k: int) -> Seq<ViolationView>
    decreases k,
{
    if k <= 0 {
        Seq::empty()
    } else {
        let prev = scope_violations(g, inv, files, k - 1);
        match g.lookup(inv.scope@[k - 1]) {
            Some(n) => if touched(files, n.span_spec().file@) {
                prev.push((inv.id, span_view(n.span_spec()),
                    "Changed file may affect invariant: "@ + inv.description@, ViolationSeverity::Warning, None))
            } else {
                prev
            },
            None => prev,
        }
    }
}

/// The warnings for the first `k` invariants, one invariant after another.
pub open spec fn violations_in(g: SemanticGraph, invs: Seq<Invariant>, files: Seq<Seq<char>>, k: int) -> Seq<ViolationView>
    decreases k,
{
    if k <= 0 {
        Seq::empty()
    } else {
        violations_in(g, invs, files, k - 1) + scope_violations(g, invs[k - 1], files, invs[k - 1].scope@.len() as int)
    }
}

fn touched_exec(files: &Vec<String>, path: &String) -> (r: bool)
    ensures
        r == touched(views(files@), path@),
{
    let p = to_slashes(&chars_of(path.as_str()));
    let mut i: usize = 0;
    while i < files.len()
        invariant
            i <= files@.len(),
            p@ == slashed(path@),
            forall|j: int| 0 <= j < i ==> !suffix_match(path@, #[trigger] views(files@)[j]),
        decreases files@.len() - i,
    {
        let f = to_slashes(&chars_of(files[i].as_str()));
        proof {
            assert(views(files@)[i as int] == files@[i as int]@);
        }
        if ends_with_exec(p.as_slice(), f.as_slice()) || ends_with_exec(f.as_slice(), p.as_slice()) {
            proof {
                assert(suffix_match(path@, views(files@)[i as int]));
            }
            return true;
        }
        i = i + 1;
    }
    false
}

/// The warnings for the invariants `invs` whose scope reaches a changed
/// file (see `violations_in`).
pub fn invariant_violations(graph: &SemanticGraph, invs: &Vec<Invariant>, files: &Vec<String>) -> (r: Vec<InvariantViolation>)
    requires
        graph.wf(),
    ensures
        violations_view(r@) == violations_in(*graph, invs@, views(files@), invs@.len() as int),
{
    let mut out: Vec<InvariantViolation> = Vec::new();
    let mut i: usize = 0;
    proof {
        assert(violations_view(out@) =~= Seq::<ViolationView>::empty());
    }
    while i < invs.len()
        invariant
            i <= invs@.len(),
            graph.wf(),
            violations_view(out@) == violations_in(*graph, invs@, views(files@), i as int),
        decreases invs@.len() - i,
    {
        let inv = &invs[i];
        let ghost base = violations_view(out@);
        let mut j: usize = 0;
        proof {
            assert(base =~= base + scope_violations(*graph, *inv, views(files@), 0));
        }
        while j < inv.scope.len()
            invariant
                j <= inv.scope@.len(),
                graph.wf(),
                violations_view(out@) == base + scope_violations(*graph, *inv, views(files@), j as int),
            decreases inv.scope@.len() - j,
        {
            let ghost before = violations_view(out@);
            match graph.get_node(inv.scope[j]) {
                Some(n) => {
                    if touched_exec(files, &n.span().file) {
                        let mut d = String::from_str("Changed file may affect invariant: ");
                        d.append(inv.description.as_str());
                        let v = InvariantViolation {
                            invariant: inv.id,
                            location: copy_span(n.span()),
                            description: d,
                            severity: ViolationSeverity::Warning,
                            suggested_fix: None,
                        };
                        out.push(v);
                        proof {
                            assert(violations_view(out@) =~= before.push(violation_view(v)));
                        }
                    }
                },
                None => {},
            }
            proof {
                assert(base + scope_violations(*graph, *inv, views(files@), j + 1) =~= violations_view(out@));
            }
            j = j + 1;
        }
        i = i + 1;
    }
    out
}

/// The invariants discovered on the graph, and the warnings for those whose
/// scope reaches a changed file.
pub fn check_invariants_on_changes(graph: &SemanticGraph, files: &Vec<String>, next: &mut u64) -> (r: Vec<InvariantViolation>)
    requires
        graph.wf(),
        3 * graph.nodes().len() + graph.edges().len() <= usize::MAX,
    ensures
        exists|ids: Seq<NodeId>, invs: Seq<Invariant>|
            index_order(*graph, ids) && passes_ok(invs, *graph, ids) && numbered(invs, *old(next), *final(next))
                && violations_view(r@) == violations_in(*graph, invs, views(files@), invs.len() as int),
{
    let found = discover(graph, next);
    invariant_violations(graph, &found.invariants, files)
}

// ─── Risk ──────────────────────────────────────────────────────

/// What a change adds to the risk, in hundredths.
pub open spec fn risk_weight(r: ChangeRisk) -> nat {
    match r {
        ChangeRisk::Breaking => 25,
        ChangeRisk::SecuritySensitive => 20,
        ChangeRisk::NeedsReview => 5,
        ChangeRisk::Safe => 1,
    }
}

pub open spec fn risk_sum(s: Seq<ChangeView>) -> nat
    decreases s.len(),
{
    if s.len() == 0 { 0 } else { risk_sum(s.drop_last()) + risk_weight(s.last().3) }
}

/// The risk, in hundredths: the weights of the changes, two for each
/// changed file, fifteen when some invariant may be affected, at most a
/// hundred.
pub open spec fn risk_of(changes: Seq<ChangeView>, files: nat, violations: bool) -> nat {
    let total = risk_sum(changes) + 2 * files + if violations { 15nat } else { 0nat };
    if total > 100 { 100 } else { total }
}

/// The gravity of a change's risk: breaking, then security-sensitive,
/// then needing review, then safe.
pub open spec fn risk_rank(r: ChangeRisk) -> nat {
    match r {
        ChangeRisk::Breaking => 3,
        ChangeRisk::SecuritySensitive => 2,
        ChangeRisk::NeedsReview => 1,
        ChangeRisk::Safe => 0,
    }
}

/// The risk never exceeds a hundred; one more change never lowers it and
/// raises it while it is below a hundred; a graver change never adds less
/// than a milder one, and adds more while the risk stays below a hundred;
/// a possibly affected invariant never lowers it either.
pub proof fn law_risk_ordering(cs: Seq<ChangeView>, files: nat, violations: bool, x: ChangeView, y: ChangeView)
    requires
        risk_rank(x.3) > risk_rank(y.3),
    ensures
        risk_of(cs, files, violations) <= 100,
        risk_of(cs, files, violations) <= risk_of(cs.push(y), files, violations),
        risk_of(cs, files, violations) < 100 ==> risk_of(cs, files, violations) < risk_of(cs.push(y), files, violations),
        risk_of(cs.push(y), files, violations) <= risk_of(cs.push(x), files, violations),
        risk_of(cs.push(y), files, violations) < 100
            ==> risk_of(cs.push(y), files, violations) < risk_of(cs.push(x), files, violations),
        risk_of(cs, files, false) <= risk_of(cs, files, true),
{
    assert(cs.push(x).drop_last() =~= cs);
    assert(cs.push(y).drop_last() =~= cs);
    assert(risk_sum(cs.push(x)) == risk_sum(cs) + risk_weight(x.3));
    assert(risk_sum(cs.push(y)) == risk_sum(cs) + risk_weight(y.3));
}

/// The risk of a set of findings (see `risk_of`).
pub fn risk_score(changes: &Vec<SemanticChange>, files: usize, violations: bool) -> (r: u32)
    ensures
        r == risk_of(changes_view(changes@), files as nat, violations),
{
    let ghost cv = changes_view(changes@);
    let mut acc: u32 = 0;
    let mut i: usize = 0;
    while i < changes.len()
        invariant
            i <= changes@.len(),
            cv == changes_view(changes@),
            acc == (if risk_sum(cv.take(i as int)) > 100 { 100 } else { risk_sum(cv.take(i as int)) }),
        decreases changes@.len() - i,
    {
        proof {
            assert(cv.take(i + 1).drop_last() =~= cv.take(i as int));
        }
        let w: u32 = match changes[i].risk {
            ChangeRisk::Breaking => 25,
            ChangeRisk::SecuritySensitive => 20,
            ChangeRisk::NeedsReview => 5,
            ChangeRisk::Safe => 1,
        };
        acc = if acc + w > 100 { 100 } else { acc + w };
        i = i + 1;
    }
    proof {
        assert(cv.take(cv.len() as int) =~= cv);
    }
    let f: u32 = if files > 50 { 101 } else { 2 * files as u32 };
    let v: u32 = if violations { 15 } else { 0 };
    let total = acc + f + v;
    if total > 100 { 100 } else { total }
}

// ─── Tests worth writing ───────────────────────────────────────

pub type SuggestionView = (NodeId, Seq<char>, TestPriority, Option<Seq<char>>);

pub open spec fn suggestion_view(t: TestSuggestion) -> SuggestionView {
    (t.target, t.description@, t.priority, match t.skeleton { Some(x) => Some(x@), None => None })
}

pub open spec fn suggestions_view(v: Seq<TestSuggestion>) -> Seq<SuggestionView> {
    v.map_values(|t: TestSuggestion| suggestion_view(t))
}

/// A test for a public function: named after the last segment of its name
/// (its full name when it has no segment), with a body left to write.
pub open spec fn test_for(id: NodeId, f: FunctionNode) -> SuggestionView {
    let short = if f.name.segments@.len() == 0 { f.name.shown() } else { f.name.segments@.last()@ };
    (id, "Add tests for '"@ + f.name.shown() + "'"@, TestPriority::High,
        Some("#[test]\nfn test_"@ + short + "() {\n    todo!()\n}"@))
}

/// A test for each public real function among the first `k` ids.
pub open spec fn ids_tests(g: SemanticGraph, ids: Seq<NodeId>, k: int) -> Seq<SuggestionView>
    decreases k,
{
    if k <= 0 {
        Seq::empty()
    } else {
        let prev = ids_tests(g, ids, k - 1);
        match g.lookup(ids[k - 1]) {
            Some(UsirNode::Function(f)) => if f.visibility == Visibility::Public && f.complexity is Some {
                prev.push(test_for(ids[k - 1], f))
            } else {
                prev
            },
            _ => prev,
        }
    }
}

/// The tests worth writing for the nodes of the first `k` changed files.
pub open spec fn files_tests(g: SemanticGraph, files: Seq<Seq<char>>, k: int) -> Seq<SuggestionView>
    decreases k,
{
    if k <= 0 {
        Seq::empty()
    } else {
        let ids = file_nodes(g, files[k - 1]);
        files_tests(g, files, k - 1) + ids_tests(g, ids, ids.len() as int)
    }
}

fn test_for_exec(id: NodeId, f: &FunctionNode) -> (r: TestSuggestion)
    ensures
        suggestion_view(r) == test_for(id, *f),
{
    let name = f.name.display();
    let mut d = String::from_str("Add tests for '");
    d.append(name.as_str());
    d.append("'");
    let mut k = String::from_str("#[test]\nfn test_");
    let n = f.name.segments.len();
    if n == 0 {
        k.append(name.as_str());
    } else {
        k.append(f.name.segments[n - 1].as_str());
    }
    k.append("() {\n    todo!()\n}");
    TestSuggestion { target: id, description: d, priority: TestPriority::High, skeleton: Some(k) }
}

/// The tests worth writing for the changed files (see `files_tests`).
pub fn generate_test_suggestions(graph: &SemanticGraph, files: &Vec<String>) -> (r: Vec<TestSuggestion>)
    requires
        graph.wf(),
    ensures
        suggestions_view(r@) == files_tests(*graph, views(files@), files@.len() as int),
{
    let mut out: Vec<TestSuggestion> = Vec::new();
    let mut i: usize = 0;
    proof {
        assert(suggestions_view(out@) =~= Seq::<SuggestionView>::empty());
    }
    while i < files.len()
        invariant
            i <= files@.len(),
            graph.wf(),
            suggestions_view(out@) == files_tests(*graph, views(files@), i as int),
        decreases files@.len() - i,
    {
        let ids = nodes_for_file(graph, &files[i]);
        proof {
            assert(views(files@)[i as int] == files@[i as int]@);
        }
        let ghost base = suggestions_view(out@);
        let mut j: usize = 0;
        proof {
            assert(base =~= base + ids_tests(*graph, ids@, 0));
        }
        while j < ids.len()
            invariant
                j <= ids@.len(),
                graph.wf(),
                suggestions_view(out@) == base + ids_tests(*graph, ids@, j as int),
            decreases ids@.len() - j,
        {
            let ghost before = suggestions_view(out@);
            match graph.get_node(ids[j]) {
                Some(UsirNode::Function(f)) => {
                    if f.visibility == Visibility::Public && f.complexity.is_some() {
                        let t = test_for_exec(ids[j], f);
                        out.push(t);
                        proof {
                            assert(suggestions_view(out@) =~= before.push(suggestion_view(t)));
                        }
                    }
                },
                _ => {},
            }
            proof {
                assert(base + ids_tests(*graph, ids@, j + 1) =~= suggestions_view(out@));
            }
            j = j + 1;
        }
        i = i + 1;
    }
    out
}

// ─── The whole run ─────────────────────────────────────────────

/// The semantic diff of the changed files, when there is a base to compare
/// with.
pub open spec fn diff_part(g: SemanticGraph, versions: Option<&Vec<(SourceVersion, SourceVersion)>>) -> Seq<ChangeView> {
    match versions {
        Some(v) => files_diff(g, v@, v@.len() as int),
        None => Seq::empty(),
    }
}

/// Runs the checks on a change, given its changed files, the old and new
/// versions of each (when there is a base to compare with) and what the
/// project's tools reported. The changes are the semantic diff, then the
/// static findings on the graph, then the tools' findings; the invariants
/// are those discovered on the graph; the confidence is 85 in a hundred
/// with a base and 50 without. With no changed file there is nothing to
/// report, with full confidence.
pub fn run_verification(
    graph: &SemanticGraph,
    changed_files: &Vec<String>,
    versions: Option<&Vec<(SourceVersion, SourceVersion)>>,
    tool_errors: &Vec<ToolError>,
    next: &mut u64,
) -> (r: VerifyResult)
    requires
        graph.wf(),
        3 * graph.nodes().len() + graph.edges().len() <= usize::MAX,
    ensures
        r.contract_violations@.len() == 0,
        changed_files@.len() == 0 ==> {
            &&& r.semantic_changes@.len() == 0
            &&& r.invariant_violations@.len() == 0
            &&& r.suggested_tests@.len() == 0
            &&& r.risk_percent == 0
            &&& r.confidence_percent == 100
            &&& *final(next) == *old(next)
        },
        changed_files@.len() > 0 ==> {
            &&& changes_view(r.semantic_changes@) == diff_part(*graph, versions) + files_findings(
                *graph,
                views(changed_files@),
                changed_files@.len() as int,
            ) + tool_changes(tool_errors@)
            &&& exists|ids: Seq<NodeId>, invs: Seq<Invariant>|
                index_order(*graph, ids) && passes_ok(invs, *graph, ids) && numbered(invs, *old(next), *final(next))
                    && violations_view(r.invariant_violations@) == violations_in(
                    *graph,
                    invs,
                    views(changed_files@),
                    invs.len() as int,
                )
            &&& r.risk_percent == risk_of(
                changes_view(r.semantic_changes@),
                changed_files@.len() as nat,
                r.invariant_violations@.len() > 0,
            )
            &&& r.confidence_percent == (if versions is Some { 85u32 } else { 50u32 })
            &&& suggestions_view(r.suggested_tests@) == files_tests(
                *graph,
                views(changed_files@),
                changed_files@.len() as int,
            )
        },
{
    if changed_files.len() == 0 {
        return VerifyResult {
            semantic_changes: Vec::new(),
            invariant_violations: Vec::new(),
            contract_violations: Vec::new(),
            risk_percent: 0,
            confidence_percent: 100,
            suggested_tests: Vec::new(),
        };
    }
    let mut changes = match versions {
        Some(v) => diff_files(v, graph),
        None => {
            let out: Vec<SemanticChange> = Vec::new();
            proof {
                assert(changes_view(out@) =~= Seq::<ChangeView>::empty());
            }
            out
        },
    };
    extend_changes(&mut changes, static_changes(graph, changed_files));
    extend_changes(&mut changes, tool_findings(tool_errors));
    let violations = check_invariants_on_changes(graph, changed_files, next);
    let risk = risk_score(&changes, changed_files.len(), violations.len() > 0);
    let tests = generate_test_suggestions(graph, changed_files);
    let confidence: u32 = if versions.is_some() { 85 } else { 50 };
    VerifyResult {
        semantic_changes: changes,
        invariant_violations: violations,
        contract_violations: Vec::new(),
        risk_percent: risk,
        confidence_percent: confidence,
        suggested_tests: tests,
    }
}

// ─── Asking git ────────────────────────────────────────────────

/// The arguments of the git command that lists the changed files of `diff`;
/// none where the files are given.
pub open spec fn git_args_spec(diff: DiffSpec) -> Option<Seq<Seq<char>>> {
    match diff {
        DiffSpec::GitDiff { base, head } => Some(seq!["diff"@, "--name-only"@, base@, head@]),
        DiffSpec::Staged => Some(seq!["diff"@, "--name-only"@, "--cached"@]),
        DiffSpec::WorkingDir => Some(seq!["diff"@, "--name-only"@]),
        DiffSpec::Files(_) => None,
    }
}

/// The git arguments that list the changed files (see `git_args_spec`).
pub fn changed_files_args(diff: &DiffSpec) -> (r: Option<Vec<String>>)
    ensures
        match r {
            Some(v) => git_args_spec(*diff) == Some(views(v@)),
            None => git_args_spec(*diff) is None,
        },
{
    let mut v: Vec<String> = Vec::new();
    v.push(String::from_str("diff"));
    v.push(String::from_str("--name-only"));
    match diff {
        DiffSpec::GitDiff { base, head } => {
            v.push(copy_string(base));
            v.push(copy_string(head));
            proof {
                assert(views(v@) =~= seq!["diff"@, "--name-only"@, base@, head@]);
            }
            Some(v)
        },
        DiffSpec::Staged => {
            v.push(String::from_str("--cached"));
            proof {
                assert(views(v@) =~= seq!["diff"@, "--name-only"@, "--cached"@]);
            }
            Some(v)
        },
        DiffSpec::WorkingDir => {
            proof {
                assert(views(v@) =~= seq!["diff"@, "--name-only"@]);
            }
            Some(v)
        },
        DiffSpec::Files(_) => None,
    }
}

/// The ref to compare with: the base of a git diff, `HEAD` for staged or
/// working changes, and for given files the current commit (`head`, when
/// git could tell it).
pub fn base_ref_of(diff: &DiffSpec, head: Option<String>) -> (r: Option<String>)
    ensures
        match diff {
            DiffSpec::GitDiff { base, head: _ } => r is Some && r->0@ == base@,
            DiffSpec::Staged => r is Some && r->0@ == "HEAD"@,
            DiffSpec::WorkingDir => r is Some && r->0@ == "HEAD"@,
            DiffSpec::Files(_) => r == head,
        },
{
    match diff {
        DiffSpec::GitDiff { base, head: _ } => Some(copy_string(base)),
        DiffSpec::Staged => Some(String::from_str("HEAD")),
        DiffSpec::WorkingDir => Some(String::from_str("HEAD")),
        DiffSpec::Files(_) => head,
    }
}

/// The lines that are not empty.
pub open spec fn nonempty_lines(ls: Seq<Seq<char>>) -> Seq<Seq<char>>
    decreases ls.len(),
{
    if ls.len() == 0 {
        Seq::empty()
    } else if ls.last().len() == 0 {
        nonempty_lines(ls.drop_last())
    } else {
        nonempty_lines(ls.drop_last()).push(ls.last())
    }
}

/// The lines of what git printed, without the empty ones.
pub fn git_lines(stdout: &str) -> (r: Vec<String>)
    ensures
        views(r@) == nonempty_lines(lines(stdout@)),
{
    let ls = lines_exec(chars_of(stdout).as_slice());
    let mut out: Vec<String> = Vec::new();
    let mut i: usize = 0;
    while i < ls.len()
        invariant
            i <= ls@.len(),
            vviews(ls@) == lines(stdout@),
            views(out@) == nonempty_lines(vviews(ls@).take(i as int)),
        decreases ls@.len() - i,
    {
        proof {
            assert(vviews(ls@).take(i + 1).drop_last() =~= vviews(ls@).take(i as int));
            assert(vviews(ls@)[i as int] == ls@[i as int]@);
        }
        if ls[i].len() > 0 {
            let ghost prev = out@;
            out.push(crate::text::string_of(ls[i].as_slice()));
            proof {
                assert(views(out@) =~= views(prev).push(ls@[i as int]@));
            }
        }
        i = i + 1;
    }
    proof {
        assert(vviews(ls@).take(ls@.len() as int) =~= vviews(ls@));
    }
    out
}

/// The changed files: the given ones, or the lines git listed.
pub fn changed_files_of(diff: &DiffSpec, git_output: &str) -> (r: Vec<String>)
    ensures
        match diff {
            DiffSpec::Files(fs) => views(r@) == views(fs@),
            _ => views(r@) == nonempty_lines(lines(git_output@)),
        },
{
    match diff {
        DiffSpec::Files(fs) => crate::text::copy_strings(fs),
        _ => git_lines(git_output),
    }
}

} // verus!
