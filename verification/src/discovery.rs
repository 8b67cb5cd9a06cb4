//! Invariant discovery: patterns that the codebase always follows, found by
//! counting over the graph (errors returned as `Result`, naming
//! conventions, initialization before use, types used in one file only).

use vstd::prelude::*;
use crate::graph::SemanticGraph;
use crate::impact::{reach, ImpactResult};
use crate::ir::{NodeId, Ratio, Visibility};
use crate::node::UsirNode;
use crate::numtext::{decimal, decimal_string};
use crate::rules::{Invariant, InvariantId, InvariantKind};
use crate::store::Direction;
use crate::text::{chars_of, copy_string, lit, starts_with, starts_with_exec, views};
use crate::types::{tmodel, tmodels, PrimitiveType, ResolvedType, TypeModel, TypeRef};

verus! {

/// Counts from one discovery run.
pub struct DiscoveryStats {
    pub patterns_scanned: usize,
    pub invariants_found: usize,
    pub high_confidence: usize,
}

/// What a discovery run found.
pub struct DiscoveryResult {
    pub invariants: Vec<Invariant>,
    pub stats: DiscoveryStats,
}

// ─── Characters ────────────────────────────────────────────────

/// Whether a character is lowercase (Unicode `Lowercase`).
pub uninterp spec fn lowercase_char(c: char) -> bool;

/// Whether a character is uppercase (Unicode `Uppercase`).
pub uninterp spec fn uppercase_char(c: char) -> bool;

/// `char::is_lowercase`: the result is `lowercase_char` of the character.
#[verifier::external_body]
fn char_is_lowercase(c: char) -> (r: bool)
    ensures
        r == lowercase_char(c),
{
    c.is_lowercase()
}

/// `char::is_uppercase`: the result is `uppercase_char` of the character.
#[verifier::external_body]
fn char_is_uppercase(c: char) -> (r: bool)
    ensures
        r == uppercase_char(c),
{
    c.is_uppercase()
}

/// A name in snake case: not empty, only lowercase letters, `_` and digits.
pub open spec fn snake_case(s: Seq<char>) -> bool {
    s.len() > 0 && forall|i: int| 0 <= i < s.len() ==> lowercase_char(#[trigger] s[i]) || s[i] == '_' || ('0' <= s[i] && s[i] <= '9')
}

/// A name in Pascal case: it starts with an uppercase letter and holds no `_`.
pub open spec fn pascal_case(s: Seq<char>) -> bool {
    s.len() > 0 && uppercase_char(s[0]) && !s.contains('_')
}

pub fn is_snake_case(s: &str) -> (r: bool)
    ensures
        r == snake_case(s@),
{
    let v = chars_of(s);
    if v.len() == 0 {
        return false;
    }
    let mut i: usize = 0;
    while i < v.len()
        invariant
            i <= v@.len(),
            v@ == s@,
            forall|j: int| 0 <= j < i ==> lowercase_char(#[trigger] v@[j]) || v@[j] == '_' || ('0' <= v@[j] && v@[j] <= '9'),
        decreases v@.len() - i,
    {
        let c = v[i];
        if !(char_is_lowercase(c) || c == '_' || ('0' <= c && c <= '9')) {
            return false;
        }
        i = i + 1;
    }
    true
}

pub fn is_pascal_case(s: &str) -> (r: bool)
    ensures
        r == pascal_case(s@),
{
    let v = chars_of(s);
    if v.len() == 0 || !char_is_uppercase(v[0]) {
        return false;
    }
    let mut i: usize = 0;
    while i < v.len()
        invariant
            i <= v@.len(),
            v@ == s@,
            forall|j: int| 0 <= j < i ==> v@[j] != '_',
        decreases v@.len() - i,
    {
        if v[i] == '_' {
            proof {
                assert(v@[i as int] == '_');
            }
            return false;
        }
        i = i + 1;
    }
    true
}

// ─── Percentages ───────────────────────────────────────────────

/// `a / b` as a whole percentage, the nearest one, a half going to the even
/// neighbour.
pub open spec fn percent(a: nat, b: nat) -> nat {
    let q = (200 * a) / (2 * b);
    let r = (200 * a) % (2 * b);
    if r * 2 > 2 * b || (r * 2 == 2 * b && q % 2 == 1) {
        q + 1
    } else {
        q
    }
}

/// The percentage is the whole number nearest to `100 a / b`: it lies
/// within a half of it.
pub proof fn law_percent_nearest(a: nat, b: nat)
    requires
        b > 0,
    ensures
        2 * (100 * a) <= b * (2 * percent(a, b) + 1),
        b * (2 * percent(a, b)) <= 2 * (100 * a) + b,
{
    let q = (200 * a) / (2 * b);
    let r = (200 * a) % (2 * b);
    assert(200 * a == 2 * b * q + r && 0 <= r < 2 * b) by (nonlinear_arith)
        requires
            b > 0,
            q == (200 * a) / (2 * b),
            r == (200 * a) % (2 * b),
    ;
    let p = percent(a, b);
    if r * 2 > 2 * b || (r * 2 == 2 * b && q % 2 == 1) {
        assert(p == q + 1);
        assert(b * (2 * p + 1) == 2 * b * q + 3 * b && b * (2 * p) == 2 * b * q + 2 * b) by (nonlinear_arith)
            requires
                p == q + 1,
        ;
    } else {
        assert(p == q);
        assert(b * (2 * p + 1) == 2 * b * q + b && b * (2 * p) == 2 * b * q) by (nonlinear_arith)
            requires
                p == q,
        ;
    }
}

fn percent_exec(a: u64, b: u64) -> (r: u64)
    requires
        0 < b,
        a <= b,
        b < 0x1_0000_0000,
    ensures
        r == percent(a as nat, b as nat),
{
    assert(200 * a <= 200 * b) by (nonlinear_arith)
        requires a <= b;
    let q = (200 * a) / (2 * b);
    let r = (200 * a) % (2 * b);
    assert(r < 2 * b);
    assert(q <= 100) by (nonlinear_arith)
        requires q == (200 * a) / (2 * b), a <= b, b > 0;
    if r * 2 > 2 * b || (r * 2 == 2 * b && q % 2 == 1) {
        q + 1
    } else {
        q
    }
}

// ─── Invariant ids ─────────────────────────────────────────────

/// The id after `n` (wrapping at the top, as an atomic counter does).
pub open spec fn next_after(n: u64) -> u64 {
    if n == u64::MAX { 0 } else { (n + 1) as u64 }
}

/// The invariants carry consecutive ids from `first`, and `after` is the
/// id that follows them.
pub open spec fn numbered(s: Seq<Invariant>, first: u64, after: u64) -> bool
    decreases s.len(),
{
    if s.len() == 0 {
        after == first
    } else {
        s[0].id.0 == first && numbered(s.drop_first(), next_after(first), after)
    }
}

proof fn lemma_numbered_push(s: Seq<Invariant>, first: u64, mid: u64, inv: Invariant)
    requires
        numbered(s, first, mid),
        inv.id.0 == mid,
    ensures
        numbered(s.push(inv), first, next_after(mid)),
    decreases s.len(),
{
    if s.len() > 0 {
        assert(s.push(inv).drop_first() =~= s.drop_first().push(inv));
        lemma_numbered_push(s.drop_first(), next_after(first), mid, inv);
    } else {
        assert(s.push(inv).drop_first() =~= Seq::<Invariant>::empty());
        assert(numbered(Seq::<Invariant>::empty(), next_after(first), next_after(mid)));
    }
}

proof fn lemma_numbered_concat(a: Seq<Invariant>, b: Seq<Invariant>, first: u64, mid: u64, last: u64)
    requires
        numbered(a, first, mid),
        numbered(b, mid, last),
    ensures
        numbered(a + b, first, last),
    decreases a.len(),
{
    if a.len() == 0 {
        assert(a + b =~= b);
    } else {
        assert((a + b).drop_first() =~= a.drop_first() + b);
        lemma_numbered_concat(a.drop_first(), b, next_after(first), mid, last);
    }
}

fn take_id(next: &mut u64) -> (r: InvariantId)
    ensures
        r.0 == *old(next),
        *final(next) == next_after(*old(next)),
{
    let r = InvariantId(*next);
    *next = next.wrapping_add(1);
    r
}

// ─── Errors returned as `Result` ───────────────────────────────

/// A function that returns a `Result` (resolved, or unresolved by a name
/// starting with `Result`).
pub open spec fn returns_result(n: UsirNode) -> bool {
    match n {
        UsirNode::Function(f) => match f.return_type {
            Some(t) => match t {
                TypeRef::Resolved(ResolvedType::Result { .. }) => true,
                TypeRef::Unresolved(s) => starts_with(s@, "Result"@),
                _ => false,
            },
            None => false,
        },
        _ => false,
    }
}

/// The ids, in order, of the functions that return a `Result`.
pub open spec fn result_functions(g: SemanticGraph, ids: Seq<NodeId>) -> Seq<NodeId>
    decreases ids.len(),
{
    if ids.len() == 0 {
        Seq::empty()
    } else {
        let rest = result_functions(g, ids.drop_last());
        if g.lookup(ids.last()) matches Some(n) && returns_result(n) { rest.push(ids.last()) } else { rest }
    }
}

proof fn lemma_result_functions_len(g: SemanticGraph, ids: Seq<NodeId>)
    ensures
        result_functions(g, ids).len() <= ids.len(),
    decreases ids.len(),
{
    if ids.len() > 0 {
        lemma_result_functions_len(g, ids.drop_last());
    }
}

/// The description of the error-handling invariant.
pub open spec fn result_text(n: nat) -> Seq<char> {
    "Found "@ + decimal(n) + " functions returning Result — errors should be handled, not silently ignored"@
}

/// With three or more functions returning `Result`, the invariant that their
/// errors are handled: the first of them as the source, all of them as the
/// scope, and a confidence of `0.8 · share + 0.1`.
pub open spec fn error_handling_ok(r: Seq<Invariant>, g: SemanticGraph, ids: Seq<NodeId>) -> bool {
    let rf = result_functions(g, ids);
    if rf.len() >= 3 {
        &&& r.len() == 1
        &&& r[0].kind == InvariantKind::ErrorsMustBeHandled { error_source: rf[0] }
        &&& r[0].description@ == result_text(rf.len())
        &&& r[0].confidence == Ratio { num: (8 * rf.len() + ids.len()) as u64, den: (10 * ids.len()) as u64 }
        &&& r[0].evidence_count == rf.len()
        &&& r[0].scope@ == rf
    } else {
        r.len() == 0
    }
}

fn discover_error_handling(g: &SemanticGraph, ids: &Vec<NodeId>, next: &mut u64) -> (r: Vec<Invariant>)
    requires
        g.wf(),
        ids@.len() <= 0xFFFF_FFFF,
    ensures
        error_handling_ok(r@, *g, ids@),
        numbered(r@, *old(next), *final(next)),
{
    let mut rf: Vec<NodeId> = Vec::new();
    let mut i: usize = 0;
    while i < ids.len()
        invariant
            i <= ids@.len(),
            g.wf(),
            rf@ == result_functions(*g, ids@.take(i as int)),
        decreases ids@.len() - i,
    {
        proof {
            assert(ids@.take(i + 1).drop_last() =~= ids@.take(i as int));
            assert(ids@.take(i + 1).last() == ids@[i as int]);
        }
        let is_result = match g.get_node(ids[i]) {
            Some(UsirNode::Function(f)) => match &f.return_type {
                Some(TypeRef::Resolved(ResolvedType::Result { .. })) => true,
                Some(TypeRef::Unresolved(s)) => starts_with_exec(&chars_of(s.as_str()), &lit("Result")),
                _ => false,
            },
            _ => false,
        };
        if is_result {
            rf.push(ids[i]);
        }
        i = i + 1;
    }
    proof {
        assert(ids@.take(ids@.len() as int) =~= ids@);
        lemma_result_functions_len(*g, ids@);
    }
    let mut out: Vec<Invariant> = Vec::new();
    if rf.len() >= 3 {
        let n = rf.len();
        let total = ids.len();
        let mut description = String::from_str("Found ");
        description.append(decimal_string(n as u64).as_str());
        description.append(" functions returning Result — errors should be handled, not silently ignored");
        let first = rf[0];
        let ghost start = *next;
        let id = take_id(next);
        let inv = Invariant {
            id,
            kind: InvariantKind::ErrorsMustBeHandled { error_source: first },
            description,
            confidence: Ratio { num: 8 * (n as u64) + total as u64, den: 10 * (total as u64) },
            evidence_count: n,
            scope: rf,
        };
        out.push(inv);
        proof {
            assert(out@.drop_first() =~= Seq::<Invariant>::empty());
            lemma_numbered_push(Seq::<Invariant>::empty(), start, start, inv);
            assert(out@ =~= Seq::<Invariant>::empty().push(inv));
        }
    }
    out
}

// ─── Naming conventions ────────────────────────────────────────

/// The last segment of a name, if it has one.
pub open spec fn last_segment(n: crate::ir::QualifiedName) -> Option<Seq<char>> {
    if n.segments@.len() == 0 { None } else { Some(n.segments@.last()@) }
}

/// How many public functions there are, and how many of them have a snake
/// case name; how many public data types, and how many with a Pascal case
/// name.
pub open spec fn convention_counts(g: SemanticGraph, ids: Seq<NodeId>) -> (nat, nat, nat, nat)
    decreases ids.len(),
{
    if ids.len() == 0 {
        (0, 0, 0, 0)
    } else {
        let (a, b, c, d) = convention_counts(g, ids.drop_last());
        match g.lookup(ids.last()) {
            Some(UsirNode::Function(f)) => if f.visibility == Visibility::Public {
                (a + 1, b + if last_segment(f.name) matches Some(s) && snake_case(s) { 1nat } else { 0nat }, c, d)
            } else {
                (a, b, c, d)
            },
            Some(UsirNode::DataType(t)) => if t.visibility == Visibility::Public {
                (a, b, c + 1, d + if last_segment(t.name) matches Some(s) && pascal_case(s) { 1nat } else { 0nat })
            } else {
                (a, b, c, d)
            },
            _ => (a, b, c, d),
        }
    }
}

proof fn lemma_convention_counts(g: SemanticGraph, ids: Seq<NodeId>)
    ensures
        convention_counts(g, ids).1 <= convention_counts(g, ids).0,
        convention_counts(g, ids).3 <= convention_counts(g, ids).2,
        convention_counts(g, ids).0 + convention_counts(g, ids).2 <= ids.len(),
    decreases ids.len(),
{
    if ids.len() > 0 {
        lemma_convention_counts(g, ids.drop_last());
    }
}

/// The description of a naming convention held by `a` of `b` names.
pub open spec fn convention_text(what: Seq<char>, style: Seq<char>, a: nat, b: nat) -> Seq<char> {
    "Public "@ + what + " use "@ + style + " ("@ + decimal(a) + "/"@ + decimal(b) + " = "@ + decimal(percent(a, b)) + "%)"@
}

/// The naming-convention invariants: snake case for public functions when
/// at least five there are and more than nine in ten follow it; Pascal case
/// for public types when at least three there are and more than nine in ten
/// follow it.
pub open spec fn conventions_ok(r: Seq<Invariant>, g: SemanticGraph, ids: Seq<NodeId>) -> bool {
    let (fns, snake, tys, pascal) = convention_counts(g, ids);
    let has_fn = fns >= 5 && 10 * snake > 9 * fns;
    let has_ty = tys >= 3 && 10 * pascal > 9 * tys;
    let fn_inv = |x: Invariant| {
        &&& x.kind is ConventionConstraint
        &&& x.kind->ConventionConstraint_pattern@ == "pub fn *"@
        &&& x.kind->ConventionConstraint_convention@ == "snake_case naming"@
        &&& x.description@ == convention_text("functions"@, "snake_case"@, snake, fns)
        &&& x.confidence == Ratio { num: snake as u64, den: fns as u64 }
        &&& x.evidence_count == snake
        &&& x.scope@.len() == 0
    };
    let ty_inv = |x: Invariant| {
        &&& x.kind is ConventionConstraint
        &&& x.kind->ConventionConstraint_pattern@ == "pub struct/enum/trait *"@
        &&& x.kind->ConventionConstraint_convention@ == "PascalCase naming"@
        &&& x.description@ == convention_text("types"@, "PascalCase"@, pascal, tys)
        &&& x.confidence == Ratio { num: pascal as u64, den: tys as u64 }
        &&& x.evidence_count == pascal
        &&& x.scope@.len() == 0
    };
    &&& r.len() == (if has_fn { 1int } else { 0 }) + (if has_ty { 1int } else { 0 })
    &&& has_fn ==> fn_inv(r[0])
    &&& has_ty ==> ty_inv(r[r.len() - 1])
}

/// Some invariant of `r` is a naming convention for the pattern `p`.
pub open spec fn reports_pattern(r: Seq<Invariant>, p: Seq<char>) -> bool {
    exists|i: int| 0 <= i < r.len() && (#[trigger] r[i]).kind is ConventionConstraint
        && r[i].kind->ConventionConstraint_pattern@ == p
}

/// A naming convention for public functions is reported exactly when there
/// are at least five of them and more than nine in ten are in snake case,
/// and one for public types exactly when there are at least three and more
/// than nine in ten are in Pascal case; each counts the names that follow it.
pub proof fn law_naming_conventions(r: Seq<Invariant>, g: SemanticGraph, ids: Seq<NodeId>)
    requires
        conventions_ok(r, g, ids),
    ensures
        ({
            let (fns, snake, tys, pascal) = convention_counts(g, ids);
            &&& reports_pattern(r, "pub fn *"@) <==> (fns >= 5 && 10 * snake > 9 * fns)
            &&& reports_pattern(r, "pub struct/enum/trait *"@) <==> (tys >= 3 && 10 * pascal > 9 * tys)
            &&& forall|i: int| 0 <= i < r.len() && (#[trigger] r[i]).kind->ConventionConstraint_pattern@ == "pub fn *"@
                ==> r[i].evidence_count == snake
            &&& forall|i: int| 0 <= i < r.len() && (#[trigger] r[i]).kind->ConventionConstraint_pattern@
                == "pub struct/enum/trait *"@ ==> r[i].evidence_count == pascal
        }),
{
    reveal_strlit("pub fn *");
    reveal_strlit("pub struct/enum/trait *");
    let (fns, snake, tys, pascal) = convention_counts(g, ids);
    let has_fn = fns >= 5 && 10 * snake > 9 * fns;
    let has_ty = tys >= 3 && 10 * pascal > 9 * tys;
    let fp = "pub fn *"@;
    let tp = "pub struct/enum/trait *"@;
    assert(fp != tp) by {
        assert(fp.len() != tp.len());
    }
    if has_fn {
        assert(r[0].kind->ConventionConstraint_pattern@ == fp);
    }
    if has_ty {
        assert(r[r.len() - 1].kind->ConventionConstraint_pattern@ == tp);
    }
    assert forall|i: int| 0 <= i < r.len() implies {
        &&& (has_fn && i == 0) ==> (#[trigger] r[i]).kind->ConventionConstraint_pattern@ == fp
        &&& !(has_fn && i == 0) ==> r[i].kind->ConventionConstraint_pattern@ == tp
    } by {
        if !(has_fn && i == 0) {
            assert(has_ty && i == r.len() - 1);
        }
    }
}

fn last_segment_exec(n: &crate::ir::QualifiedName) -> (r: Option<&String>)
    ensures
        match r {
            Some(s) => last_segment(*n) == Some(s@),
            None => last_segment(*n) is None,
        },
{
    if n.segments.len() == 0 {
        None
    } else {
        Some(&n.segments[n.segments.len() - 1])
    }
}

fn convention_invariant(next: &mut u64, pattern: &str, convention: &str, what: &str, style: &str, a: usize, b: usize) -> (r: Invariant)
    requires
        0 < b,
        a <= b,
        b <= 0xFFFF_FFFF,
    ensures
        r.id.0 == *old(next),
        *final(next) == next_after(*old(next)),
        r.kind is ConventionConstraint,
        r.kind->ConventionConstraint_pattern@ == pattern@,
        r.kind->ConventionConstraint_convention@ == convention@,
        r.description@ == convention_text(what@, style@, a as nat, b as nat),
        r.confidence == (Ratio { num: a as u64, den: b as u64 }),
        r.evidence_count == a,
        r.scope@.len() == 0,
{
    let mut description = String::from_str("Public ");
    description.append(what);
    description.append(" use ");
    description.append(style);
    description.append(" (");
    description.append(decimal_string(a as u64).as_str());
    description.append("/");
    description.append(decimal_string(b as u64).as_str());
    description.append(" = ");
    description.append(decimal_string(percent_exec(a as u64, b as u64)).as_str());
    description.append("%)");
    let id = take_id(next);
    Invariant {
        id,
        kind: InvariantKind::ConventionConstraint { pattern: String::from_str(pattern), convention: String::from_str(convention) },
        description,
        confidence: Ratio { num: a as u64, den: b as u64 },
        evidence_count: a,
        scope: Vec::new(),
    }
}

fn discover_visibility_conventions(g: &SemanticGraph, ids: &Vec<NodeId>, next: &mut u64) -> (r: Vec<Invariant>)
    requires
        g.wf(),
        ids@.len() <= 0xFFFF_FFFF,
    ensures
        conventions_ok(r@, *g, ids@),
        numbered(r@, *old(next), *final(next)),
{
    let mut fns: usize = 0;
    let mut snake: usize = 0;
    let mut tys: usize = 0;
    let mut pascal: usize = 0;
    let mut i: usize = 0;
    while i < ids.len()
        invariant
            i <= ids@.len(),
            ids@.len() <= 0xFFFF_FFFF,
            g.wf(),
            (fns as nat, snake as nat, tys as nat, pascal as nat) == convention_counts(*g, ids@.take(i as int)),
        decreases ids@.len() - i,
    {
        proof {
            assert(ids@.take(i + 1).drop_last() =~= ids@.take(i as int));
            assert(ids@.take(i + 1).last() == ids@[i as int]);
            lemma_convention_counts(*g, ids@.take(i as int));
        }
        match g.get_node(ids[i]) {
            Some(UsirNode::Function(f)) => {
                if f.visibility == Visibility::Public {
                    fns = fns + 1;
                    match last_segment_exec(&f.name) {
                        Some(name) => {
                            if is_snake_case(name.as_str()) {
                                snake = snake + 1;
                            }
                        },
                        None => {},
                    }
                }
            },
            Some(UsirNode::DataType(t)) => {
                if t.visibility == Visibility::Public {
                    tys = tys + 1;
                    match last_segment_exec(&t.name) {
                        Some(name) => {
                            if is_pascal_case(name.as_str()) {
                                pascal = pascal + 1;
                            }
                        },
                        None => {},
                    }
                }
            },
            _ => {},
        }
        i = i + 1;
    }
    proof {
        assert(ids@.take(ids@.len() as int) =~= ids@);
        lemma_convention_counts(*g, ids@);
    }
    let ghost first = *next;
    let mut out: Vec<Invariant> = Vec::new();
    if fns >= 5 && 10 * (snake as u64) > 9 * (fns as u64) {
        let inv = convention_invariant(next, "pub fn *", "snake_case naming", "functions", "snake_case", snake, fns);
        out.push(inv);
        proof {
            assert(out@.drop_first() =~= Seq::<Invariant>::empty());
            lemma_numbered_push(Seq::<Invariant>::empty(), first, first, inv);
            assert(out@ =~= Seq::<Invariant>::empty().push(inv));
        }
    }
    proof {
        assert(numbered(out@, first, *next));
    }
    if tys >= 3 && 10 * (pascal as u64) > 9 * (tys as u64) {
        let ghost mid = *next;
        let ghost before = out@;
        let inv = convention_invariant(next, "pub struct/enum/trait *", "PascalCase naming", "types", "PascalCase", pascal, tys);
        out.push(inv);
        proof {
            lemma_numbered_push(before, first, mid, inv);
        }
    }
    out
}

// ─── Initialization before use ─────────────────────────────────

/// A function named `init`, `new`, or anything starting with `init`.
pub open spec fn init_function(n: UsirNode) -> bool {
    match n {
        UsirNode::Function(f) => match last_segment(f.name) {
            Some(s) => s == "init"@ || s == "new"@ || starts_with(s, "init"@),
            None => false,
        },
        _ => false,
    }
}

/// The ids, in order, of the initialization functions.
pub open spec fn init_functions(g: SemanticGraph, ids: Seq<NodeId>) -> Seq<NodeId>
    decreases ids.len(),
{
    if ids.len() == 0 {
        Seq::empty()
    } else {
        let rest = init_functions(g, ids.drop_last());
        if g.lookup(ids.last()) matches Some(n) && init_function(n) { rest.push(ids.last()) } else { rest }
    }
}

/// How many nodes lie within three steps after the node of id `k`.
pub open spec fn downstream(g: SemanticGraph, k: NodeId) -> nat {
    reach(g.edges(), g.indices()[k.0], 3, Direction::Forward).remove(g.indices()[k.0]).len()
}

/// The description of an initialization invariant.
pub open spec fn init_text(n: nat) -> Seq<char> {
    "Initialization function leads to "@ + decimal(n) + " downstream operations"@
}

/// The initialization invariant of function `k`, whose `after` is a node
/// one step after it (or `k` itself when there is none).
pub open spec fn init_invariant_ok(x: Invariant, g: SemanticGraph, k: NodeId) -> bool {
    &&& x.kind is MustPrecede
    &&& x.kind->before == k
    &&& (x.kind->after == k || crate::impact::id_one_step(g.nodes(), g.edges(), g.indices()[k.0], Direction::Forward, x.kind->after))
    &&& x.description@ == init_text(downstream(g, k))
    &&& x.confidence == Ratio { num: 7, den: 10 }
    &&& x.evidence_count == downstream(g, k)
    &&& x.scope@ == seq![k]
}

/// The initialization functions with three or more nodes downstream, in
/// order.
pub open spec fn busy_inits(g: SemanticGraph, inits: Seq<NodeId>) -> Seq<NodeId>
    decreases inits.len(),
{
    if inits.len() == 0 {
        Seq::empty()
    } else {
        let rest = busy_inits(g, inits.drop_last());
        if downstream(g, inits.last()) >= 3 { rest.push(inits.last()) } else { rest }
    }
}

/// One invariant for each initialization function with three or more nodes
/// downstream.
pub open spec fn call_ordering_ok(r: Seq<Invariant>, g: SemanticGraph, ids: Seq<NodeId>) -> bool {
    let b = busy_inits(g, init_functions(g, ids));
    &&& r.len() == b.len()
    &&& forall|i: int| 0 <= i < r.len() ==> init_invariant_ok(#[trigger] r[i], g, b[i])
}

proof fn lemma_init_functions_indexed(g: SemanticGraph, ids: Seq<NodeId>)
    ensures
        forall|i: int| 0 <= i < init_functions(g, ids).len() ==> g.indices().contains_key((#[trigger] init_functions(g, ids)[i]).0),
    decreases ids.len(),
{
    if ids.len() > 0 {
        lemma_init_functions_indexed(g, ids.drop_last());
        let rest = init_functions(g, ids.drop_last());
        if g.lookup(ids.last()) matches Some(n) && init_function(n) {
            assert(init_functions(g, ids) == rest.push(ids.last()));
            assert forall|i: int| 0 <= i < init_functions(g, ids).len() implies g.indices().contains_key((#[trigger] init_functions(g, ids)[i]).0) by {
                if i < rest.len() {
                    assert(init_functions(g, ids)[i] == rest[i]);
                }
            }
        }
    }
}

fn discover_call_ordering(g: &SemanticGraph, ids: &Vec<NodeId>, next: &mut u64) -> (r: Vec<Invariant>)
    requires
        g.wf(),
    ensures
        call_ordering_ok(r@, *g, ids@),
        numbered(r@, *old(next), *final(next)),
{
    let mut inits: Vec<NodeId> = Vec::new();
    let mut i: usize = 0;
    while i < ids.len()
        invariant
            i <= ids@.len(),
            g.wf(),
            inits@ == init_functions(*g, ids@.take(i as int)),
        decreases ids@.len() - i,
    {
        proof {
            assert(ids@.take(i + 1).drop_last() =~= ids@.take(i as int));
            assert(ids@.take(i + 1).last() == ids@[i as int]);
        }
        let is_init = match g.get_node(ids[i]) {
            Some(UsirNode::Function(f)) => match last_segment_exec(&f.name) {
                Some(name) => {
                    let nc = chars_of(name.as_str());
                    crate::text::eq_chars(&nc, &lit("init")) || crate::text::eq_chars(&nc, &lit("new"))
                        || starts_with_exec(&nc, &lit("init"))
                },
                None => false,
            },
            _ => false,
        };
        if is_init {
            inits.push(ids[i]);
        }
        i = i + 1;
    }
    proof {
        assert(ids@.take(ids@.len() as int) =~= ids@);
        lemma_init_functions_indexed(*g, ids@);
    }
    let ghost first = *next;
    let mut out: Vec<Invariant> = Vec::new();
    let mut j: usize = 0;
    while j < inits.len()
        invariant
            j <= inits@.len(),
            g.wf(),
            forall|t: int| 0 <= t < inits@.len() ==> g.indices().contains_key((#[trigger] inits@[t]).0),
            out@.len() == busy_inits(*g, inits@.take(j as int)).len(),
            forall|t: int| 0 <= t < out@.len() ==> init_invariant_ok(#[trigger] out@[t], *g, busy_inits(*g, inits@.take(j as int))[t]),
            numbered(out@, first, *next),
        decreases inits@.len() - j,
    {
        proof {
            assert(inits@.take(j + 1).drop_last() =~= inits@.take(j as int));
            assert(inits@.take(j + 1).last() == inits@[j as int]);
        }
        let k = inits[j];
        let forward = g.impact_forward(k, 3);
        proof {
            g.lemma_impact_count(k, 3, Direction::Forward, forward);
        }
        if forward.total_affected >= 3 {
            let after = if forward.direct.len() > 0 { forward.direct[0].node_id } else { k };
            let n = forward.total_affected;
            let mut description = String::from_str("Initialization function leads to ");
            description.append(decimal_string(n as u64).as_str());
            description.append(" downstream operations");
            let ghost mid = *next;
            let ghost before = out@;
            let id = take_id(next);
            let inv = Invariant {
                id,
                kind: InvariantKind::MustPrecede { before: k, after },
                description,
                confidence: Ratio { num: 7, den: 10 },
                evidence_count: n,
                scope: vec![k],
            };
            out.push(inv);
            proof {
                lemma_numbered_push(before, first, mid, inv);
                assert(inv.scope@ =~= seq![k]);
                let b = busy_inits(*g, inits@.take(j + 1));
                assert(b == busy_inits(*g, inits@.take(j as int)).push(k));
                assert forall|t: int| 0 <= t < out@.len() implies init_invariant_ok(#[trigger] out@[t], *g, b[t]) by {
                    if t < before.len() {
                        assert(out@[t] == before[t]);
                    }
                }
            }
        }
        j = j + 1;
    }
    proof {
        assert(inits@.take(inits@.len() as int) =~= inits@);
    }
    out
}

// ─── Types used in one file only ───────────────────────────────

/// A string as `{:?}` writes it: quoted, with special characters escaped.
pub uninterp spec fn debug_quoted(s: Seq<char>) -> Seq<char>;

/// `{:?}` of a string slice: the result is `debug_quoted` of the text.
#[verifier::external_body]
fn quoted(s: &str) -> (r: String)
    ensures
        r@ == debug_quoted(s@),
{
    format!("{:?}", s)
}

/// A primitive type's variant name.
pub open spec fn primitive_debug(p: PrimitiveType) -> Seq<char> {
    match p {
        PrimitiveType::Bool => "Bool"@,
        PrimitiveType::Int8 => "Int8"@,
        PrimitiveType::Int16 => "Int16"@,
        PrimitiveType::Int32 => "Int32"@,
        PrimitiveType::Int64 => "Int64"@,
        PrimitiveType::Uint8 => "Uint8"@,
        PrimitiveType::Uint16 => "Uint16"@,
        PrimitiveType::Uint32 => "Uint32"@,
        PrimitiveType::Uint64 => "Uint64"@,
        PrimitiveType::Float32 => "Float32"@,
        PrimitiveType::Float64 => "Float64"@,
        PrimitiveType::String => "String"@,
        PrimitiveType::Bytes => "Bytes"@,
    }
}

/// A type reference as its debug form writes it (variant names, struct
/// variants with their field names, lists in brackets, strings quoted).
pub open spec fn debug_text(t: TypeModel) -> Seq<char>
    decreases t,
{
    match t {
        TypeModel::Primitive(p) => "Resolved(Primitive("@ + primitive_debug(p) + "))"@,
        TypeModel::Named(n, args) => "Resolved(Named { name: "@ + debug_quoted(n) + ", generic_args: ["@ + debug_list(args) + "] })"@,
        TypeModel::Function(ps, r) => "Resolved(Function { params: ["@ + debug_list(ps) + "], return_type: "@ + debug_text(*r) + " })"@,
        TypeModel::Array(b) => "Resolved(Array("@ + debug_text(*b) + "))"@,
        TypeModel::MapType(k, v) => "Resolved(Map { key: "@ + debug_text(*k) + ", value: "@ + debug_text(*v) + " })"@,
        TypeModel::Optional(b) => "Resolved(Optional("@ + debug_text(*b) + "))"@,
        TypeModel::Result(o, e) => "Resolved(Result { ok: "@ + debug_text(*o) + ", err: "@ + debug_text(*e) + " })"@,
        TypeModel::Tuple(items) => "Resolved(Tuple(["@ + debug_list(items) + "]))"@,
        TypeModel::Union(items) => "Resolved(Union(["@ + debug_list(items) + "]))"@,
        TypeModel::Unit => "Resolved(Unit)"@,
        TypeModel::Unresolved(s) => "Unresolved("@ + debug_quoted(s) + ")"@,
        TypeModel::Unknown => "Unknown"@,
    }
}

/// Types in their debug form, separated by `, `.
pub open spec fn debug_list(ts: Seq<TypeModel>) -> Seq<char>
    decreases ts,
{
    if ts.len() == 0 {
        Seq::empty()
    } else if ts.len() == 1 {
        debug_text(ts[0])
    } else {
        debug_list(ts.drop_last()) + ", "@ + debug_text(ts.last())
    }
}

fn primitive_debug_exec(p: PrimitiveType) -> (r: String)
    ensures
        r@ == primitive_debug(p),
{
    match p {
        PrimitiveType::Bool => String::from_str("Bool"),
        PrimitiveType::Int8 => String::from_str("Int8"),
        PrimitiveType::Int16 => String::from_str("Int16"),
        PrimitiveType::Int32 => String::from_str("Int32"),
        PrimitiveType::Int64 => String::from_str("Int64"),
        PrimitiveType::Uint8 => String::from_str("Uint8"),
        PrimitiveType::Uint16 => String::from_str("Uint16"),
        PrimitiveType::Uint32 => String::from_str("Uint32"),
        PrimitiveType::Uint64 => String::from_str("Uint64"),
        PrimitiveType::Float32 => String::from_str("Float32"),
        PrimitiveType::Float64 => String::from_str("Float64"),
        PrimitiveType::String => String::from_str("String"),
        PrimitiveType::Bytes => String::from_str("Bytes"),
    }
}

fn debug_list_exec(ts: &Vec<TypeRef>) -> (r: String)
    ensures
        r@ == debug_list(tmodels(ts@)),
    decreases ts,
{
    proof {
        crate::types::lemma_tmodels_len(ts@);
    }
    let mut out = String::new();
    let mut i: usize = 0;
    while i < ts.len()
        invariant
            i <= ts@.len(),
            tmodels(ts@).len() == ts@.len(),
            forall|j: int| 0 <= j < ts@.len() ==> #[trigger] tmodels(ts@)[j] == tmodel(ts@[j]),
            out@ == debug_list(tmodels(ts@).take(i as int)),
        decreases ts@.len() - i,
    {
        let piece = debug_text_exec(&ts[i]);
        proof {
            let m = tmodels(ts@);
            assert(m.take(i + 1).drop_last() =~= m.take(i as int));
            assert(m.take(i + 1).last() == tmodel(ts@[i as int]));
        }
        if i > 0 {
            out.append(", ");
        }
        out.append(piece.as_str());
        proof {
            let m = tmodels(ts@);
            if i == 0 {
                assert(m.take(1)[0] == m[0]);
            }
        }
        i = i + 1;
    }
    proof {
        assert(tmodels(ts@).take(ts@.len() as int) =~= tmodels(ts@));
    }
    out
}

/// A type reference in its debug form (see `debug_text`).
pub fn debug_text_exec(t: &TypeRef) -> (r: String)
    ensures
        r@ == debug_text(t@),
    decreases t,
{
    match t {
        TypeRef::Resolved(resolved) => match resolved {
            ResolvedType::Primitive(p) => {
                let mut s = String::from_str("Resolved(Primitive(");
                s.append(primitive_debug_exec(*p).as_str());
                s.append("))");
                s
            },
            ResolvedType::Named { name, generic_args } => {
                let mut s = String::from_str("Resolved(Named { name: ");
                s.append(quoted(name.as_str()).as_str());
                s.append(", generic_args: [");
                s.append(debug_list_exec(generic_args).as_str());
                s.append("] })");
                s
            },
            ResolvedType::Function { params, return_type } => {
                let mut s = String::from_str("Resolved(Function { params: [");
                s.append(debug_list_exec(params).as_str());
                s.append("], return_type: ");
                s.append(debug_text_exec(return_type).as_str());
                s.append(" })");
                s
            },
            ResolvedType::Array(inner) => {
                let mut s = String::from_str("Resolved(Array(");
                s.append(debug_text_exec(inner).as_str());
                s.append("))");
                s
            },
            ResolvedType::MapType { key, value } => {
                let mut s = String::from_str("Resolved(Map { key: ");
                s.append(debug_text_exec(key).as_str());
                s.append(", value: ");
                s.append(debug_text_exec(value).as_str());
                s.append(" })");
                s
            },
            ResolvedType::Optional(inner) => {
                let mut s = String::from_str("Resolved(Optional(");
                s.append(debug_text_exec(inner).as_str());
                s.append("))");
                s
            },
            ResolvedType::Result { ok, err } => {
                let mut s = String::from_str("Resolved(Result { ok: ");
                s.append(debug_text_exec(ok).as_str());
                s.append(", err: ");
                s.append(debug_text_exec(err).as_str());
                s.append(" })");
                s
            },
            ResolvedType::Tuple(items) => {
                let mut s = String::from_str("Resolved(Tuple([");
                s.append(debug_list_exec(items).as_str());
                s.append("]))");
                s
            },
            ResolvedType::Union(items) => {
                let mut s = String::from_str("Resolved(Union([");
                s.append(debug_list_exec(items).as_str());
                s.append("]))");
                s
            },
            ResolvedType::Unit => String::from_str("Resolved(Unit)"),
        },
        TypeRef::Unresolved(name) => {
            let mut s = String::from_str("Unresolved(");
            s.append(quoted(name.as_str()).as_str());
            s.append(")");
            s
        },
        TypeRef::Unknown => String::from_str("Unknown"),
    }
}

/// The index of the group named `name`, if any.
pub open spec fn group_index(gs: Seq<(Seq<char>, Seq<NodeId>)>, name: Seq<char>) -> Option<int>
    decreases gs.len(),
{
    if gs.len() == 0 {
        None
    } else if gs.last().0 == name {
        match group_index(gs.drop_last(), name) {
            Some(i) => Some(i),
            None => Some(gs.len() - 1),
        }
    } else {
        group_index(gs.drop_last(), name)
    }
}

/// The groups with one more user of type `name`: appended to its group, or
/// in a new group at the end.
pub open spec fn add_use(gs: Seq<(Seq<char>, Seq<NodeId>)>, name: Seq<char>, id: NodeId) -> Seq<(Seq<char>, Seq<NodeId>)> {
    match group_index(gs, name) {
        Some(i) => gs.update(i, (name, gs[i].1.push(id))),
        None => gs.push((name, seq![id])),
    }
}

/// The groups after the typed parameters of a function.
pub open spec fn add_params(gs: Seq<(Seq<char>, Seq<NodeId>)>, ps: Seq<crate::node::Param>, id: NodeId) -> Seq<(Seq<char>, Seq<NodeId>)>
    decreases ps.len(),
{
    if ps.len() == 0 {
        gs
    } else {
        let before = add_params(gs, ps.drop_last(), id);
        match ps.last().type_ref {
            Some(t) => add_use(before, debug_text(t@), id),
            None => before,
        }
    }
}

/// The functions using each parameter type, by the type's debug form, in
/// order of first use; a function appears once per parameter of the type.
pub open spec fn usage_groups(g: SemanticGraph, ids: Seq<NodeId>) -> Seq<(Seq<char>, Seq<NodeId>)>
    decreases ids.len(),
{
    if ids.len() == 0 {
        Seq::empty()
    } else {
        let before = usage_groups(g, ids.drop_last());
        match g.lookup(ids.last()) {
            Some(UsirNode::Function(f)) => add_params(before, f.params@, ids.last()),
            _ => before,
        }
    }
}

/// The file of the node an id leads to.
pub open spec fn file_of(g: SemanticGraph, k: NodeId) -> Seq<char> {
    g.lookup(k)->0.span_spec().file@
}

/// Three or more uses, all of known functions in one file.
pub open spec fn confined(g: SemanticGraph, users: Seq<NodeId>) -> bool {
    users.len() >= 3 && forall|i: int| 0 <= i < users.len() ==> g.lookup(#[trigger] users[i]) is Some
        && file_of(g, users[i]) == file_of(g, users[0])
}

/// The description of a type-usage invariant.
pub open spec fn usage_text(name: Seq<char>, file: Seq<char>, n: nat) -> Seq<char> {
    "Type "@ + name + " is only used in "@ + file + " ("@ + decimal(n) + " occurrences)"@
}

/// The type-usage invariant of one group.
pub open spec fn usage_invariant_ok(x: Invariant, g: SemanticGraph, grp: (Seq<char>, Seq<NodeId>)) -> bool {
    &&& x.kind is TypeUsageConstraint
    &&& x.kind->used_type@ == grp.0
    &&& views(x.kind->allowed_contexts@) == seq![file_of(g, grp.1[0])]
    &&& x.kind->forbidden_alternatives@.len() == 0
    &&& x.description@ == usage_text(grp.0, file_of(g, grp.1[0]), grp.1.len())
    &&& x.confidence == Ratio { num: 6, den: 10 }
    &&& x.evidence_count == grp.1.len()
    &&& x.scope@ == grp.1
}

/// The groups whose uses are confined to one file, in order.
pub open spec fn confined_groups(g: SemanticGraph, gs: Seq<(Seq<char>, Seq<NodeId>)>) -> Seq<(Seq<char>, Seq<NodeId>)>
    decreases gs.len(),
{
    if gs.len() == 0 {
        Seq::empty()
    } else {
        let rest = confined_groups(g, gs.drop_last());
        if confined(g, gs.last().1) { rest.push(gs.last()) } else { rest }
    }
}

/// One invariant for each type whose uses are confined to one file.
pub open spec fn type_usage_ok(r: Seq<Invariant>, g: SemanticGraph, ids: Seq<NodeId>) -> bool {
    let c = confined_groups(g, usage_groups(g, ids));
    &&& r.len() == c.len()
    &&& forall|i: int| 0 <= i < r.len() ==> usage_invariant_ok(#[trigger] r[i], g, c[i])
}

pub open spec fn group_views(gs: Seq<(String, Vec<NodeId>)>) -> Seq<(Seq<char>, Seq<NodeId>)> {
    gs.map_values(|e: (String, Vec<NodeId>)| (e.0@, e.1@))
}

fn find_group(gs: &Vec<(String, Vec<NodeId>)>, nc: &Vec<char>) -> (r: Option<usize>)
    ensures
        match r {
            Some(i) => i < gs@.len() && group_index(group_views(gs@), nc@) == Some(i as int) && gs@[i as int].0@ == nc@,
            None => group_index(group_views(gs@), nc@) is None,
        },
{
    let ghost gv = group_views(gs@);
    let mut i: usize = 0;
    proof {
        assert(gv.take(0) =~= Seq::<(Seq<char>, Seq<NodeId>)>::empty());
    }
    while i < gs.len()
        invariant
            i <= gs@.len(),
            gv == group_views(gs@),
            group_index(gv.take(i as int), nc@) is None,
        decreases gs@.len() - i,
    {
        if crate::text::str_eq(&gs[i].0, nc.as_slice()) {
            proof {
                lemma_group_index_first(gv, nc@, i as int);
            }
            return Some(i);
        }
        proof {
            assert(gv.take(i + 1).drop_last() =~= gv.take(i as int));
            assert(gv.take(i + 1).last() == gv[i as int]);
        }
        i = i + 1;
    }
    proof {
        assert(gv.take(gv.len() as int) =~= gv);
    }
    None
}

fn add_use_exec(gs: &mut Vec<(String, Vec<NodeId>)>, name: String, id: NodeId)
    ensures
        group_views(final(gs)@) == add_use(group_views(old(gs)@), name@, id),
{
    let ghost gv = group_views(gs@);
    let nc = chars_of(name.as_str());
    match find_group(gs, &nc) {
        Some(i) => {
            let mut e = gs.remove(i);
            e.1.push(id);
            gs.insert(i, e);
            proof {
                assert(group_views(gs@) =~= gv.update(i as int, (name@, gv[i as int].1.push(id))));
            }
        },
        None => {
            let mut users: Vec<NodeId> = Vec::new();
            users.push(id);
            proof {
                assert(users@ =~= seq![id]);
            }
            gs.push((name, users));
            proof {
                assert(group_views(gs@) =~= gv.push((name@, seq![id])));
            }
        },
    }
}

proof fn lemma_group_index_first(gs: Seq<(Seq<char>, Seq<NodeId>)>, name: Seq<char>, i: int)
    requires
        0 <= i < gs.len(),
        gs[i].0 == name,
        group_index(gs.take(i), name) is None,
    ensures
        group_index(gs, name) == Some(i),
    decreases gs.len(),
{
    if i < gs.len() - 1 {
        assert(gs.drop_last().take(i) =~= gs.take(i));
        lemma_group_index_first(gs.drop_last(), name, i);
    } else {
        assert(gs.drop_last() =~= gs.take(i));
    }
}

fn discover_type_usage(g: &SemanticGraph, ids: &Vec<NodeId>, next: &mut u64) -> (r: Vec<Invariant>)
    requires
        g.wf(),
    ensures
        type_usage_ok(r@, *g, ids@),
        numbered(r@, *old(next), *final(next)),
{
    let mut groups: Vec<(String, Vec<NodeId>)> = Vec::new();
    let mut i: usize = 0;
    proof {
        assert(group_views(groups@) =~= Seq::<(Seq<char>, Seq<NodeId>)>::empty());
    }
    while i < ids.len()
        invariant
            i <= ids@.len(),
            g.wf(),
            group_views(groups@) == usage_groups(*g, ids@.take(i as int)),
        decreases ids@.len() - i,
    {
        proof {
            assert(ids@.take(i + 1).drop_last() =~= ids@.take(i as int));
            assert(ids@.take(i + 1).last() == ids@[i as int]);
        }
        let cur = ids[i];
        match g.get_node(cur) {
            Some(UsirNode::Function(f)) => {
                let ghost base = group_views(groups@);
                let mut j: usize = 0;
                while j < f.params.len()
                    invariant
                        j <= f.params@.len(),
                        group_views(groups@) == add_params(base, f.params@.take(j as int), cur),
                    decreases f.params@.len() - j,
                {
                    proof {
                        assert(f.params@.take(j + 1).drop_last() =~= f.params@.take(j as int));
                        assert(f.params@.take(j + 1).last() == f.params@[j as int]);
                    }
                    match &f.params[j].type_ref {
                        Some(t) => {
                            let name = debug_text_exec(t);
                            add_use_exec(&mut groups, name, cur);
                        },
                        None => {},
                    }
                    j = j + 1;
                }
                proof {
                    assert(f.params@.take(f.params@.len() as int) =~= f.params@);
                }
            },
            _ => {},
        }
        i = i + 1;
    }
    proof {
        assert(ids@.take(ids@.len() as int) =~= ids@);
    }
    let ghost gv = group_views(groups@);
    let ghost first = *next;
    let mut out: Vec<Invariant> = Vec::new();
    let mut k: usize = 0;
    while k < groups.len()
        invariant
            k <= groups@.len(),
            g.wf(),
            gv == group_views(groups@),
            out@.len() == confined_groups(*g, gv.take(k as int)).len(),
            forall|t: int| 0 <= t < out@.len() ==> usage_invariant_ok(#[trigger] out@[t], *g, confined_groups(*g, gv.take(k as int))[t]),
            numbered(out@, first, *next),
        decreases groups@.len() - k,
    {
        proof {
            assert(gv.take(k + 1).drop_last() =~= gv.take(k as int));
            assert(gv.take(k + 1).last() == gv[k as int]);
        }
        let users = &groups[k].1;
        let mut same = users.len() >= 3;
        let mut f0: Option<String> = None;
        if same {
            match g.get_node(users[0]) {
                Some(n) => {
                    f0 = Some(copy_string(&n.span().file));
                },
                None => {
                    same = false;
                },
            }
        }
        let mut u: usize = 0;
        while same && u < users.len()
            invariant
                u <= users@.len(),
                g.wf(),
                same ==> users@.len() >= 3 && f0 is Some && g.lookup(users@[0]) is Some && f0->0@ == file_of(*g, users@[0]),
                same ==> forall|t: int| 0 <= t < u ==> g.lookup(#[trigger] users@[t]) is Some && file_of(*g, users@[t]) == file_of(*g, users@[0]),
                !same ==> !confined(*g, users@),
            decreases users@.len() - u,
        {
            match (&f0, g.get_node(users[u])) {
                (Some(x), Some(n)) => {
                    if !crate::text::str_eq(&n.span().file, &chars_of(x.as_str())) {
                        same = false;
                    }
                },
                _ => {
                    same = false;
                },
            }
            u = u + 1;
        }
        proof {
            assert(same == confined(*g, users@));
        }
        if same {
            let ghost grp = gv[k as int];
            let file = match &f0 {
                Some(x) => copy_string(x),
                None => String::new(),
            };
            let n = users.len();
            let mut description = String::from_str("Type ");
            description.append(groups[k].0.as_str());
            description.append(" is only used in ");
            description.append(file.as_str());
            description.append(" (");
            description.append(decimal_string(n as u64).as_str());
            description.append(" occurrences)");
            let mut allowed: Vec<String> = Vec::new();
            allowed.push(file);
            proof {
                assert(views(allowed@) =~= seq![file_of(*g, grp.1[0])]);
            }
            let mut scope: Vec<NodeId> = Vec::new();
            let mut t: usize = 0;
            while t < users.len()
                invariant
                    t <= users@.len(),
                    scope@ == users@.take(t as int),
                decreases users@.len() - t,
            {
                scope.push(users[t]);
                proof {
                    assert(users@.take(t + 1) =~= users@.take(t as int).push(users@[t as int]));
                }
                t = t + 1;
            }
            proof {
                assert(users@.take(users@.len() as int) =~= users@);
            }
            let ghost mid = *next;
            let ghost before = out@;
            let id = take_id(next);
            let inv = Invariant {
                id,
                kind: InvariantKind::TypeUsageConstraint {
                    used_type: copy_string(&groups[k].0),
                    allowed_contexts: allowed,
                    forbidden_alternatives: Vec::new(),
                },
                description,
                confidence: Ratio { num: 6, den: 10 },
                evidence_count: n,
                scope,
            };
            out.push(inv);
            proof {
                lemma_numbered_push(before, first, mid, inv);
                let c = confined_groups(*g, gv.take(k + 1));
                assert(c == confined_groups(*g, gv.take(k as int)).push(grp));
                assert forall|t: int| 0 <= t < out@.len() implies usage_invariant_ok(#[trigger] out@[t], *g, c[t]) by {
                    if t < before.len() {
                        assert(out@[t] == before[t]);
                    }
                }
            }
        }
        k = k + 1;
    }
    proof {
        assert(gv.take(gv.len() as int) =~= gv);
    }
    out
}

// ─── All passes ────────────────────────────────────────────────

/// How many invariants have a confidence of at least nine in ten.
pub open spec fn high_count(s: Seq<Invariant>) -> nat
    decreases s.len(),
{
    if s.len() == 0 {
        0
    } else {
        high_count(s.drop_last()) + if s.last().confidence.at_least(9, 10) { 1nat } else { 0nat }
    }
}

/// How many invariants each pass gives.
pub open spec fn pass_sizes(g: SemanticGraph, ids: Seq<NodeId>) -> (nat, nat, nat, nat) {
    let (fns, snake, tys, pascal) = convention_counts(g, ids);
    (
        if result_functions(g, ids).len() >= 3 { 1nat } else { 0nat },
        (if fns >= 5 && 10 * snake > 9 * fns { 1nat } else { 0nat }) + (if tys >= 3 && 10 * pascal > 9 * tys { 1nat } else { 0nat }),
        busy_inits(g, init_functions(g, ids)).len(),
        confined_groups(g, usage_groups(g, ids)).len(),
    )
}

/// The invariants of the four passes over the nodes in the order of `ids`,
/// one after the other: errors returned as `Result`, naming conventions,
/// initialization before use, types confined to one file.
pub open spec fn passes_ok(s: Seq<Invariant>, g: SemanticGraph, ids: Seq<NodeId>) -> bool {
    let (a, b, c, d) = pass_sizes(g, ids);
    &&& s.len() == a + b + c + d
    &&& error_handling_ok(s.subrange(0, a as int), g, ids)
    &&& conventions_ok(s.subrange(a as int, (a + b) as int), g, ids)
    &&& call_ordering_ok(s.subrange((a + b) as int, (a + b + c) as int), g, ids)
    &&& type_usage_ok(s.subrange((a + b + c) as int, s.len() as int), g, ids)
}

/// `ids` lists each indexed id once.
pub open spec fn index_order(g: SemanticGraph, ids: Seq<NodeId>) -> bool {
    &&& ids.no_duplicates()
    &&& forall|k: u64| g.indices().contains_key(k) <==> ids.contains(NodeId(k))
}

/// The descriptions, in order, of the invariants with a confidence of at
/// least nine in ten.
pub open spec fn high_descriptions(s: Seq<Invariant>) -> Seq<Seq<char>>
    decreases s.len(),
{
    if s.len() == 0 {
        Seq::empty()
    } else {
        let rest = high_descriptions(s.drop_last());
        if s.last().confidence.at_least(9, 10) { rest.push(s.last().description@) } else { rest }
    }
}

/// Runs the four discovery passes over the graph, the nodes in the order
/// the id index gives them (not fixed), numbering the invariants from
/// `next` on; the statistics count the patterns scanned (three passes over
/// the nodes and one over the edges), the invariants found, and those with
/// a confidence of at least nine in ten.
pub fn discover(g: &SemanticGraph, next: &mut u64) -> (r: DiscoveryResult)
    requires
        g.wf(),
        3 * g.nodes().len() + g.edges().len() <= usize::MAX,
    ensures
        exists|ids: Seq<NodeId>| index_order(*g, ids) && passes_ok(r.invariants@, *g, ids),
        numbered(r.invariants@, *old(next), *final(next)),
        r.stats.patterns_scanned == 3 * g.nodes().len() + g.edges().len(),
        r.stats.invariants_found == r.invariants@.len(),
        r.stats.high_confidence == high_count(r.invariants@),
{
    let ids = g.all_node_ids();
    proof {
        g.lemma_index_count();
        assert(ids@.no_duplicates()) by {
            assert forall|a: int, b: int| 0 <= a < ids@.len() && 0 <= b < ids@.len() && a != b implies ids@[a] != ids@[b] by {
                if a < b {
                } else {
                }
            }
        }
    }
    let ghost n0 = *next;
    let mut e = discover_error_handling(g, &ids, next);
    let ghost n1 = *next;
    let mut v = discover_visibility_conventions(g, &ids, next);
    let ghost n2 = *next;
    let mut c = discover_call_ordering(g, &ids, next);
    let ghost n3 = *next;
    let mut t = discover_type_usage(g, &ids, next);
    let ghost (ev, vv, cv, tv) = (e@, v@, c@, t@);
    let mut all: Vec<Invariant> = Vec::new();
    all.append(&mut e);
    all.append(&mut v);
    all.append(&mut c);
    all.append(&mut t);
    proof {
        assert(all@ =~= ev + vv + cv + tv);
        lemma_numbered_concat(ev, vv, n0, n1, n2);
        lemma_numbered_concat(ev + vv, cv, n0, n2, n3);
        lemma_numbered_concat(ev + vv + cv, tv, n0, n3, *next);
        let (a, b, c2, d) = pass_sizes(*g, ids@);
        assert(ev.len() == a);
        assert(vv.len() == b);
        assert(cv.len() == c2);
        assert(tv.len() == d);
        assert(all@.subrange(0, a as int) =~= ev);
        assert(all@.subrange(a as int, (a + b) as int) =~= vv);
        assert(all@.subrange((a + b) as int, (a + b + c2) as int) =~= cv);
        assert(all@.subrange((a + b + c2) as int, all@.len() as int) =~= tv);
        assert(passes_ok(all@, *g, ids@));
        assert(index_order(*g, ids@));
    }
    let mut high: usize = 0;
    let mut i: usize = 0;
    while i < all.len()
        invariant
            i <= all@.len(),
            high == high_count(all@.take(i as int)),
            high <= i,
        decreases all@.len() - i,
    {
        proof {
            assert(all@.take(i + 1).drop_last() =~= all@.take(i as int));
        }
        if all[i].confidence.is_at_least(9, 10) {
            high = high + 1;
        }
        i = i + 1;
    }
    proof {
        assert(all@.take(all@.len() as int) =~= all@);
    }
    let nodes = g.node_count();
    let edges = g.edge_count();
    let found = all.len();
    DiscoveryResult {
        invariants: all,
        stats: DiscoveryStats { patterns_scanned: nodes + nodes + edges + nodes, invariants_found: found, high_confidence: high },
    }
}

} // verus!
