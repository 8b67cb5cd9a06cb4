//! Concrete syntax trees as plain values. A parser produces a depth-first
//! walk over its tree (enter a node, leave it); the walk is rebuilt here into
//! a tree of `SyntaxNode`s that the language frontends read.

use vstd::prelude::*;
use tree_sitter::Parser;

verus! {

use self::SyntaxEvent::{Enter, Leave};

/// One step of a depth-first walk over a syntax tree.
pub enum SyntaxEvent {
    /// Entering a node: its kind, the field it sits under in its parent,
    /// its start and end byte, and its start row and column and end row and
    /// column, from zero.
    Enter(String, Option<String>, usize, usize, usize, usize, usize, usize),
    /// Leaving the node entered last and not left yet.
    Leave,
}

/// A node of a syntax tree.
pub struct SyntaxNode {
    pub kind: String,
    /// The field under which the node sits in its parent, if any.
    pub field: Option<String>,
    pub start_byte: usize,
    pub end_byte: usize,
    pub start_row: usize,
    pub start_col: usize,
    pub end_row: usize,
    pub end_col: usize,
    pub children: Vec<SyntaxNode>,
}

/// What entering a node records, as plain values.
pub type EnterView = (Seq<char>, Option<Seq<char>>, usize, usize, usize, usize, usize, usize);

pub open spec fn opt_chars(o: Option<String>) -> Option<Seq<char>> {
    match o {
        Some(s) => Some(s@),
        None => None,
    }
}

/// A walk step as a plain value: `Some` of what is entered, `None` for
/// leaving.
pub open spec fn event_view(e: SyntaxEvent) -> Option<EnterView> {
    match e {
        SyntaxEvent::Enter(kind, field, start_byte, end_byte, start_row, start_col, end_row, end_col) => Some(
            (kind@, opt_chars(field), start_byte, end_byte, start_row, start_col, end_row, end_col),
        ),
        SyntaxEvent::Leave => None,
    }
}

pub open spec fn events_view(v: Seq<SyntaxEvent>) -> Seq<Option<EnterView>> {
    v.map_values(|e: SyntaxEvent| event_view(e))
}

/// What entering node `n` records.
pub open spec fn enter_of(n: SyntaxNode) -> EnterView {
    (n.kind@, opt_chars(n.field), n.start_byte, n.end_byte, n.start_row, n.start_col, n.end_row, n.end_col)
}

/// The depth-first walk over a tree: enter the node, walk its children in
/// order, leave it.
pub open spec fn walk_of(n: SyntaxNode) -> Seq<Option<EnterView>>
    decreases n,
{
    seq![Some(enter_of(n))] + walks_of(n.children@) + seq![None]
}

/// The walks over a list of trees, one after another.
pub open spec fn walks_of(ns: Seq<SyntaxNode>) -> Seq<Option<EnterView>>
    decreases ns,
{
    if ns.len() == 0 {
        Seq::empty()
    } else {
        walks_of(ns.drop_last()) + walk_of(ns.last())
    }
}

/// What the walk has produced for the nodes entered and not yet left, from
/// the outermost in: each node's entry and the walks of its finished
/// children.
pub open spec fn open_prefix(stack: Seq<SyntaxNode>) -> Seq<Option<EnterView>>
    decreases stack.len(),
{
    if stack.len() == 0 {
        Seq::empty()
    } else {
        open_prefix(stack.drop_last()) + seq![Some(enter_of(stack.last()))] + walks_of(stack.last().children@)
    }
}

proof fn lemma_walks_push(ns: Seq<SyntaxNode>, n: SyntaxNode)
    ensures
        walks_of(ns.push(n)) == walks_of(ns) + walk_of(n),
{
    assert(ns.push(n).drop_last() =~= ns);
}

/// Entries minus exits: how many nodes a stretch of a walk leaves open.
pub open spec fn depth(s: Seq<Option<EnterView>>) -> int
    decreases s.len(),
{
    if s.len() == 0 {
        0
    } else {
        depth(s.drop_last()) + if s.last() is Some { 1int } else { -1int }
    }
}

proof fn lemma_depth_single(x: Option<EnterView>)
    ensures
        depth(seq![x]) == if x is Some { 1int } else { -1int },
{
    assert(seq![x].drop_last() =~= Seq::<Option<EnterView>>::empty());
    assert(depth(Seq::<Option<EnterView>>::empty()) == 0);
}

proof fn lemma_depth_concat(a: Seq<Option<EnterView>>, b: Seq<Option<EnterView>>)
    ensures
        depth(a + b) == depth(a) + depth(b),
    decreases b.len(),
{
    if b.len() > 0 {
        lemma_depth_concat(a, b.drop_last());
        assert((a + b).drop_last() =~= a + b.drop_last());
    } else {
        assert(a + b =~= a);
    }
}

/// A walk over a tree enters first and leaves last, is balanced, and
/// every proper part of it from the start leaves some node open.
proof fn lemma_walk_depth(t: SyntaxNode)
    ensures
        walk_of(t).len() >= 2,
        walk_of(t)[0] is Some,
        walk_of(t).last() is None,
        depth(walk_of(t)) == 0,
        forall|k: int| 0 < k < walk_of(t).len() ==> depth(#[trigger] walk_of(t).take(k)) >= 1,
    decreases t,
{
    let w = walks_of(t.children@);
    lemma_walks_depth(t.children@);
    let e: Seq<Option<EnterView>> = seq![Some(enter_of(t))];
    let l: Seq<Option<EnterView>> = seq![None];
    lemma_depth_concat(e, w);
    lemma_depth_concat(e + w, l);
    lemma_depth_single(Some(enter_of(t)));
    lemma_depth_single(None);
    assert forall|k: int| 0 < k < walk_of(t).len() implies depth(#[trigger] walk_of(t).take(k)) >= 1 by {
        assert(walk_of(t).take(k) =~= e + w.take(k - 1));
        lemma_depth_concat(e, w.take(k - 1));
    }
}

/// A walk over a list of trees is balanced, and no part of it from the
/// start leaves fewer than none open.
proof fn lemma_walks_depth(ns: Seq<SyntaxNode>)
    ensures
        depth(walks_of(ns)) == 0,
        forall|k: int| 0 <= k <= walks_of(ns).len() ==> depth(#[trigger] walks_of(ns).take(k)) >= 0,
    decreases ns,
{
    if ns.len() == 0 {
        assert forall|k: int| 0 <= k <= walks_of(ns).len() implies depth(#[trigger] walks_of(ns).take(k)) >= 0 by {
            assert(walks_of(ns).take(k) =~= Seq::<Option<EnterView>>::empty());
        }
    } else {
        let a = walks_of(ns.drop_last());
        let b = walk_of(ns.last());
        lemma_walks_depth(ns.drop_last());
        lemma_walk_depth(ns.last());
        lemma_depth_concat(a, b);
        assert forall|k: int| 0 <= k <= walks_of(ns).len() implies depth(#[trigger] walks_of(ns).take(k)) >= 0 by {
            if k <= a.len() {
                assert(walks_of(ns).take(k) =~= a.take(k));
            } else {
                let j = k - a.len();
                assert(walks_of(ns).take(k) =~= a + b.take(j));
                lemma_depth_concat(a, b.take(j));
                assert(a.take(a.len() as int) =~= a);
                if j == b.len() {
                    assert(b.take(j) =~= b);
                }
            }
        }
    }
}

/// The nodes a walk has left open are those on the stack.
proof fn lemma_open_depth(stack: Seq<SyntaxNode>)
    ensures
        depth(open_prefix(stack)) == stack.len(),
    decreases stack.len(),
{
    if stack.len() > 0 {
        lemma_open_depth(stack.drop_last());
        let e: Seq<Option<EnterView>> = seq![Some(enter_of(stack.last()))];
        lemma_walks_depth(stack.last().children@);
        lemma_depth_concat(open_prefix(stack.drop_last()), e);
        lemma_depth_concat(open_prefix(stack.drop_last()) + e, walks_of(stack.last().children@));
        lemma_depth_single(Some(enter_of(stack.last())));
    }
}

fn leaf_of(e: &SyntaxEvent) -> (r: Option<SyntaxNode>)
    ensures
        match r {
            Some(n) => event_view(*e) == Some(enter_of(n)) && n.children@.len() == 0,
            None => event_view(*e) is None,
        },
{
    match e {
        SyntaxEvent::Enter(kind, field, start_byte, end_byte, start_row, start_col, end_row, end_col) => {
            let f = match field {
                Some(s) => Some(crate::text::copy_string(s)),
                None => None,
            };
            Some(SyntaxNode {
                kind: crate::text::copy_string(kind),
                field: f,
                start_byte: *start_byte,
                end_byte: *end_byte,
                start_row: *start_row,
                start_col: *start_col,
                end_row: *end_row,
                end_col: *end_col,
                children: Vec::new(),
            })
        },
        SyntaxEvent::Leave => None,
    }
}

/// The tree whose walk is `events`; none exactly when the steps do not
/// form the walk of a single tree.
#[verifier::spinoff_prover]
#[verifier::rlimit(40)]
pub fn build_tree(events: &Vec<SyntaxEvent>) -> (r: Option<SyntaxNode>)
    ensures
        r matches Some(t) ==> walk_of(t) == events_view(events@),
        r is None ==> !exists|t: SyntaxNode| walk_of(t) == events_view(events@),
{
    let ghost ev = events_view(events@);
    let ghost good = exists|t: SyntaxNode| walk_of(t) == ev;
    proof {
        if good {
            let t = choose|t: SyntaxNode| walk_of(t) == ev;
            lemma_walk_depth(t);
        }
        assert(ev.take(0) =~= Seq::<Option<EnterView>>::empty());
    }
    let mut stack: Vec<SyntaxNode> = Vec::new();
    let mut i: usize = 0;
    while i < events.len()
        invariant
            i <= events@.len(),
            ev == events_view(events@),
            ev.take(i as int) == open_prefix(stack@),
            i > 0 ==> stack@.len() > 0,
            good == exists|t: SyntaxNode| walk_of(t) == ev,
            good ==> {
                &&& ev.len() >= 2
                &&& ev[0] is Some
                &&& depth(ev) == 0
                &&& forall|k: int| 0 < k < ev.len() ==> depth(#[trigger] ev.take(k)) >= 1
            },
        decreases events@.len() - i,
    {
        proof {
            assert(ev[i as int] == event_view(events@[i as int]));
            lemma_open_depth(stack@);
        }
        match leaf_of(&events[i]) {
            Some(n) => {
                let ghost before = stack@;
                stack.push(n);
                proof {
                    assert(stack@.drop_last() =~= before);
                    assert(walks_of(n.children@) =~= Seq::<Option<EnterView>>::empty());
                    assert(ev.take(i + 1) =~= ev.take(i as int).push(ev[i as int]));
                    assert(open_prefix(stack@) =~= open_prefix(before) + seq![Some(enter_of(n))]);
                }
            },
            None => {
                if stack.len() == 0 {
                    proof {
                        if good {
                            assert(i == 0);
                            assert(ev[0] is Some);
                        }
                    }
                    return None;
                }
                let ghost before = stack@;
                let top = stack.pop().unwrap();
                proof {
                    assert(before.drop_last() =~= stack@);
                    assert(ev.take(i + 1) =~= ev.take(i as int).push(None));
                    assert(open_prefix(before) + seq![None] =~= open_prefix(stack@) + walk_of(top));
                }
                if stack.len() == 0 {
                    if i + 1 == events.len() {
                        proof {
                            assert(open_prefix(stack@) =~= Seq::<Option<EnterView>>::empty());
                            assert(ev.take(i + 1) =~= walk_of(top));
                            assert(ev.take(events@.len() as int) =~= ev);
                        }
                        return Some(top);
                    } else {
                        proof {
                            lemma_open_depth(stack@);
                            lemma_walk_depth(top);
                            lemma_depth_concat(open_prefix(stack@), walk_of(top));
                            assert(ev.take(i as int).push(None) =~= open_prefix(before) + seq![None]);
                            assert(ev.take(i + 1) == open_prefix(stack@) + walk_of(top));
                            assert(depth(ev.take(i + 1)) == 0);
                        }
                        return None;
                    }
                }
                let ghost rest = stack@;
                let mut parent = stack.pop().unwrap();
                let ghost kids = parent.children@;
                parent.children.push(top);
                proof {
                    lemma_walks_push(kids, top);
                    assert(parent.children@ =~= kids.push(top));
                    assert(rest.drop_last() =~= stack@);
                }
                let ghost mid = stack@;
                stack.push(parent);
                proof {
                    assert(stack@.drop_last() =~= mid);
                    assert(open_prefix(rest) =~= open_prefix(mid) + seq![Some(enter_of(rest.last()))] + walks_of(kids));
                    assert(enter_of(rest.last()) == enter_of(parent));
                    assert(open_prefix(stack@) =~= open_prefix(mid) + seq![Some(enter_of(parent))] + walks_of(kids) + walk_of(top));
                }
            },
        }
        i = i + 1;
    }
    proof {
        lemma_open_depth(stack@);
        assert(ev.take(ev.len() as int) =~= ev);
    }
    None
}

// ─── Reading a tree ────────────────────────────────────────────

/// The first child of `n` under field `f`.
pub open spec fn field_child(n: SyntaxNode, f: Seq<char>) -> Option<SyntaxNode> {
    field_child_from(n.children@, f, 0)
}

pub open spec fn field_child_from(cs: Seq<SyntaxNode>, f: Seq<char>, i: int) -> Option<SyntaxNode>
    decreases cs.len() - i,
{
    if i < 0 || i >= cs.len() {
        None
    } else if opt_chars(cs[i].field) == Some(f) {
        Some(cs[i])
    } else {
        field_child_from(cs, f, i + 1)
    }
}

/// The first child of `n` under field `f` (see `field_child`).
pub fn child_by_field<'a>(n: &'a SyntaxNode, f: &str) -> (r: Option<&'a SyntaxNode>)
    ensures
        match r {
            Some(c) => field_child(*n, f@) == Some(*c),
            None => field_child(*n, f@) is None,
        },
{
    let fc = crate::text::chars_of(f);
    let mut i: usize = 0;
    while i < n.children.len()
        invariant
            i <= n.children@.len(),
            fc@ == f@,
            field_child(*n, f@) == field_child_from(n.children@, f@, i as int),
        decreases n.children@.len() - i,
    {
        match &n.children[i].field {
            Some(x) => {
                if crate::text::str_eq(x, fc.as_slice()) {
                    return Some(&n.children[i]);
                }
            },
            None => {},
        }
        i = i + 1;
    }
    None
}

/// The position of the first child of `n` under field `f`.
pub open spec fn field_index(n: SyntaxNode, f: Seq<char>) -> Option<int> {
    field_index_from(n.children@, f, 0)
}

pub open spec fn field_index_from(cs: Seq<SyntaxNode>, f: Seq<char>, i: int) -> Option<int>
    decreases cs.len() - i,
{
    if i < 0 || i >= cs.len() {
        None
    } else if opt_chars(cs[i].field) == Some(f) {
        Some(i)
    } else {
        field_index_from(cs, f, i + 1)
    }
}

/// The position of the first child of `n` under field `f` (see
/// `field_index`).
pub fn field_position(n: &SyntaxNode, f: &str) -> (r: Option<usize>)
    ensures
        match r {
            Some(i) => field_index(*n, f@) == Some(i as int) && i < n.children@.len(),
            None => field_index(*n, f@) is None,
        },
{
    let fc = crate::text::chars_of(f);
    let mut i: usize = 0;
    while i < n.children.len()
        invariant
            i <= n.children@.len(),
            fc@ == f@,
            field_index(*n, f@) == field_index_from(n.children@, f@, i as int),
        decreases n.children@.len() - i,
    {
        match &n.children[i].field {
            Some(x) => {
                if crate::text::str_eq(x, fc.as_slice()) {
                    return Some(i);
                }
            },
            None => {},
        }
        i = i + 1;
    }
    None
}

/// The text of the first child under a field, when there is one and its
/// text decodes.
pub open spec fn field_text(n: SyntaxNode, f: Seq<char>, source: Seq<u8>) -> Option<Seq<char>> {
    match field_index(n, f) {
        Some(i) => node_text(n.children@[i], source),
        None => None,
    }
}

/// A node's text, or the empty text.
pub open spec fn text_or_empty(n: SyntaxNode, source: Seq<u8>) -> Seq<char> {
    match node_text(n, source) {
        Some(t) => t,
        None => Seq::empty(),
    }
}

/// A field's text, or the empty text.
pub open spec fn field_text_or_empty(n: SyntaxNode, f: Seq<char>, source: Seq<u8>) -> Seq<char> {
    match field_text(n, f, source) {
        Some(t) => t,
        None => Seq::empty(),
    }
}

/// Decoding bytes as UTF-8 (`str::from_utf8`): the text, or none when the
/// bytes are not valid UTF-8.
pub uninterp spec fn utf8_decode(bytes: Seq<u8>) -> Option<Seq<char>>;

/// `str::from_utf8` on a byte slice: the result is `utf8_decode` of the
/// bytes.
#[verifier::external_body]
fn decode_utf8(bytes: &[u8]) -> (r: Option<String>)
    ensures
        opt_chars(r) == utf8_decode(bytes@),
{
    std::str::from_utf8(bytes).ok().map(|s| s.to_string())
}

/// The source text that node `n` spans, when its range lies in the source
/// and decodes as UTF-8.
pub open spec fn node_text(n: SyntaxNode, source: Seq<u8>) -> Option<Seq<char>> {
    if n.start_byte <= n.end_byte && n.end_byte <= source.len() {
        utf8_decode(source.subrange(n.start_byte as int, n.end_byte as int))
    } else {
        None
    }
}

/// The source text that a node spans (see `node_text`).
pub fn text_of(n: &SyntaxNode, source: &[u8]) -> (r: Option<String>)
    ensures
        opt_chars(r) == node_text(*n, source@),
{
    if n.start_byte <= n.end_byte && n.end_byte <= source.len() {
        let mut bytes: Vec<u8> = Vec::new();
        let mut i: usize = n.start_byte;
        while i < n.end_byte
            invariant
                n.start_byte <= i <= n.end_byte,
                n.end_byte <= source@.len(),
                bytes@ == source@.subrange(n.start_byte as int, i as int),
            decreases n.end_byte - i,
        {
            bytes.push(source[i]);
            proof {
                assert(bytes@ =~= source@.subrange(n.start_byte as int, i + 1));
            }
            i = i + 1;
        }
        decode_utf8(bytes.as_slice())
    } else {
        None
    }
}

/// The text of the first child under a field (see `field_text`).
pub fn text_of_field(n: &SyntaxNode, f: &str, source: &[u8]) -> (r: Option<String>)
    ensures
        opt_chars(r) == field_text(*n, f@, source@),
{
    match field_position(n, f) {
        Some(i) => text_of(&n.children[i], source),
        None => None,
    }
}

/// A node's text, or the empty text.
pub fn text_or_default(n: &SyntaxNode, source: &[u8]) -> (r: String)
    ensures
        r@ == text_or_empty(*n, source@),
{
    match text_of(n, source) {
        Some(t) => t,
        None => String::new(),
    }
}

/// A field's text, or the empty text.
pub fn field_text_or_default(n: &SyntaxNode, f: &str, source: &[u8]) -> (r: String)
    ensures
        r@ == field_text_or_empty(*n, f@, source@),
{
    match text_of_field(n, f, source) {
        Some(t) => t,
        None => String::new(),
    }
}

/// The children of a tree's root, each as its kind and its text.
pub open spec fn top_level(t: SyntaxNode, source: Seq<u8>) -> Seq<(Seq<char>, Option<Seq<char>>)> {
    t.children@.map_values(|c: SyntaxNode| (c.kind@, node_text(c, source)))
}

/// The children of a tree's root as kinds and texts (see `top_level`).
pub fn top_level_nodes(t: &SyntaxNode, source: &[u8]) -> (r: Vec<(String, Option<String>)>)
    ensures
        crate::python::node_list(r@) == top_level(*t, source@),
{
    let mut out: Vec<(String, Option<String>)> = Vec::new();
    let mut i: usize = 0;
    while i < t.children.len()
        invariant
            i <= t.children@.len(),
            crate::python::node_list(out@) == top_level(*t, source@).take(i as int),
        decreases t.children@.len() - i,
    {
        let c = &t.children[i];
        let e = (crate::text::copy_string(&c.kind), text_of(c, source));
        let ghost before = out@;
        out.push(e);
        proof {
            assert(crate::python::node_list(out@) =~= crate::python::node_list(before).push((e.0@, opt_chars(e.1))));
            assert(top_level(*t, source@).take(i + 1) =~= top_level(*t, source@).take(i as int).push(
                top_level(*t, source@)[i as int],
            ));
        }
        i = i + 1;
    }
    proof {
        assert(top_level(*t, source@).take(t.children@.len() as int) =~= top_level(*t, source@));
    }
    out
}

// ─── The parsers ───────────────────────────────────────────────

/// The walk over the tree that tree-sitter's Python grammar gives for a
/// source, if it parses.
pub uninterp spec fn python_syntax(source: Seq<u8>) -> Option<Seq<Option<EnterView>>>;

/// The walk over the tree that tree-sitter's Rust grammar gives for a
/// source, if it parses.
pub uninterp spec fn rust_syntax(source: Seq<u8>) -> Option<Seq<Option<EnterView>>>;

/// The walk over the tree that tree-sitter's TypeScript grammar gives for a
/// source, if it parses.
pub uninterp spec fn typescript_syntax(source: Seq<u8>) -> Option<Seq<Option<EnterView>>>;

/// The walk over the tree that tree-sitter's TSX grammar gives for a
/// source, if it parses.
pub uninterp spec fn tsx_syntax(source: Seq<u8>) -> Option<Seq<Option<EnterView>>>;

/// Parses with tree-sitter's Python grammar (`Parser::set_language`,
/// `Parser::parse`) and walks the tree with a `TreeCursor`, recording each
/// node entered (`Node::kind`, `TreeCursor::field_name`, byte range,
/// positions) and each node left; the result is `python_syntax` of the
/// source.
#[verifier::external_body]
fn python_walk(source: &[u8]) -> (r: Option<Vec<SyntaxEvent>>)
    ensures
        match r {
            Some(v) => python_syntax(source@) == Some(events_view(v@)),
            None => python_syntax(source@) is None,
        },
{
    let mut p = Parser::new();
    p.set_language(&tree_sitter_python::LANGUAGE.into()).ok()?;
    let tree = p.parse(source, None)?;
    let (mut c, mut out) = (tree.walk(), vec![]);
    loop {
        let n = c.node();
        let (s, e) = (n.start_position(), n.end_position());
        out.push(Enter(n.kind().into(), c.field_name().map(Into::into), n.start_byte(), n.end_byte(), s.row, s.column, e.row, e.column));
        if !c.goto_first_child() {
            loop {
                out.push(Leave);
                if c.goto_next_sibling() { break; } if !c.goto_parent() { return Some(out); }
            }
        }
    }
}

/// Parses with tree-sitter's Rust grammar and walks the tree as
/// `python_walk` does; the result is `rust_syntax` of the source.
#[verifier::external_body]
fn rust_walk(source: &[u8]) -> (r: Option<Vec<SyntaxEvent>>)
    ensures
        match r {
            Some(v) => rust_syntax(source@) == Some(events_view(v@)),
            None => rust_syntax(source@) is None,
        },
{
    let mut p = Parser::new();
    p.set_language(&tree_sitter_rust::LANGUAGE.into()).ok()?;
    let tree = p.parse(source, None)?;
    let (mut c, mut out) = (tree.walk(), vec![]);
    loop {
        let n = c.node();
        let (s, e) = (n.start_position(), n.end_position());
        out.push(Enter(n.kind().into(), c.field_name().map(Into::into), n.start_byte(), n.end_byte(), s.row, s.column, e.row, e.column));
        if !c.goto_first_child() {
            loop {
                out.push(Leave);
                if c.goto_next_sibling() { break; } if !c.goto_parent() { return Some(out); }
            }
        }
    }
}

/// Parses with tree-sitter's TypeScript grammar and walks the tree as
/// `python_walk` does; the result is `typescript_syntax` of the source.
#[verifier::external_body]
fn typescript_walk(source: &[u8]) -> (r: Option<Vec<SyntaxEvent>>)
    ensures
        match r {
            Some(v) => typescript_syntax(source@) == Some(events_view(v@)),
            None => typescript_syntax(source@) is None,
        },
{
    let mut p = Parser::new();
    p.set_language(&tree_sitter_typescript::LANGUAGE_TYPESCRIPT.into()).ok()?;
    let tree = p.parse(source, None)?;
    let (mut c, mut out) = (tree.walk(), vec![]);
    loop {
        let n = c.node();
        let (s, e) = (n.start_position(), n.end_position());
        out.push(Enter(n.kind().into(), c.field_name().map(Into::into), n.start_byte(), n.end_byte(), s.row, s.column, e.row, e.column));
        if !c.goto_first_child() {
            loop {
                out.push(Leave);
                if c.goto_next_sibling() { break; } if !c.goto_parent() { return Some(out); }
            }
        }
    }
}

/// Parses with tree-sitter's TSX grammar and walks the tree as
/// `python_walk` does; the result is `tsx_syntax` of the source.
#[verifier::external_body]
fn tsx_walk(source: &[u8]) -> (r: Option<Vec<SyntaxEvent>>)
    ensures
        match r {
            Some(v) => tsx_syntax(source@) == Some(events_view(v@)),
            None => tsx_syntax(source@) is None,
        },
{
    let mut p = Parser::new();
    p.set_language(&tree_sitter_typescript::LANGUAGE_TSX.into()).ok()?;
    let tree = p.parse(source, None)?;
    let (mut c, mut out) = (tree.walk(), vec![]);
    loop {
        let n = c.node();
        let (s, e) = (n.start_position(), n.end_position());
        out.push(Enter(n.kind().into(), c.field_name().map(Into::into), n.start_byte(), n.end_byte(), s.row, s.column, e.row, e.column));
        if !c.goto_first_child() {
            loop {
                out.push(Leave);
                if c.goto_next_sibling() { break; } if !c.goto_parent() { return Some(out); }
            }
        }
    }
}

/// The grammars the frontends parse with.
#[derive(Debug, Clone, Copy, PartialEq, Eq, Structural)]
pub enum Grammar {
    Python,
    Rust,
    TypeScript,
    Tsx,
}

/// The walk that a grammar gives for a source.
pub open spec fn syntax_walk(g: Grammar, source: Seq<u8>) -> Option<Seq<Option<EnterView>>> {
    match g {
        Grammar::Python => python_syntax(source),
        Grammar::Rust => rust_syntax(source),
        Grammar::TypeScript => typescript_syntax(source),
        Grammar::Tsx => tsx_syntax(source),
    }
}

/// The grammar's walk of the source is the walk of a tree.
pub open spec fn parses(g: Grammar, source: Seq<u8>) -> bool {
    exists|t: SyntaxNode| syntax_walk(g, source) == Some(walk_of(t))
}

/// The syntax tree of a source under a grammar: `Ok` with a tree whose walk
/// is the grammar's walk of the source; an error exactly when there is no
/// such tree.
pub fn parse_syntax(g: Grammar, source: &[u8]) -> (r: Result<SyntaxNode, String>)
    ensures
        r matches Ok(t) ==> syntax_walk(g, source@) == Some(walk_of(t)),
        r is Err <==> !parses(g, source@),
{
    let walk = match g {
        Grammar::Python => python_walk(source),
        Grammar::Rust => rust_walk(source),
        Grammar::TypeScript => typescript_walk(source),
        Grammar::Tsx => tsx_walk(source),
    };
    match walk {
        Some(events) => match build_tree(&events) {
            Some(t) => Ok(t),
            None => Err(String::from_str("tree-sitter produced a malformed syntax tree")),
        },
        None => Err(String::from_str("tree-sitter parse failed")),
    }
}

} // verus!
