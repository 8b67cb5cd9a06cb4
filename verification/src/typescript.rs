//! The TypeScript frontend's text logic: type annotations and imports.

use vstd::prelude::*;
use crate::frontend::{
    import_view, imports_view, strip_all_prefix, strip_all_prefix_exec, strip_set, strip_set_exec, symbol_list,
    symbol_list_exec, ImportRef,
};
use crate::python::{node_list, trimmed_pieces};
use crate::text::{eq_chars, find, find_exec, split_exec, views};
use crate::text::{chars_of, contains, contains_exec, ends_with, ends_with_exec, lit, slice_chars, split, string_of, trim, trim_exec, vviews};
use crate::typeparse::{lemma_split_pieces, lemma_split_top_shorter, lemma_trim_piece, split_top, split_top_exec, wrapped, wrapped_exec};
use crate::types::{clone_type_ref, lemma_tmodels_len, lemma_tmodels_push, prim, tmodels, PrimitiveType, ResolvedType, TypeModel, TypeRef};

verus! {

/// `s` without its leading colons (`trim_start_matches(':')`).
pub open spec fn drop_colons(s: Seq<char>) -> Seq<char>
    decreases s.len(),
{
    if s.len() > 0 && s[0] == ':' {
        drop_colons(s.drop_first())
    } else {
        s
    }
}

pub proof fn lemma_drop_colons_len(s: Seq<char>)
    ensures
        drop_colons(s).len() <= s.len(),
    decreases s.len(),
{
    if s.len() > 0 && s[0] == ':' {
        lemma_drop_colons_len(s.drop_first());
    }
}

/// Of two types, the only one that is not the unit type, if exactly one
/// is not.
pub open spec fn lone_non_unit(ts: Seq<TypeModel>) -> Option<TypeModel> {
    if ts.len() == 2 && !(ts[0] is Unit) && ts[1] is Unit {
        Some(ts[0])
    } else if ts.len() == 2 && ts[0] is Unit && !(ts[1] is Unit) {
        Some(ts[1])
    } else {
        None
    }
}

/// The type that a TypeScript annotation denotes (leading `:` dropped):
/// builtin names, then `Array<T>`, `T[]`, `Promise<T>` (as `T`),
/// `Map<K, V>`, unions with `|` (`T | null` being optional); anything else
/// is an unresolved name.
pub open spec fn ts_type(s: Seq<char>) -> TypeModel
    decreases s.len(), 1nat, 0nat,
{
    let t = trim(drop_colons(trim(s)));
    proof {
        lemma_trim_piece(s);
        lemma_drop_colons_len(trim(s));
        lemma_trim_piece(drop_colons(trim(s)));
    }
    if t == "string"@ {
        TypeModel::Primitive(PrimitiveType::String)
    } else if t == "number"@ {
        TypeModel::Primitive(PrimitiveType::Float64)
    } else if t == "boolean"@ || t == "bool"@ {
        TypeModel::Primitive(PrimitiveType::Bool)
    } else if t == "void"@ || t == "undefined"@ || t == "null"@ || t == "never"@ {
        TypeModel::Unit
    } else if t == "any"@ || t == "unknown"@ {
        TypeModel::Unknown
    } else if wrapped(t, "Array<"@, '>') is Some {
        TypeModel::Array(Box::new(ts_type(wrapped(t, "Array<"@, '>')->0)))
    } else if ends_with(t, seq!['[', ']']) {
        TypeModel::Array(Box::new(ts_type(t.take(t.len() - 2))))
    } else if wrapped(t, "Promise<"@, '>') is Some {
        ts_type(wrapped(t, "Promise<"@, '>')->0)
    } else if wrapped(t, "Map<"@, '>') is Some && split_top(wrapped(t, "Map<"@, '>')->0, false) is Some {
        proof {
            lemma_split_top_shorter(wrapped(t, "Map<"@, '>')->0, false);
        }
        let (k, v) = split_top(wrapped(t, "Map<"@, '>')->0, false)->0;
        TypeModel::MapType(Box::new(ts_type(k)), Box::new(ts_type(v)))
    } else if contains(t, seq!['|']) {
        let ps = ts_types(trimmed_pieces(t, '|'), t.len());
        if lone_non_unit(ps) is Some {
            TypeModel::Optional(Box::new(lone_non_unit(ps)->0))
        } else {
            TypeModel::Union(ps)
        }
    } else {
        TypeModel::Unresolved(t)
    }
}

/// The types of the pieces, each shorter than `bound`.
pub open spec fn ts_types(parts: Seq<Seq<char>>, bound: nat) -> Seq<TypeModel>
    decreases bound, 0nat, parts.len(),
{
    if parts.len() == 0 {
        Seq::empty()
    } else if parts.last().len() >= bound {
        Seq::empty()
    } else {
        ts_types(parts.drop_last(), bound).push(ts_type(parts.last()))
    }
}

/// Split `"A, B"` at the first comma outside angle brackets, both sides
/// trimmed.
pub fn split_generic(s: &str) -> (r: Option<(String, String)>)
    ensures
        match r {
            Some((a, b)) => split_top(s@, false) == Some((a@, b@)),
            None => split_top(s@, false) is None,
        },
{
    match split_top_exec(&chars_of(s), false) {
        Some((a, b)) => Some((string_of(&a), string_of(&b))),
        None => None,
    }
}

pub(crate) fn drop_colons_exec(s: &Vec<char>) -> (r: Vec<char>)
    ensures
        r@ == drop_colons(s@),
{
    let mut i: usize = 0;
    proof {
        assert(s@.skip(0) =~= s@);
    }
    while i < s.len() && s[i] == ':'
        invariant
            i <= s@.len(),
            drop_colons(s@) == drop_colons(s@.skip(i as int)),
        decreases s@.len() - i,
    {
        proof {
            assert(s@.skip(i as int).drop_first() =~= s@.skip(i + 1));
        }
        i = i + 1;
    }
    let r = slice_chars(s, i, s.len());
    proof {
        assert(r@ =~= s@.skip(i as int));
    }
    r
}

fn is_word(t: &Vec<char>, w: &str) -> (r: bool)
    ensures
        r == (t@ == w@),
{
    crate::text::eq_chars(t, &lit(w))
}

fn ts_types_exec(parts: &Vec<Vec<char>>, Ghost(bound): Ghost<nat>) -> (r: Vec<TypeRef>)
    requires
        forall|i: int| 0 <= i < parts@.len() ==> (#[trigger] parts@[i])@.len() < bound,
    ensures
        tmodels(r@) == ts_types(vviews(parts@), bound),
    decreases bound, 0nat, parts@.len(),
{
    let mut out: Vec<TypeRef> = Vec::new();
    let mut i: usize = 0;
    while i < parts.len()
        invariant
            i <= parts@.len(),
            forall|j: int| 0 <= j < parts@.len() ==> (#[trigger] parts@[j])@.len() < bound,
            tmodels(out@) == ts_types(vviews(parts@).take(i as int), bound),
        decreases parts@.len() - i,
    {
        let t = ts_type_chars(&parts[i]);
        proof {
            lemma_tmodels_push(out@, t);
            let pv = vviews(parts@);
            assert(pv.take(i + 1).drop_last() =~= pv.take(i as int));
            assert(pv.take(i + 1).last() == parts@[i as int]@);
        }
        out.push(t);
        i = i + 1;
    }
    proof {
        assert(vviews(parts@).take(parts@.len() as int) =~= vviews(parts@));
    }
    out
}

fn is_unit(t: &TypeRef) -> (r: bool)
    ensures
        r == (t@ is Unit),
{
    match t {
        TypeRef::Resolved(ResolvedType::Unit) => true,
        _ => false,
    }
}

fn ts_type_chars(s: &[char]) -> (r: TypeRef)
    ensures
        r@ == ts_type(s@),
    decreases s@.len(), 1nat, 0nat,
{
    let t0 = trim_exec(s);
    let t1 = drop_colons_exec(&t0);
    let t = trim_exec(&t1);
    proof {
        lemma_trim_piece(s@);
        lemma_drop_colons_len(t0@);
        lemma_trim_piece(t1@);
    }
    if is_word(&t, "string") {
        return prim(PrimitiveType::String);
    }
    if is_word(&t, "number") {
        return prim(PrimitiveType::Float64);
    }
    if is_word(&t, "boolean") || is_word(&t, "bool") {
        return prim(PrimitiveType::Bool);
    }
    if is_word(&t, "void") || is_word(&t, "undefined") || is_word(&t, "null") || is_word(&t, "never") {
        return TypeRef::Resolved(ResolvedType::Unit);
    }
    if is_word(&t, "any") || is_word(&t, "unknown") {
        return TypeRef::Unknown;
    }
    if let Some(inner) = wrapped_exec(&t, &lit("Array<"), '>') {
        return TypeRef::Resolved(ResolvedType::Array(Box::new(ts_type_chars(&inner))));
    }
    let mut brackets: Vec<char> = Vec::new();
    brackets.push('[');
    brackets.push(']');
    proof {
        assert(brackets@ =~= seq!['[', ']']);
    }
    if ends_with_exec(&t, &brackets) {
        let inner = slice_chars(&t, 0, t.len() - 2);
        proof {
            assert(inner@ =~= t@.take(t@.len() - 2));
        }
        return TypeRef::Resolved(ResolvedType::Array(Box::new(ts_type_chars(&inner))));
    }
    if let Some(inner) = wrapped_exec(&t, &lit("Promise<"), '>') {
        return ts_type_chars(&inner);
    }
    if let Some(inner) = wrapped_exec(&t, &lit("Map<"), '>') {
        proof {
            lemma_split_top_shorter(inner@, false);
        }
        if let Some((k, v)) = split_top_exec(&inner, false) {
            return TypeRef::Resolved(
                ResolvedType::MapType {
                    key: Box::new(ts_type_chars(&k)),
                    value: Box::new(ts_type_chars(&v)),
                },
            );
        }
    }
    let mut bar: Vec<char> = Vec::new();
    bar.push('|');
    proof {
        assert(bar@ =~= seq!['|']);
    }
    if contains_exec(&t, &bar) {
        let parts = crate::python::trimmed_pieces_exec(&t, '|');
        proof {
            lemma_split_pieces(t@, seq!['|']);
            let p = split(t@, seq!['|']);
            assert(vviews(parts@) == trimmed_pieces(t@, '|'));
            assert(trimmed_pieces(t@, '|').len() == p.len());
            assert(vviews(parts@).len() == parts@.len());
            assert forall|i: int| 0 <= i < parts@.len() implies (#[trigger] parts@[i])@.len() < t@.len() by {
                assert(vviews(parts@)[i] == parts@[i]@);
                assert(trimmed_pieces(t@, '|')[i] == trim(p[i]));
                lemma_trim_piece(p[i]);
            }
        }
        let items = ts_types_exec(&parts, Ghost(t@.len()));
        proof {
            lemma_tmodels_len(items@);
        }
        if items.len() == 2 {
            let a = is_unit(&items[0]);
            let b = is_unit(&items[1]);
            if !a && b {
                return TypeRef::Resolved(ResolvedType::Optional(Box::new(clone_type_ref(&items[0]))));
            }
            if a && !b {
                return TypeRef::Resolved(ResolvedType::Optional(Box::new(clone_type_ref(&items[1]))));
            }
        }
        return TypeRef::Resolved(ResolvedType::Union(items));
    }
    TypeRef::Unresolved(string_of(&t))
}

/// The type a TypeScript annotation denotes (see `ts_type`).
pub fn parse_ts_type(s: &str) -> (r: TypeRef)
    ensures
        r@ == ts_type(s@),
{
    ts_type_chars(&chars_of(s))
}


/// What an import statement's text gives: the module after `from` (quotes
/// and `;` stripped), and the symbols before it: none for a `*` import
/// (a wildcard), the names inside `{ }` (each cut at ` as `), or the
/// default import's name.
pub open spec fn ts_import(text: Seq<char>) -> Option<(Seq<char>, Seq<Seq<char>>, bool)> {
    if find(text, "from"@) is None {
        None
    } else {
        let i = find(text, "from"@)->0;
        let module = strip_set(trim(text.skip(i + 4)), seq!['\'', '"', ';', ' '], false);
        let part = trim(strip_all_prefix(trim(text.take(i)), "import"@));
        let wild = contains(part, seq!['*']);
        let syms = if wild {
            Seq::empty()
        } else if contains(part, seq!['{']) {
            symbol_list(split(strip_set(part, seq!['{', '}'], true), ","@))
        } else {
            seq![part]
        };
        Some((module, syms, wild))
    }
}

/// The import a TypeScript import statement's text gives (see
/// `ts_import`).
pub fn parse_import_text(text: &str) -> (r: Option<ImportRef>)
    ensures
        match r {
            Some(i) => ts_import(text@) == Some(import_view(i)),
            None => ts_import(text@) is None,
        },
{
    let t = chars_of(text);
    let n = t.len();
    let from = lit("from");
    let i = match find_exec(&t, &from) {
        Some(i) => i,
        None => return None,
    };
    proof {
        reveal_strlit("from");
        assert(from@.len() == 4);
        crate::text::lemma_find_from_props(t@, from@, 0);
        assert(crate::text::match_at(t@, from@, i as int));
    }
    let mut quotes: Vec<char> = Vec::new();
    quotes.push('\'');
    quotes.push('"');
    quotes.push(';');
    quotes.push(' ');
    proof {
        assert(quotes@ =~= seq!['\'', '"', ';', ' ']);
    }
    let after = slice_chars(&t, i + 4, n);
    let module = strip_set_exec(&trim_exec(&after), &quotes, false);
    let before = slice_chars(&t, 0, i);
    let part = trim_exec(&strip_all_prefix_exec(&trim_exec(&before), &lit("import")));
    proof {
        assert(after@ =~= t@.skip(i + 4));
        assert(before@ =~= t@.take(i as int));
    }
    let mut star: Vec<char> = Vec::new();
    star.push('*');
    let mut brace: Vec<char> = Vec::new();
    brace.push('{');
    proof {
        assert(star@ =~= seq!['*']);
        assert(brace@ =~= seq!['{']);
    }
    let wild = contains_exec(&part, &star);
    let symbols = if wild {
        let v: Vec<String> = Vec::new();
        proof {
            assert(views(v@) =~= Seq::<Seq<char>>::empty());
        }
        v
    } else if contains_exec(&part, &brace) {
        let mut braces: Vec<char> = Vec::new();
        braces.push('{');
        braces.push('}');
        proof {
            assert(braces@ =~= seq!['{', '}']);
        }
        symbol_list_exec(&split_exec(&strip_set_exec(&part, &braces, true), &lit(",")))
    } else {
        let mut v: Vec<String> = Vec::new();
        v.push(string_of(&part));
        proof {
            assert(views(v@) =~= seq![part@]);
        }
        v
    };
    Some(ImportRef { source_module: string_of(&module), symbols, is_wildcard: wild })
}


/// The imports that a list of top-level nodes holds: each
/// `import_statement` with text that gives an import, in order.
pub open spec fn ts_imports(nodes: Seq<(Seq<char>, Option<Seq<char>>)>) -> Seq<(Seq<char>, Seq<Seq<char>>, bool)>
    decreases nodes.len(),
{
    if nodes.len() == 0 {
        Seq::empty()
    } else {
        let rest = ts_imports(nodes.drop_last());
        let (kind, text) = nodes.last();
        if kind == "import_statement"@ && text is Some && ts_import(text->0) is Some {
            rest.push(ts_import(text->0)->0)
        } else {
            rest
        }
    }
}

/// The imports that top-level nodes hold (see `ts_imports`).
pub fn imports_from_nodes(nodes: &Vec<(String, Option<String>)>) -> (r: Vec<ImportRef>)
    ensures
        imports_view(r@) == ts_imports(node_list(nodes@)),
{
    let mut out: Vec<ImportRef> = Vec::new();
    let mut i: usize = 0;
    while i < nodes.len()
        invariant
            i <= nodes@.len(),
            imports_view(out@) == ts_imports(node_list(nodes@).take(i as int)),
        decreases nodes@.len() - i,
    {
        let ghost nl = node_list(nodes@);
        proof {
            assert(nl.take(i + 1).drop_last() =~= nl.take(i as int));
            assert(nl.take(i + 1).last() == nl[i as int]);
        }
        let kind = chars_of(nodes[i].0.as_str());
        if eq_chars(&kind, &lit("import_statement")) {
            match &nodes[i].1 {
                Some(text) => {
                    match parse_import_text(text.as_str()) {
                        Some(imp) => {
                            let ghost before = out@;
                            out.push(imp);
                            proof {
                                assert(imports_view(out@) =~= imports_view(before).push(import_view(imp)));
                            }
                        },
                        None => {},
                    }
                },
                None => {},
            }
        }
        i = i + 1;
    }
    proof {
        assert(node_list(nodes@).take(nodes@.len() as int) =~= node_list(nodes@));
    }
    out
}

/// The imports of TypeScript source: its top-level import statements, in
/// order; an error when the source cannot be parsed.
pub fn extract_imports(source: &[u8]) -> (r: Result<Vec<ImportRef>, String>)
    ensures
        match r {
            Ok(v) => exists|t: crate::syntax::SyntaxNode| crate::syntax::typescript_syntax(source@) == Some(crate::syntax::walk_of(t)) && imports_view(v@) == ts_imports(crate::syntax::top_level(t, source@)),
            Err(_) => !crate::syntax::parses(crate::syntax::Grammar::TypeScript, source@),
        },
{
    match crate::syntax::parse_syntax(crate::syntax::Grammar::TypeScript, source) {
        Ok(t) => Ok(imports_from_nodes(&crate::syntax::top_level_nodes(&t, source))),
        Err(_) => Err(String::from_str("tree-sitter parse failed")),
    }
}

} // verus!
