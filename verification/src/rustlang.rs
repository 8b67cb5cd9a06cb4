//! The Rust frontend's text logic: type annotations and `use` declarations.

use vstd::prelude::*;
use crate::frontend::{import_view, imports_view, strings_of, strip_set, strip_set_end, strip_set_exec, strip_set_exec_end, ImportRef};
use crate::python::node_list;
use crate::text::{
    chars_of, eq_chars, join, join_strings, lit, slice_chars, split, split_exec, starts_with, starts_with_exec,
    string_of, trim, trim_exec, views, vviews,
};
use crate::typeparse::{lemma_split_top_shorter, lemma_trim_piece, split_top, split_top_exec, wrapped, wrapped_exec};
use crate::types::{prim, PrimitiveType, ResolvedType, TypeModel, TypeRef};

verus! {

/// The type that a Rust type annotation denotes: primitives and `()` by
/// name, then `Option<T>`, `Result<T, E>`, `Vec<T>`, `HashMap<K, V>`;
/// anything else is an unresolved name.
pub open spec fn rust_type(s: Seq<char>) -> TypeModel
    decreases s.len(),
{
    let t = trim(s);
    proof {
        lemma_trim_piece(s);
    }
    if t == "bool"@ {
        TypeModel::Primitive(PrimitiveType::Bool)
    } else if t == "i8"@ {
        TypeModel::Primitive(PrimitiveType::Int8)
    } else if t == "i16"@ {
        TypeModel::Primitive(PrimitiveType::Int16)
    } else if t == "i32"@ {
        TypeModel::Primitive(PrimitiveType::Int32)
    } else if t == "i64"@ {
        TypeModel::Primitive(PrimitiveType::Int64)
    } else if t == "u8"@ {
        TypeModel::Primitive(PrimitiveType::Uint8)
    } else if t == "u16"@ {
        TypeModel::Primitive(PrimitiveType::Uint16)
    } else if t == "u32"@ {
        TypeModel::Primitive(PrimitiveType::Uint32)
    } else if t == "u64"@ {
        TypeModel::Primitive(PrimitiveType::Uint64)
    } else if t == "f32"@ {
        TypeModel::Primitive(PrimitiveType::Float32)
    } else if t == "f64"@ {
        TypeModel::Primitive(PrimitiveType::Float64)
    } else if t == "String"@ || t == "&str"@ || t == "str"@ {
        TypeModel::Primitive(PrimitiveType::String)
    } else if t == "()"@ {
        TypeModel::Unit
    } else if wrapped(t, "Option<"@, '>') is Some {
        TypeModel::Optional(Box::new(rust_type(wrapped(t, "Option<"@, '>')->0)))
    } else if wrapped(t, "Result<"@, '>') is Some && split_top(wrapped(t, "Result<"@, '>')->0, false) is Some {
        let inner = wrapped(t, "Result<"@, '>')->0;
        proof {
            lemma_split_top_shorter(inner, false);
        }
        let (ok, err) = split_top(inner, false)->0;
        TypeModel::Result(Box::new(rust_type(ok)), Box::new(rust_type(err)))
    } else if wrapped(t, "Vec<"@, '>') is Some {
        TypeModel::Array(Box::new(rust_type(wrapped(t, "Vec<"@, '>')->0)))
    } else if wrapped(t, "HashMap<"@, '>') is Some && split_top(wrapped(t, "HashMap<"@, '>')->0, false) is Some {
        let inner = wrapped(t, "HashMap<"@, '>')->0;
        proof {
            lemma_split_top_shorter(inner, false);
        }
        let (k, v) = split_top(inner, false)->0;
        TypeModel::MapType(Box::new(rust_type(k)), Box::new(rust_type(v)))
    } else {
        TypeModel::Unresolved(t)
    }
}

/// Whether `t` is the text `w`.
fn is_word(t: &Vec<char>, w: &str) -> (r: bool)
    ensures
        r == (t@ == w@),
{
    eq_chars(t, &lit(w))
}

fn rust_type_chars(s: &[char]) -> (r: TypeRef)
    ensures
        r@ == rust_type(s@),
    decreases s@.len(),
{
    let t = trim_exec(s);
    proof {
        lemma_trim_piece(s@);
    }
    if is_word(&t, "bool") {
        return prim(PrimitiveType::Bool);
    }
    if is_word(&t, "i8") {
        return prim(PrimitiveType::Int8);
    }
    if is_word(&t, "i16") {
        return prim(PrimitiveType::Int16);
    }
    if is_word(&t, "i32") {
        return prim(PrimitiveType::Int32);
    }
    if is_word(&t, "i64") {
        return prim(PrimitiveType::Int64);
    }
    if is_word(&t, "u8") {
        return prim(PrimitiveType::Uint8);
    }
    if is_word(&t, "u16") {
        return prim(PrimitiveType::Uint16);
    }
    if is_word(&t, "u32") {
        return prim(PrimitiveType::Uint32);
    }
    if is_word(&t, "u64") {
        return prim(PrimitiveType::Uint64);
    }
    if is_word(&t, "f32") {
        return prim(PrimitiveType::Float32);
    }
    if is_word(&t, "f64") {
        return prim(PrimitiveType::Float64);
    }
    if is_word(&t, "String") || is_word(&t, "&str") || is_word(&t, "str") {
        return prim(PrimitiveType::String);
    }
    if is_word(&t, "()") {
        return TypeRef::Resolved(ResolvedType::Unit);
    }
    if let Some(inner) = wrapped_exec(&t, &lit("Option<"), '>') {
        return TypeRef::Resolved(ResolvedType::Optional(Box::new(rust_type_chars(&inner))));
    }
    if let Some(inner) = wrapped_exec(&t, &lit("Result<"), '>') {
        proof {
            lemma_split_top_shorter(inner@, false);
        }
        if let Some((ok, err)) = split_top_exec(&inner, false) {
            return TypeRef::Resolved(
                ResolvedType::Result {
                    ok: Box::new(rust_type_chars(&ok)),
                    err: Box::new(rust_type_chars(&err)),
                },
            );
        }
    }
    if let Some(inner) = wrapped_exec(&t, &lit("Vec<"), '>') {
        return TypeRef::Resolved(ResolvedType::Array(Box::new(rust_type_chars(&inner))));
    }
    if let Some(inner) = wrapped_exec(&t, &lit("HashMap<"), '>') {
        proof {
            lemma_split_top_shorter(inner@, false);
        }
        if let Some((k, v)) = split_top_exec(&inner, false) {
            return TypeRef::Resolved(
                ResolvedType::MapType {
                    key: Box::new(rust_type_chars(&k)),
                    value: Box::new(rust_type_chars(&v)),
                },
            );
        }
    }
    TypeRef::Unresolved(string_of(&t))
}

/// The type a Rust type annotation denotes (see `rust_type`).
pub fn parse_type_str(s: &str) -> (r: TypeRef)
    ensures
        r@ == rust_type(s@),
{
    rust_type_chars(&chars_of(s))
}

/// Split `"A, B"` at the first comma outside angle brackets, both sides
/// trimmed.
pub fn split_generic_args(s: &str) -> (r: Option<(String, String)>)
    ensures
        match r {
            Some((a, b)) => split_top(s@, false) == Some((a@, b@)),
            None => split_top(s@, false) is None,
        },
{
    match split_top_exec(&chars_of(s), false) {
        Some((a, b)) => Some((string_of(&a), string_of(&b))),
        None => None,
    }
}


/// What a `use` declaration's text gives: `use a::b::C;` gives module
/// `a::b` and symbol `C`; `use a::*;` a wildcard import of `a`;
/// `use a::{B, C};` module `a` and symbols `B`, `C`.
pub open spec fn rust_use(text: Seq<char>) -> Option<(Seq<char>, Seq<Seq<char>>, bool)> {
    if !starts_with(text, seq!['u', 's', 'e', ' ']) {
        None
    } else {
        let path = trim(strip_set_end(text.skip(4), seq![';'], false));
        let segs = split(path, seq![':', ':']);
        let last = segs.last();
        let wild = last == seq!['*'];
        let module = join(segs.drop_last(), seq![':', ':']);
        let syms = if wild {
            Seq::empty()
        } else if starts_with(last, seq!['{']) {
            split(strip_set(last, seq!['{', '}'], false), seq![',']).map_values(|p: Seq<char>| trim(p))
        } else {
            seq![last]
        };
        Some((module, syms, wild))
    }
}

/// The import a `use` declaration's text gives (see `rust_use`).
pub fn parse_use_text(text: &str) -> (r: Option<ImportRef>)
    ensures
        match r {
            Some(i) => rust_use(text@) == Some(import_view(i)),
            None => rust_use(text@) is None,
        },
{
    let t = chars_of(text);
    let n = t.len();
    let mut use_kw: Vec<char> = Vec::new();
    use_kw.push('u');
    use_kw.push('s');
    use_kw.push('e');
    use_kw.push(' ');
    proof {
        assert(use_kw@ =~= seq!['u', 's', 'e', ' ']);
    }
    if !starts_with_exec(&t, &use_kw) {
        return None;
    }
    let mut semi: Vec<char> = Vec::new();
    semi.push(';');
    let mut colons: Vec<char> = Vec::new();
    colons.push(':');
    colons.push(':');
    proof {
        assert(semi@ =~= seq![';']);
        assert(colons@ =~= seq![':', ':']);
    }
    let rest = slice_chars(&t, 4, n);
    proof {
        assert(rest@ =~= t@.skip(4));
    }
    let path = trim_exec(&strip_set_exec_end(&rest, &semi));
    let segs = split_exec(&path, &colons);
    proof {
        crate::typeparse::lemma_split_pieces(path@, colons@);
    }
    let k = segs.len() - 1;
    let last = slice_chars(&segs[k], 0, segs[k].len());
    proof {
        assert(last@ =~= segs@[k as int]@);
        assert(vviews(segs@)[k as int] == segs@[k as int]@);
    }
    let wild = last.len() == 1 && last[0] == '*';
    proof {
        if wild {
            assert(last@ =~= seq!['*']);
        }
    }
    let mut front: Vec<Vec<char>> = Vec::new();
    let mut i: usize = 0;
    while i < k
        invariant
            k + 1 == segs@.len(),
            i <= k,
            vviews(front@) == vviews(segs@).take(i as int),
        decreases k - i,
    {
        let piece = slice_chars(&segs[i], 0, segs[i].len());
        let ghost before = front@;
        front.push(piece);
        proof {
            assert(piece@ =~= segs@[i as int]@);
            assert(vviews(front@) =~= vviews(before).push(piece@));
            assert(vviews(segs@).take(i + 1) =~= vviews(segs@).take(i as int).push(segs@[i as int]@));
        }
        i = i + 1;
    }
    proof {
        assert(vviews(segs@).take(k as int) =~= vviews(segs@).drop_last());
    }
    let module = join_strings(&strings_of(&front), "::");
    proof {
        reveal_strlit("::");
        assert("::"@ =~= seq![':', ':']);
    }
    let mut brace: Vec<char> = Vec::new();
    brace.push('{');
    proof {
        assert(brace@ =~= seq!['{']);
    }
    let symbols = if wild {
        let v: Vec<String> = Vec::new();
        proof {
            assert(views(v@) =~= Seq::<Seq<char>>::empty());
        }
        v
    } else if starts_with_exec(&last, &brace) {
        let mut braces: Vec<char> = Vec::new();
        braces.push('{');
        braces.push('}');
        let mut comma: Vec<char> = Vec::new();
        comma.push(',');
        proof {
            assert(braces@ =~= seq!['{', '}']);
            assert(comma@ =~= seq![',']);
        }
        let pieces = split_exec(&strip_set_exec(&last, &braces, false), &comma);
        let mut out: Vec<String> = Vec::new();
        let mut j: usize = 0;
        while j < pieces.len()
            invariant
                j <= pieces@.len(),
                views(out@) == vviews(pieces@).take(j as int).map_values(|p: Seq<char>| trim(p)),
            decreases pieces@.len() - j,
        {
            let x = trim_exec(&pieces[j]);
            let ghost before = out@;
            out.push(string_of(&x));
            proof {
                assert(vviews(pieces@)[j as int] == pieces@[j as int]@);
                assert(views(out@) =~= vviews(pieces@).take(j + 1).map_values(|p: Seq<char>| trim(p))) by {
                    assert(views(out@) =~= views(before).push(x@));
                }
            }
            j = j + 1;
        }
        proof {
            assert(vviews(pieces@).take(pieces@.len() as int) =~= vviews(pieces@));
        }
        out
    } else {
        let mut v: Vec<String> = Vec::new();
        v.push(string_of(&last));
        proof {
            assert(views(v@) =~= seq![last@]);
        }
        v
    };
    Some(ImportRef { source_module: module, symbols, is_wildcard: wild })
}


/// The imports that a list of top-level nodes holds: each
/// `use_declaration` with text that gives an import, in order.
pub open spec fn rust_imports(nodes: Seq<(Seq<char>, Option<Seq<char>>)>) -> Seq<(Seq<char>, Seq<Seq<char>>, bool)>
    decreases nodes.len(),
{
    if nodes.len() == 0 {
        Seq::empty()
    } else {
        let rest = rust_imports(nodes.drop_last());
        let (kind, text) = nodes.last();
        if kind == "use_declaration"@ && text is Some && rust_use(text->0) is Some {
            rest.push(rust_use(text->0)->0)
        } else {
            rest
        }
    }
}

/// The imports that top-level nodes hold (see `rust_imports`).
pub fn imports_from_nodes(nodes: &Vec<(String, Option<String>)>) -> (r: Vec<ImportRef>)
    ensures
        imports_view(r@) == rust_imports(node_list(nodes@)),
{
    let mut out: Vec<ImportRef> = Vec::new();
    let mut i: usize = 0;
    while i < nodes.len()
        invariant
            i <= nodes@.len(),
            imports_view(out@) == rust_imports(node_list(nodes@).take(i as int)),
        decreases nodes@.len() - i,
    {
        let ghost nl = node_list(nodes@);
        proof {
            assert(nl.take(i + 1).drop_last() =~= nl.take(i as int));
            assert(nl.take(i + 1).last() == nl[i as int]);
        }
        let kind = chars_of(nodes[i].0.as_str());
        if eq_chars(&kind, &lit("use_declaration")) {
            match &nodes[i].1 {
                Some(text) => {
                    match parse_use_text(text.as_str()) {
                        Some(imp) => {
                            let ghost before = out@;
                            out.push(imp);
                            proof {
                                assert(imports_view(out@) =~= imports_view(before).push(import_view(imp)));
                            }
                        },
                        None => {},
                    }
                },
                None => {},
            }
        }
        i = i + 1;
    }
    proof {
        assert(node_list(nodes@).take(nodes@.len() as int) =~= node_list(nodes@));
    }
    out
}

/// The Rust source parser.
pub struct RustParser {}

impl RustParser {
    pub fn new() -> (r: Self) {
        RustParser {}
    }

    /// Parses a Rust source file into IR nodes and edges: the tree that
    /// tree-sitter's Rust grammar gives, read as `rs_file` says; an error
    /// exactly when the source does not parse into a tree.
    pub fn parse(&self, path: &str, source: &[u8], next: &mut u64) -> (r: Result<crate::frontend::ParseResult, String>)
        ensures
            r matches Ok(pr) ==> exists|t: crate::syntax::SyntaxNode| {
                &&& crate::syntax::rust_syntax(source@) == Some(crate::syntax::walk_of(t))
                &&& crate::extract::nodes_model(pr.nodes@) == crate::rsparse::rs_file(t, path@, source@, *old(next)).nodes
                &&& crate::extract::edges_model(pr.edges@) == crate::rsparse::rs_file(t, path@, source@, *old(next)).edges
                &&& *final(next) == crate::rsparse::rs_file(t, path@, source@, *old(next)).next_id
            },
            r is Err ==> *final(next) == *old(next),
            r is Err <==> !crate::syntax::parses(crate::syntax::Grammar::Rust, source@),
    {
        match crate::syntax::parse_syntax(crate::syntax::Grammar::Rust, source) {
            Ok(t) => Ok(crate::rsparse::extract_rust(&t, path, source, next)),
            Err(_) => Err(String::from_str("tree-sitter failed to parse")),
        }
    }

    /// The imports of Rust source: its top-level `use` declarations, in
    /// order; an error when the source cannot be parsed.
    pub fn extract_imports(&self, source: &[u8]) -> (r: Result<Vec<ImportRef>, String>)
        ensures
            match r {
                Ok(v) => exists|t: crate::syntax::SyntaxNode| crate::syntax::rust_syntax(source@) == Some(crate::syntax::walk_of(t)) && imports_view(v@) == rust_imports(crate::syntax::top_level(t, source@)),
                Err(_) => !crate::syntax::parses(crate::syntax::Grammar::Rust, source@),
            },
    {
        match crate::syntax::parse_syntax(crate::syntax::Grammar::Rust, source) {
        Ok(t) => Ok(imports_from_nodes(&crate::syntax::top_level_nodes(&t, source))),
        Err(_) => Err(String::from_str("tree-sitter failed to parse")),
    }
    }
}

} // verus!
