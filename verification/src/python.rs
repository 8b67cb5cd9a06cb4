//! The Python frontend's text logic: type annotations and imports.

use vstd::prelude::*;
use crate::frontend::{
    before_as, import_view, imports_view, strip_all_prefix, strip_all_prefix_exec, strip_set_end, symbol_list,
    symbol_list_exec, ImportRef,
};
use crate::text::{
    chars_of, contains, contains_exec, eq_chars, lit, split, split_exec, splitn, splitn_exec, starts_with,
    starts_with_exec, string_of, trim, trim_exec, views, vviews,
};
use crate::typeparse::{
    lemma_split_pieces, lemma_split_top_shorter, lemma_trim_piece, split_top, split_top_exec, wrapped,
    wrapped_exec,
};
use crate::types::{lemma_tmodels_push, prim, tmodels, PrimitiveType, ResolvedType, TypeModel, TypeRef};

verus! {

/// The inside of `t` when it is `prefix[...]` (`strip_generic`).
pub open spec fn generic_inner(t: Seq<char>, prefix: Seq<char>) -> Option<Seq<char>> {
    wrapped(t, prefix.push('['), ']')
}

/// Of two pieces, the only one that is not `word`, if exactly one is not.
pub open spec fn lone_other(parts: Seq<Seq<char>>, word: Seq<char>) -> Option<Seq<char>> {
    if parts.len() == 2 && parts[0] != word && parts[1] == word {
        Some(parts[0])
    } else if parts.len() == 2 && parts[0] == word && parts[1] != word {
        Some(parts[1])
    } else {
        None
    }
}

/// The trimmed pieces of `s` split at `sep`.
pub open spec fn trimmed_pieces(s: Seq<char>, sep: char) -> Seq<Seq<char>> {
    split(s, seq![sep]).map_values(|p: Seq<char>| trim(p))
}

/// The type that a Python annotation denotes: builtin names, then
/// `list[T]`/`List[T]`, `dict[K, V]`/`Dict[K, V]`, `Optional[T]`, unions
/// with `|` (`T | None` being optional), `tuple[...]`/`Tuple[...]`;
/// anything else is an unresolved name.
pub open spec fn py_type(s: Seq<char>) -> TypeModel
    decreases s.len(), 1nat, 0nat,
{
    let t = trim(s);
    proof {
        lemma_trim_piece(s);
    }
    if t == "str"@ {
        TypeModel::Primitive(PrimitiveType::String)
    } else if t == "int"@ {
        TypeModel::Primitive(PrimitiveType::Int64)
    } else if t == "float"@ {
        TypeModel::Primitive(PrimitiveType::Float64)
    } else if t == "bool"@ {
        TypeModel::Primitive(PrimitiveType::Bool)
    } else if t == "bytes"@ {
        TypeModel::Primitive(PrimitiveType::Bytes)
    } else if t == "None"@ {
        TypeModel::Unit
    } else if t == "Any"@ {
        TypeModel::Unknown
    } else if generic_inner(t, "list"@) is Some {
        TypeModel::Array(Box::new(py_type(generic_inner(t, "list"@)->0)))
    } else if generic_inner(t, "List"@) is Some {
        TypeModel::Array(Box::new(py_type(generic_inner(t, "List"@)->0)))
    } else if dict_inner(t) is Some && split_top(dict_inner(t)->0, true) is Some {
        proof {
            lemma_split_top_shorter(dict_inner(t)->0, true);
        }
        let (k, v) = split_top(dict_inner(t)->0, true)->0;
        TypeModel::MapType(Box::new(py_type(k)), Box::new(py_type(v)))
    } else if generic_inner(t, "Optional"@) is Some {
        TypeModel::Optional(Box::new(py_type(generic_inner(t, "Optional"@)->0)))
    } else if contains(t, seq!['|']) {
        let parts = trimmed_pieces(t, '|');
        if lone_other(parts, "None"@) is Some {
            proof {
                lemma_split_pieces(t, seq!['|']);
                let p = split(t, seq!['|']);
                lemma_trim_piece(p[0]);
                lemma_trim_piece(p[1]);
            }
            TypeModel::Optional(Box::new(py_type(lone_other(parts, "None"@)->0)))
        } else {
            TypeModel::Union(py_types(parts, t.len()))
        }
    } else if tuple_inner(t) is Some {
        TypeModel::Tuple(py_types(trimmed_pieces(tuple_inner(t)->0, ','), t.len()))
    } else {
        TypeModel::Unresolved(t)
    }
}

/// The inside of `dict[...]` or `Dict[...]`.
pub open spec fn dict_inner(t: Seq<char>) -> Option<Seq<char>> {
    if generic_inner(t, "dict"@) is Some {
        generic_inner(t, "dict"@)
    } else {
        generic_inner(t, "Dict"@)
    }
}

/// The inside of `tuple[...]` or `Tuple[...]`.
pub open spec fn tuple_inner(t: Seq<char>) -> Option<Seq<char>> {
    if generic_inner(t, "tuple"@) is Some {
        generic_inner(t, "tuple"@)
    } else {
        generic_inner(t, "Tuple"@)
    }
}

/// The types of the pieces, each shorter than `bound`.
pub open spec fn py_types(parts: Seq<Seq<char>>, bound: nat) -> Seq<TypeModel>
    decreases bound, 0nat, parts.len(),
{
    if parts.len() == 0 {
        Seq::empty()
    } else if parts.last().len() >= bound {
        Seq::empty()
    } else {
        py_types(parts.drop_last(), bound).push(py_type(parts.last()))
    }
}

/// `prefix[inner]` gives `inner`.
pub fn strip_generic(s: &str, prefix: &str) -> (r: Option<String>)
    ensures
        match r {
            Some(v) => generic_inner(s@, prefix@) == Some(v@),
            None => generic_inner(s@, prefix@) is None,
        },
{
    let mut pre = chars_of(prefix);
    pre.push('[');
    match wrapped_exec(&chars_of(s), &pre, ']') {
        Some(inner) => Some(string_of(&inner)),
        None => None,
    }
}

/// Split `"A, B"` at the first comma outside `[]` and `<>`, both sides
/// trimmed.
pub fn split_generic(s: &str) -> (r: Option<(String, String)>)
    ensures
        match r {
            Some((a, b)) => split_top(s@, true) == Some((a@, b@)),
            None => split_top(s@, true) is None,
        },
{
    match split_top_exec(&chars_of(s), true) {
        Some((a, b)) => Some((string_of(&a), string_of(&b))),
        None => None,
    }
}

fn generic_inner_exec(t: &Vec<char>, prefix: &str) -> (r: Option<Vec<char>>)
    ensures
        match r {
            Some(v) => generic_inner(t@, prefix@) == Some(v@),
            None => generic_inner(t@, prefix@) is None,
        },
{
    let mut pre = lit(prefix);
    pre.push('[');
    wrapped_exec(t, &pre, ']')
}

/// The trimmed pieces of `s` split at `sep`.
pub(crate) fn trimmed_pieces_exec(s: &Vec<char>, sep: char) -> (r: Vec<Vec<char>>)
    ensures
        vviews(r@) == trimmed_pieces(s@, sep),
{
    let mut sv: Vec<char> = Vec::new();
    sv.push(sep);
    proof {
        assert(sv@ =~= seq![sep]);
    }
    let pieces = split_exec(s, &sv);
    let mut out: Vec<Vec<char>> = Vec::new();
    let mut i: usize = 0;
    while i < pieces.len()
        invariant
            i <= pieces@.len(),
            vviews(pieces@) == split(s@, seq![sep]),
            vviews(out@) == vviews(pieces@).take(i as int).map_values(|p: Seq<char>| trim(p)),
        decreases pieces@.len() - i,
    {
        let ghost before = out@;
        let piece = trim_exec(&pieces[i]);
        out.push(piece);
        proof {
            let want = vviews(pieces@).take(i + 1).map_values(|p: Seq<char>| trim(p));
            assert(vviews(pieces@)[i as int] == pieces@[i as int]@);
            assert(vviews(before).len() == i);
            assert(out@ == before.push(piece));
            assert forall|j: int| 0 <= j < i + 1 implies vviews(out@)[j] == want[j] by {
                if j < i {
                    assert(out@[j] == before[j]);
                    assert(vviews(before)[j] == vviews(pieces@).take(i as int).map_values(|p: Seq<char>| trim(p))[j]);
                }
            }
            assert(vviews(out@) =~= want);
        }
        i = i + 1;
    }
    proof {
        assert(vviews(pieces@).take(pieces@.len() as int) =~= vviews(pieces@));
    }
    out
}

/// The types of the pieces (`py_types`).
fn py_types_exec(parts: &Vec<Vec<char>>, Ghost(bound): Ghost<nat>) -> (r: Vec<TypeRef>)
    requires
        forall|i: int| 0 <= i < parts@.len() ==> (#[trigger] parts@[i])@.len() < bound,
    ensures
        tmodels(r@) == py_types(vviews(parts@), bound),
    decreases bound, 0nat, parts@.len(),
{
    let mut out: Vec<TypeRef> = Vec::new();
    let mut i: usize = 0;
    while i < parts.len()
        invariant
            i <= parts@.len(),
            forall|j: int| 0 <= j < parts@.len() ==> (#[trigger] parts@[j])@.len() < bound,
            tmodels(out@) == py_types(vviews(parts@).take(i as int), bound),
        decreases parts@.len() - i,
    {
        let t = py_type_chars(&parts[i]);
        proof {
            lemma_tmodels_push(out@, t);
            let pv = vviews(parts@);
            assert(pv.take(i + 1).drop_last() =~= pv.take(i as int));
            assert(pv.take(i + 1).last() == parts@[i as int]@);
        }
        out.push(t);
        i = i + 1;
    }
    proof {
        assert(vviews(parts@).take(parts@.len() as int) =~= vviews(parts@));
    }
    out
}

fn is_word(t: &Vec<char>, w: &str) -> (r: bool)
    ensures
        r == (t@ == w@),
{
    crate::text::eq_chars(t, &lit(w))
}

fn py_type_chars(s: &[char]) -> (r: TypeRef)
    ensures
        r@ == py_type(s@),
    decreases s@.len(), 1nat, 0nat,
{
    let t = trim_exec(s);
    proof {
        lemma_trim_piece(s@);
    }
    if is_word(&t, "str") {
        return prim(PrimitiveType::String);
    }
    if is_word(&t, "int") {
        return prim(PrimitiveType::Int64);
    }
    if is_word(&t, "float") {
        return prim(PrimitiveType::Float64);
    }
    if is_word(&t, "bool") {
        return prim(PrimitiveType::Bool);
    }
    if is_word(&t, "bytes") {
        return prim(PrimitiveType::Bytes);
    }
    if is_word(&t, "None") {
        return TypeRef::Resolved(ResolvedType::Unit);
    }
    if is_word(&t, "Any") {
        return TypeRef::Unknown;
    }
    if let Some(inner) = generic_inner_exec(&t, "list") {
        return TypeRef::Resolved(ResolvedType::Array(Box::new(py_type_chars(&inner))));
    }
    if let Some(inner) = generic_inner_exec(&t, "List") {
        return TypeRef::Resolved(ResolvedType::Array(Box::new(py_type_chars(&inner))));
    }
    let dict = match generic_inner_exec(&t, "dict") {
        Some(i) => Some(i),
        None => generic_inner_exec(&t, "Dict"),
    };
    if let Some(inner) = dict {
        proof {
            lemma_split_top_shorter(inner@, true);
        }
        if let Some((k, v)) = split_top_exec(&inner, true) {
            return TypeRef::Resolved(
                ResolvedType::MapType {
                    key: Box::new(py_type_chars(&k)),
                    value: Box::new(py_type_chars(&v)),
                },
            );
        }
    }
    if let Some(inner) = generic_inner_exec(&t, "Optional") {
        return TypeRef::Resolved(ResolvedType::Optional(Box::new(py_type_chars(&inner))));
    }
    let mut bar: Vec<char> = Vec::new();
    bar.push('|');
    proof {
        assert(bar@ =~= seq!['|']);
    }
    if contains_exec(&t, &bar) {
        let parts = trimmed_pieces_exec(&t, '|');
        proof {
            lemma_split_pieces(t@, seq!['|']);
            let p = split(t@, seq!['|']);
            assert forall|i: int| 0 <= i < parts@.len() implies (#[trigger] parts@[i])@.len() < t@.len() by {
                assert(vviews(parts@)[i] == parts@[i]@);
                assert(trimmed_pieces(t@, '|')[i] == trim(p[i]));
                lemma_trim_piece(p[i]);
            }
        }
        if parts.len() == 2 {
            let none = lit("None");
            let a = is_word(&parts[0], "None");
            let b = is_word(&parts[1], "None");
            proof {
                assert(vviews(parts@)[0] == parts@[0]@);
                assert(vviews(parts@)[1] == parts@[1]@);
            }
            if !a && b {
                return TypeRef::Resolved(ResolvedType::Optional(Box::new(py_type_chars(&parts[0]))));
            }
            if a && !b {
                return TypeRef::Resolved(ResolvedType::Optional(Box::new(py_type_chars(&parts[1]))));
            }
        }
        let items = py_types_exec(&parts, Ghost(t@.len()));
        return TypeRef::Resolved(ResolvedType::Union(items));
    }
    let tuple = match generic_inner_exec(&t, "tuple") {
        Some(i) => Some(i),
        None => generic_inner_exec(&t, "Tuple"),
    };
    if let Some(inner) = tuple {
        let parts = trimmed_pieces_exec(&inner, ',');
        proof {
            lemma_split_pieces(inner@, seq![',']);
            let p = split(inner@, seq![',']);
            assert(vviews(parts@) == trimmed_pieces(inner@, ','));
            assert(trimmed_pieces(inner@, ',').len() == p.len());
            assert(vviews(parts@).len() == parts@.len());
            assert forall|i: int| 0 <= i < parts@.len() implies (#[trigger] parts@[i])@.len() < t@.len() by {
                assert(vviews(parts@)[i] == parts@[i]@);
                assert(trimmed_pieces(inner@, ',')[i] == trim(p[i]));
                lemma_trim_piece(p[i]);
            }
        }
        let items = py_types_exec(&parts, Ghost(t@.len()));
        return TypeRef::Resolved(ResolvedType::Tuple(items));
    }
    TypeRef::Unresolved(string_of(&t))
}

/// The type a Python annotation denotes (see `py_type`).
pub fn parse_py_type(s: &str) -> (r: TypeRef)
    ensures
        r@ == py_type(s@),
{
    py_type_chars(&chars_of(s))
}


/// What an import statement's text gives: `from m import a, b as c`
/// gives module `m` and symbols `a`, `b` (`*` making it a wildcard import
/// with no symbols); `import m as n` gives module `m` and symbol `m`.
pub open spec fn py_import(text: Seq<char>) -> Option<(Seq<char>, Seq<Seq<char>>, bool)> {
    if starts_with(text, "from "@) {
        let parts = splitn(text, " import "@, 2);
        if parts.len() == 2 {
            let module = trim(strip_all_prefix(parts[0], "from "@));
            let list = strip_set_end(trim(parts[1]), seq!['\n'], false);
            let wild = list == "*"@;
            let syms = if wild {
                Seq::empty()
            } else {
                symbol_list(split(list, ","@))
            };
            Some((module, syms, wild))
        } else {
            None
        }
    } else if starts_with(text, "import "@) {
        let m = trim(before_as(trim(strip_all_prefix(text, "import "@))));
        Some((m, seq![m], false))
    } else {
        None
    }
}

/// The import a Python import statement's text gives (see `py_import`).
pub fn parse_import_text(text: &str) -> (r: Option<ImportRef>)
    ensures
        match r {
            Some(i) => py_import(text@) == Some(import_view(i)),
            None => py_import(text@) is None,
        },
{
    let t = chars_of(text);
    if starts_with_exec(&t, &lit("from ")) {
        let parts = splitn_exec(&t, &lit(" import "), 2);
        if parts.len() == 2 {
            proof {
                assert(vviews(parts@)[0] == parts@[0]@);
                assert(vviews(parts@)[1] == parts@[1]@);
            }
            let module = trim_exec(&strip_all_prefix_exec(&parts[0], &lit("from ")));
            let mut nl: Vec<char> = Vec::new();
            nl.push('\n');
            proof {
                assert(nl@ =~= seq!['\n']);
            }
            let list = crate::frontend::strip_set_exec_end(&trim_exec(&parts[1]), &nl);
            let wild = eq_chars(&list, &lit("*"));
            let symbols = if wild {
                Vec::new()
            } else {
                symbol_list_exec(&split_exec(&list, &lit(",")))
            };
            proof {
                if wild {
                    assert(views(symbols@) =~= Seq::<Seq<char>>::empty());
                }
            }
            return Some(ImportRef { source_module: string_of(&module), symbols, is_wildcard: wild });
        }
        return None;
    }
    if starts_with_exec(&t, &lit("import ")) {
        let m = trim_exec(&crate::frontend::before_as_exec(&trim_exec(&strip_all_prefix_exec(&t, &lit("import ")))));
        let mut symbols: Vec<String> = Vec::new();
        symbols.push(string_of(&m));
        proof {
            assert(views(symbols@) =~= seq![m@]);
        }
        return Some(ImportRef { source_module: string_of(&m), symbols, is_wildcard: false });
    }
    None
}


/// Top-level nodes as plain values.
pub open spec fn node_list(v: Seq<(String, Option<String>)>) -> Seq<(Seq<char>, Option<Seq<char>>)> {
    v.map_values(
        |p: (String, Option<String>)|
            (
                p.0@,
                match p.1 {
                    Some(t) => Some(t@),
                    None => None,
                },
            ),
    )
}

/// The imports that a list of top-level nodes holds: each
/// `import_statement` or `import_from_statement` with text that gives an
/// import, in order.
pub open spec fn py_imports(nodes: Seq<(Seq<char>, Option<Seq<char>>)>) -> Seq<(Seq<char>, Seq<Seq<char>>, bool)>
    decreases nodes.len(),
{
    if nodes.len() == 0 {
        Seq::empty()
    } else {
        let rest = py_imports(nodes.drop_last());
        let (kind, text) = nodes.last();
        if (kind == "import_statement"@ || kind == "import_from_statement"@) && text is Some && py_import(text->0)
            is Some {
            rest.push(py_import(text->0)->0)
        } else {
            rest
        }
    }
}

/// The imports that top-level nodes hold (see `py_imports`).
pub fn imports_from_nodes(nodes: &Vec<(String, Option<String>)>) -> (r: Vec<ImportRef>)
    ensures
        imports_view(r@) == py_imports(node_list(nodes@)),
{
    let mut out: Vec<ImportRef> = Vec::new();
    let mut i: usize = 0;
    while i < nodes.len()
        invariant
            i <= nodes@.len(),
            imports_view(out@) == py_imports(node_list(nodes@).take(i as int)),
        decreases nodes@.len() - i,
    {
        let ghost nl = node_list(nodes@);
        proof {
            assert(nl.take(i + 1).drop_last() =~= nl.take(i as int));
            assert(nl.take(i + 1).last() == nl[i as int]);
        }
        let kind = chars_of(nodes[i].0.as_str());
        if eq_chars(&kind, &lit("import_statement")) || eq_chars(&kind, &lit("import_from_statement")) {
            match &nodes[i].1 {
                Some(text) => {
                    match parse_import_text(text.as_str()) {
                        Some(imp) => {
                            let ghost before = out@;
                            out.push(imp);
                            proof {
                                assert(imports_view(out@) =~= imports_view(before).push(import_view(imp)));
                            }
                        },
                        None => {},
                    }
                },
                None => {},
            }
        }
        i = i + 1;
    }
    proof {
        assert(node_list(nodes@).take(nodes@.len() as int) =~= node_list(nodes@));
    }
    out
}

/// The imports of Python source: its top-level import statements, in
/// order; an error when the source cannot be parsed.
pub fn extract_imports(source: &[u8]) -> (r: Result<Vec<ImportRef>, String>)
    ensures
        match r {
            Ok(v) => exists|t: crate::syntax::SyntaxNode| crate::syntax::python_syntax(source@) == Some(crate::syntax::walk_of(t)) && imports_view(v@) == py_imports(crate::syntax::top_level(t, source@)),
            Err(_) => !crate::syntax::parses(crate::syntax::Grammar::Python, source@),
        },
{
    match crate::syntax::parse_syntax(crate::syntax::Grammar::Python, source) {
        Ok(t) => Ok(imports_from_nodes(&crate::syntax::top_level_nodes(&t, source))),
        Err(_) => Err(String::from_str("parse failed")),
    }
}

} // verus!
