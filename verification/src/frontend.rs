//! What the language frontends have in common: the parse result, import
//! references, and the text operations their import parsers use.

use vstd::prelude::*;
use crate::edge::UsirEdge;
use crate::node::UsirNode;
use crate::text::{
    is_whitespace, is_ws, slice_chars, split, split_exec, starts_with, starts_with_exec, string_of,
    trim, trim_exec, views, vviews,
};

verus! {

/// Result of parsing a single file.
pub struct ParseResult {
    pub nodes: Vec<UsirNode>,
    pub edges: Vec<UsirEdge>,
}

/// What every language frontend offers.
pub trait LanguageFrontend {
    /// Display name (e.g., "Rust", "TypeScript").
    fn name(&self) -> String;

    /// Supported file extensions (e.g., `rs`; `ts` and `tsx`).
    fn extensions(&self) -> Vec<String>;

    /// Parses a file into IR nodes and edges, handing out node ids from
    /// `*next`.
    fn parse_file(&self, path: &str, source: &[u8], next: &mut u64) -> Result<ParseResult, String>;

    /// Cross-file references of a source file, for dependency resolution.
    fn extract_imports(&self, source: &[u8]) -> Result<Vec<ImportRef>, String>;
}

/// The frontends to activate for a project: every compiled-in one, Rust,
/// TypeScript and Python, in that order.
pub fn detect_frontends(project_root: &str) -> (r: Vec<Box<dyn LanguageFrontend>>)
    ensures
        r@.len() == 3,
{
    let r: Vec<Box<dyn LanguageFrontend>> = vec![
        Box::new(crate::frontends::RustFrontend::new()),
        Box::new(crate::frontends::TypeScriptFrontend::new()),
        Box::new(crate::frontends::PythonFrontend::new()),
    ];
    r
}

/// A reference to an imported symbol.
#[derive(Debug, Clone, PartialEq, Eq)]
pub struct ImportRef {
    pub source_module: String,
    pub symbols: Vec<String>,
    pub is_wildcard: bool,
}

/// An import reference as plain values: module, symbols, wildcard flag.
pub open spec fn import_view(i: ImportRef) -> (Seq<char>, Seq<Seq<char>>, bool) {
    (i.source_module@, views(i.symbols@), i.is_wildcard)
}

/// The import references as plain values.
pub open spec fn imports_view(v: Seq<ImportRef>) -> Seq<(Seq<char>, Seq<Seq<char>>, bool)> {
    v.map_values(|i: ImportRef| import_view(i))
}

/// `s` without every leading copy of the non-empty `p`
/// (`trim_start_matches` with a string pattern).
pub open spec fn strip_all_prefix(s: Seq<char>, p: Seq<char>) -> Seq<char>
    decreases s.len(),
{
    if p.len() > 0 && starts_with(s, p) {
        strip_all_prefix(s.skip(p.len() as int), p)
    } else {
        s
    }
}

/// Whether `c` is in `set`, or whitespace when `ws`.
pub open spec fn in_set(c: char, set: Seq<char>, ws: bool) -> bool {
    set.contains(c) || (ws && is_ws(c))
}

/// `s` without leading characters in the set.
pub open spec fn strip_set_start(s: Seq<char>, set: Seq<char>, ws: bool) -> Seq<char>
    decreases s.len(),
{
    if s.len() > 0 && in_set(s[0], set, ws) {
        strip_set_start(s.drop_first(), set, ws)
    } else {
        s
    }
}

/// `s` without trailing characters in the set.
pub open spec fn strip_set_end(s: Seq<char>, set: Seq<char>, ws: bool) -> Seq<char>
    decreases s.len(),
{
    if s.len() > 0 && in_set(s.last(), set, ws) {
        strip_set_end(s.drop_last(), set, ws)
    } else {
        s
    }
}

/// `s` without leading and trailing characters in the set (`trim_matches`
/// with a character predicate).
pub open spec fn strip_set(s: Seq<char>, set: Seq<char>, ws: bool) -> Seq<char> {
    strip_set_start(strip_set_end(s, set, ws), set, ws)
}

/// The part of `s` before the first ` as ` (the whole when there is none).
pub open spec fn before_as(s: Seq<char>) -> Seq<char> {
    split(s, " as "@)[0]
}

/// The symbols of an import list: each piece trimmed, cut at ` as `,
/// trimmed again; empty ones dropped.
pub open spec fn symbol_list(pieces: Seq<Seq<char>>) -> Seq<Seq<char>>
    decreases pieces.len(),
{
    if pieces.len() == 0 {
        Seq::empty()
    } else {
        let rest = symbol_list(pieces.drop_last());
        let x = trim(before_as(trim(pieces.last())));
        if x.len() > 0 {
            rest.push(x)
        } else {
            rest
        }
    }
}

/// `s` without every leading copy of the non-empty `p`.
pub fn strip_all_prefix_exec(s: &[char], p: &[char]) -> (r: Vec<char>)
    ensures
        r@ == strip_all_prefix(s@, p@),
{
    let mut i: usize = 0;
    proof {
        assert(s@.skip(0) =~= s@);
    }
    loop
        invariant
            i <= s@.len(),
            strip_all_prefix(s@, p@) == strip_all_prefix(s@.skip(i as int), p@),
        decreases s@.len() - i,
    {
        let rest = slice_chars(s, i, s.len());
        proof {
            assert(rest@ =~= s@.skip(i as int));
        }
        if p.len() > 0 && starts_with_exec(&rest, p) {
            proof {
                assert(s@.skip(i as int).skip(p@.len() as int) =~= s@.skip(i + p@.len()));
            }
            i = i + p.len();
        } else {
            return rest;
        }
    }
}

/// Whether `c` is in `set`, or whitespace when `ws`.
fn in_set_exec(c: char, set: &[char], ws: bool) -> (r: bool)
    ensures
        r == in_set(c, set@, ws),
{
    let mut i: usize = 0;
    while i < set.len()
        invariant
            i <= set@.len(),
            forall|j: int| 0 <= j < i ==> set@[j] != c,
        decreases set@.len() - i,
    {
        if set[i] == c {
            proof {
                assert(set@[i as int] == c);
            }
            return true;
        }
        i = i + 1;
    }
    ws && is_whitespace(c)
}

/// `s` without leading and trailing characters in the set.
pub fn strip_set_exec(s: &[char], set: &[char], ws: bool) -> (r: Vec<char>)
    ensures
        r@ == strip_set(s@, set@, ws),
{
    let mut b: usize = s.len();
    proof {
        assert(s@.take(b as int) =~= s@);
    }
    while b > 0 && in_set_exec(s[b - 1], set, ws)
        invariant
            b <= s@.len(),
            strip_set_end(s@, set@, ws) == strip_set_end(s@.take(b as int), set@, ws),
        decreases b,
    {
        proof {
            assert(s@.take(b as int).drop_last() =~= s@.take(b - 1));
        }
        b = b - 1;
    }
    let mut a: usize = 0;
    proof {
        assert(s@.take(b as int).subrange(0, b as int) =~= s@.take(b as int));
    }
    while a < b && in_set_exec(s[a], set, ws)
        invariant
            a <= b <= s@.len(),
            strip_set_end(s@, set@, ws) == s@.take(b as int),
            strip_set(s@, set@, ws) == strip_set_start(s@.subrange(a as int, b as int), set@, ws),
        decreases b - a,
    {
        proof {
            assert(s@.subrange(a as int, b as int).drop_first() =~= s@.subrange(a + 1, b as int));
        }
        a = a + 1;
    }
    slice_chars(s, a, b)
}

/// The part of `s` before the first ` as `.
pub(crate) fn before_as_exec(s: &Vec<char>) -> (r: Vec<char>)
    ensures
        r@ == before_as(s@),
{
    let sep = crate::text::lit(" as ");
    let pieces = split_exec(s, &sep);
    proof {
        reveal_strlit(" as ");
        assert(sep@.len() == 4);
        crate::typeparse::lemma_split_pieces(s@, sep@);
        assert(vviews(pieces@)[0] == pieces@[0]@);
    }
    let mut out: Vec<char> = Vec::new();
    let mut i: usize = 0;
    while i < pieces[0].len()
        invariant
            pieces@.len() >= 1,
            i <= pieces@[0]@.len(),
            out@ == pieces@[0]@.take(i as int),
        decreases pieces@[0]@.len() - i,
    {
        out.push(pieces[0][i]);
        proof {
            assert(out@ =~= pieces@[0]@.take(i + 1));
        }
        i = i + 1;
    }
    proof {
        assert(pieces@[0]@.take(pieces@[0]@.len() as int) =~= pieces@[0]@);
    }
    out
}

/// The symbols of an import list (see `symbol_list`).
pub fn symbol_list_exec(pieces: &Vec<Vec<char>>) -> (r: Vec<String>)
    ensures
        views(r@) == symbol_list(vviews(pieces@)),
{
    let mut out: Vec<String> = Vec::new();
    let mut i: usize = 0;
    while i < pieces.len()
        invariant
            i <= pieces@.len(),
            views(out@) == symbol_list(vviews(pieces@).take(i as int)),
        decreases pieces@.len() - i,
    {
        let ghost pv = vviews(pieces@);
        proof {
            assert(pv.take(i + 1).drop_last() =~= pv.take(i as int));
            assert(pv.take(i + 1).last() == pieces@[i as int]@);
        }
        let x = trim_exec(&before_as_exec(&trim_exec(&pieces[i])));
        if x.len() > 0 {
            let ghost before = out@;
            out.push(string_of(&x));
            proof {
                assert(views(out@) =~= views(before).push(x@));
            }
        }
        i = i + 1;
    }
    proof {
        assert(vviews(pieces@).take(pieces@.len() as int) =~= vviews(pieces@));
    }
    out
}

/// Strings from character vectors.
pub fn strings_of(v: &Vec<Vec<char>>) -> (r: Vec<String>)
    ensures
        views(r@) == vviews(v@),
{
    let mut out: Vec<String> = Vec::new();
    let mut i: usize = 0;
    while i < v.len()
        invariant
            i <= v@.len(),
            views(out@) == vviews(v@).take(i as int),
        decreases v@.len() - i,
    {
        let ghost before = out@;
        out.push(string_of(&v[i]));
        proof {
            assert(views(out@) =~= views(before).push(v@[i as int]@));
            assert(vviews(v@).take(i + 1) =~= vviews(v@).take(i as int).push(v@[i as int]@));
        }
        i = i + 1;
    }
    proof {
        assert(vviews(v@).take(v@.len() as int) =~= vviews(v@));
    }
    out
}


/// `s` without trailing characters in `set`.
pub fn strip_set_exec_end(s: &Vec<char>, set: &Vec<char>) -> (r: Vec<char>)
    ensures
        r@ == strip_set_end(s@, set@, false),
{
    let mut b: usize = s.len();
    proof {
        assert(s@.take(b as int) =~= s@);
    }
    while b > 0 && in_set_exec(s[b - 1], set, false)
        invariant
            b <= s@.len(),
            strip_set_end(s@, set@, false) == strip_set_end(s@.take(b as int), set@, false),
        decreases b,
    {
        proof {
            assert(s@.take(b as int).drop_last() =~= s@.take(b - 1));
        }
        b = b - 1;
    }
    slice_chars(s, 0, b)
}

} // verus!
