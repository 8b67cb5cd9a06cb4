//! The three language frontends: Python, Rust and TypeScript.

use vstd::prelude::*;
use crate::frontend::{imports_view, ImportRef, LanguageFrontend, ParseResult};
use crate::syntax::{Grammar, SyntaxNode};
use crate::python::py_imports;
use crate::rustlang::{rust_imports, RustParser};
use crate::text::views;
use crate::typescript::ts_imports;

verus! {

/// The grammar a TypeScript-family file is parsed with: TSX for `.tsx` and
/// `.jsx` files, TypeScript otherwise.
pub open spec fn ts_grammar(path: Seq<char>) -> Grammar {
    if crate::fixgen::path_extension(path) == Some("tsx"@) || crate::fixgen::path_extension(path) == Some("jsx"@) {
        Grammar::Tsx
    } else {
        Grammar::TypeScript
    }
}

/// The Python frontend.
pub struct PythonFrontend;

impl PythonFrontend {
    pub fn new() -> (r: Self) {
        PythonFrontend
    }
}

impl LanguageFrontend for PythonFrontend {
    fn name(&self) -> (r: String)
        ensures
            r@ == "Python"@,
    {
        String::from_str("Python")
    }

    fn extensions(&self) -> (r: Vec<String>)
        ensures
            views(r@) == seq!["py"@, "pyi"@],
    {
        let r = vec![String::from_str("py"), String::from_str("pyi")];
        proof {
            assert(views(r@) =~= seq!["py"@, "pyi"@]);
        }
        r
    }

    fn parse_file(&self, path: &str, source: &[u8], next: &mut u64) -> (r: Result<ParseResult, String>)
        ensures
            r matches Ok(pr) ==> exists|t: SyntaxNode| {
                &&& crate::syntax::python_syntax(source@) == Some(crate::syntax::walk_of(t))
                &&& crate::extract::nodes_model(pr.nodes@) == crate::pyparse::py_file(t, path@, source@, *old(next)).nodes
                &&& crate::extract::edges_model(pr.edges@) == crate::pyparse::py_file(t, path@, source@, *old(next)).edges
                &&& *final(next) == crate::pyparse::py_file(t, path@, source@, *old(next)).next_id
            },
            r is Err <==> !crate::syntax::parses(Grammar::Python, source@),
    {
        crate::pyparse::parse(path, source, next)
    }

    fn extract_imports(&self, source: &[u8]) -> (r: Result<Vec<ImportRef>, String>)
        ensures
            match r {
                Ok(v) => exists|t: crate::syntax::SyntaxNode| crate::syntax::python_syntax(source@) == Some(crate::syntax::walk_of(t)) && imports_view(v@) == py_imports(crate::syntax::top_level(t, source@)),
                Err(_) => !crate::syntax::parses(crate::syntax::Grammar::Python, source@),
            },
    {
        crate::python::extract_imports(source)
    }
}

/// The Rust frontend.
pub struct RustFrontend {
    parser: RustParser,
}

impl RustFrontend {
    pub fn new() -> (r: Self) {
        RustFrontend { parser: RustParser::new() }
    }
}

impl LanguageFrontend for RustFrontend {
    fn name(&self) -> (r: String)
        ensures
            r@ == "Rust"@,
    {
        String::from_str("Rust")
    }

    fn extensions(&self) -> (r: Vec<String>)
        ensures
            views(r@) == seq!["rs"@],
    {
        let r = vec![String::from_str("rs")];
        proof {
            assert(views(r@) =~= seq!["rs"@]);
        }
        r
    }

    fn parse_file(&self, path: &str, source: &[u8], next: &mut u64) -> (r: Result<ParseResult, String>)
        ensures
            r matches Ok(pr) ==> exists|t: SyntaxNode| {
                &&& crate::syntax::rust_syntax(source@) == Some(crate::syntax::walk_of(t))
                &&& crate::extract::nodes_model(pr.nodes@) == crate::rsparse::rs_file(t, path@, source@, *old(next)).nodes
                &&& crate::extract::edges_model(pr.edges@) == crate::rsparse::rs_file(t, path@, source@, *old(next)).edges
                &&& *final(next) == crate::rsparse::rs_file(t, path@, source@, *old(next)).next_id
            },
            r is Err <==> !crate::syntax::parses(Grammar::Rust, source@),
    {
        self.parser.parse(path, source, next)
    }

    fn extract_imports(&self, source: &[u8]) -> (r: Result<Vec<ImportRef>, String>)
        ensures
            match r {
                Ok(v) => exists|t: crate::syntax::SyntaxNode| crate::syntax::rust_syntax(source@) == Some(crate::syntax::walk_of(t)) && imports_view(v@) == rust_imports(crate::syntax::top_level(t, source@)),
                Err(_) => !crate::syntax::parses(crate::syntax::Grammar::Rust, source@),
            },
    {
        self.parser.extract_imports(source)
    }
}

/// The TypeScript frontend.
pub struct TypeScriptFrontend;

impl TypeScriptFrontend {
    pub fn new() -> (r: Self) {
        TypeScriptFrontend
    }
}

impl LanguageFrontend for TypeScriptFrontend {
    fn name(&self) -> (r: String)
        ensures
            r@ == "TypeScript"@,
    {
        String::from_str("TypeScript")
    }

    fn extensions(&self) -> (r: Vec<String>)
        ensures
            views(r@) == seq!["ts"@, "tsx"@, "js"@, "jsx"@, "mts"@, "mjs"@],
    {
        let r = vec![
            String::from_str("ts"),
            String::from_str("tsx"),
            String::from_str("js"),
            String::from_str("jsx"),
            String::from_str("mts"),
            String::from_str("mjs"),
        ];
        proof {
            assert(views(r@) =~= seq!["ts"@, "tsx"@, "js"@, "jsx"@, "mts"@, "mjs"@]);
        }
        r
    }

    fn parse_file(&self, path: &str, source: &[u8], next: &mut u64) -> (r: Result<ParseResult, String>)
        ensures
            r matches Ok(pr) ==> exists|t: SyntaxNode| {
                &&& crate::syntax::syntax_walk(ts_grammar(path@), source@) == Some(crate::syntax::walk_of(t))
                &&& crate::extract::nodes_model(pr.nodes@) == crate::tsparse::ts_file(t, path@, source@, *old(next)).nodes
                &&& crate::extract::edges_model(pr.edges@) == crate::tsparse::ts_file(t, path@, source@, *old(next)).edges
                &&& *final(next) == crate::tsparse::ts_file(t, path@, source@, *old(next)).next_id
            },
            r is Err <==> !crate::syntax::parses(ts_grammar(path@), source@),
    {
        let is_tsx = match crate::fixgen::file_extension(path) {
            Some(e) => crate::text::str_eq(&e, crate::text::lit("tsx").as_slice()) || crate::text::str_eq(&e, crate::text::lit("jsx").as_slice()),
            None => false,
        };
        crate::tsparse::parse(path, source, is_tsx, next)
    }

    fn extract_imports(&self, source: &[u8]) -> (r: Result<Vec<ImportRef>, String>)
        ensures
            match r {
                Ok(v) => exists|t: crate::syntax::SyntaxNode| crate::syntax::typescript_syntax(source@) == Some(crate::syntax::walk_of(t)) && imports_view(v@) == ts_imports(crate::syntax::top_level(t, source@)),
                Err(_) => !crate::syntax::parses(crate::syntax::Grammar::TypeScript, source@),
            },
    {
        crate::typescript::extract_imports(source)
    }
}

} // verus!
