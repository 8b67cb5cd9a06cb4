//! Project snapshot: the whole project's analysis in one document, for an
//! AI assistant to read.

use vstd::prelude::*;
use crate::json::{member, json_parse, parse_json, get_member, JsonValue};
use crate::text::{chars_of, contains, contains_exec, join, lit, starts_with, starts_with_exec, string_of, views};
use crate::types::{tmodel, tmodels, PrimitiveType, ResolvedType, TypeModel, TypeRef};

verus! {

/// Complete project snapshot.
pub struct Snapshot {
    /// When this snapshot was generated.
    pub generated_at: String,
    /// How long analysis took.
    pub analysis_ms: u64,
    /// Project overview.
    pub project: ProjectOverview,
    /// Every file in the project with its symbols, by path, in path order.
    pub files: Vec<(String, FileInfo)>,
    /// Cross-file dependencies (who calls what).
    pub dependencies: Vec<Dependency>,
    /// Project health indicators.
    pub health: Health,
    /// What the tool offers an assistant (available commands).
    pub capabilities: Vec<Capability>,
    /// Project tooling detected.
    pub tooling: Tooling,
    /// Instructions for the assistant after reading this snapshot.
    pub ai_instructions: AiInstructions,
}

/// The project's own tools.
pub struct Tooling {
    /// Type checker command (e.g., "npx vue-tsc --noEmit", "npx tsc --noEmit").
    pub type_check: Option<String>,
    /// Linter command (e.g., "npx eslint").
    pub linter: Option<String>,
    /// Formatter command (e.g., "npx prettier --write").
    pub formatter: Option<String>,
    /// Test runner command (e.g., "npx vitest run", "pytest").
    pub test_runner: Option<String>,
}

/// Instructions for the assistant.
pub struct AiInstructions {
    /// What to say to the developer after reading the snapshot.
    pub on_ready: String,
    /// How to behave.
    pub behavior: Vec<String>,
}

/// Counts over the whole project.
pub struct ProjectOverview {
    pub languages: Vec<String>,
    pub framework: Option<String>,
    pub total_files: usize,
    pub total_functions: usize,
    pub total_types: usize,
}

/// One file's symbols.
pub struct FileInfo {
    pub language: String,
    pub functions: Vec<FunctionInfo>,
    pub types: Vec<TypeInfo>,
    pub imports: Vec<String>,
}

/// One function.
pub struct FunctionInfo {
    pub name: String,
    pub line: u32,
    pub visibility: String,
    pub params: Vec<String>,
    pub return_type: Option<String>,
    pub complexity: u32,
    pub is_async: bool,
    /// Functions this one calls.
    pub calls: Vec<String>,
    /// Functions that call this one.
    pub called_by: Vec<String>,
}

/// One data type.
pub struct TypeInfo {
    pub name: String,
    pub kind: String,
    pub line: u32,
    pub fields: Vec<String>,
    pub visibility: String,
}

/// A call from a function in one file to a function in another.
pub struct Dependency {
    pub from_file: String,
    pub from_function: String,
    pub to_file: String,
    pub to_function: String,
}

/// Health score, hotspots and high-confidence invariants.
pub struct Health {
    pub score: u32,
    pub hotspots: Vec<Hotspot>,
    pub invariants: Vec<String>,
}

/// A function worth a closer look.
pub struct Hotspot {
    pub file: String,
    pub function: String,
    pub line: u32,
    pub reason: String,
}

/// A command the tool offers.
pub struct Capability {
    pub command: String,
    pub description: String,
}


/// The lowercase form of a string (`str::to_lowercase`, Unicode's
/// lowercase mapping).
pub uninterp spec fn lowercase(s: Seq<char>) -> Seq<char>;

/// `str::to_lowercase`: the result is `lowercase` of the text.
#[verifier::external_body]
fn to_lowercase(s: &str) -> (r: String)
    ensures
        r@ == lowercase(s@),
{
    s.to_lowercase()
}

/// A name looks like a test's: lowercased, it starts with `test` or holds
/// `::test`.
pub open spec fn test_name(name: Seq<char>) -> bool {
    let l = lowercase(name);
    starts_with(l, "test"@) || contains(l, "::test_"@) || contains(l, "::test"@) || starts_with(l, "test_"@)
}

/// Whether a function name looks like a test's (see `test_name`).
pub fn is_test_name(name: &str) -> (r: bool)
    ensures
        r == test_name(name@),
{
    let l = chars_of(to_lowercase(name).as_str());
    starts_with_exec(&l, &lit("test")) || contains_exec(&l, &lit("::test_")) || contains_exec(&l, &lit("::test"))
        || starts_with_exec(&l, &lit("test_"))
}

/// The name a primitive type is shown by.
pub open spec fn prim_name(p: PrimitiveType) -> Seq<char> {
    match p {
        PrimitiveType::Bool => "bool"@,
        PrimitiveType::Int8 => "i8"@,
        PrimitiveType::Int16 => "i16"@,
        PrimitiveType::Int32 => "i32"@,
        PrimitiveType::Int64 => "i64"@,
        PrimitiveType::Uint8 => "u8"@,
        PrimitiveType::Uint16 => "u16"@,
        PrimitiveType::Uint32 => "u32"@,
        PrimitiveType::Uint64 => "u64"@,
        PrimitiveType::Float32 => "f32"@,
        PrimitiveType::Float64 => "f64"@,
        PrimitiveType::String => "string"@,
        PrimitiveType::Bytes => "bytes"@,
    }
}

/// How a type is shown: primitives by name, `Name<A, B>`, `(A, B) -> R`,
/// `T[]`, `Map<K, V>`, `T | null`, `Result<T, E>`, `(A, B)`, `A | B`,
/// `void`, unresolved names as they are, `unknown`.
pub open spec fn show_type(t: TypeModel) -> Seq<char>
    decreases t,
{
    match t {
        TypeModel::Primitive(p) => prim_name(p),
        TypeModel::Named(name, args) => if args.len() == 0 {
            name
        } else {
            name + seq!['<'] + show_types(args, ", "@) + seq!['>']
        },
        TypeModel::Function(params, ret) => seq!['('] + show_types(params, ", "@) + ") -> "@ + show_type(*ret),
        TypeModel::Array(inner) => show_type(*inner) + "[]"@,
        TypeModel::MapType(k, v) => "Map<"@ + show_type(*k) + ", "@ + show_type(*v) + seq!['>'],
        TypeModel::Optional(inner) => show_type(*inner) + " | null"@,
        TypeModel::Result(ok, err) => "Result<"@ + show_type(*ok) + ", "@ + show_type(*err) + seq!['>'],
        TypeModel::Tuple(items) => seq!['('] + show_types(items, ", "@) + seq![')'],
        TypeModel::Union(items) => show_types(items, " | "@),
        TypeModel::Unit => "void"@,
        TypeModel::Unresolved(name) => name,
        TypeModel::Unknown => "unknown"@,
    }
}

/// The types shown and joined with `sep`.
pub open spec fn show_types(ts: Seq<TypeModel>, sep: Seq<char>) -> Seq<char>
    decreases ts,
{
    if ts.len() == 0 {
        Seq::empty()
    } else if ts.len() == 1 {
        show_type(ts[0])
    } else {
        show_types(ts.drop_last(), sep) + sep + show_type(ts.last())
    }
}

fn prim_name_exec(p: PrimitiveType) -> (r: String)
    ensures
        r@ == prim_name(p),
{
    match p {
        PrimitiveType::Bool => String::from_str("bool"),
        PrimitiveType::Int8 => String::from_str("i8"),
        PrimitiveType::Int16 => String::from_str("i16"),
        PrimitiveType::Int32 => String::from_str("i32"),
        PrimitiveType::Int64 => String::from_str("i64"),
        PrimitiveType::Uint8 => String::from_str("u8"),
        PrimitiveType::Uint16 => String::from_str("u16"),
        PrimitiveType::Uint32 => String::from_str("u32"),
        PrimitiveType::Uint64 => String::from_str("u64"),
        PrimitiveType::Float32 => String::from_str("f32"),
        PrimitiveType::Float64 => String::from_str("f64"),
        PrimitiveType::String => String::from_str("string"),
        PrimitiveType::Bytes => String::from_str("bytes"),
    }
}

fn show_types_exec(ts: &Vec<TypeRef>, sep: &str) -> (r: String)
    ensures
        r@ == show_types(tmodels(ts@), sep@),
    decreases ts,
{
    proof {
        crate::types::lemma_tmodels_len(ts@);
    }
    let mut out = String::new();
    let mut i: usize = 0;
    while i < ts.len()
        invariant
            i <= ts@.len(),
            tmodels(ts@).len() == ts@.len(),
            forall|j: int| 0 <= j < ts@.len() ==> #[trigger] tmodels(ts@)[j] == tmodel(ts@[j]),
            out@ == show_types(tmodels(ts@).take(i as int), sep@),
        decreases ts@.len() - i,
    {
        let piece = format_type(&ts[i]);
        proof {
            let m = tmodels(ts@);
            assert(m.take(i + 1).drop_last() =~= m.take(i as int));
            assert(m.take(i + 1).last() == tmodel(ts@[i as int]));
        }
        if i > 0 {
            out.append(sep);
        }
        out.append(piece.as_str());
        proof {
            let m = tmodels(ts@);
            if i == 0 {
                assert(m.take(1)[0] == m[0]);
            }
        }
        i = i + 1;
    }
    proof {
        assert(tmodels(ts@).take(ts@.len() as int) =~= tmodels(ts@));
    }
    out
}

/// A type in human-readable form (see `show_type`).
pub fn format_type(t: &TypeRef) -> (r: String)
    ensures
        r@ == show_type(t@),
    decreases t,
{
    match t {
        TypeRef::Resolved(resolved) => match resolved {
            ResolvedType::Primitive(p) => prim_name_exec(*p),
            ResolvedType::Named { name, generic_args } => {
                if generic_args.len() == 0 {
                    proof {
                        crate::types::lemma_tmodels_len(generic_args@);
                    }
                    name.clone()
                } else {
                    proof {
                        crate::types::lemma_tmodels_len(generic_args@);
                    }
                    let mut s = name.clone();
                    crate::text::push_char(&mut s, '<');
                    let args = show_types_exec(generic_args, ", ");
                    s.append(args.as_str());
                    crate::text::push_char(&mut s, '>');
                    s
                }
            },
            ResolvedType::Function { params, return_type } => {
                let mut s = String::new();
                crate::text::push_char(&mut s, '(');
                let p = show_types_exec(params, ", ");
                s.append(p.as_str());
                s.append(") -> ");
                let rt = format_type(return_type);
                s.append(rt.as_str());
                s
            },
            ResolvedType::Array(inner) => {
                let mut s = format_type(inner);
                s.append("[]");
                s
            },
            ResolvedType::MapType { key, value } => {
                let mut s = String::new();
                s.append("Map<");
                let k = format_type(key);
                s.append(k.as_str());
                s.append(", ");
                let v = format_type(value);
                s.append(v.as_str());
                crate::text::push_char(&mut s, '>');
                s
            },
            ResolvedType::Optional(inner) => {
                let mut s = format_type(inner);
                s.append(" | null");
                s
            },
            ResolvedType::Result { ok, err } => {
                let mut s = String::new();
                s.append("Result<");
                let o = format_type(ok);
                s.append(o.as_str());
                s.append(", ");
                let e = format_type(err);
                s.append(e.as_str());
                crate::text::push_char(&mut s, '>');
                s
            },
            ResolvedType::Tuple(items) => {
                let mut s = String::new();
                crate::text::push_char(&mut s, '(');
                let p = show_types_exec(items, ", ");
                s.append(p.as_str());
                crate::text::push_char(&mut s, ')');
                s
            },
            ResolvedType::Union(items) => show_types_exec(items, " | "),
            ResolvedType::Unit => String::from_str("void"),
        },
        TypeRef::Unresolved(name) => name.clone(),
        TypeRef::Unknown => String::from_str("unknown"),
    }
}


/// `name` is among `v`.
pub open spec fn listed(v: Seq<Seq<char>>, name: Seq<char>) -> bool {
    v.contains(name)
}

/// The command detected for type checking, from the files that exist in
/// the project root and the package's dependencies.
pub open spec fn type_check_spec(ex: Seq<Seq<char>>, deps: Seq<Seq<char>>) -> Option<Seq<char>> {
    if listed(ex, "tsconfig.json"@) {
        if listed(ex, "node_modules/.bin/vue-tsc"@) || listed(ex, "node_modules/.bin/vue-tsc.cmd"@) || listed(deps, "vue-tsc"@) {
            Some("npx vue-tsc --noEmit"@)
        } else {
            Some("npx tsc --noEmit"@)
        }
    } else if listed(deps, "typescript"@) {
        Some("npx tsc --noEmit"@)
    } else {
        None
    }
}

/// The linter command detected.
pub open spec fn linter_spec(ex: Seq<Seq<char>>, deps: Seq<Seq<char>>) -> Option<Seq<char>> {
    if listed(ex, ".eslintrc.js"@) || listed(ex, ".eslintrc.json"@) || listed(ex, ".eslintrc.yml"@) || listed(ex, "eslint.config.js"@)
        || listed(ex, "eslint.config.mjs"@) || listed(deps, "eslint"@) {
        Some("npx eslint"@)
    } else if listed(ex, ".flake8"@) || listed(ex, ".pylintrc"@) || listed(deps, "pylint"@) || listed(deps, "flake8"@) {
        Some("python -m pylint"@)
    } else if listed(ex, "pyproject.toml"@) && (listed(deps, "ruff"@) || listed(ex, "ruff.toml"@)) {
        Some("ruff check"@)
    } else {
        None
    }
}

/// The formatter command detected.
pub open spec fn formatter_spec(ex: Seq<Seq<char>>, deps: Seq<Seq<char>>) -> Option<Seq<char>> {
    if listed(ex, ".prettierrc"@) || listed(ex, ".prettierrc.json"@) || listed(ex, ".prettierrc.js"@) || listed(ex, "prettier.config.js"@)
        || listed(ex, "prettier.config.mjs"@) || listed(deps, "prettier"@) {
        Some("npx prettier --write"@)
    } else {
        None
    }
}

/// The test runner command detected.
pub open spec fn test_runner_spec(ex: Seq<Seq<char>>, deps: Seq<Seq<char>>) -> Option<Seq<char>> {
    if listed(ex, "vitest.config.ts"@) || listed(ex, "vitest.config.js"@) || listed(deps, "vitest"@) {
        Some("npx vitest run"@)
    } else if listed(ex, "jest.config.js"@) || listed(ex, "jest.config.ts"@) || listed(deps, "jest"@) {
        Some("npx jest"@)
    } else if listed(ex, "pytest.ini"@) || listed(deps, "pytest"@) {
        Some("pytest"@)
    } else if listed(ex, "Cargo.toml"@) {
        Some("cargo test"@)
    } else {
        None
    }
}

/// Tooling preferences: vitest wins over jest, jest over pytest, pytest
/// over cargo test; eslint wins over pylint; a TypeScript project with
/// vue-tsc checks with it; a project with no marker file and no
/// dependency has no tool at all.
pub proof fn law_tooling_preferences(ex: Seq<Seq<char>>, deps: Seq<Seq<char>>)
    ensures
        listed(deps, "vitest"@) ==> test_runner_spec(ex, deps) == Some("npx vitest run"@),
        listed(deps, "jest"@) && !listed(deps, "vitest"@) && !listed(ex, "vitest.config.ts"@)
            && !listed(ex, "vitest.config.js"@) ==> test_runner_spec(ex, deps) == Some("npx jest"@),
        listed(ex, "Cargo.toml"@) && !listed(deps, "vitest"@) && !listed(deps, "jest"@) && !listed(deps, "pytest"@)
            && !listed(ex, "vitest.config.ts"@) && !listed(ex, "vitest.config.js"@) && !listed(ex, "jest.config.js"@)
            && !listed(ex, "jest.config.ts"@) && !listed(ex, "pytest.ini"@) ==> test_runner_spec(ex, deps) == Some("cargo test"@),
        listed(deps, "eslint"@) ==> linter_spec(ex, deps) == Some("npx eslint"@),
        listed(ex, "tsconfig.json"@) && listed(deps, "vue-tsc"@) ==> type_check_spec(ex, deps) == Some("npx vue-tsc --noEmit"@),
        listed(deps, "typescript"@) ==> type_check_spec(ex, deps) is Some,
        ex.len() == 0 && deps.len() == 0 ==> {
            &&& type_check_spec(ex, deps) is None
            &&& linter_spec(ex, deps) is None
            &&& formatter_spec(ex, deps) is None
            &&& test_runner_spec(ex, deps) is None
        },
{
}

/// An optional string as plain values.
pub open spec fn opt_str(o: Option<String>) -> Option<Seq<char>> {
    match o {
        Some(s) => Some(s@),
        None => None,
    }
}

fn listed_exec(v: &Vec<String>, name: &str) -> (r: bool)
    ensures
        r == listed(views(v@), name@),
{
    let n = chars_of(name);
    let mut i: usize = 0;
    while i < v.len()
        invariant
            i <= v@.len(),
            n@ == name@,
            forall|j: int| 0 <= j < i ==> v@[j]@ != name@,
        decreases v@.len() - i,
    {
        if crate::text::str_eq(&v[i], &n) {
            proof {
                assert(views(v@)[i as int] == name@);
            }
            return true;
        }
        i = i + 1;
    }
    proof {
        if views(v@).contains(name@) {
            let k = choose|k: int| 0 <= k < views(v@).len() && views(v@)[k] == name@;
            assert(v@[k]@ == name@);
        }
    }
    false
}

/// The files in the project root that tooling detection looks at, in the
/// order they are listed.
pub open spec fn marker_files() -> Seq<Seq<char>> {
    seq![
        "tsconfig.json"@,
        "node_modules/.bin/vue-tsc"@,
        "node_modules/.bin/vue-tsc.cmd"@,
        ".eslintrc.js"@,
        ".eslintrc.json"@,
        ".eslintrc.yml"@,
        "eslint.config.js"@,
        "eslint.config.mjs"@,
        ".flake8"@,
        ".pylintrc"@,
        "pyproject.toml"@,
        "ruff.toml"@,
        ".prettierrc"@,
        ".prettierrc.json"@,
        ".prettierrc.js"@,
        "prettier.config.js"@,
        "prettier.config.mjs"@,
        "vitest.config.ts"@,
        "vitest.config.js"@,
        "jest.config.js"@,
        "jest.config.ts"@,
        "pytest.ini"@,
        "Cargo.toml"@,
    ]
}

/// The files in the project root that tooling detection looks at (see
/// `marker_files`).
pub fn tooling_marker_files() -> (r: Vec<String>)
    ensures
        views(r@) == marker_files(),
{
    let mut v: Vec<String> = Vec::new();
    v.push(String::from_str("tsconfig.json"));
    v.push(String::from_str("node_modules/.bin/vue-tsc"));
    v.push(String::from_str("node_modules/.bin/vue-tsc.cmd"));
    v.push(String::from_str(".eslintrc.js"));
    v.push(String::from_str(".eslintrc.json"));
    v.push(String::from_str(".eslintrc.yml"));
    v.push(String::from_str("eslint.config.js"));
    v.push(String::from_str("eslint.config.mjs"));
    v.push(String::from_str(".flake8"));
    v.push(String::from_str(".pylintrc"));
    v.push(String::from_str("pyproject.toml"));
    v.push(String::from_str("ruff.toml"));
    v.push(String::from_str(".prettierrc"));
    v.push(String::from_str(".prettierrc.json"));
    v.push(String::from_str(".prettierrc.js"));
    v.push(String::from_str("prettier.config.js"));
    v.push(String::from_str("prettier.config.mjs"));
    v.push(String::from_str("vitest.config.ts"));
    v.push(String::from_str("vitest.config.js"));
    v.push(String::from_str("jest.config.js"));
    v.push(String::from_str("jest.config.ts"));
    v.push(String::from_str("pytest.ini"));
    v.push(String::from_str("Cargo.toml"));
    proof {
        assert(views(v@) =~= marker_files());
    }
    v
}

/// Detect the project's tooling from the marker files that exist in its
/// root (`present`, names relative to the root) and the dependency names
/// of its `package.json`.
pub fn detect_tooling(present: &Vec<String>, pkg_deps: &Vec<String>) -> (r: Tooling)
    ensures
        opt_str(r.type_check) == type_check_spec(views(present@), views(pkg_deps@)),
        opt_str(r.linter) == linter_spec(views(present@), views(pkg_deps@)),
        opt_str(r.formatter) == formatter_spec(views(present@), views(pkg_deps@)),
        opt_str(r.test_runner) == test_runner_spec(views(present@), views(pkg_deps@)),
{
    let type_check = if listed_exec(present, "tsconfig.json") {
        if listed_exec(present, "node_modules/.bin/vue-tsc") || listed_exec(present, "node_modules/.bin/vue-tsc.cmd")
            || listed_exec(pkg_deps, "vue-tsc") {
            Some(String::from_str("npx vue-tsc --noEmit"))
        } else {
            Some(String::from_str("npx tsc --noEmit"))
        }
    } else if listed_exec(pkg_deps, "typescript") {
        Some(String::from_str("npx tsc --noEmit"))
    } else {
        None
    };
    let linter = if listed_exec(present, ".eslintrc.js") || listed_exec(present, ".eslintrc.json") || listed_exec(
        present,
        ".eslintrc.yml",
    ) || listed_exec(present, "eslint.config.js") || listed_exec(present, "eslint.config.mjs") || listed_exec(
        pkg_deps,
        "eslint",
    ) {
        Some(String::from_str("npx eslint"))
    } else if listed_exec(present, ".flake8") || listed_exec(present, ".pylintrc") || listed_exec(pkg_deps, "pylint")
        || listed_exec(pkg_deps, "flake8") {
        Some(String::from_str("python -m pylint"))
    } else if listed_exec(present, "pyproject.toml") && (listed_exec(pkg_deps, "ruff") || listed_exec(present, "ruff.toml")) {
        Some(String::from_str("ruff check"))
    } else {
        None
    };
    let formatter = if listed_exec(present, ".prettierrc") || listed_exec(present, ".prettierrc.json") || listed_exec(
        present,
        ".prettierrc.js",
    ) || listed_exec(present, "prettier.config.js") || listed_exec(present, "prettier.config.mjs") || listed_exec(
        pkg_deps,
        "prettier",
    ) {
        Some(String::from_str("npx prettier --write"))
    } else {
        None
    };
    let test_runner = if listed_exec(present, "vitest.config.ts") || listed_exec(present, "vitest.config.js") || listed_exec(
        pkg_deps,
        "vitest",
    ) {
        Some(String::from_str("npx vitest run"))
    } else if listed_exec(present, "jest.config.js") || listed_exec(present, "jest.config.ts") || listed_exec(pkg_deps, "jest") {
        Some(String::from_str("npx jest"))
    } else if listed_exec(present, "pytest.ini") || listed_exec(pkg_deps, "pytest") {
        Some(String::from_str("pytest"))
    } else if listed_exec(present, "Cargo.toml") {
        Some(String::from_str("cargo test"))
    } else {
        None
    };
    Tooling { type_check, linter, formatter, test_runner }
}

/// The keys of an object value (none for another value).
pub open spec fn object_keys(v: JsonValue) -> Seq<Seq<char>> {
    match v {
        JsonValue::Object(fields) => fields@.map_values(|f: (String, JsonValue)| f.0@),
        _ => Seq::empty(),
    }
}

/// The dependency names in a `package.json` text: the keys of its
/// `dependencies` object, then those of its `devDependencies` object.
pub open spec fn package_deps(content: Seq<char>) -> Seq<Seq<char>> {
    match json_parse(content) {
        Some(v) => object_keys(crate::json::index(v, "dependencies"@)) + object_keys(
            crate::json::index(v, "devDependencies"@),
        ),
        None => Seq::empty(),
    }
}

fn push_keys(out: &mut Vec<String>, v: Option<&JsonValue>)
    ensures
        views(final(out)@) == views(old(out)@) + match v {
            Some(x) => object_keys(*x),
            None => Seq::<Seq<char>>::empty(),
        },
{
    match v {
        Some(JsonValue::Object(fields)) => {
            let ghost start = views(out@);
            let mut i: usize = 0;
            while i < fields.len()
                invariant
                    i <= fields@.len(),
                    views(out@) == start + fields@.take(i as int).map_values(|f: (String, JsonValue)| f.0@),
                decreases fields@.len() - i,
            {
                let ghost before = out@;
                out.push(fields[i].0.clone());
                proof {
                    assert(views(out@) =~= views(before).push(fields@[i as int].0@));
                    assert(fields@.take(i + 1).map_values(|f: (String, JsonValue)| f.0@) =~= fields@.take(
                        i as int,
                    ).map_values(|f: (String, JsonValue)| f.0@).push(fields@[i as int].0@));
                }
                i = i + 1;
            }
            proof {
                assert(fields@.take(fields@.len() as int) =~= fields@);
            }
        },
        _ => {
            proof {
                assert(views(out@) =~= views(out@) + Seq::<Seq<char>>::empty());
            }
        },
    }
}

/// The dependency names in a `package.json` text (see `package_deps`).
pub fn read_package_deps(content: &str) -> (r: Vec<String>)
    ensures
        views(r@) == package_deps(content@),
{
    let mut deps: Vec<String> = Vec::new();
    match parse_json(content) {
        Some(pkg) => {
            push_keys(&mut deps, get_member(&pkg, "dependencies"));
            push_keys(&mut deps, get_member(&pkg, "devDependencies"));
            proof {
                assert(views(deps@) =~= package_deps(content@));
            }
        },
        None => {
            proof {
                assert(views(deps@) =~= Seq::<Seq<char>>::empty());
            }
        },
    }
    deps
}

} // verus!
