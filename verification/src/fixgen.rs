//! Test-file generation: for the public functions of a source file, a test
//! file in the language's usual framework (Jest, pytest, Rust's test
//! harness), with placeholder arguments chosen by parameter type.

use vstd::prelude::*;
use crate::text::{chars_of, contains, contains_exec, copy_string, join, join_strings, lit, starts_with, starts_with_exec, views};
use crate::graph::{slashed, to_slashes};
use crate::sorting::strictly_sorted;

verus! {

/// A function to generate tests for.
pub struct FnInfo {
    pub name: String,
    pub class_name: Option<String>,
    pub params: Vec<ParamInfo>,
    pub is_async: bool,
    pub ext: String,
    pub file_path: String,
}

/// A parameter: its name and the debug form of its type (empty when
/// unknown).
pub struct ParamInfo {
    pub name: String,
    pub type_str: String,
}

// ─── Paths ─────────────────────────────────────────────────────

/// The stem of a path's file name (`Path::file_stem`), where it has one.
pub uninterp spec fn path_stem(p: Seq<char>) -> Option<Seq<char>>;

/// The parent of a path (`Path::parent`), where it has one.
pub uninterp spec fn path_parent(p: Seq<char>) -> Option<Seq<char>>;

/// `Path::file_stem`, as text: the result is `path_stem` of the path.
#[verifier::external_body]
fn file_stem(p: &str) -> (r: Option<String>)
    ensures
        match r {
            Some(s) => path_stem(p@) == Some(s@),
            None => path_stem(p@) is None,
        },
{
    std::path::Path::new(p).file_stem().map(|s| s.to_string_lossy().into_owned())
}

/// `Path::parent`, as text: the result is `path_parent` of the path.
#[verifier::external_body]
fn parent_dir(p: &str) -> (r: Option<String>)
    ensures
        match r {
            Some(s) => path_parent(p@) == Some(s@),
            None => path_parent(p@) is None,
        },
{
    std::path::Path::new(p).parent().map(|s| s.to_string_lossy().into_owned())
}

/// The stem of the source file, empty where it has none.
pub open spec fn stem_of(source: Seq<char>) -> Seq<char> {
    match path_stem(source) {
        Some(s) => s,
        None => Seq::empty(),
    }
}

/// The directory of the source file with forward slashes, `.` where it has
/// none.
pub open spec fn dir_of(source: Seq<char>) -> Seq<char> {
    match path_parent(source) {
        Some(d) => slashed(d),
        None => "."@,
    }
}

fn stem_exec(source: &str) -> (r: String)
    ensures
        r@ == stem_of(source@),
{
    match file_stem(source) {
        Some(s) => s,
        None => String::new(),
    }
}

fn dir_exec(source: &str) -> (r: String)
    ensures
        r@ == dir_of(source@),
{
    match parent_dir(source) {
        Some(d) => crate::text::string_of(&to_slashes(&chars_of(d.as_str()))),
        None => String::from_str("."),
    }
}

// ─── Placeholder arguments ─────────────────────────────────────

pub open spec fn param_views(ps: Seq<ParamInfo>) -> Seq<(Seq<char>, Seq<char>)> {
    ps.map_values(|p: ParamInfo| (p.name@, p.type_str@))
}

/// The parameters other than those named `skip1` or `skip2`, in order.
pub open spec fn kept_params(ps: Seq<(Seq<char>, Seq<char>)>, skip1: Seq<char>, skip2: Seq<char>) -> Seq<(Seq<char>, Seq<char>)>
    decreases ps.len(),
{
    if ps.len() == 0 {
        Seq::empty()
    } else {
        let rest = kept_params(ps.drop_last(), skip1, skip2);
        if ps.last().0 == skip1 || ps.last().0 == skip2 { rest } else { rest.push(ps.last()) }
    }
}

/// A TypeScript placeholder for a parameter.
pub open spec fn ts_stub(p: (Seq<char>, Seq<char>)) -> Seq<char> {
    let t = p.1;
    if contains(t, "String"@) || contains(t, "string"@) {
        "\"test_"@ + p.0 + "\""@
    } else if contains(t, "Int"@) || contains(t, "number"@) || contains(t, "Float"@) {
        "0"@
    } else if contains(t, "Bool"@) || contains(t, "boolean"@) {
        "false"@
    } else {
        "undefined"@
    }
}

/// A Python placeholder for a parameter.
pub open spec fn py_stub(p: (Seq<char>, Seq<char>)) -> Seq<char> {
    let t = p.1;
    if contains(t, "String"@) || contains(t, "str"@) {
        "\"test_"@ + p.0 + "\""@
    } else if contains(t, "Int"@) || contains(t, "int"@) {
        "0"@
    } else if contains(t, "Float"@) || contains(t, "float"@) {
        "0.0"@
    } else if contains(t, "Bool"@) || contains(t, "bool"@) {
        "False"@
    } else {
        "None"@
    }
}

/// A Rust placeholder for a parameter.
pub open spec fn rs_stub(p: (Seq<char>, Seq<char>)) -> Seq<char> {
    let t = p.1;
    if contains(t, "String"@) || contains(t, "str"@) {
        "\"test_"@ + p.0 + "\""@
    } else if contains(t, "Int"@) || contains(t, "u32"@) || contains(t, "i32"@) || contains(t, "usize"@) {
        "0"@
    } else if contains(t, "Bool"@) || contains(t, "bool"@) {
        "false"@
    } else {
        "todo!(/* "@ + p.0 + " */)"@
    }
}

/// Which language's placeholders.
#[derive(Clone, Copy, PartialEq, Eq, Structural)]
pub enum StubStyle {
    TypeScript,
    Python,
    Rust,
}

pub open spec fn stub(style: StubStyle, p: (Seq<char>, Seq<char>)) -> Seq<char> {
    match style {
        StubStyle::TypeScript => ts_stub(p),
        StubStyle::Python => py_stub(p),
        StubStyle::Rust => rs_stub(p),
    }
}

/// The parameters a style leaves out: `self` and `this` for TypeScript,
/// `self` and `cls` for Python, `self` for Rust.
pub open spec fn skipped(style: StubStyle) -> (Seq<char>, Seq<char>) {
    match style {
        StubStyle::TypeScript => ("self"@, "this"@),
        StubStyle::Python => ("self"@, "cls"@),
        StubStyle::Rust => ("self"@, "self"@),
    }
}

/// The placeholder arguments of a call, joined by `, `.
pub open spec fn stubs(style: StubStyle, ps: Seq<(Seq<char>, Seq<char>)>) -> Seq<char> {
    let (a, b) = skipped(style);
    join(kept_params(ps, a, b).map_values(|p: (Seq<char>, Seq<char>)| stub(style, p)), ", "@)
}

proof fn lemma_kept_params(ps: Seq<(Seq<char>, Seq<char>)>, a: Seq<char>, b: Seq<char>)
    ensures
        forall|x: (Seq<char>, Seq<char>)| #[trigger] kept_params(ps, a, b).contains(x)
            <==> ps.contains(x) && x.0 != a && x.0 != b,
    decreases ps.len(),
{
    if ps.len() > 0 {
        let init = ps.drop_last();
        lemma_kept_params(init, a, b);
        let r = kept_params(ps, a, b);
        let ri = kept_params(init, a, b);
        assert forall|x: (Seq<char>, Seq<char>)| #[trigger] r.contains(x) <==> ps.contains(x) && x.0 != a && x.0 != b by {
            if r.contains(x) {
                let i = choose|i: int| 0 <= i < r.len() && r[i] == x;
                if i < ri.len() {
                    assert(ri[i] == x);
                    assert(ri.contains(x));
                    let j = choose|j: int| 0 <= j < init.len() && init[j] == x;
                    assert(ps[j] == x);
                } else {
                    assert(ps[ps.len() - 1] == x);
                }
            }
            if ps.contains(x) && x.0 != a && x.0 != b {
                let j = choose|j: int| 0 <= j < ps.len() && ps[j] == x;
                if j < init.len() {
                    assert(init[j] == x);
                    assert(init.contains(x));
                    assert(ri.contains(x));
                    let i = choose|i: int| 0 <= i < ri.len() && ri[i] == x;
                    if !(ps.last().0 == a || ps.last().0 == b) {
                        assert(r[i] == x);
                    }
                } else {
                    assert(r[r.len() - 1] == x);
                }
            }
        }
    }
}

/// Placeholders are written for every parameter but the receivers: `self`
/// and `this` in TypeScript, `self` and `cls` in Python, `self` in Rust.
pub proof fn law_receivers_not_stubbed(ps: Seq<(Seq<char>, Seq<char>)>)
    ensures
        forall|x: (Seq<char>, Seq<char>)| #[trigger] kept_params(ps, skipped(StubStyle::TypeScript).0, skipped(StubStyle::TypeScript).1).contains(x)
            <==> ps.contains(x) && x.0 != "self"@ && x.0 != "this"@,
        forall|x: (Seq<char>, Seq<char>)| #[trigger] kept_params(ps, skipped(StubStyle::Python).0, skipped(StubStyle::Python).1).contains(x)
            <==> ps.contains(x) && x.0 != "self"@ && x.0 != "cls"@,
        forall|x: (Seq<char>, Seq<char>)| #[trigger] kept_params(ps, skipped(StubStyle::Rust).0, skipped(StubStyle::Rust).1).contains(x)
            <==> ps.contains(x) && x.0 != "self"@,
{
    lemma_kept_params(ps, "self"@, "this"@);
    lemma_kept_params(ps, "self"@, "cls"@);
    lemma_kept_params(ps, "self"@, "self"@);
}

fn stub_exec(style: StubStyle, p: &ParamInfo) -> (r: String)
    ensures
        r@ == stub(style, (p.name@, p.type_str@)),
{
    let t = chars_of(p.type_str.as_str());
    let has = |w: &str| -> (b: bool)
        ensures
            b == contains(t@, w@),
    {
        contains_exec(&t, &chars_of(w))
    };
    let quoted = |n: &String| -> (q: String)
        ensures
            q@ == "\"test_"@ + n@ + "\""@,
    {
        let mut q = String::from_str("\"test_");
        q.append(n.as_str());
        q.append("\"");
        q
    };
    match style {
        StubStyle::TypeScript => {
            if has("String") || has("string") {
                quoted(&p.name)
            } else if has("Int") || has("number") || has("Float") {
                String::from_str("0")
            } else if has("Bool") || has("boolean") {
                String::from_str("false")
            } else {
                String::from_str("undefined")
            }
        },
        StubStyle::Python => {
            if has("String") || has("str") {
                quoted(&p.name)
            } else if has("Int") || has("int") {
                String::from_str("0")
            } else if has("Float") || has("float") {
                String::from_str("0.0")
            } else if has("Bool") || has("bool") {
                String::from_str("False")
            } else {
                String::from_str("None")
            }
        },
        StubStyle::Rust => {
            if has("String") || has("str") {
                quoted(&p.name)
            } else if has("Int") || has("u32") || has("i32") || has("usize") {
                String::from_str("0")
            } else if has("Bool") || has("bool") {
                String::from_str("false")
            } else {
                let mut s = String::from_str("todo!(/* ");
                s.append(p.name.as_str());
                s.append(" */)");
                s
            }
        },
    }
}

/// The placeholder arguments for the parameters (see `stubs`).
pub fn param_stubs(style: StubStyle, params: &Vec<ParamInfo>) -> (r: String)
    ensures
        r@ == stubs(style, param_views(params@)),
{
    let (a, b) = match style {
        StubStyle::TypeScript => ("self", "this"),
        StubStyle::Python => ("self", "cls"),
        StubStyle::Rust => ("self", "self"),
    };
    let ac = chars_of(a);
    let bc = chars_of(b);
    let ghost pv = param_views(params@);
    let mut parts: Vec<String> = Vec::new();
    let mut i: usize = 0;
    while i < params.len()
        invariant
            i <= params@.len(),
            pv == param_views(params@),
            (ac@, bc@) == skipped(style),
            views(parts@) == kept_params(pv.take(i as int), ac@, bc@).map_values(|p: (Seq<char>, Seq<char>)| stub(style, p)),
        decreases params@.len() - i,
    {
        proof {
            assert(pv.take(i + 1).drop_last() =~= pv.take(i as int));
            assert(pv.take(i + 1).last() == (params@[i as int].name@, params@[i as int].type_str@));
        }
        let n = chars_of(params[i].name.as_str());
        if !(crate::text::eq_chars(&n, &ac) || crate::text::eq_chars(&n, &bc)) {
            let s = stub_exec(style, &params[i]);
            let ghost before = views(parts@);
            parts.push(s);
            proof {
                assert(views(parts@) =~= before.push(s@));
                let kp = kept_params(pv.take(i as int), ac@, bc@);
                assert(kp.push(pv[i as int]).map_values(|p: (Seq<char>, Seq<char>)| stub(style, p))
                    =~= kp.map_values(|p: (Seq<char>, Seq<char>)| stub(style, p)).push(stub(style, pv[i as int])));
            }
        }
        i = i + 1;
    }
    proof {
        assert(pv.take(params@.len() as int) =~= pv);
    }
    join_strings(&parts, ", ")
}

// ─── TypeScript ────────────────────────────────────────────────

/// The names of the functions that belong to no class, in order.
pub open spec fn standalone_names(fs: Seq<FnInfo>) -> Seq<Seq<char>>
    decreases fs.len(),
{
    if fs.len() == 0 {
        Seq::empty()
    } else {
        let rest = standalone_names(fs.drop_last());
        if fs.last().class_name is None { rest.push(fs.last().name@) } else { rest }
    }
}

/// The class names of the functions, each once, in order of first
/// appearance.
pub open spec fn class_names(fs: Seq<FnInfo>) -> Seq<Seq<char>>
    decreases fs.len(),
{
    if fs.len() == 0 {
        Seq::empty()
    } else {
        let rest = class_names(fs.drop_last());
        match fs.last().class_name {
            Some(c) => if rest.contains(c@) { rest } else { rest.push(c@) },
            None => rest,
        }
    }
}

/// The pieces one after the other.
pub open spec fn concat(parts: Seq<Seq<char>>) -> Seq<char>
    decreases parts.len(),
{
    if parts.len() == 0 {
        Seq::empty()
    } else {
        concat(parts.drop_last()) + parts.last()
    }
}

/// The class imports of a TypeScript test, for classes not already
/// imported as functions.
pub open spec fn ts_class_imports(classes: Seq<Seq<char>>, names: Seq<Seq<char>>, stem: Seq<char>) -> Seq<char>
    decreases classes.len(),
{
    if classes.len() == 0 {
        Seq::empty()
    } else {
        let rest = ts_class_imports(classes.drop_last(), names, stem);
        if names.contains(classes.last()) {
            rest
        } else {
            rest + "import { "@ + classes.last() + " } from \"../"@ + stem + "\";\n"@
        }
    }
}

/// The import lines of a TypeScript test.
pub open spec fn ts_imports_text(fs: Seq<FnInfo>, stem: Seq<char>) -> Seq<char> {
    let names = standalone_names(fs);
    (if names.len() > 0 { "import { "@ + join(names, ", "@) + " } from \"../"@ + stem + "\";\n"@ } else { Seq::empty() })
        + ts_class_imports(class_names(fs), names, stem)
}

/// The `describe` block of one function.
pub open spec fn ts_block(f: FnInfo) -> Seq<char> {
    let async_kw = if f.is_async { "async "@ } else { Seq::<char>::empty() };
    let await_kw = if f.is_async { "await "@ } else { Seq::<char>::empty() };
    let display = match f.class_name {
        Some(c) => c@ + "."@ + f.name@,
        None => f.name@,
    };
    let target = match f.class_name {
        Some(c) => "new "@ + c@ + "()."@ + f.name@,
        None => f.name@,
    };
    "describe(\""@ + display + "\", () => {\n  it(\"should work\", "@ + async_kw + "() => {\n    const result = "@ + await_kw + target
        + "("@ + stubs(StubStyle::TypeScript, param_views(f.params@)) + ");\n    expect(result).toBeDefined();\n  });\n\n  it(\"should handle edge cases\", "@
        + async_kw + "() => {\n    // TODO: add edge case tests\n  });\n});\n\n"@
}

/// A Jest test file for the functions: where it goes, and its text.
pub open spec fn ts_tests(source: Seq<char>, fs: Seq<FnInfo>) -> (Seq<char>, Seq<char>) {
    let stem = stem_of(source);
    (
        dir_of(source) + "/__tests__/"@ + stem + ".test.ts"@,
        ts_imports_text(fs, stem) + "\n"@ + concat(fs.map_values(|f: FnInfo| ts_block(f))),
    )
}

fn standalone_names_exec(fs: &Vec<FnInfo>) -> (r: Vec<String>)
    ensures
        views(r@) == standalone_names(fs@),
{
    let mut out: Vec<String> = Vec::new();
    let mut i: usize = 0;
    while i < fs.len()
        invariant
            i <= fs@.len(),
            views(out@) == standalone_names(fs@.take(i as int)),
        decreases fs@.len() - i,
    {
        proof {
            assert(fs@.take(i + 1).drop_last() =~= fs@.take(i as int));
        }
        if fs[i].class_name.is_none() {
            let ghost before = views(out@);
            out.push(copy_string(&fs[i].name));
            proof {
                assert(views(out@) =~= before.push(fs@[i as int].name@));
            }
        }
        i = i + 1;
    }
    proof {
        assert(fs@.take(fs@.len() as int) =~= fs@);
    }
    out
}

fn holds_chars(v: &Vec<String>, x: &String) -> (r: bool)
    ensures
        r == views(v@).contains(x@),
{
    let xc = chars_of(x.as_str());
    let mut i: usize = 0;
    while i < v.len()
        invariant
            i <= v@.len(),
            xc@ == x@,
            forall|j: int| 0 <= j < i ==> v@[j]@ != x@,
        decreases v@.len() - i,
    {
        if crate::text::str_eq(&v[i], &xc) {
            proof {
                assert(views(v@)[i as int] == x@);
            }
            return true;
        }
        i = i + 1;
    }
    proof {
        if views(v@).contains(x@) {
            let k = choose|k: int| 0 <= k < views(v@).len() && views(v@)[k] == x@;
            assert(v@[k]@ == x@);
        }
    }
    false
}

fn class_names_exec(fs: &Vec<FnInfo>) -> (r: Vec<String>)
    ensures
        views(r@) == class_names(fs@),
{
    let mut out: Vec<String> = Vec::new();
    let mut i: usize = 0;
    while i < fs.len()
        invariant
            i <= fs@.len(),
            views(out@) == class_names(fs@.take(i as int)),
        decreases fs@.len() - i,
    {
        proof {
            assert(fs@.take(i + 1).drop_last() =~= fs@.take(i as int));
        }
        match &fs[i].class_name {
            Some(c) => {
                if !holds_chars(&out, c) {
                    let ghost before = views(out@);
                    out.push(copy_string(c));
                    proof {
                        assert(views(out@) =~= before.push(c@));
                    }
                }
            },
            None => {},
        }
        i = i + 1;
    }
    proof {
        assert(fs@.take(fs@.len() as int) =~= fs@);
    }
    out
}

fn ts_block_exec(f: &FnInfo) -> (r: String)
    ensures
        r@ == ts_block(*f),
{
    let async_kw = if f.is_async { "async " } else { "" };
    let await_kw = if f.is_async { "await " } else { "" };
    let mut s = String::from_str("describe(\"");
    match &f.class_name {
        Some(c) => {
            s.append(c.as_str());
            s.append(".");
            s.append(f.name.as_str());
        },
        None => s.append(f.name.as_str()),
    }
    s.append("\", () => {\n  it(\"should work\", ");
    s.append(async_kw);
    s.append("() => {\n    const result = ");
    s.append(await_kw);
    match &f.class_name {
        Some(c) => {
            s.append("new ");
            s.append(c.as_str());
            s.append("().");
            s.append(f.name.as_str());
        },
        None => s.append(f.name.as_str()),
    }
    s.append("(");
    s.append(param_stubs(StubStyle::TypeScript, &f.params).as_str());
    s.append(");\n    expect(result).toBeDefined();\n  });\n\n  it(\"should handle edge cases\", ");
    s.append(async_kw);
    s.append("() => {\n    // TODO: add edge case tests\n  });\n});\n\n");
    proof {
        if f.is_async {
            assert(async_kw@ == "async "@);
        } else {
            assert(async_kw@ == Seq::<char>::empty()) by {
                reveal_strlit("");
            }
            assert(await_kw@ == Seq::<char>::empty()) by {
                reveal_strlit("");
            }
        }
    }
    s
}

/// A Jest test file for the functions of a source file (see `ts_tests`).
pub fn generate_ts_tests(source_file: &str, functions: &Vec<FnInfo>) -> (r: (String, String))
    ensures
        (r.0@, r.1@) == ts_tests(source_file@, functions@),
{
    let stem = stem_exec(source_file);
    let mut path = dir_exec(source_file);
    path.append("/__tests__/");
    path.append(stem.as_str());
    path.append(".test.ts");
    let names = standalone_names_exec(functions);
    let classes = class_names_exec(functions);
    let mut tests = String::new();
    if names.len() > 0 {
        tests.append("import { ");
        tests.append(join_strings(&names, ", ").as_str());
        tests.append(" } from \"../");
        tests.append(stem.as_str());
        tests.append("\";\n");
    }
    let ghost head = tests@;
    let mut k: usize = 0;
    while k < classes.len()
        invariant
            k <= classes@.len(),
            tests@ == head + ts_class_imports(views(classes@).take(k as int), views(names@), stem@),
        decreases classes@.len() - k,
    {
        proof {
            assert(views(classes@).take(k + 1).drop_last() =~= views(classes@).take(k as int));
            assert(views(classes@).take(k + 1).last() == classes@[k as int]@);
        }
        if !holds_chars(&names, &classes[k]) {
            tests.append("import { ");
            tests.append(classes[k].as_str());
            tests.append(" } from \"../");
            tests.append(stem.as_str());
            tests.append("\";\n");
        }
        k = k + 1;
    }
    proof {
        assert(views(classes@).take(classes@.len() as int) =~= views(classes@));
        assert(tests@ == ts_imports_text(functions@, stem@)) by {
            if names@.len() == 0 {
                assert(head == Seq::<char>::empty());
            }
        }
    }
    tests.append("\n");
    let ghost pre = tests@;
    let ghost blocks = functions@.map_values(|f: FnInfo| ts_block(f));
    let mut i: usize = 0;
    while i < functions.len()
        invariant
            i <= functions@.len(),
            blocks == functions@.map_values(|f: FnInfo| ts_block(f)),
            tests@ == pre + concat(blocks.take(i as int)),
        decreases functions@.len() - i,
    {
        proof {
            assert(blocks.take(i + 1).drop_last() =~= blocks.take(i as int));
        }
        tests.append(ts_block_exec(&functions[i]).as_str());
        i = i + 1;
    }
    proof {
        assert(blocks.take(functions@.len() as int) =~= blocks);
    }
    (path, tests)
}

// ─── Rust ──────────────────────────────────────────────────────

/// The test of one Rust function.
pub open spec fn rs_block(f: FnInfo) -> Seq<char> {
    let head = if f.is_async { "#[tokio::test]\nasync "@ } else { "#[test]\n"@ };
    let call = f.name@ + "("@ + stubs(StubStyle::Rust, param_views(f.params@)) + ")"@ + (if f.is_async { ".await"@ } else { Seq::<char>::empty() });
    head + "fn test_"@ + f.name@ + "() {\n    let result = "@ + call + ";\n    // TODO: add assertions\n}\n\n"@
}

/// A Rust test file for the functions: where it goes, and its text.
pub open spec fn rs_tests(source: Seq<char>, fs: Seq<FnInfo>) -> (Seq<char>, Seq<char>) {
    (
        dir_of(source) + "/tests_"@ + stem_of(source) + ".rs"@,
        "// Auto-generated by omnilens fix\n\n"@ + concat(fs.map_values(|f: FnInfo| rs_block(f))),
    )
}

fn rs_block_exec(f: &FnInfo) -> (r: String)
    ensures
        r@ == rs_block(*f),
{
    let mut s = if f.is_async { String::from_str("#[tokio::test]\nasync ") } else { String::from_str("#[test]\n") };
    s.append("fn test_");
    s.append(f.name.as_str());
    s.append("() {\n    let result = ");
    s.append(f.name.as_str());
    s.append("(");
    s.append(param_stubs(StubStyle::Rust, &f.params).as_str());
    s.append(")");
    if f.is_async {
        s.append(".await");
    }
    s.append(";\n    // TODO: add assertions\n}\n\n");
    proof {
        if !f.is_async {
            assert(Seq::<char>::empty() + ";\n    // TODO: add assertions\n}\n\n"@ =~= ";\n    // TODO: add assertions\n}\n\n"@);
        }
    }
    s
}

/// A Rust test file for the functions of a source file (see `rs_tests`).
pub fn generate_rs_tests(source_file: &str, functions: &Vec<FnInfo>) -> (r: (String, String))
    ensures
        (r.0@, r.1@) == rs_tests(source_file@, functions@),
{
    let mut path = dir_exec(source_file);
    path.append("/tests_");
    path.append(stem_exec(source_file).as_str());
    path.append(".rs");
    let mut content = String::from_str("// Auto-generated by omnilens fix\n\n");
    let ghost pre = content@;
    let ghost blocks = functions@.map_values(|f: FnInfo| rs_block(f));
    let mut i: usize = 0;
    while i < functions.len()
        invariant
            i <= functions@.len(),
            blocks == functions@.map_values(|f: FnInfo| rs_block(f)),
            content@ == pre + concat(blocks.take(i as int)),
        decreases functions@.len() - i,
    {
        proof {
            assert(blocks.take(i + 1).drop_last() =~= blocks.take(i as int));
        }
        content.append(rs_block_exec(&functions[i]).as_str());
        i = i + 1;
    }
    proof {
        assert(blocks.take(functions@.len() as int) =~= blocks);
    }
    (path, content)
}

// ─── Python ────────────────────────────────────────────────────

/// `s` without every trailing copy of the non-empty `p`
/// (`trim_end_matches` with a string pattern).
pub open spec fn strip_all_suffix(s: Seq<char>, p: Seq<char>) -> Seq<char>
    decreases s.len(),
{
    if p.len() > 0 && crate::text::ends_with(s, p) {
        strip_all_suffix(s.take(s.len() - p.len()), p)
    } else {
        s
    }
}

/// The Python module of a source file: its path relative to the working
/// directory (or as given, where it lies elsewhere), without leading `./`
/// and a `.py`/`.pyi` ending, with dots for slashes.
pub open spec fn python_module(source: Seq<char>, cwd: Seq<char>) -> Seq<char> {
    let a = slashed(source);
    let pre = slashed(cwd) + "/"@;
    let rel = if starts_with(a, pre) { a.skip(pre.len() as int) } else { source };
    let m = strip_all_suffix(strip_all_suffix(crate::frontend::strip_all_prefix(rel, "./"@), ".py"@), ".pyi"@);
    m.map_values(|c: char| if c == '/' { '.' } else { c })
}

/// The functions of class `c`, in order.
pub open spec fn methods_of(fs: Seq<FnInfo>, c: Seq<char>) -> Seq<FnInfo>
    decreases fs.len(),
{
    if fs.len() == 0 {
        Seq::empty()
    } else {
        let rest = methods_of(fs.drop_last(), c);
        if fs.last().class_name matches Some(x) && x@ == c { rest.push(fs.last()) } else { rest }
    }
}

/// The functions of no class, in order.
pub open spec fn standalone_of(fs: Seq<FnInfo>) -> Seq<FnInfo>
    decreases fs.len(),
{
    if fs.len() == 0 {
        Seq::empty()
    } else {
        let rest = standalone_of(fs.drop_last());
        if fs.last().class_name is None { rest.push(fs.last()) } else { rest }
    }
}

/// A parameter type that gets a literal placeholder in a constructor.
pub open spec fn plain_type(t: Seq<char>) -> bool {
    contains(t, "str"@) || contains(t, "int"@) || contains(t, "bool"@) || contains(t, "String"@) || contains(t, "Int"@) || contains(t, "Bool"@)
}

/// A constructor placeholder: literals for strings, integers and booleans,
/// a mock (named with `prefix`) for anything else.
pub open spec fn ctor_stub(p: (Seq<char>, Seq<char>), prefix: Seq<char>) -> Seq<char> {
    let t = p.1;
    if contains(t, "str"@) || contains(t, "String"@) {
        "\"test_"@ + p.0 + "\""@
    } else if contains(t, "int"@) || contains(t, "Int"@) {
        "0"@
    } else if contains(t, "bool"@) || contains(t, "Bool"@) {
        "False"@
    } else {
        prefix + p.0
    }
}

/// The parameters of the first `__init__` among the methods, without `self`
/// and `cls`.
pub open spec fn init_params(ms: Seq<FnInfo>) -> Seq<(Seq<char>, Seq<char>)>
    decreases ms.len(),
{
    if ms.len() == 0 {
        Seq::empty()
    } else if ms[0].name@ == "__init__"@ {
        kept_params(param_views(ms[0].params@), "self"@, "cls"@)
    } else {
        init_params(ms.drop_first())
    }
}

/// The mocks a test class sets up for an object parameter.
pub open spec fn setup_lines(p: (Seq<char>, Seq<char>)) -> Seq<char> {
    if plain_type(p.1) {
        Seq::empty()
    } else {
        "        self.mock_"@ + p.0 + " = MagicMock()\n"@
            + "        self.mock_"@ + p.0 + ".fetch_one = AsyncMock(return_value=None)\n"@
            + "        self.mock_"@ + p.0 + ".fetch_all = AsyncMock(return_value=[])\n"@
            + "        self.mock_"@ + p.0 + ".execute = AsyncMock(return_value=MagicMock(rowcount=0))\n"@
    }
}

/// The test of one method of class `c`.
pub open spec fn py_method_block(f: FnInfo, c: Seq<char>, ctor_args: Seq<char>, mocked: bool) -> Seq<char> {
    let decorator = if f.is_async { "    @pytest.mark.asyncio\n"@ } else { Seq::<char>::empty() };
    let async_kw = if f.is_async { "async "@ } else { Seq::<char>::empty() };
    let await_kw = if f.is_async { "await "@ } else { Seq::<char>::empty() };
    let args = stubs(StubStyle::Python, param_views(f.params@));
    if mocked {
        decorator + "    "@ + async_kw + "def test_"@ + f.name@ + "(self):\n        result = "@ + await_kw + "self.instance."@ + f.name@
            + "("@ + args + ")\n        assert result is not None\n\n"@
    } else {
        decorator + "    "@ + async_kw + "def test_"@ + f.name@ + "(self):\n        instance = "@ + c + "("@ + ctor_args
            + ")\n        result = "@ + await_kw + "instance."@ + f.name@ + "("@ + args + ")\n        assert result is not None\n\n"@
    }
}

/// The methods other than `__init__`, in order.
pub open spec fn tested_methods(ms: Seq<FnInfo>) -> Seq<FnInfo>
    decreases ms.len(),
{
    if ms.len() == 0 {
        Seq::empty()
    } else {
        let rest = tested_methods(ms.drop_last());
        if ms.last().name@ == "__init__"@ { rest } else { rest.push(ms.last()) }
    }
}

/// The test class for class `c` and its methods.
pub open spec fn py_class_block(c: Seq<char>, ms: Seq<FnInfo>) -> Seq<char> {
    let ip = init_params(ms);
    let ctor_args = join(ip.map_values(|p: (Seq<char>, Seq<char>)| ctor_stub(p, "mock_"@)), ", "@);
    let mocked = contains(ctor_args, "mock_"@);
    let setup = if mocked {
        "    def setup_method(self):\n"@ + concat(ip.map_values(|p: (Seq<char>, Seq<char>)| setup_lines(p)))
            + "        self.instance = "@ + c + "("@ + join(ip.map_values(|p: (Seq<char>, Seq<char>)| ctor_stub(p, "self.mock_"@)), ", "@) + ")\n\n"@
    } else {
        Seq::empty()
    };
    "class Test"@ + c + ":\n"@ + setup + concat(tested_methods(ms).map_values(|f: FnInfo| py_method_block(f, c, ctor_args, mocked))) + "\n"@
}

/// The test of one function of no class.
pub open spec fn py_fn_block(f: FnInfo) -> Seq<char> {
    let decorator = if f.is_async { "@pytest.mark.asyncio\n"@ } else { Seq::<char>::empty() };
    let async_kw = if f.is_async { "async "@ } else { Seq::<char>::empty() };
    let await_kw = if f.is_async { "await "@ } else { Seq::<char>::empty() };
    decorator + async_kw + "def test_"@ + f.name@ + "():\n    result = "@ + await_kw + f.name@ + "("@
        + stubs(StubStyle::Python, param_views(f.params@)) + ")\n    assert result is not None\n\n\n"@
}

/// The text of a pytest file for the functions, with module `m` and the
/// classes `cs` in that order.
pub open spec fn py_content(m: Seq<char>, fs: Seq<FnInfo>, cs: Seq<Seq<char>>) -> Seq<char> {
    let sa = standalone_of(fs);
    let body = "import pytest\n"@
        + (if sa.len() > 0 { "from "@ + m + " import "@ + join(sa.map_values(|f: FnInfo| f.name@), ", "@) + "\n"@ } else { Seq::empty() })
        + concat(cs.map_values(|c: Seq<char>| "from "@ + m + " import "@ + c + "\n"@))
        + "\n"@
        + concat(sa.map_values(|f: FnInfo| py_fn_block(f)))
        + concat(cs.map_values(|c: Seq<char>| py_class_block(c, methods_of(fs, c))));
    if contains(body, "MagicMock"@) {
        "from unittest.mock import MagicMock, AsyncMock\n"@ + body
    } else {
        body
    }
}

fn strip_all_suffix_exec(s: &Vec<char>, p: &Vec<char>) -> (r: Vec<char>)
    ensures
        r@ == strip_all_suffix(s@, p@),
{
    let mut n: usize = s.len();
    proof {
        assert(s@.take(n as int) =~= s@);
    }
    loop
        invariant
            n <= s@.len(),
            strip_all_suffix(s@, p@) == strip_all_suffix(s@.take(n as int), p@),
        decreases n,
    {
        let cur = crate::text::slice_chars(s, 0, n);
        proof {
            assert(cur@ =~= s@.take(n as int));
        }
        if p.len() > 0 && crate::text::ends_with_exec(&cur, p) {
            proof {
                assert(s@.take(n as int).take(n - p@.len()) =~= s@.take(n - p@.len()));
            }
            n = n - p.len();
        } else {
            return cur;
        }
    }
}

/// The Python module of a source file (see `python_module`).
pub fn python_module_exec(source: &str, cwd: &str) -> (r: String)
    ensures
        r@ == python_module(source@, cwd@),
{
    let src = chars_of(source);
    let a = to_slashes(&src);
    let mut pre = to_slashes(&chars_of(cwd));
    pre.push('/');
    proof {
        reveal_strlit("/");
        assert(pre@ =~= slashed(cwd@) + "/"@);
    }
    let rel = if starts_with_exec(&a, &pre) {
        let r = crate::text::slice_chars(&a, pre.len(), a.len());
        proof {
            assert(r@ =~= a@.skip(pre@.len() as int));
        }
        r
    } else {
        src
    };
    let m1 = crate::frontend::strip_all_prefix_exec(&rel, &lit("./"));
    let m2 = strip_all_suffix_exec(&m1, &lit(".py"));
    let m3 = strip_all_suffix_exec(&m2, &lit(".pyi"));
    let mut out: Vec<char> = Vec::new();
    let mut i: usize = 0;
    while i < m3.len()
        invariant
            i <= m3@.len(),
            out@ == m3@.take(i as int).map_values(|c: char| if c == '/' { '.' } else { c }),
        decreases m3@.len() - i,
    {
        let c = m3[i];
        out.push(if c == '/' { '.' } else { c });
        proof {
            assert(m3@.take(i + 1) =~= m3@.take(i as int).push(c));
            assert(out@ =~= m3@.take(i + 1).map_values(|c: char| if c == '/' { '.' } else { c }));
        }
        i = i + 1;
    }
    proof {
        assert(m3@.take(m3@.len() as int) =~= m3@);
    }
    crate::text::string_of(&out)
}

fn py_fn_block_exec(f: &FnInfo) -> (r: String)
    ensures
        r@ == py_fn_block(*f),
{
    let mut s = String::new();
    if f.is_async {
        s.append("@pytest.mark.asyncio\n");
        s.append("async ");
    }
    s.append("def test_");
    s.append(f.name.as_str());
    s.append("():\n    result = ");
    if f.is_async {
        s.append("await ");
    }
    s.append(f.name.as_str());
    s.append("(");
    s.append(param_stubs(StubStyle::Python, &f.params).as_str());
    s.append(")\n    assert result is not None\n\n\n");
    s
}

fn init_params_exec(fs: &Vec<FnInfo>, c: &String) -> (r: Vec<ParamInfo>)
    ensures
        param_views(r@) == init_params(methods_of(fs@, c@)),
{
    let ghost ms = methods_of(fs@, c@);
    let cc = chars_of(c.as_str());
    let init = lit("__init__");
    let mut i: usize = 0;
    proof {
        assert(fs@.skip(0) =~= fs@);
    }
    // The first method named `__init__` gives the parameters.
    while i < fs.len()
        invariant
            i <= fs@.len(),
            cc@ == c@,
            init@ == "__init__"@,
            ms == methods_of(fs@, c@),
            init_params(ms) == init_params(methods_of(fs@.skip(i as int), c@)),
        decreases fs@.len() - i,
    {
        proof {
            lemma_methods_front(fs@.skip(i as int), c@);
            assert(fs@.skip(i as int).drop_first() =~= fs@.skip(i + 1));
            assert(fs@.skip(i as int)[0] == fs@[i as int]);
        }
        let is_method = match &fs[i].class_name {
            Some(x) => crate::text::str_eq(x, &cc),
            None => false,
        };
        proof {
            let rest = methods_of(fs@.skip(i + 1), c@);
            if is_method {
                let full = seq![fs@[i as int]] + rest;
                assert(methods_of(fs@.skip(i as int), c@) == full);
                assert(full.drop_first() =~= rest);
                assert(full[0] == fs@[i as int]);
            }
        }
        if is_method && crate::text::str_eq(&fs[i].name, &init) {
            let ps = &fs[i].params;
            let mut out: Vec<ParamInfo> = Vec::new();
            let ghost pv = param_views(ps@);
            let mut j: usize = 0;
            while j < ps.len()
                invariant
                    j <= ps@.len(),
                    pv == param_views(ps@),
                    param_views(out@) == kept_params(pv.take(j as int), "self"@, "cls"@),
                decreases ps@.len() - j,
            {
                proof {
                    assert(pv.take(j + 1).drop_last() =~= pv.take(j as int));
                    assert(pv.take(j + 1).last() == (ps@[j as int].name@, ps@[j as int].type_str@));
                }
                let n = chars_of(ps[j].name.as_str());
                if !(crate::text::eq_chars(&n, &lit("self")) || crate::text::eq_chars(&n, &lit("cls"))) {
                    let p = ParamInfo { name: copy_string(&ps[j].name), type_str: copy_string(&ps[j].type_str) };
                    let ghost before = param_views(out@);
                    out.push(p);
                    proof {
                        assert(param_views(out@) =~= before.push((p.name@, p.type_str@)));
                    }
                }
                j = j + 1;
            }
            proof {
                assert(pv.take(ps@.len() as int) =~= pv);
                let rest = methods_of(fs@.skip(i + 1), c@);
                let full = seq![fs@[i as int]] + rest;
                assert(full[0].name@ == "__init__"@);
                assert(init_params(full) == kept_params(param_views(full[0].params@), "self"@, "cls"@));
                assert(init_params(ms) == init_params(full));
            }
            return out;
        }
        i = i + 1;
    }
    let out: Vec<ParamInfo> = Vec::new();
    proof {
        assert(fs@.skip(fs@.len() as int) =~= Seq::<FnInfo>::empty());
        assert(methods_of(Seq::<FnInfo>::empty(), c@) =~= Seq::<FnInfo>::empty());
        assert(param_views(out@) =~= Seq::<(Seq<char>, Seq<char>)>::empty());
    }
    out
}

/// The methods of a class, seen from the front.
proof fn lemma_methods_front(fs: Seq<FnInfo>, c: Seq<char>)
    ensures
        fs.len() > 0 ==> methods_of(fs, c) == (if fs[0].class_name matches Some(x) && x@ == c {
            seq![fs[0]] + methods_of(fs.drop_first(), c)
        } else {
            methods_of(fs.drop_first(), c)
        }),
    decreases fs.len(),
{
    if fs.len() > 1 {
        lemma_methods_front(fs.drop_last(), c);
        assert(fs.drop_last().drop_first() =~= fs.drop_first().drop_last());
        assert(fs.drop_last()[0] == fs[0]);
    } else if fs.len() == 1 {
        assert(fs.drop_last() =~= Seq::<FnInfo>::empty());
        assert(fs.drop_first() =~= Seq::<FnInfo>::empty());
    }
}

fn ctor_stub_exec(p: &ParamInfo, prefix: &str) -> (r: String)
    ensures
        r@ == ctor_stub((p.name@, p.type_str@), prefix@),
{
    let t = chars_of(p.type_str.as_str());
    if contains_exec(&t, &lit("str")) || contains_exec(&t, &lit("String")) {
        let mut q = String::from_str("\"test_");
        q.append(p.name.as_str());
        q.append("\"");
        q
    } else if contains_exec(&t, &lit("int")) || contains_exec(&t, &lit("Int")) {
        String::from_str("0")
    } else if contains_exec(&t, &lit("bool")) || contains_exec(&t, &lit("Bool")) {
        String::from_str("False")
    } else {
        let mut q = String::from_str(prefix);
        q.append(p.name.as_str());
        q
    }
}

fn ctor_args_exec(ps: &Vec<ParamInfo>, prefix: &str) -> (r: String)
    ensures
        r@ == join(param_views(ps@).map_values(|p: (Seq<char>, Seq<char>)| ctor_stub(p, prefix@)), ", "@),
{
    let ghost pv = param_views(ps@);
    let mut parts: Vec<String> = Vec::new();
    let mut i: usize = 0;
    while i < ps.len()
        invariant
            i <= ps@.len(),
            pv == param_views(ps@),
            views(parts@) == pv.take(i as int).map_values(|p: (Seq<char>, Seq<char>)| ctor_stub(p, prefix@)),
        decreases ps@.len() - i,
    {
        let st = ctor_stub_exec(&ps[i], prefix);
        let ghost before = views(parts@);
        parts.push(st);
        proof {
            assert(views(parts@) =~= before.push(st@));
            assert(pv.take(i + 1).map_values(|p: (Seq<char>, Seq<char>)| ctor_stub(p, prefix@))
                =~= pv.take(i as int).map_values(|p: (Seq<char>, Seq<char>)| ctor_stub(p, prefix@)).push(ctor_stub(pv[i as int], prefix@)));
        }
        i = i + 1;
    }
    proof {
        assert(pv.take(ps@.len() as int) =~= pv);
    }
    join_strings(&parts, ", ")
}

fn setup_text(ps: &Vec<ParamInfo>) -> (r: String)
    ensures
        r@ == concat(param_views(ps@).map_values(|p: (Seq<char>, Seq<char>)| setup_lines(p))),
{
    let ghost parts = param_views(ps@).map_values(|p: (Seq<char>, Seq<char>)| setup_lines(p));
    let mut s = String::new();
    let mut i: usize = 0;
    while i < ps.len()
        invariant
            i <= ps@.len(),
            parts == param_views(ps@).map_values(|p: (Seq<char>, Seq<char>)| setup_lines(p)),
            s@ == concat(parts.take(i as int)),
        decreases ps@.len() - i,
    {
        proof {
            assert(parts.take(i + 1).drop_last() =~= parts.take(i as int));
        }
        let t = chars_of(ps[i].type_str.as_str());
        let plain = contains_exec(&t, &lit("str")) || contains_exec(&t, &lit("int")) || contains_exec(&t, &lit("bool"))
            || contains_exec(&t, &lit("String")) || contains_exec(&t, &lit("Int")) || contains_exec(&t, &lit("Bool"));
        if !plain {
            let n = ps[i].name.as_str();
            s.append("        self.mock_");
            s.append(n);
            s.append(" = MagicMock()\n");
            s.append("        self.mock_");
            s.append(n);
            s.append(".fetch_one = AsyncMock(return_value=None)\n");
            s.append("        self.mock_");
            s.append(n);
            s.append(".fetch_all = AsyncMock(return_value=[])\n");
            s.append("        self.mock_");
            s.append(n);
            s.append(".execute = AsyncMock(return_value=MagicMock(rowcount=0))\n");
        } else {
            proof {
                assert(s@ + Seq::<char>::empty() =~= s@);
            }
        }
        i = i + 1;
    }
    proof {
        assert(parts.take(ps@.len() as int) =~= parts);
    }
    s
}

fn py_method_block_exec(f: &FnInfo, c: &String, ctor_args: &String, mocked: bool) -> (r: String)
    ensures
        r@ == py_method_block(*f, c@, ctor_args@, mocked),
{
    let mut s = String::new();
    if f.is_async {
        s.append("    @pytest.mark.asyncio\n");
    }
    s.append("    ");
    if f.is_async {
        s.append("async ");
    }
    s.append("def test_");
    s.append(f.name.as_str());
    if mocked {
        s.append("(self):\n        result = ");
    } else {
        s.append("(self):\n        instance = ");
        s.append(c.as_str());
        s.append("(");
        s.append(ctor_args.as_str());
        s.append(")\n        result = ");
    }
    if f.is_async {
        s.append("await ");
    }
    if mocked {
        s.append("self.instance.");
    } else {
        s.append("instance.");
    }
    s.append(f.name.as_str());
    s.append("(");
    s.append(param_stubs(StubStyle::Python, &f.params).as_str());
    s.append(")\n        assert result is not None\n\n");
    s
}

fn py_class_block_exec(c: &String, fs: &Vec<FnInfo>) -> (r: String)
    ensures
        r@ == py_class_block(c@, methods_of(fs@, c@)),
{
    let ghost ms = methods_of(fs@, c@);
    let ip = init_params_exec(fs, c);
    let ctor_args = ctor_args_exec(&ip, "mock_");
    let mocked = contains_exec(&chars_of(ctor_args.as_str()), &lit("mock_"));
    let mut s = String::from_str("class Test");
    s.append(c.as_str());
    s.append(":\n");
    if mocked {
        s.append("    def setup_method(self):\n");
        s.append(setup_text(&ip).as_str());
        s.append("        self.instance = ");
        s.append(c.as_str());
        s.append("(");
        s.append(ctor_args_exec(&ip, "self.mock_").as_str());
        s.append(")\n\n");
    }
    let ghost head = s@;
    let cc = chars_of(c.as_str());
    let init = lit("__init__");
    let mut i: usize = 0;
    while i < fs.len()
        invariant
            i <= fs@.len(),
            cc@ == c@,
            init@ == "__init__"@,
            s@ == head + concat(tested_methods(methods_of(fs@.take(i as int), c@)).map_values(|f: FnInfo| py_method_block(f, c@, ctor_args@, mocked))),
        decreases fs@.len() - i,
    {
        proof {
            assert(fs@.take(i + 1).drop_last() =~= fs@.take(i as int));
            assert(fs@.take(i + 1).last() == fs@[i as int]);
        }
        let is_method = match &fs[i].class_name {
            Some(x) => crate::text::str_eq(x, &cc),
            None => false,
        };
        if is_method && !crate::text::str_eq(&fs[i].name, &init) {
            s.append(py_method_block_exec(&fs[i], c, &ctor_args, mocked).as_str());
            proof {
                let mp = methods_of(fs@.take(i as int), c@);
                assert(methods_of(fs@.take(i + 1), c@) == mp.push(fs@[i as int]));
                assert(mp.push(fs@[i as int]).drop_last() =~= mp);
                let prev = tested_methods(mp);
                assert(tested_methods(methods_of(fs@.take(i + 1), c@)) == prev.push(fs@[i as int]));
                assert(prev.push(fs@[i as int]).map_values(|f: FnInfo| py_method_block(f, c@, ctor_args@, mocked))
                    =~= prev.map_values(|f: FnInfo| py_method_block(f, c@, ctor_args@, mocked)).push(py_method_block(fs@[i as int], c@, ctor_args@, mocked)));
                assert(prev.push(fs@[i as int]).map_values(|f: FnInfo| py_method_block(f, c@, ctor_args@, mocked)).drop_last()
                    =~= prev.map_values(|f: FnInfo| py_method_block(f, c@, ctor_args@, mocked)));
            }
        } else {
            proof {
                let prev = methods_of(fs@.take(i as int), c@);
                if is_method {
                    assert(methods_of(fs@.take(i + 1), c@) == prev.push(fs@[i as int]));
                    assert(prev.push(fs@[i as int]).drop_last() =~= prev);
                    assert(tested_methods(prev.push(fs@[i as int])) =~= tested_methods(prev));
                } else {
                    assert(methods_of(fs@.take(i + 1), c@) == prev);
                }
            }
        }
        i = i + 1;
    }
    proof {
        assert(fs@.take(fs@.len() as int) =~= fs@);
    }
    s.append("\n");
    s
}

proof fn lemma_standalone_names(fs: Seq<FnInfo>)
    ensures
        standalone_names(fs) == standalone_of(fs).map_values(|f: FnInfo| f.name@),
    decreases fs.len(),
{
    if fs.len() > 0 {
        lemma_standalone_names(fs.drop_last());
        let rest = standalone_of(fs.drop_last());
        if fs.last().class_name is None {
            assert(rest.push(fs.last()).map_values(|f: FnInfo| f.name@) =~= rest.map_values(|f: FnInfo| f.name@).push(fs.last().name@));
        }
    }
}

/// A pytest file for the functions of a source file: where it goes (beside
/// the source, as `test_<stem>.py`), and its text (see `py_content`), its
/// classes in name order.
pub fn generate_py_tests(source_file: &str, functions: &Vec<FnInfo>, cwd: &str) -> (r: (String, String))
    ensures
        r.0@ == dir_of(source_file@) + "/test_"@ + stem_of(source_file@) + ".py"@,
        exists|cs: Seq<Seq<char>>| {
            &&& crate::sorting::strictly_sorted(cs)
            &&& (forall|x: Seq<char>| cs.contains(x) <==> class_names(functions@).contains(x))
            &&& r.1@ == py_content(python_module(source_file@, cwd@), functions@, cs)
        },
{
    let mut path = dir_exec(source_file);
    path.append("/test_");
    path.append(stem_exec(source_file).as_str());
    path.append(".py");
    let m = python_module_exec(source_file, cwd);
    let names = standalone_names_exec(functions);
    let classes = crate::sorting::sort_dedup(&class_names_exec(functions));
    let ghost cs = views(classes@);
    let ghost sa = standalone_of(functions@);
    proof {
        lemma_standalone_names(functions@);
    }
    let mut body = String::from_str("import pytest\n");
    if names.len() > 0 {
        body.append("from ");
        body.append(m.as_str());
        body.append(" import ");
        body.append(join_strings(&names, ", ").as_str());
        body.append("\n");
    }
    let ghost h1 = body@;
    let mut k: usize = 0;
    while k < classes.len()
        invariant
            k <= classes@.len(),
            cs == views(classes@),
            body@ == h1 + concat(cs.take(k as int).map_values(|c: Seq<char>| "from "@ + m@ + " import "@ + c + "\n"@)),
        decreases classes@.len() - k,
    {
        proof {
            let f = |c: Seq<char>| "from "@ + m@ + " import "@ + c + "\n"@;
            assert(cs.take(k + 1).map_values(f).drop_last() =~= cs.take(k as int).map_values(f));
            assert(cs.take(k + 1).map_values(f).last() == f(classes@[k as int]@));
        }
        body.append("from ");
        body.append(m.as_str());
        body.append(" import ");
        body.append(classes[k].as_str());
        body.append("\n");
        k = k + 1;
    }
    proof {
        assert(cs.take(classes@.len() as int) =~= cs);
    }
    body.append("\n");
    let ghost h2 = body@;
    let mut i: usize = 0;
    while i < functions.len()
        invariant
            i <= functions@.len(),
            body@ == h2 + concat(standalone_of(functions@.take(i as int)).map_values(|f: FnInfo| py_fn_block(f))),
        decreases functions@.len() - i,
    {
        proof {
            assert(functions@.take(i + 1).drop_last() =~= functions@.take(i as int));
            assert(functions@.take(i + 1).last() == functions@[i as int]);
        }
        if functions[i].class_name.is_none() {
            body.append(py_fn_block_exec(&functions[i]).as_str());
            proof {
                let prev = standalone_of(functions@.take(i as int));
                let nxt = prev.push(functions@[i as int]);
                assert(nxt.map_values(|f: FnInfo| py_fn_block(f)).drop_last() =~= prev.map_values(|f: FnInfo| py_fn_block(f)));
            }
        }
        i = i + 1;
    }
    proof {
        assert(functions@.take(functions@.len() as int) =~= functions@);
    }
    let ghost h3 = body@;
    let mut j: usize = 0;
    while j < classes.len()
        invariant
            j <= classes@.len(),
            cs == views(classes@),
            body@ == h3 + concat(cs.take(j as int).map_values(|c: Seq<char>| py_class_block(c, methods_of(functions@, c)))),
        decreases classes@.len() - j,
    {
        proof {
            let f = |c: Seq<char>| py_class_block(c, methods_of(functions@, c));
            assert(cs.take(j + 1).map_values(f).drop_last() =~= cs.take(j as int).map_values(f));
            assert(cs.take(j + 1).map_values(f).last() == f(classes@[j as int]@));
        }
        body.append(py_class_block_exec(&classes[j], functions).as_str());
        j = j + 1;
    }
    proof {
        assert(cs.take(classes@.len() as int) =~= cs);
        let imports_line = if sa.len() > 0 { "from "@ + m@ + " import "@ + join(sa.map_values(|f: FnInfo| f.name@), ", "@) + "\n"@ } else { Seq::<char>::empty() };
        assert(h1 =~= "import pytest\n"@ + imports_line);
        let expected = "import pytest\n"@ + imports_line
            + concat(cs.map_values(|c: Seq<char>| "from "@ + m@ + " import "@ + c + "\n"@))
            + "\n"@
            + concat(sa.map_values(|f: FnInfo| py_fn_block(f)))
            + concat(cs.map_values(|c: Seq<char>| py_class_block(c, methods_of(functions@, c))));
        assert(body@ =~= expected);
    }
    let content = if contains_exec(&chars_of(body.as_str()), &lit("MagicMock")) {
        let mut c = String::from_str("from unittest.mock import MagicMock, AsyncMock\n");
        c.append(body.as_str());
        c
    } else {
        body
    };
    proof {
        assert(content@ == py_content(m@, functions@, cs));
    }
    (path, content)
}

// ─── Which functions get tests ─────────────────────────────────

/// The extension of a path (`Path::extension`), where it has one.
pub uninterp spec fn path_extension(p: Seq<char>) -> Option<Seq<char>>;

/// `Path::extension`, as text: the result is `path_extension` of the path.
#[verifier::external_body]
pub(crate) fn file_extension(p: &str) -> (r: Option<String>)
    ensures
        match r {
            Some(s) => path_extension(p@) == Some(s@),
            None => path_extension(p@) is None,
        },
{
    std::path::Path::new(p).extension().map(|s| s.to_string_lossy().into_owned())
}

/// What follows the last `/` of a path (all of it where there is none).
pub open spec fn last_part(p: Seq<char>) -> Seq<char> {
    match crate::text::rfind(p, "/"@) {
        Some(i) => p.skip(i + 1),
        None => p,
    }
}

/// A file name that marks a test file.
pub open spec fn test_file_name(n: Seq<char>) -> bool {
    starts_with(n, "test_"@) || contains(n, ".test."@) || contains(n, ".spec."@) || starts_with(n, "tests_"@)
}

/// The path passes the filters: there are none, or it holds one of them.
pub open spec fn selected(path: Seq<char>, filters: Seq<Seq<char>>) -> bool {
    filters.len() == 0 || exists|i: int| 0 <= i < filters.len() && contains(path, #[trigger] filters[i])
}

/// A public function with a complexity, outside test files, passing the
/// filters.
pub open spec fn testable(f: crate::node::FunctionNode, filters: Seq<Seq<char>>) -> bool {
    let path = slashed(f.span.file@);
    &&& f.complexity is Some
    &&& f.visibility == crate::ir::Visibility::Public
    &&& !test_file_name(last_part(path))
    &&& selected(path, filters)
}

/// A parameter as the generators see it: its name and the debug form of its
/// type.
pub open spec fn param_info_of(p: crate::node::Param) -> (Seq<char>, Seq<char>) {
    (p.name@, match p.type_ref {
        Some(t) => crate::discovery::debug_text(t@),
        None => Seq::empty(),
    })
}

/// What the generators record of a function.
pub open spec fn fn_info_ok(fi: FnInfo, f: crate::node::FunctionNode) -> bool {
    let path = slashed(f.span.file@);
    let segs = f.name.segs();
    &&& fi.name@ == (if segs.len() > 0 { segs.last() } else { Seq::empty() })
    &&& (match fi.class_name {
        Some(c) => segs.len() > 1 && c@ == segs[segs.len() - 2],
        None => segs.len() <= 1,
    })
    &&& param_views(fi.params@) == f.params@.map_values(|p: crate::node::Param| param_info_of(p))
    &&& fi.is_async == f.is_async
    &&& fi.ext@ == (match path_extension(last_part(path)) {
        Some(e) => e,
        None => Seq::empty(),
    })
    &&& fi.file_path@ == path
}

/// The testable functions of file `path`, in the order of `ids`.
pub open spec fn testable_in(g: crate::graph::SemanticGraph, ids: Seq<crate::ir::NodeId>, filters: Seq<Seq<char>>, path: Seq<char>)
    -> Seq<crate::node::FunctionNode>
    decreases ids.len(),
{
    if ids.len() == 0 {
        Seq::empty()
    } else {
        let rest = testable_in(g, ids.drop_last(), filters, path);
        match g.lookup(ids.last()) {
            Some(crate::node::UsirNode::Function(f)) => if testable(f, filters) && slashed(f.span.file@) == path {
                rest.push(f)
            } else {
                rest
            },
            _ => rest,
        }
    }
}

/// The id leads to a testable function of file `path`.
pub open spec fn testable_at(g: crate::graph::SemanticGraph, id: crate::ir::NodeId, filters: Seq<Seq<char>>, path: Seq<char>) -> bool {
    match g.lookup(id) {
        Some(crate::node::UsirNode::Function(f)) => testable(f, filters) && slashed(f.span.file@) == path,
        _ => false,
    }
}

/// Some testable function lies in file `path`.
pub open spec fn has_testable(g: crate::graph::SemanticGraph, ids: Seq<crate::ir::NodeId>, filters: Seq<Seq<char>>, path: Seq<char>) -> bool {
    exists|i: int| 0 <= i < ids.len() && testable_at(g, #[trigger] ids[i], filters, path)
}

/// One entry per file holding a testable function, in path order, each
/// with those functions' records in the order of `ids`.
pub open spec fn groups_match(groups: Seq<(String, Vec<FnInfo>)>, g: crate::graph::SemanticGraph, ids: Seq<crate::ir::NodeId>,
    filters: Seq<Seq<char>>) -> bool
{
    &&& strictly_sorted(crate::sorting::keys_of(groups))
    &&& forall|p: Seq<char>| crate::sorting::keys_of(groups).contains(p) <==> has_testable(g, ids, filters, p)
    &&& forall|i: int| 0 <= i < groups.len() ==> {
        let fs = testable_in(g, ids, filters, (#[trigger] groups[i]).0@);
        &&& groups[i].1@.len() == fs.len()
        &&& forall|j: int| 0 <= j < fs.len() ==> fn_info_ok(#[trigger] groups[i].1@[j], fs[j])
    }
}

fn fn_info_exec(f: &crate::node::FunctionNode) -> (r: FnInfo)
    ensures
        fn_info_ok(r, *f),
{
    let path = crate::text::string_of(&to_slashes(&chars_of(f.span.file.as_str())));
    let segs = &f.name.segments;
    let n = segs.len();
    let name = if n > 0 { copy_string(&segs[n - 1]) } else { String::new() };
    let class_name = if n > 1 { Some(copy_string(&segs[n - 2])) } else { None };
    let mut params: Vec<ParamInfo> = Vec::new();
    let mut i: usize = 0;
    while i < f.params.len()
        invariant
            i <= f.params@.len(),
            param_views(params@) == f.params@.take(i as int).map_values(|p: crate::node::Param| param_info_of(p)),
        decreases f.params@.len() - i,
    {
        let ts = match &f.params[i].type_ref {
            Some(t) => crate::discovery::debug_text_exec(t),
            None => String::new(),
        };
        let p = ParamInfo { name: copy_string(&f.params[i].name), type_str: ts };
        let ghost before = param_views(params@);
        params.push(p);
        proof {
            assert(param_views(params@) =~= before.push((p.name@, p.type_str@)));
            assert(f.params@.take(i + 1).map_values(|p: crate::node::Param| param_info_of(p))
                =~= f.params@.take(i as int).map_values(|p: crate::node::Param| param_info_of(p)).push(param_info_of(f.params@[i as int])));
        }
        i = i + 1;
    }
    proof {
        assert(f.params@.take(f.params@.len() as int) =~= f.params@);
    }
    let short = crate::text::string_of(&last_part_exec(&chars_of(path.as_str())));
    let ext = match file_extension(short.as_str()) {
        Some(e) => e,
        None => String::new(),
    };
    FnInfo { name, class_name, params, is_async: f.is_async, ext, file_path: path }
}

pub(crate) fn last_part_exec(p: &Vec<char>) -> (r: Vec<char>)
    ensures
        r@ == last_part(p@),
{
    proof {
        reveal_strlit("/");
        crate::text::lemma_rfind_bounds(p@, "/"@);
    }
    match crate::text::rfind_exec(p, &lit("/")) {
        Some(i) => {
            let n = p.len();
            let r = crate::text::slice_chars(p, i + 1, n);
            proof {
                assert(r@ =~= p@.skip(i + 1));
            }
            r
        },
        None => crate::text::slice_chars(p, 0, p.len()),
    }
}

fn testable_exec(f: &crate::node::FunctionNode, filters: &Vec<String>) -> (r: bool)
    ensures
        r == testable(*f, crate::text::views(filters@)),
{
    if f.complexity.is_none() || !(f.visibility == crate::ir::Visibility::Public) {
        return false;
    }
    let path = to_slashes(&chars_of(f.span.file.as_str()));
    let n = last_part_exec(&path);
    if starts_with_exec(&n, &lit("test_")) || contains_exec(&n, &lit(".test.")) || contains_exec(&n, &lit(".spec."))
        || starts_with_exec(&n, &lit("tests_")) {
        return false;
    }
    if filters.len() == 0 {
        return true;
    }
    let mut i: usize = 0;
    while i < filters.len()
        invariant
            i <= filters@.len(),
            path@ == slashed(f.span.file@),
            f.complexity is Some,
            f.visibility == crate::ir::Visibility::Public,
            !test_file_name(last_part(path@)),
            forall|j: int| 0 <= j < i ==> !contains(path@, #[trigger] crate::text::views(filters@)[j]),
        decreases filters@.len() - i,
    {
        if contains_exec(&path, &chars_of(filters[i].as_str())) {
            proof {
                assert(contains(path@, crate::text::views(filters@)[i as int]));
            }
            return true;
        }
        i = i + 1;
    }
    false
}

/// Adds a testable function's record under its file.
fn enter_fn(groups: &mut Vec<(String, Vec<FnInfo>)>, info: FnInfo,
    Ghost(g): Ghost<crate::graph::SemanticGraph>, Ghost(ids): Ghost<Seq<crate::ir::NodeId>>, Ghost(filters): Ghost<Seq<Seq<char>>>,
    Ghost(k): Ghost<crate::ir::NodeId>, Ghost(f): Ghost<crate::node::FunctionNode>)
    requires
        groups_match(old(groups)@, g, ids, filters),
        g.lookup(k) == Some(crate::node::UsirNode::Function(f)),
        testable(f, filters),
        fn_info_ok(info, f),
    ensures
        groups_match(final(groups)@, g, ids.push(k), filters),
{
    let ghost nids = ids.push(k);
    let ghost path = info.file_path@;
    proof {
        assert(nids.drop_last() =~= ids);
        assert forall|q: Seq<char>| has_testable(g, nids, filters, q) <==> (has_testable(g, ids, filters, q) || q == path) by {
            if has_testable(g, nids, filters, q) {
                let i = choose|i: int| 0 <= i < nids.len() && testable_at(g, #[trigger] nids[i], filters, q);
                if i < ids.len() {
                    assert(nids[i] == ids[i]);
                }
            }
            if has_testable(g, ids, filters, q) {
                let i = choose|i: int| 0 <= i < ids.len() && testable_at(g, #[trigger] ids[i], filters, q);
                assert(nids[i] == ids[i]);
            }
            if q == path {
                assert(testable_at(g, nids[ids.len() as int], filters, q));
            }
        }
    }
    let pc = chars_of(info.file_path.as_str());
    let (slot, found) = crate::sorting::find_slot(groups, &pc);
    let ghost ov = groups@;
    let ghost ok = crate::sorting::keys_of(ov);
    if !found {
        proof {
            assert(!has_testable(g, ids, filters, path));
            lemma_none_testable(g, ids, filters, path);
        }
        let entry = (copy_string(&info.file_path), Vec::new());
        groups.insert(slot, entry);
        proof {
            let nv = groups@;
            let nkeys = crate::sorting::keys_of(nv);
            assert(nkeys =~= ok.insert(slot as int, pc@));
            assert forall|a: int, b: int| 0 <= a < b < nkeys.len() implies crate::sorting::lex_lt(nkeys[a], nkeys[b]) by {
                if b < slot {
                } else if b == slot {
                } else if a < slot {
                    if b - 1 > slot {
                        crate::sorting::lemma_lex_transitive(pc@, ok[slot as int], ok[b - 1]);
                    }
                    crate::sorting::lemma_lex_transitive(ok[a], pc@, ok[b - 1]);
                } else if a == slot {
                    if b - 1 > slot {
                        crate::sorting::lemma_lex_transitive(pc@, ok[slot as int], ok[b - 1]);
                    }
                }
            }
            assert forall|q: Seq<char>| nkeys.contains(q) <==> (ok.contains(q) || q == pc@) by {
                if nkeys.contains(q) {
                    let a = choose|a: int| 0 <= a < nkeys.len() && nkeys[a] == q;
                    if a < slot {
                        assert(ok[a] == q);
                    } else if a > slot {
                        assert(ok[a - 1] == q);
                    }
                }
                if ok.contains(q) {
                    let a = choose|a: int| 0 <= a < ok.len() && ok[a] == q;
                    if a < slot {
                        assert(nkeys[a] == q);
                    } else {
                        assert(nkeys[a + 1] == q);
                    }
                }
                if q == pc@ {
                    assert(nkeys[slot as int] == q);
                }
            }
            assert forall|i: int| 0 <= i < nv.len() implies {
                let fs = testable_in(g, ids, filters, (#[trigger] nv[i]).0@);
                &&& nv[i].1@.len() == fs.len()
                &&& forall|j: int| 0 <= j < fs.len() ==> fn_info_ok(#[trigger] nv[i].1@[j], fs[j])
            } by {
                if i < slot {
                    assert(nv[i] == ov[i]);
                } else if i > slot {
                    assert(nv[i] == ov[i - 1]);
                }
            }
        }
    }
    let ghost mv = groups@;
    let ghost mk = crate::sorting::keys_of(mv);
    proof {
        assert(mk[slot as int] == pc@) by {
            if !found {
                assert(mv[slot as int].0@ == path);
            }
        }
    }
    let mut e = groups.remove(slot);
    e.1.push(info);
    groups.insert(slot, e);
    proof {
        let nv = groups@;
        assert(nv =~= mv.update(slot as int, e));
        assert(crate::sorting::keys_of(nv) =~= mk);
        assert forall|q: Seq<char>| crate::sorting::keys_of(nv).contains(q) <==> has_testable(g, nids, filters, q) by {
            if q == path {
                assert(mk[slot as int] == q);
            }
            if found {
                assert(mk =~= ok);
            } else {
                assert(mk.contains(q) <==> (ok.contains(q) || q == pc@));
            }
        }
        assert forall|i: int| 0 <= i < nv.len() implies {
            let fs = testable_in(g, nids, filters, (#[trigger] nv[i]).0@);
            &&& nv[i].1@.len() == fs.len()
            &&& forall|j: int| 0 <= j < fs.len() ==> fn_info_ok(#[trigger] nv[i].1@[j], fs[j])
        } by {
            let q = nv[i].0@;
            assert(testable_in(g, nids, filters, q) == (if slashed(f.span.file@) == q {
                testable_in(g, ids, filters, q).push(f)
            } else {
                testable_in(g, ids, filters, q)
            }));
            if i != slot {
                assert(nv[i] == mv[i]);
                assert(mk[i] != mk[slot as int]) by {
                    if i < slot {
                        crate::sorting::lemma_lex_irreflexive(mk[i]);
                    } else {
                        crate::sorting::lemma_lex_irreflexive(mk[slot as int]);
                    }
                }
            }
        }
    }
}

proof fn lemma_none_testable(g: crate::graph::SemanticGraph, ids: Seq<crate::ir::NodeId>, filters: Seq<Seq<char>>, path: Seq<char>)
    requires
        !has_testable(g, ids, filters, path),
    ensures
        testable_in(g, ids, filters, path).len() == 0,
    decreases ids.len(),
{
    if ids.len() > 0 {
        assert(!has_testable(g, ids.drop_last(), filters, path)) by {
            if has_testable(g, ids.drop_last(), filters, path) {
                let i = choose|i: int| 0 <= i < ids.len() - 1 && testable_at(g, #[trigger] ids.drop_last()[i], filters, path);
                assert(ids[i] == ids.drop_last()[i]);
            }
        }
        lemma_none_testable(g, ids.drop_last(), filters, path);
        assert(!testable_at(g, ids[ids.len() - 1], filters, path));
    }
}

/// The public functions that get tests, by file: every public function with
/// a complexity in the order of `ids`, outside test files (`test_*`,
/// `*.test.*`, `*.spec.*`, `tests_*`) and, where there are filters, in a file
/// whose path holds one of them; files in path order.
pub fn functions_to_test(g: &crate::graph::SemanticGraph, ids: &Vec<crate::ir::NodeId>, filters: &Vec<String>)
    -> (r: Vec<(String, Vec<FnInfo>)>)
    requires
        g.wf(),
    ensures
        groups_match(r@, *g, ids@, crate::text::views(filters@)),
{
    let ghost fv = crate::text::views(filters@);
    let mut groups: Vec<(String, Vec<FnInfo>)> = Vec::new();
    proof {
        assert(crate::sorting::keys_of(groups@) =~= Seq::<Seq<char>>::empty());
        assert(ids@.take(0) =~= Seq::<crate::ir::NodeId>::empty());
    }
    let mut i: usize = 0;
    while i < ids.len()
        invariant
            i <= ids@.len(),
            g.wf(),
            fv == crate::text::views(filters@),
            groups_match(groups@, *g, ids@.take(i as int), fv),
        decreases ids@.len() - i,
    {
        let ghost prev = ids@.take(i as int);
        proof {
            assert(ids@.take(i + 1) =~= prev.push(ids@[i as int]));
            assert(ids@.take(i + 1).drop_last() =~= prev);
        }
        let id = ids[i];
        match g.get_node(id) {
            Some(crate::node::UsirNode::Function(f)) => {
                if testable_exec(f, filters) {
                    let info = fn_info_exec(f);
                    enter_fn(&mut groups, info, Ghost(*g), Ghost(prev), Ghost(fv), Ghost(id), Ghost(*f));
                } else {
                    proof {
                        lemma_not_testable_step(*g, prev, fv, id);
                    }
                }
            },
            _ => {
                proof {
                    lemma_not_testable_step(*g, prev, fv, id);
                }
            },
        }
        i = i + 1;
    }
    proof {
        assert(ids@.take(ids@.len() as int) =~= ids@);
    }
    groups
}

proof fn lemma_not_testable_step(g: crate::graph::SemanticGraph, ids: Seq<crate::ir::NodeId>, filters: Seq<Seq<char>>, k: crate::ir::NodeId)
    requires
        !(g.lookup(k) matches Some(crate::node::UsirNode::Function(f)) && testable(f, filters)),
    ensures
        forall|q: Seq<char>| has_testable(g, ids.push(k), filters, q) <==> has_testable(g, ids, filters, q),
        forall|q: Seq<char>| testable_in(g, ids.push(k), filters, q) == testable_in(g, ids, filters, q),
{
    let nids = ids.push(k);
    assert(nids.drop_last() =~= ids);
    assert forall|q: Seq<char>| has_testable(g, nids, filters, q) <==> has_testable(g, ids, filters, q) by {
        if has_testable(g, nids, filters, q) {
            let i = choose|i: int| 0 <= i < nids.len() && testable_at(g, #[trigger] nids[i], filters, q);
            if i < ids.len() {
                assert(nids[i] == ids[i]);
            } else {
                assert(!testable_at(g, k, filters, q));
            }
        }
        if has_testable(g, ids, filters, q) {
            let i = choose|i: int| 0 <= i < ids.len() && testable_at(g, #[trigger] ids[i], filters, q);
            assert(nids[i] == ids[i]);
        }
    }
}

// ─── Test files and the fix request ────────────────────────────

/// An extension the TypeScript generator takes.
pub open spec fn ts_extension(e: Seq<char>) -> bool {
    e == "ts"@ || e == "tsx"@ || e == "js"@ || e == "jsx"@ || e == "mts"@ || e == "mjs"@
}

/// `r` is the pytest file for the functions (see `generate_py_tests`).
pub open spec fn py_tests_ok(r: (Seq<char>, Seq<char>), source: Seq<char>, fs: Seq<FnInfo>, cwd: Seq<char>) -> bool {
    &&& r.0 == dir_of(source) + "/test_"@ + stem_of(source) + ".py"@
    &&& exists|cs: Seq<Seq<char>>| {
        &&& strictly_sorted(cs)
        &&& (forall|x: Seq<char>| cs.contains(x) <==> class_names(fs).contains(x))
        &&& r.1 == py_content(python_module(source, cwd), fs, cs)
    }
}

/// The test file for the functions of a source file, by the source's
/// extension: Jest for TypeScript and JavaScript, pytest for Python, Rust's
/// harness for Rust; none for other files.
pub fn test_file_for(source_file: &str, functions: &Vec<FnInfo>, cwd: &str) -> (r: Option<(String, String)>)
    ensures
        match path_extension(source_file@) {
            Some(e) => if ts_extension(e) {
                r matches Some(x) && (x.0@, x.1@) == ts_tests(source_file@, functions@)
            } else if e == "py"@ || e == "pyi"@ {
                r matches Some(x) && py_tests_ok((x.0@, x.1@), source_file@, functions@, cwd@)
            } else if e == "rs"@ {
                r matches Some(x) && (x.0@, x.1@) == rs_tests(source_file@, functions@)
            } else {
                r is None
            },
            None => r is None,
        },
{
    match file_extension(source_file) {
        Some(e) => {
            let ec = chars_of(e.as_str());
            if crate::text::eq_chars(&ec, &lit("ts")) || crate::text::eq_chars(&ec, &lit("tsx"))
                || crate::text::eq_chars(&ec, &lit("js")) || crate::text::eq_chars(&ec, &lit("jsx"))
                || crate::text::eq_chars(&ec, &lit("mts")) || crate::text::eq_chars(&ec, &lit("mjs")) {
                Some(generate_ts_tests(source_file, functions))
            } else if crate::text::eq_chars(&ec, &lit("py")) || crate::text::eq_chars(&ec, &lit("pyi")) {
                Some(generate_py_tests(source_file, functions, cwd))
            } else if crate::text::eq_chars(&ec, &lit("rs")) {
                Some(generate_rs_tests(source_file, functions))
            } else {
                None
            }
        },
        None => None,
    }
}

fn trim_end_exec(v: &Vec<char>) -> (r: Vec<char>)
    ensures
        r@ == crate::text::trim_end(v@),
{
    let mut n: usize = v.len();
    proof {
        assert(v@.take(n as int) =~= v@);
    }
    while n > 0 && crate::text::is_whitespace(v[n - 1])
        invariant
            n <= v@.len(),
            crate::text::trim_end(v@) == crate::text::trim_end(v@.take(n as int)),
        decreases n,
    {
        proof {
            assert(v@.take(n as int).drop_last() =~= v@.take(n - 1));
        }
        n = n - 1;
    }
    crate::text::slice_chars(v, 0, n)
}

/// What becomes of a test file: written anew where there is none; where one
/// exists, the new tests appended after its trimmed end and a blank line,
/// unless it already names the first function (then left alone: `None`).
pub fn merge_tests(existing: Option<&str>, content: &str, first_name: &str) -> (r: Option<String>)
    ensures
        match existing {
            None => r matches Some(x) && x@ == content@,
            Some(e) => if contains(e@, first_name@) {
                r is None
            } else {
                r matches Some(x) && x@ == crate::text::trim_end(e@) + "\n\n"@ + content@
            },
        },
{
    match existing {
        None => Some(String::from_str(content)),
        Some(e) => {
            let ec = chars_of(e);
            if contains_exec(&ec, &chars_of(first_name)) {
                None
            } else {
                let mut s = crate::text::string_of(&trim_end_exec(&ec));
                s.append("\n\n");
                s.append(content);
                Some(s)
            }
        },
    }
}

/// A file found in the project, for the fix request: its path relative to
/// the project, its name, its extension and its content.
pub struct ProjectFile {
    pub relative: String,
    pub name: String,
    pub ext: String,
    pub content: String,
}

/// A test file: `test_*`, `*.test.*` or `*.spec.*`.
pub open spec fn is_test_file(name: Seq<char>) -> bool {
    starts_with(name, "test_"@) || contains(name, ".test."@) || contains(name, ".spec."@)
}

/// A source file of a supported language.
pub open spec fn is_source_ext(e: Seq<char>) -> bool {
    e == "py"@ || e == "ts"@ || e == "js"@ || e == "tsx"@ || e == "jsx"@ || e == "rs"@
}

/// The files of the kind wanted (test files, or other source files), as the
/// request carries them.
pub open spec fn request_files(fs: Seq<ProjectFile>, tests: bool) -> Seq<(Seq<char>, Seq<char>, bool)>
    decreases fs.len(),
{
    if fs.len() == 0 {
        Seq::empty()
    } else {
        let rest = request_files(fs.drop_last(), tests);
        let f = fs.last();
        let t = is_test_file(f.name@);
        if tests && t {
            rest.push((f.relative@, f.content@, false))
        } else if !tests && !t && is_source_ext(f.ext@) {
            rest.push((f.relative@, f.content@, true))
        } else {
            rest
        }
    }
}

pub open spec fn file_content_views(s: Seq<crate::ai::FileContent>) -> Seq<(Seq<char>, Seq<char>, bool)> {
    s.map_values(|f: crate::ai::FileContent| (f.path@, f.content@, f.readonly))
}

/// The task of a fix request.
pub open spec fn fix_task() -> Seq<char> {
    "Fix the failing tests so they pass. The tests were auto-generated and have stub values that need to be replaced with real data based on the source code."@
}

/// The rules of a fix request.
pub open spec fn fix_rules() -> Seq<Seq<char>> {
    seq![
        "Only modify test files (test_*.py, *.test.ts). NEVER modify source files."@,
        "Replace None/undefined stubs with realistic mock data."@,
        "Set up MagicMock/AsyncMock return values to match what the source code expects."@,
        "Use valid enum values (e.g., 'admin'/'user' for roles, not 'test_role')."@,
        "For functions that return None when given mock data, change assertion to allow None or set up mocks to return valid data."@,
    ]
}

/// The request to fix failing tests: the failures, the project's test files
/// to modify and its other source files for reference, in the order found,
/// with the fixed task and rules.
pub fn build_fix_request(failures: Vec<crate::ai::TestFailure>, files: &Vec<ProjectFile>) -> (r: crate::ai::FixRequest)
    ensures
        r.task@ == fix_task(),
        r.failures == failures,
        file_content_views(r.test_files@) == request_files(files@, true),
        file_content_views(r.source_files@) == request_files(files@, false),
        views(r.rules@) == fix_rules(),
{
    let mut test_files: Vec<crate::ai::FileContent> = Vec::new();
    let mut source_files: Vec<crate::ai::FileContent> = Vec::new();
    let mut i: usize = 0;
    while i < files.len()
        invariant
            i <= files@.len(),
            file_content_views(test_files@) == request_files(files@.take(i as int), true),
            file_content_views(source_files@) == request_files(files@.take(i as int), false),
        decreases files@.len() - i,
    {
        proof {
            assert(files@.take(i + 1).drop_last() =~= files@.take(i as int));
            assert(files@.take(i + 1).last() == files@[i as int]);
        }
        let f = &files[i];
        let n = chars_of(f.name.as_str());
        let is_test = starts_with_exec(&n, &lit("test_")) || contains_exec(&n, &lit(".test.")) || contains_exec(&n, &lit(".spec."));
        let e = chars_of(f.ext.as_str());
        let is_source = crate::text::eq_chars(&e, &lit("py")) || crate::text::eq_chars(&e, &lit("ts"))
            || crate::text::eq_chars(&e, &lit("js")) || crate::text::eq_chars(&e, &lit("tsx"))
            || crate::text::eq_chars(&e, &lit("jsx")) || crate::text::eq_chars(&e, &lit("rs"));
        if is_test {
            let fc = crate::ai::FileContent { path: copy_string(&f.relative), content: copy_string(&f.content), readonly: false };
            let ghost before = file_content_views(test_files@);
            test_files.push(fc);
            proof {
                assert(file_content_views(test_files@) =~= before.push((fc.path@, fc.content@, false)));
            }
        } else if is_source {
            let fc = crate::ai::FileContent { path: copy_string(&f.relative), content: copy_string(&f.content), readonly: true };
            let ghost before = file_content_views(source_files@);
            source_files.push(fc);
            proof {
                assert(file_content_views(source_files@) =~= before.push((fc.path@, fc.content@, true)));
            }
        }
        i = i + 1;
    }
    proof {
        assert(files@.take(files@.len() as int) =~= files@);
    }
    let rules = vec![
        String::from_str("Only modify test files (test_*.py, *.test.ts). NEVER modify source files."),
        String::from_str("Replace None/undefined stubs with realistic mock data."),
        String::from_str("Set up MagicMock/AsyncMock return values to match what the source code expects."),
        String::from_str("Use valid enum values (e.g., 'admin'/'user' for roles, not 'test_role')."),
        String::from_str("For functions that return None when given mock data, change assertion to allow None or set up mocks to return valid data."),
    ];
    proof {
        assert(views(rules@) =~= fix_rules());
    }
    crate::ai::FixRequest {
        task: String::from_str("Fix the failing tests so they pass. The tests were auto-generated and have stub values that need to be replaced with real data based on the source code."),
        failures,
        test_files,
        source_files,
        rules,
    }
}

} // verus!
