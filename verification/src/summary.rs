//! The light files an assistant reads first: a summary of the snapshot, and
//! what changed between two snapshots.

use vstd::prelude::*;
use crate::numtext::{decimal, decimal_string};
use crate::snapshot::{
    opt_str, AiInstructions, Capability, Dependency, FileInfo, FunctionInfo, Hotspot, Snapshot,
    Tooling, TypeInfo,
};
use crate::sorting::{find_slot, keys_of, lemma_lex_irreflexive, lemma_lex_total, lemma_lex_transitive, lex_lt, strictly_sorted};
use crate::text::{chars_of, copy_opt_string, copy_string, copy_strings, join, join_strings, views};

verus! {

/// Light project summary.
pub struct Summary {
    pub analysis_ms: u64,
    pub files: usize,
    pub functions: usize,
    pub types: usize,
    pub health: u32,
    pub languages: Vec<String>,
    pub tooling: Tooling,
    pub hotspots: Vec<String>,
    pub top_dependencies: Vec<String>,
    /// File-level overview: functions, types, imports per file, by path.
    pub file_map: Vec<(String, FileSummary)>,
    pub ai_instructions: AiInstructions,
    pub capabilities: Vec<Capability>,
}

/// One file in the summary.
pub struct FileSummary {
    pub functions: Vec<String>,
    pub types: Vec<String>,
    pub imports: Vec<String>,
}

/// What changed between two snapshots.
pub struct Changes {
    pub modified_files: Vec<String>,
    pub added_functions: Vec<FunctionChange>,
    pub removed_functions: Vec<FunctionChange>,
    pub signature_changes: Vec<SignatureChange>,
    pub new_dependencies: Vec<String>,
    pub lost_dependencies: Vec<String>,
    pub health_delta: i32,
    pub syntax_errors: Vec<String>,
}

/// A function that appeared or went away.
pub struct FunctionChange {
    pub file: String,
    pub name: String,
    pub line: u32,
    pub signature: String,
}

/// A function whose signature changed.
pub struct SignatureChange {
    pub file: String,
    pub name: String,
    pub line: u32,
    pub description: String,
}

// ─── The summary ───────────────────────────────────────────────

/// The first `n` items (all of them when there are fewer).
pub open spec fn first_n<T>(s: Seq<T>, n: nat) -> Seq<T> {
    if s.len() <= n {
        s
    } else {
        s.take(n as int)
    }
}

/// A hotspot as one line: `file:line function (reason)`.
pub open spec fn hotspot_line(h: Hotspot) -> Seq<char> {
    h.file@ + ":"@ + decimal(h.line as nat) + " "@ + h.function@ + " ("@ + h.reason@ + ")"@
}

/// A dependency as one line: `caller → callee`.
pub open spec fn dependency_line(d: Dependency) -> Seq<char> {
    d.from_function@ + " → "@ + d.to_function@
}

/// The return type as shown, `void` where there is none.
pub open spec fn return_text(r: Option<String>) -> Seq<char> {
    match r {
        Some(s) => s@,
        None => "void"@,
    }
}

/// A function's signature: `name(p1, p2) → ret`.
pub open spec fn signature_of(f: FunctionInfo) -> Seq<char> {
    f.name@ + "("@ + join(views(f.params@), ", "@) + ") → "@ + return_text(f.return_type)
}

/// A function as the file map shows it, `async ` first where it is async.
pub open spec fn function_line(f: FunctionInfo) -> Seq<char> {
    (if f.is_async { "async "@ } else { Seq::<char>::empty() }) + signature_of(f)
}

/// A type as the file map shows it: its name, and its fields in braces.
pub open spec fn type_line(t: TypeInfo) -> Seq<char> {
    if t.fields@.len() == 0 {
        t.name@
    } else {
        t.name@ + " { "@ + join(views(t.fields@), ", "@) + " }"@
    }
}

/// A file summary as plain values.
pub open spec fn file_summary_view(f: FileSummary) -> (Seq<Seq<char>>, Seq<Seq<char>>, Seq<Seq<char>>) {
    (views(f.functions@), views(f.types@), views(f.imports@))
}

/// What the summary shows of a file.
pub open spec fn summary_of_file(info: FileInfo) -> (Seq<Seq<char>>, Seq<Seq<char>>, Seq<Seq<char>>) {
    (
        info.functions@.map_values(|f: FunctionInfo| function_line(f)),
        info.types@.map_values(|t: TypeInfo| type_line(t)),
        views(info.imports@),
    )
}

/// A capability as plain values.
pub open spec fn capability_view(c: Capability) -> (Seq<char>, Seq<char>) {
    (c.command@, c.description@)
}

fn function_line_exec(f: &FunctionInfo) -> (r: String)
    ensures
        r@ == function_line(*f),
{
    let mut s = String::new();
    if f.is_async {
        s.append("async ");
    }
    s.append(f.name.as_str());
    s.append("(");
    s.append(join_strings(&f.params, ", ").as_str());
    s.append(") → ");
    match &f.return_type {
        Some(t) => s.append(t.as_str()),
        None => s.append("void"),
    }
    s
}

fn signature_exec(f: &FunctionInfo) -> (r: String)
    ensures
        r@ == signature_of(*f),
{
    let mut s = String::new();
    s.append(f.name.as_str());
    s.append("(");
    s.append(join_strings(&f.params, ", ").as_str());
    s.append(") → ");
    match &f.return_type {
        Some(t) => s.append(t.as_str()),
        None => s.append("void"),
    }
    s
}

fn type_line_exec(t: &TypeInfo) -> (r: String)
    ensures
        r@ == type_line(*t),
{
    if t.fields.len() == 0 {
        copy_string(&t.name)
    } else {
        let mut s = String::new();
        s.append(t.name.as_str());
        s.append(" { ");
        s.append(join_strings(&t.fields, ", ").as_str());
        s.append(" }");
        s
    }
}

fn file_summary_exec(info: &FileInfo) -> (r: FileSummary)
    ensures
        file_summary_view(r) == summary_of_file(*info),
{
    let mut functions: Vec<String> = Vec::new();
    let mut i: usize = 0;
    while i < info.functions.len()
        invariant
            i <= info.functions@.len(),
            views(functions@) == info.functions@.take(i as int).map_values(|f: FunctionInfo| function_line(f)),
        decreases info.functions@.len() - i,
    {
        let ghost before = functions@;
        let l = function_line_exec(&info.functions[i]);
        functions.push(l);
        proof {
            assert(views(functions@) =~= views(before).push(l@));
            assert(info.functions@.take(i + 1).map_values(|f: FunctionInfo| function_line(f))
                =~= info.functions@.take(i as int).map_values(|f: FunctionInfo| function_line(f)).push(function_line(info.functions@[i as int])));
        }
        i = i + 1;
    }
    let mut types: Vec<String> = Vec::new();
    let mut j: usize = 0;
    while j < info.types.len()
        invariant
            j <= info.types@.len(),
            views(types@) == info.types@.take(j as int).map_values(|t: TypeInfo| type_line(t)),
        decreases info.types@.len() - j,
    {
        let ghost before = types@;
        let l = type_line_exec(&info.types[j]);
        types.push(l);
        proof {
            assert(views(types@) =~= views(before).push(l@));
            assert(info.types@.take(j + 1).map_values(|t: TypeInfo| type_line(t))
                =~= info.types@.take(j as int).map_values(|t: TypeInfo| type_line(t)).push(type_line(info.types@[j as int])));
        }
        j = j + 1;
    }
    proof {
        assert(info.functions@.take(info.functions@.len() as int) =~= info.functions@);
        assert(info.types@.take(info.types@.len() as int) =~= info.types@);
    }
    FileSummary { functions, types, imports: copy_strings(&info.imports) }
}

fn hotspot_lines(hs: &Vec<Hotspot>, n: usize) -> (r: Vec<String>)
    ensures
        views(r@) == first_n(hs@, n as nat).map_values(|h: Hotspot| hotspot_line(h)),
{
    let m = if hs.len() < n { hs.len() } else { n };
    let mut out: Vec<String> = Vec::new();
    let mut i: usize = 0;
    while i < m
        invariant
            i <= m,
            m <= hs@.len(),
            m == (if hs@.len() < n { hs@.len() } else { n as nat }),
            views(out@) == hs@.take(i as int).map_values(|h: Hotspot| hotspot_line(h)),
        decreases m - i,
    {
        let h = &hs[i];
        let mut s = String::new();
        s.append(h.file.as_str());
        s.append(":");
        s.append(decimal_string(h.line as u64).as_str());
        s.append(" ");
        s.append(h.function.as_str());
        s.append(" (");
        s.append(h.reason.as_str());
        s.append(")");
        let ghost before = out@;
        out.push(s);
        proof {
            assert(views(out@) =~= views(before).push(s@));
            assert(hs@.take(i + 1).map_values(|h: Hotspot| hotspot_line(h))
                =~= hs@.take(i as int).map_values(|h: Hotspot| hotspot_line(h)).push(hotspot_line(hs@[i as int])));
        }
        i = i + 1;
    }
    proof {
        if hs@.len() <= n {
            assert(hs@.take(m as int) =~= hs@);
        }
    }
    out
}

fn dependency_lines(ds: &Vec<Dependency>, n: usize) -> (r: Vec<String>)
    ensures
        views(r@) == first_n(ds@, n as nat).map_values(|d: Dependency| dependency_line(d)),
{
    let m = if ds.len() < n { ds.len() } else { n };
    let mut out: Vec<String> = Vec::new();
    let mut i: usize = 0;
    while i < m
        invariant
            i <= m,
            m <= ds@.len(),
            m == (if ds@.len() < n { ds@.len() } else { n as nat }),
            views(out@) == ds@.take(i as int).map_values(|d: Dependency| dependency_line(d)),
        decreases m - i,
    {
        let d = &ds[i];
        let mut s = String::new();
        s.append(d.from_function.as_str());
        s.append(" → ");
        s.append(d.to_function.as_str());
        let ghost before = out@;
        out.push(s);
        proof {
            assert(views(out@) =~= views(before).push(s@));
            assert(ds@.take(i + 1).map_values(|d: Dependency| dependency_line(d))
                =~= ds@.take(i as int).map_values(|d: Dependency| dependency_line(d)).push(dependency_line(ds@[i as int])));
        }
        i = i + 1;
    }
    proof {
        if ds@.len() <= n {
            assert(ds@.take(m as int) =~= ds@);
        }
    }
    out
}

fn copy_capabilities(cs: &Vec<Capability>) -> (r: Vec<Capability>)
    ensures
        r@.map_values(|c: Capability| capability_view(c)) == cs@.map_values(|c: Capability| capability_view(c)),
{
    let mut out: Vec<Capability> = Vec::new();
    let mut i: usize = 0;
    while i < cs.len()
        invariant
            i <= cs@.len(),
            out@.map_values(|c: Capability| capability_view(c)) == cs@.take(i as int).map_values(|c: Capability| capability_view(c)),
        decreases cs@.len() - i,
    {
        let c = Capability { command: copy_string(&cs[i].command), description: copy_string(&cs[i].description) };
        let ghost before = out@;
        out.push(c);
        proof {
            assert(out@.map_values(|c: Capability| capability_view(c))
                =~= before.map_values(|c: Capability| capability_view(c)).push(capability_view(c)));
            assert(cs@.take(i + 1).map_values(|c: Capability| capability_view(c))
                =~= cs@.take(i as int).map_values(|c: Capability| capability_view(c)).push(capability_view(cs@[i as int])));
        }
        i = i + 1;
    }
    proof {
        assert(cs@.take(cs@.len() as int) =~= cs@);
    }
    out
}

/// The summary of a snapshot: its counts, health, languages and tooling as
/// they are; the first ten hotspots and the first twenty dependencies as
/// lines; for each file its functions, types and imports as lines; the
/// instructions and capabilities as they are.
pub fn generate_summary(snapshot: &Snapshot) -> (r: Summary)
    ensures
        r.analysis_ms == snapshot.analysis_ms,
        r.files == snapshot.project.total_files,
        r.functions == snapshot.project.total_functions,
        r.types == snapshot.project.total_types,
        r.health == snapshot.health.score,
        views(r.languages@) == views(snapshot.project.languages@),
        opt_str(r.tooling.type_check) == opt_str(snapshot.tooling.type_check),
        opt_str(r.tooling.linter) == opt_str(snapshot.tooling.linter),
        opt_str(r.tooling.formatter) == opt_str(snapshot.tooling.formatter),
        opt_str(r.tooling.test_runner) == opt_str(snapshot.tooling.test_runner),
        views(r.hotspots@) == first_n(snapshot.health.hotspots@, 10).map_values(|h: Hotspot| hotspot_line(h)),
        views(r.top_dependencies@) == first_n(snapshot.dependencies@, 20).map_values(|d: Dependency| dependency_line(d)),
        r.file_map@.len() == snapshot.files@.len(),
        forall|i: int| 0 <= i < r.file_map@.len() ==> {
            &&& (#[trigger] r.file_map@[i]).0@ == snapshot.files@[i].0@
            &&& file_summary_view(r.file_map@[i].1) == summary_of_file(snapshot.files@[i].1)
        },
        r.ai_instructions.on_ready@ == snapshot.ai_instructions.on_ready@,
        views(r.ai_instructions.behavior@) == views(snapshot.ai_instructions.behavior@),
        r.capabilities@.map_values(|c: Capability| capability_view(c))
            == snapshot.capabilities@.map_values(|c: Capability| capability_view(c)),
{
    let hotspots = hotspot_lines(&snapshot.health.hotspots, 10);
    let top_dependencies = dependency_lines(&snapshot.dependencies, 20);
    let mut file_map: Vec<(String, FileSummary)> = Vec::new();
    let mut i: usize = 0;
    while i < snapshot.files.len()
        invariant
            i <= snapshot.files@.len(),
            file_map@.len() == i,
            forall|k: int| 0 <= k < i ==> {
                &&& (#[trigger] file_map@[k]).0@ == snapshot.files@[k].0@
                &&& file_summary_view(file_map@[k].1) == summary_of_file(snapshot.files@[k].1)
            },
        decreases snapshot.files@.len() - i,
    {
        let entry = (copy_string(&snapshot.files[i].0), file_summary_exec(&snapshot.files[i].1));
        file_map.push(entry);
        i = i + 1;
    }
    Summary {
        analysis_ms: snapshot.analysis_ms,
        files: snapshot.project.total_files,
        functions: snapshot.project.total_functions,
        types: snapshot.project.total_types,
        health: snapshot.health.score,
        languages: copy_strings(&snapshot.project.languages),
        tooling: Tooling {
            type_check: copy_opt_string(&snapshot.tooling.type_check),
            linter: copy_opt_string(&snapshot.tooling.linter),
            formatter: copy_opt_string(&snapshot.tooling.formatter),
            test_runner: copy_opt_string(&snapshot.tooling.test_runner),
        },
        hotspots,
        top_dependencies,
        file_map,
        ai_instructions: AiInstructions {
            on_ready: copy_string(&snapshot.ai_instructions.on_ready),
            behavior: copy_strings(&snapshot.ai_instructions.behavior),
        },
        capabilities: copy_capabilities(&snapshot.capabilities),
    }
}

// ─── Functions by key ──────────────────────────────────────────

/// A function change as plain values: file, name, line, signature.
pub type ChangeView = (Seq<char>, Seq<char>, u32, Seq<char>);

pub open spec fn change_view(f: FunctionChange) -> ChangeView {
    (f.file@, f.name@, f.line, f.signature@)
}

/// The key a function is known by across snapshots: `file::name`.
pub open spec fn function_key(file: Seq<char>, f: FunctionInfo) -> Seq<char> {
    file + "::"@ + f.name@
}

/// What a snapshot records of a function.
pub open spec fn change_of(file: Seq<char>, f: FunctionInfo) -> ChangeView {
    (file, f.name@, f.line, signature_of(f))
}

/// `m` with the functions of one file entered by key, a later one replacing
/// an earlier one with the same key.
pub open spec fn enter_functions(m: Map<Seq<char>, ChangeView>, file: Seq<char>, fs: Seq<FunctionInfo>) -> Map<Seq<char>, ChangeView>
    decreases fs.len(),
{
    if fs.len() == 0 {
        m
    } else {
        enter_functions(m, file, fs.drop_last()).insert(function_key(file, fs.last()), change_of(file, fs.last()))
    }
}

/// Every function of the snapshot's files, by key.
pub open spec fn function_map(files: Seq<(String, FileInfo)>) -> Map<Seq<char>, ChangeView>
    decreases files.len(),
{
    if files.len() == 0 {
        Map::empty()
    } else {
        enter_functions(function_map(files.drop_last()), files.last().0@, files.last().1.functions@)
    }
}

/// `e` lists exactly the entries of `m`, once each, in key order.
pub open spec fn lists_map(e: Seq<(String, FunctionChange)>, m: Map<Seq<char>, ChangeView>) -> bool {
    &&& strictly_sorted(keys_of(e))
    &&& forall|k: Seq<char>| m.dom().contains(k) <==> keys_of(e).contains(k)
    &&& forall|i: int| 0 <= i < e.len() ==> m[(#[trigger] e[i]).0@] == change_view(e[i].1)
}

/// Keys in strictly increasing order are all different.
proof fn lemma_sorted_distinct(ks: Seq<Seq<char>>, i: int, j: int)
    requires
        strictly_sorted(ks),
        0 <= i < ks.len(),
        0 <= j < ks.len(),
        i != j,
    ensures
        ks[i] != ks[j],
{
    if i < j {
        lemma_lex_irreflexive(ks[i]);
    } else {
        lemma_lex_irreflexive(ks[j]);
    }
}

/// Enters one function change under its key, in key order.
fn enter(entries: &mut Vec<(String, FunctionChange)>, key: String, val: FunctionChange, Ghost(m): Ghost<Map<Seq<char>, ChangeView>>)
    requires
        lists_map(old(entries)@, m),
    ensures
        lists_map(final(entries)@, m.insert(key@, change_view(val))),
{
    let ghost ov = entries@;
    let ghost ks = keys_of(ov);
    let ghost nm = m.insert(key@, change_view(val));
    let kc = chars_of(key.as_str());
    let (p, found) = find_slot(entries, &kc);
    if found {
        entries.set(p, (key, val));
        proof {
            let nv = entries@;
            assert(keys_of(nv) =~= ks);
            assert forall|k: Seq<char>| nm.dom().contains(k) <==> keys_of(nv).contains(k) by {
                if k == key@ {
                    assert(keys_of(nv)[p as int] == k);
                }
            }
            assert forall|i: int| 0 <= i < nv.len() implies nm[(#[trigger] nv[i]).0@] == change_view(nv[i].1) by {
                if i != p {
                    lemma_sorted_distinct(ks, i, p as int);
                    assert(ks[i] == ov[i].0@);
                }
            }
        }
    } else {
        entries.insert(p, (key, val));
        proof {
            let nv = entries@;
            let nk = keys_of(nv);
            assert(nk =~= ks.insert(p as int, key@));
            assert forall|i: int, j: int| 0 <= i < j < nk.len() implies lex_lt(nk[i], nk[j]) by {
                if j < p {
                } else if j == p {
                } else if i < p {
                    if j - 1 > p {
                        lemma_lex_transitive(key@, ks[p as int], ks[j - 1]);
                    }
                    lemma_lex_transitive(ks[i], key@, ks[j - 1]);
                } else if i == p {
                    if j - 1 > p {
                        lemma_lex_transitive(key@, ks[p as int], ks[j - 1]);
                    }
                } else {
                }
            }
            assert forall|k: Seq<char>| nm.dom().contains(k) <==> nk.contains(k) by {
                if nk.contains(k) {
                    let i = choose|i: int| 0 <= i < nk.len() && nk[i] == k;
                    if i < p {
                        assert(ks[i] == k);
                    } else if i > p {
                        assert(ks[i - 1] == k);
                    }
                }
                if ks.contains(k) {
                    let i = choose|i: int| 0 <= i < ks.len() && ks[i] == k;
                    if i < p {
                        assert(nk[i] == k);
                    } else {
                        assert(nk[i + 1] == k);
                    }
                }
                if k == key@ {
                    assert(nk[p as int] == k);
                }
            }
            assert forall|i: int| 0 <= i < nv.len() implies nm[(#[trigger] nv[i]).0@] == change_view(nv[i].1) by {
                if i < p {
                    assert(nv[i] == ov[i]);
                    assert(ks[i] == ov[i].0@);
                    lemma_lex_irreflexive(key@);
                } else if i > p {
                    assert(nv[i] == ov[i - 1]);
                    assert(ks[i - 1] == ov[i - 1].0@);
                    if i - 1 > p {
                        lemma_lex_transitive(key@, ks[p as int], ks[i - 1]);
                    }
                    lemma_lex_irreflexive(key@);
                }
            }
        }
    }
}

/// Every function of the snapshot by its key `file::name`, with its file,
/// name, line and signature, in key order; where two functions share a key,
/// the later one is kept.
pub fn collect_functions(snapshot: &Snapshot) -> (r: Vec<(String, FunctionChange)>)
    ensures
        lists_map(r@, function_map(snapshot.files@)),
{
    let mut out: Vec<(String, FunctionChange)> = Vec::new();
    let mut i: usize = 0;
    proof {
        assert(keys_of(out@) =~= Seq::<Seq<char>>::empty());
    }
    while i < snapshot.files.len()
        invariant
            i <= snapshot.files@.len(),
            lists_map(out@, function_map(snapshot.files@.take(i as int))),
        decreases snapshot.files@.len() - i,
    {
        let file = &snapshot.files[i].0;
        let fs = &snapshot.files[i].1.functions;
        let ghost base = function_map(snapshot.files@.take(i as int));
        let mut j: usize = 0;
        while j < fs.len()
            invariant
                j <= fs@.len(),
                lists_map(out@, enter_functions(base, file@, fs@.take(j as int))),
            decreases fs@.len() - j,
        {
            proof {
                assert(fs@.take(j + 1).drop_last() =~= fs@.take(j as int));
            }
            let f = &fs[j];
            let mut key = copy_string(file);
            key.append("::");
            key.append(f.name.as_str());
            let val = FunctionChange {
                file: copy_string(file),
                name: copy_string(&f.name),
                line: f.line,
                signature: signature_exec(f),
            };
            enter(&mut out, key, val, Ghost(enter_functions(base, file@, fs@.take(j as int))));
            j = j + 1;
        }
        proof {
            assert(fs@.take(fs@.len() as int) =~= fs@);
            assert(snapshot.files@.take(i + 1).drop_last() =~= snapshot.files@.take(i as int));
        }
        i = i + 1;
    }
    proof {
        assert(snapshot.files@.take(snapshot.files@.len() as int) =~= snapshot.files@);
    }
    out
}

// ─── Changes between two snapshots ─────────────────────────────

/// The key of a recorded function: `file::name`.
pub open spec fn change_key(c: ChangeView) -> Seq<char> {
    c.0 + "::"@ + c.1
}

pub open spec fn change_keys(s: Seq<ChangeView>) -> Seq<Seq<char>> {
    s.map_values(|c: ChangeView| change_key(c))
}

/// `s` lists the entries of `m`, once each, in key order.
pub open spec fn lists_in_order(s: Seq<ChangeView>, m: Map<Seq<char>, ChangeView>) -> bool {
    &&& strictly_sorted(change_keys(s))
    &&& forall|k: Seq<char>| m.dom().contains(k) <==> change_keys(s).contains(k)
    &&& forall|i: int| 0 <= i < s.len() ==> m[change_key(#[trigger] s[i])] == s[i]
}

/// The functions of `cur` whose key `prev` lacks.
pub open spec fn added_map(cur: Map<Seq<char>, ChangeView>, prev: Map<Seq<char>, ChangeView>) -> Map<Seq<char>, ChangeView> {
    Map::new(|k: Seq<char>| cur.dom().contains(k) && !prev.dom().contains(k), |k: Seq<char>| cur[k])
}

/// What a signature change records: the current function, and the old and
/// new signatures as `old → new`.
pub open spec fn signature_change_of(cur: ChangeView, prev: ChangeView) -> ChangeView {
    (cur.0, cur.1, cur.2, prev.3 + " → "@ + cur.3)
}

/// The functions in both whose signature changed.
pub open spec fn signature_map(cur: Map<Seq<char>, ChangeView>, prev: Map<Seq<char>, ChangeView>) -> Map<Seq<char>, ChangeView> {
    Map::new(
        |k: Seq<char>| cur.dom().contains(k) && prev.dom().contains(k) && cur[k].3 != prev[k].3,
        |k: Seq<char>| signature_change_of(cur[k], prev[k]),
    )
}

pub open spec fn signature_view(c: SignatureChange) -> ChangeView {
    (c.file@, c.name@, c.line, c.description@)
}

/// The info of the first file of that path.
pub open spec fn file_named(files: Seq<(String, FileInfo)>, path: Seq<char>) -> Option<FileInfo>
    decreases files.len(),
{
    if files.len() == 0 {
        None
    } else if files[0].0@ == path {
        Some(files[0].1)
    } else {
        file_named(files.drop_first(), path)
    }
}

/// The files of `cur` that are new, or whose count of functions or of types
/// differs from the previous snapshot's, in order.
pub open spec fn modified_files(cur: Seq<(String, FileInfo)>, prev: Seq<(String, FileInfo)>) -> Seq<Seq<char>>
    decreases cur.len(),
{
    if cur.len() == 0 {
        Seq::empty()
    } else {
        let rest = modified_files(cur.drop_last(), prev);
        let (path, info) = cur.last();
        match file_named(prev, path@) {
            Some(p) => if info.functions@.len() != p.functions@.len() || info.types@.len() != p.types@.len() {
                rest.push(path@)
            } else {
                rest
            },
            None => rest.push(path@),
        }
    }
}

/// A dependency as compared across snapshots: `caller→callee`.
pub open spec fn dependency_key(d: Dependency) -> Seq<char> {
    d.from_function@ + "→"@ + d.to_function@
}

pub open spec fn dependency_keys(ds: Seq<Dependency>) -> Seq<Seq<char>> {
    ds.map_values(|d: Dependency| dependency_key(d))
}

/// `s` holds exactly the keys of `a` that `b` lacks, each once.
pub open spec fn difference_of(s: Seq<Seq<char>>, a: Seq<Seq<char>>, b: Seq<Seq<char>>) -> bool {
    &&& s.no_duplicates()
    &&& forall|x: Seq<char>| s.contains(x) <==> (a.contains(x) && !b.contains(x))
}

/// Every recorded function's key is its `file::name`.
proof fn lemma_enter_keys(m: Map<Seq<char>, ChangeView>, file: Seq<char>, fs: Seq<FunctionInfo>)
    requires
        forall|k: Seq<char>| m.dom().contains(k) ==> change_key(#[trigger] m[k]) == k,
    ensures
        forall|k: Seq<char>| enter_functions(m, file, fs).dom().contains(k) ==> change_key(#[trigger] enter_functions(m, file, fs)[k]) == k,
    decreases fs.len(),
{
    if fs.len() > 0 {
        lemma_enter_keys(m, file, fs.drop_last());
        let prev = enter_functions(m, file, fs.drop_last());
        let nk = function_key(file, fs.last());
        assert(change_key(change_of(file, fs.last())) =~= nk);
        assert forall|k: Seq<char>| enter_functions(m, file, fs).dom().contains(k) implies change_key(#[trigger] enter_functions(m, file, fs)[k]) == k by {
            if k != nk {
                assert(prev.dom().contains(k));
            }
        }
    }
}

proof fn lemma_function_map_keys(files: Seq<(String, FileInfo)>)
    ensures
        forall|k: Seq<char>| function_map(files).dom().contains(k) ==> change_key(#[trigger] function_map(files)[k]) == k,
    decreases files.len(),
{
    if files.len() > 0 {
        lemma_function_map_keys(files.drop_last());
        lemma_enter_keys(function_map(files.drop_last()), files.last().0@, files.last().1.functions@);
    }
}

/// What holds after the first `i` keys of `ks` were looked at.
pub open spec fn listed_so_far(out: Seq<ChangeView>, ks: Seq<Seq<char>>, i: int, target: Map<Seq<char>, ChangeView>) -> bool {
    &&& strictly_sorted(change_keys(out))
    &&& forall|j: int, t: int| 0 <= j < out.len() && i <= t < ks.len() ==> lex_lt(#[trigger] change_keys(out)[j], #[trigger] ks[t])
    &&& forall|k: Seq<char>| change_keys(out).contains(k) <==> (ks.take(i).contains(k) && target.dom().contains(k))
    &&& forall|j: int| 0 <= j < out.len() ==> target[change_key(#[trigger] out[j])] == out[j]
}

proof fn lemma_listed_start(ks: Seq<Seq<char>>, target: Map<Seq<char>, ChangeView>)
    ensures
        listed_so_far(Seq::empty(), ks, 0, target),
{
    assert(change_keys(Seq::<ChangeView>::empty()) =~= Seq::<Seq<char>>::empty());
    assert(ks.take(0) =~= Seq::<Seq<char>>::empty());
}

proof fn lemma_listed_step(out: Seq<ChangeView>, ks: Seq<Seq<char>>, i: int, target: Map<Seq<char>, ChangeView>, item: ChangeView)
    requires
        listed_so_far(out, ks, i, target),
        strictly_sorted(ks),
        0 <= i < ks.len(),
        target.dom().contains(ks[i]) ==> change_key(item) == ks[i] && target[ks[i]] == item,
    ensures
        listed_so_far(if target.dom().contains(ks[i]) { out.push(item) } else { out }, ks, i + 1, target),
{
    let kt = ks.take(i);
    let kt1 = ks.take(i + 1);
    assert(kt1 =~= kt.push(ks[i]));
    let ok = change_keys(out);
    if target.dom().contains(ks[i]) {
        let no = out.push(item);
        let nk = change_keys(no);
        assert(nk =~= ok.push(ks[i]));
        assert forall|a: int, b: int| 0 <= a < b < nk.len() implies lex_lt(nk[a], nk[b]) by {
            if b == out.len() {
                assert(lex_lt(ok[a], ks[i]));
            }
        }
        assert forall|j: int, t: int| 0 <= j < no.len() && i + 1 <= t < ks.len() implies lex_lt(#[trigger] nk[j], #[trigger] ks[t]) by {
            if j < out.len() {
                assert(lex_lt(ok[j], ks[t]));
            }
        }
        assert forall|k: Seq<char>| nk.contains(k) <==> (kt1.contains(k) && target.dom().contains(k)) by {
            if nk.contains(k) {
                let j = choose|j: int| 0 <= j < nk.len() && nk[j] == k;
                if j < out.len() {
                    assert(ok[j] == k);
                    assert(ok.contains(k));
                    let t = choose|t: int| 0 <= t < kt.len() && kt[t] == k;
                    assert(kt1[t] == k);
                } else {
                    assert(kt1[i] == k);
                }
            }
            if kt1.contains(k) && target.dom().contains(k) {
                let t = choose|t: int| 0 <= t < kt1.len() && kt1[t] == k;
                if t < i {
                    assert(kt[t] == k);
                    assert(ok.contains(k));
                    let j = choose|j: int| 0 <= j < ok.len() && ok[j] == k;
                    assert(nk[j] == k);
                } else {
                    assert(nk[out.len() as int] == k);
                }
            }
        }
        assert forall|j: int| 0 <= j < no.len() implies target[change_key(#[trigger] no[j])] == no[j] by {
            if j < out.len() {
                assert(no[j] == out[j]);
            }
        }
    } else {
        assert forall|k: Seq<char>| ok.contains(k) <==> (kt1.contains(k) && target.dom().contains(k)) by {
            if kt1.contains(k) && target.dom().contains(k) {
                let t = choose|t: int| 0 <= t < kt1.len() && kt1[t] == k;
                if t < i {
                    assert(kt[t] == k);
                }
            }
            if ok.contains(k) {
                let t = choose|t: int| 0 <= t < kt.len() && kt[t] == k;
                assert(kt1[t] == k);
            }
        }
    }
}

proof fn lemma_listed_done(out: Seq<ChangeView>, ks: Seq<Seq<char>>, target: Map<Seq<char>, ChangeView>)
    requires
        listed_so_far(out, ks, ks.len() as int, target),
        forall|k: Seq<char>| target.dom().contains(k) ==> ks.contains(k),
    ensures
        lists_in_order(out, target),
{
    assert(ks.take(ks.len() as int) =~= ks);
}

/// The functions of `src` whose key `other` lacks, in key order.
fn missing_changes(src: &Vec<(String, FunctionChange)>, other: &Vec<(String, FunctionChange)>,
    Ghost(sm): Ghost<Map<Seq<char>, ChangeView>>, Ghost(om): Ghost<Map<Seq<char>, ChangeView>>) -> (r: Vec<FunctionChange>)
    requires
        lists_map(src@, sm),
        lists_map(other@, om),
        forall|k: Seq<char>| sm.dom().contains(k) ==> change_key(#[trigger] sm[k]) == k,
    ensures
        lists_in_order(r@.map_values(|c: FunctionChange| change_view(c)), added_map(sm, om)),
{
    let ghost ks = keys_of(src@);
    let ghost target = added_map(sm, om);
    let mut out: Vec<FunctionChange> = Vec::new();
    proof {
        lemma_listed_start(ks, target);
        assert(out@.map_values(|c: FunctionChange| change_view(c)) =~= Seq::<ChangeView>::empty());
    }
    let mut i: usize = 0;
    while i < src.len()
        invariant
            i <= src@.len(),
            ks == keys_of(src@),
            target == added_map(sm, om),
            lists_map(src@, sm),
            lists_map(other@, om),
            forall|k: Seq<char>| sm.dom().contains(k) ==> change_key(#[trigger] sm[k]) == k,
            listed_so_far(out@.map_values(|c: FunctionChange| change_view(c)), ks, i as int, target),
        decreases src@.len() - i,
    {
        let key = chars_of(src[i].0.as_str());
        let (_, found) = find_slot(other, &key);
        let ghost ov = out@.map_values(|c: FunctionChange| change_view(c));
        let ghost item = change_view(src@[i as int].1);
        proof {
            assert(ks[i as int] == src@[i as int].0@);
            assert(ks.contains(ks[i as int]));
            assert(sm.dom().contains(ks[i as int]));
            assert(sm[ks[i as int]] == item);
            assert(target.dom().contains(ks[i as int]) == !found);
            lemma_listed_step(ov, ks, i as int, target, item);
        }
        if !found {
            let c = FunctionChange {
                file: copy_string(&src[i].1.file),
                name: copy_string(&src[i].1.name),
                line: src[i].1.line,
                signature: copy_string(&src[i].1.signature),
            };
            out.push(c);
            proof {
                assert(out@.map_values(|c: FunctionChange| change_view(c)) =~= ov.push(item));
            }
        }
        i = i + 1;
    }
    proof {
        assert forall|k: Seq<char>| target.dom().contains(k) implies ks.contains(k) by {}
        lemma_listed_done(out@.map_values(|c: FunctionChange| change_view(c)), ks, target);
    }
    out
}

/// The functions in both lists whose signature changed, in key order.
fn signature_changes(cur: &Vec<(String, FunctionChange)>, prev: &Vec<(String, FunctionChange)>,
    Ghost(cm): Ghost<Map<Seq<char>, ChangeView>>, Ghost(pm): Ghost<Map<Seq<char>, ChangeView>>) -> (r: Vec<SignatureChange>)
    requires
        lists_map(cur@, cm),
        lists_map(prev@, pm),
        forall|k: Seq<char>| cm.dom().contains(k) ==> change_key(#[trigger] cm[k]) == k,
    ensures
        lists_in_order(r@.map_values(|c: SignatureChange| signature_view(c)), signature_map(cm, pm)),
{
    let ghost ks = keys_of(cur@);
    let ghost pk = keys_of(prev@);
    let ghost target = signature_map(cm, pm);
    let mut out: Vec<SignatureChange> = Vec::new();
    proof {
        lemma_listed_start(ks, target);
        assert(out@.map_values(|c: SignatureChange| signature_view(c)) =~= Seq::<ChangeView>::empty());
    }
    let mut i: usize = 0;
    while i < cur.len()
        invariant
            i <= cur@.len(),
            ks == keys_of(cur@),
            pk == keys_of(prev@),
            target == signature_map(cm, pm),
            lists_map(cur@, cm),
            lists_map(prev@, pm),
            forall|k: Seq<char>| cm.dom().contains(k) ==> change_key(#[trigger] cm[k]) == k,
            listed_so_far(out@.map_values(|c: SignatureChange| signature_view(c)), ks, i as int, target),
        decreases cur@.len() - i,
    {
        let key = chars_of(cur[i].0.as_str());
        let (p, found) = find_slot(prev, &key);
        let ghost ov = out@.map_values(|c: SignatureChange| signature_view(c));
        let ghost k = ks[i as int];
        proof {
            assert(k == cur@[i as int].0@);
            assert(ks.contains(k));
            assert(cm.dom().contains(k));
            assert(cm[k] == change_view(cur@[i as int].1));
            assert(pm.dom().contains(k) == found);
            if found {
                assert(pk[p as int] == prev@[p as int].0@);
                assert(pm[k] == change_view(prev@[p as int].1));
            }
        }
        let differs = found && !crate::text::str_eq(&cur[i].1.signature, &chars_of(prev[p].1.signature.as_str()));
        let ghost item = if found { signature_change_of(cm[k], pm[k]) } else { cm[k] };
        proof {
            assert(target.dom().contains(k) == differs);
            lemma_listed_step(ov, ks, i as int, target, item);
        }
        if differs {
            let mut d = copy_string(&prev[p].1.signature);
            d.append(" → ");
            d.append(cur[i].1.signature.as_str());
            let c = SignatureChange {
                file: copy_string(&cur[i].1.file),
                name: copy_string(&cur[i].1.name),
                line: cur[i].1.line,
                description: d,
            };
            out.push(c);
            proof {
                assert(out@.map_values(|c: SignatureChange| signature_view(c)) =~= ov.push(item));
            }
        }
        i = i + 1;
    }
    proof {
        assert forall|k: Seq<char>| target.dom().contains(k) implies ks.contains(k) by {}
        lemma_listed_done(out@.map_values(|c: SignatureChange| signature_view(c)), ks, target);
    }
    out
}

/// Whether `x` is among the strings.
fn holds(v: &Vec<String>, x: &Vec<char>) -> (r: bool)
    ensures
        r == views(v@).contains(x@),
{
    let mut i: usize = 0;
    while i < v.len()
        invariant
            i <= v@.len(),
            forall|j: int| 0 <= j < i ==> v@[j]@ != x@,
        decreases v@.len() - i,
    {
        if crate::text::str_eq(&v[i], x.as_slice()) {
            proof {
                assert(views(v@)[i as int] == x@);
            }
            return true;
        }
        i = i + 1;
    }
    proof {
        if views(v@).contains(x@) {
            let k = choose|k: int| 0 <= k < views(v@).len() && views(v@)[k] == x@;
            assert(v@[k]@ == x@);
        }
    }
    false
}

fn dependency_key_exec(d: &Dependency) -> (r: String)
    ensures
        r@ == dependency_key(*d),
{
    let mut s = copy_string(&d.from_function);
    s.append("→");
    s.append(d.to_function.as_str());
    s
}

/// The dependency keys of `a` that `b` lacks, each once.
fn dependency_difference(a: &Vec<Dependency>, b: &Vec<Dependency>) -> (r: Vec<String>)
    ensures
        difference_of(views(r@), dependency_keys(a@), dependency_keys(b@)),
{
    let mut bk: Vec<String> = Vec::new();
    let mut j: usize = 0;
    while j < b.len()
        invariant
            j <= b@.len(),
            views(bk@) == dependency_keys(b@).take(j as int),
        decreases b@.len() - j,
    {
        let ghost before = bk@;
        let k = dependency_key_exec(&b[j]);
        bk.push(k);
        proof {
            assert(views(bk@) =~= views(before).push(k@));
            assert(dependency_keys(b@).take(j + 1) =~= dependency_keys(b@).take(j as int).push(dependency_key(b@[j as int])));
        }
        j = j + 1;
    }
    proof {
        assert(dependency_keys(b@).take(b@.len() as int) =~= dependency_keys(b@));
    }
    let ghost ak = dependency_keys(a@);
    let ghost bks = dependency_keys(b@);
    let mut out: Vec<String> = Vec::new();
    let mut i: usize = 0;
    while i < a.len()
        invariant
            i <= a@.len(),
            ak == dependency_keys(a@),
            bks == dependency_keys(b@),
            views(bk@) == bks,
            views(out@).no_duplicates(),
            forall|x: Seq<char>|
                #![trigger views(out@).contains(x)]
                #![trigger ak.take(i as int).contains(x)]
                views(out@).contains(x) <==> (ak.take(i as int).contains(x) && !bks.contains(x)),
        decreases a@.len() - i,
    {
        let k = dependency_key_exec(&a[i]);
        let kc = chars_of(k.as_str());
        let ghost at = ak.take(i as int);
        let ghost at1 = ak.take(i + 1);
        proof {
            assert(at1 =~= at.push(k@));
            assert forall|x: Seq<char>| at1.contains(x) <==> (at.contains(x) || x == k@) by {
                if at.contains(x) {
                    let t = choose|t: int| 0 <= t < at.len() && at[t] == x;
                    assert(at1[t] == x);
                }
                if x == k@ {
                    assert(at1[i as int] == x);
                }
                if at1.contains(x) {
                    let t = choose|t: int| 0 <= t < at1.len() && at1[t] == x;
                    if t < i {
                        assert(at[t] == x);
                    }
                }
            }
        }
        let in_b = holds(&bk, &kc);
        let in_out = holds(&out, &kc);
        if !in_b && !in_out {
            let ghost before = views(out@);
            out.push(k);
            proof {
                assert(views(out@) =~= before.push(k@));
                assert forall|a1: int, b1: int| 0 <= a1 < views(out@).len() && 0 <= b1 < views(out@).len() && a1 != b1
                    implies views(out@)[a1] != views(out@)[b1] by {
                    if a1 == before.len() {
                        assert(before.contains(views(out@)[b1]));
                    } else if b1 == before.len() {
                        assert(before.contains(views(out@)[a1]));
                    }
                }
                assert forall|x: Seq<char>| views(out@).contains(x) <==> (before.contains(x) || x == k@) by {
                    if before.contains(x) {
                        let t = choose|t: int| 0 <= t < before.len() && before[t] == x;
                        assert(views(out@)[t] == x);
                    }
                    if x == k@ {
                        assert(views(out@)[before.len() as int] == x);
                    }
                    if views(out@).contains(x) {
                        let t = choose|t: int| 0 <= t < views(out@).len() && views(out@)[t] == x;
                        if t < before.len() {
                            assert(before[t] == x);
                        }
                    }
                }
            }
        } else {
            proof {
                assert(kc@ == k@);
                assert(in_b == bks.contains(k@));
                assert(in_out == views(out@).contains(k@));
                assert forall|x: Seq<char>| views(out@).contains(x) <==> (at1.contains(x) && !bks.contains(x)) by {
                    assert(at1.contains(x) <==> (at.contains(x) || x == k@));
                    assert(views(out@).contains(x) <==> (at.contains(x) && !bks.contains(x)));
                }
            }
        }
        i = i + 1;
    }
    proof {
        assert(ak.take(a@.len() as int) =~= ak);
    }
    out
}

/// The info recorded for the first file of that path.
fn file_named_exec(files: &Vec<(String, FileInfo)>, path: &Vec<char>) -> (r: Option<usize>)
    ensures
        match r {
            Some(j) => j < files@.len() && file_named(files@, path@) == Some(files@[j as int].1),
            None => file_named(files@, path@) is None,
        },
{
    let mut j: usize = 0;
    proof {
        assert(files@.skip(0) =~= files@);
    }
    while j < files.len()
        invariant
            j <= files@.len(),
            file_named(files@, path@) == file_named(files@.skip(j as int), path@),
        decreases files@.len() - j,
    {
        proof {
            assert(files@.skip(j as int).drop_first() =~= files@.skip(j + 1));
            assert(files@.skip(j as int)[0] == files@[j as int]);
        }
        if crate::text::str_eq(&files[j].0, path.as_slice()) {
            return Some(j);
        }
        j = j + 1;
    }
    None
}

fn modified_files_exec(cur: &Vec<(String, FileInfo)>, prev: &Vec<(String, FileInfo)>) -> (r: Vec<String>)
    ensures
        views(r@) == modified_files(cur@, prev@),
{
    let mut out: Vec<String> = Vec::new();
    let mut i: usize = 0;
    while i < cur.len()
        invariant
            i <= cur@.len(),
            views(out@) == modified_files(cur@.take(i as int), prev@),
        decreases cur@.len() - i,
    {
        proof {
            assert(cur@.take(i + 1).drop_last() =~= cur@.take(i as int));
            assert(cur@.take(i + 1).last() == cur@[i as int]);
        }
        let path = chars_of(cur[i].0.as_str());
        let info = &cur[i].1;
        let push = match file_named_exec(prev, &path) {
            Some(j) => info.functions.len() != prev[j].1.functions.len() || info.types.len() != prev[j].1.types.len(),
            None => true,
        };
        if push {
            let ghost before = views(out@);
            out.push(copy_string(&cur[i].0));
            proof {
                assert(views(out@) =~= before.push(cur@[i as int].0@));
            }
        }
        i = i + 1;
    }
    proof {
        assert(cur@.take(cur@.len() as int) =~= cur@);
    }
    out
}

/// What comparing two snapshots gives (see `changes_between`).
pub open spec fn changes_match(current: Snapshot, previous: Snapshot, r: Option<Changes>) -> bool {
    let cm = function_map(current.files@);
    let pm = function_map(previous.files@);
    let delta_known = current.health.score <= i32::MAX && previous.health.score <= i32::MAX;
    match r {
        Some(c) => {
            &&& lists_in_order(c.added_functions@.map_values(|f: FunctionChange| change_view(f)), added_map(cm, pm))
            &&& lists_in_order(c.removed_functions@.map_values(|f: FunctionChange| change_view(f)), added_map(pm, cm))
            &&& lists_in_order(c.signature_changes@.map_values(|f: SignatureChange| signature_view(f)), signature_map(cm, pm))
            &&& views(c.modified_files@) == modified_files(current.files@, previous.files@)
            &&& difference_of(views(c.new_dependencies@), dependency_keys(current.dependencies@), dependency_keys(previous.dependencies@))
            &&& difference_of(views(c.lost_dependencies@), dependency_keys(previous.dependencies@), dependency_keys(current.dependencies@))
            &&& (delta_known ==> c.health_delta == current.health.score - previous.health.score)
            &&& (current.health.score == previous.health.score ==> c.health_delta == 0)
            &&& c.syntax_errors@.len() == 0
            &&& (c.added_functions@.len() > 0 || c.removed_functions@.len() > 0
                || c.signature_changes@.len() > 0 || c.modified_files@.len() > 0
                || c.new_dependencies@.len() > 0 || c.lost_dependencies@.len() > 0
                || c.health_delta != 0)
        },
        None => {
            &&& added_map(cm, pm).dom() =~= Set::empty()
            &&& added_map(pm, cm).dom() =~= Set::empty()
            &&& signature_map(cm, pm).dom() =~= Set::empty()
            &&& modified_files(current.files@, previous.files@).len() == 0
            &&& forall|x: Seq<char>| dependency_keys(current.dependencies@).contains(x) ==> dependency_keys(previous.dependencies@).contains(x)
            &&& forall|x: Seq<char>| dependency_keys(previous.dependencies@).contains(x) ==> dependency_keys(current.dependencies@).contains(x)
            &&& (delta_known ==> current.health.score == previous.health.score)
        },
    }
}

/// What changed from the previous snapshot to the current one: the
/// functions added, removed, and with a new signature (each in key order),
/// the files new or with other counts of functions or types, the
/// dependencies new and lost, and the health difference. `None` where
/// nothing changed.
pub fn changes_between(current: &Snapshot, previous: &Snapshot) -> (r: Option<Changes>)
    ensures
        changes_match(*current, *previous, r),

{
    let ghost cm = function_map(current.files@);
    let ghost pm = function_map(previous.files@);
    let cur = collect_functions(current);
    let prev = collect_functions(previous);
    proof {
        lemma_function_map_keys(current.files@);
        lemma_function_map_keys(previous.files@);
    }
    let added = missing_changes(&cur, &prev, Ghost(cm), Ghost(pm));
    let removed = missing_changes(&prev, &cur, Ghost(pm), Ghost(cm));
    let sigs = signature_changes(&cur, &prev, Ghost(cm), Ghost(pm));
    let modified = modified_files_exec(&current.files, &previous.files);
    let new_deps = dependency_difference(&current.dependencies, &previous.dependencies);
    let lost_deps = dependency_difference(&previous.dependencies, &current.dependencies);
    let delta = (current.health.score as i32).wrapping_sub(previous.health.score as i32);
    if added.len() == 0 && removed.len() == 0 && sigs.len() == 0 && modified.len() == 0
        && new_deps.len() == 0 && lost_deps.len() == 0 && delta == 0
    {
        proof {
            let av = added@.map_values(|f: FunctionChange| change_view(f));
            let rv = removed@.map_values(|f: FunctionChange| change_view(f));
            let sv = sigs@.map_values(|f: SignatureChange| signature_view(f));
            assert(change_keys(av).len() == 0);
            assert(change_keys(rv).len() == 0);
            assert(change_keys(sv).len() == 0);
            assert forall|x: Seq<char>| dependency_keys(current.dependencies@).contains(x) implies dependency_keys(previous.dependencies@).contains(x) by {
                if !dependency_keys(previous.dependencies@).contains(x) {
                    assert(views(new_deps@).contains(x));
                }
            }
            assert forall|x: Seq<char>| dependency_keys(previous.dependencies@).contains(x) implies dependency_keys(current.dependencies@).contains(x) by {
                if !dependency_keys(current.dependencies@).contains(x) {
                    assert(views(lost_deps@).contains(x));
                }
            }
        }
        return None;
    }
    Some(Changes {
        modified_files: modified,
        added_functions: added,
        removed_functions: removed,
        signature_changes: sigs,
        new_dependencies: new_deps,
        lost_dependencies: lost_deps,
        health_delta: delta,
        syntax_errors: Vec::new(),
    })
}

/// The path of each file appears once.
pub open spec fn distinct_paths(files: Seq<(String, FileInfo)>) -> bool {
    forall|i: int, j: int| 0 <= i < j < files.len() ==> files[i].0@ != files[j].0@
}

proof fn lemma_file_named_at(files: Seq<(String, FileInfo)>, i: int)
    requires
        distinct_paths(files),
        0 <= i < files.len(),
    ensures
        file_named(files, files[i].0@) == Some(files[i].1),
    decreases files.len(),
{
    if i > 0 {
        let rest = files.drop_first();
        assert(distinct_paths(rest)) by {
            assert forall|a: int, b: int| 0 <= a < b < rest.len() implies rest[a].0@ != rest[b].0@ by {
                assert(rest[a] == files[a + 1] && rest[b] == files[b + 1]);
            }
        }
        assert(files[0].0@ != files[i].0@);
        assert(rest[i - 1] == files[i]);
        lemma_file_named_at(rest, i - 1);
    }
}

proof fn lemma_unmodified_prefix(files: Seq<(String, FileInfo)>, n: int)
    requires
        distinct_paths(files),
        0 <= n <= files.len(),
    ensures
        modified_files(files.take(n), files).len() == 0,
    decreases n,
{
    if n > 0 {
        assert(files.take(n).drop_last() =~= files.take(n - 1));
        lemma_unmodified_prefix(files, n - 1);
        lemma_file_named_at(files, n - 1);
        assert(files.take(n).last() == files[n - 1]);
    }
}

/// The keys of the added functions.
pub open spec fn added_keys(c: Changes) -> Seq<Seq<char>> {
    change_keys(c.added_functions@.map_values(|f: FunctionChange| change_view(f)))
}

/// The keys of the removed functions.
pub open spec fn removed_keys(c: Changes) -> Seq<Seq<char>> {
    change_keys(c.removed_functions@.map_values(|f: FunctionChange| change_view(f)))
}

/// Comparing two snapshots lists as added exactly the functions (by
/// `file::name`) that the current one records and the previous one lacks,
/// and as removed exactly those that the previous one records and the
/// current one lacks; likewise the new and lost dependencies.
pub proof fn law_added_and_removed(current: Snapshot, previous: Snapshot, c: Changes)
    requires
        changes_match(current, previous, Some(c)),
    ensures
        forall|k: Seq<char>| #[trigger] added_keys(c).contains(k)
            <==> function_map(current.files@).dom().contains(k) && !function_map(previous.files@).dom().contains(k),
        forall|k: Seq<char>| #[trigger] removed_keys(c).contains(k)
            <==> function_map(previous.files@).dom().contains(k) && !function_map(current.files@).dom().contains(k),
        forall|x: Seq<char>| #[trigger] views(c.new_dependencies@).contains(x)
            <==> dependency_keys(current.dependencies@).contains(x) && !dependency_keys(previous.dependencies@).contains(x),
        forall|x: Seq<char>| #[trigger] views(c.lost_dependencies@).contains(x)
            <==> dependency_keys(previous.dependencies@).contains(x) && !dependency_keys(current.dependencies@).contains(x),
{
    let cm = function_map(current.files@);
    let pm = function_map(previous.files@);
    assert forall|k: Seq<char>| #[trigger] added_map(cm, pm).dom().contains(k) <==> cm.dom().contains(k) && !pm.dom().contains(k) by {}
    assert forall|k: Seq<char>| #[trigger] added_map(pm, cm).dom().contains(k) <==> pm.dom().contains(k) && !cm.dom().contains(k) by {}
}

/// A snapshot compared with itself shows no change, where each file path
/// appears once in it.
pub proof fn law_snapshot_against_itself(s: Snapshot, r: Option<Changes>)
    requires
        distinct_paths(s.files@),
        changes_match(s, s, r),
    ensures
        r is None,
{
    if r is Some {
        let c = r->0;
        let cm = function_map(s.files@);
        assert(added_map(cm, cm).dom() =~= Set::empty());
        assert(signature_map(cm, cm).dom() =~= Set::empty());
        let av = c.added_functions@.map_values(|f: FunctionChange| change_view(f));
        let rv = c.removed_functions@.map_values(|f: FunctionChange| change_view(f));
        let sv = c.signature_changes@.map_values(|f: SignatureChange| signature_view(f));
        if av.len() > 0 {
            assert(change_keys(av).contains(change_keys(av)[0]));
        }
        if rv.len() > 0 {
            assert(change_keys(rv).contains(change_keys(rv)[0]));
        }
        if sv.len() > 0 {
            assert(change_keys(sv).contains(change_keys(sv)[0]));
        }
        assert(s.files@.take(s.files@.len() as int) =~= s.files@);
        lemma_unmodified_prefix(s.files@, s.files@.len() as int);
        if c.new_dependencies@.len() > 0 {
            assert(views(c.new_dependencies@).contains(views(c.new_dependencies@)[0]));
        }
        if c.lost_dependencies@.len() > 0 {
            assert(views(c.lost_dependencies@).contains(views(c.lost_dependencies@)[0]));
        }
    }
}

} // verus!
