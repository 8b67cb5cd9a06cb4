use houndlens::tool_runner::{shell_line, ToolRun};
use houndlens::config::Config;
use houndlens::diff::{diff_file, diff_parse_results, SourceVersion};
use houndlens::engine::Engine;
use houndlens::fixflow::{
    fix_start, fix_step, py_runner, run_verdict, runners_needed, ts_runner, FixAction, FixEvent, RunVerdict, RunnerKind,
};
use houndlens::frontends::RustFrontend;
use houndlens::graph::SemanticGraph;
use houndlens::index::{ChangeKind, ChangedFile};
use houndlens::pipeline::{base_ref_of, changed_files_args, changed_files_of, git_lines, risk_score};
use houndlens::report::{
    append_if_missing, detect_best_diff, risk_tint, severity_of, simplify_description, suggest_action, verdict, Severity,
    Tint, Verdict,
};
use houndlens::rustlang::RustParser;
use houndlens::status::{bar_filled, health_score, language_for, project_stats, sort_flags, sort_languages, Flagged, Language};
use houndlens::verify::{ChangeRisk, DiffSpec, SemanticChange, SemanticChangeKind};

fn rust(src: &[u8], next: u64) -> houndlens::frontend::ParseResult {
    let mut n = next;
    RustParser::new().parse("src/lib.rs", src, &mut n).unwrap()
}

fn change(risk: ChangeRisk) -> SemanticChange {
    SemanticChange {
        location: houndlens::ir::SourceSpan {
            file: "a.rs".to_string(),
            start_byte: 0,
            end_byte: 0,
            start_line: 1,
            start_col: 0,
            end_line: 1,
            end_col: 0,
        },
        kind: SemanticChangeKind::ControlFlowChange,
        description: String::new(),
        risk,
    }
}

fn flag(name: &str, amount: usize) -> Flagged {
    Flagged { name: name.to_string(), file: "a.rs".to_string(), line: 1, amount }
}

// ─── Status ────────────────────────────────────────────────────

#[test]
fn languages_by_extension() {
    assert_eq!(language_for("src/main.rs"), Language::Rust);
    assert_eq!(language_for("web/app.tsx"), Language::TypeScript);
    assert_eq!(language_for("web/app.jsx"), Language::TypeScript);
    assert_eq!(language_for("tool.pyi"), Language::Python);
    assert_eq!(language_for("README.md"), Language::Other);
    assert_eq!(language_for("Makefile"), Language::Other);
    assert_eq!(Language::TypeScript.label(), "TypeScript");
}

#[test]
fn health_score_penalties_are_capped() {
    assert_eq!(health_score(0, 0), 100);
    assert_eq!(health_score(2, 1), 92);
    assert_eq!(health_score(10, 0), 70);
    assert_eq!(health_score(50, 50), 55);
    assert_eq!(bar_filled(100), 20);
    assert_eq!(bar_filled(92), 18);
    assert_eq!(bar_filled(55), 11);
}

#[test]
fn flags_sort_largest_first_keeping_ties_in_order() {
    let v = vec![flag("a", 16), flag("b", 30), flag("c", 16), flag("d", 20)];
    let names: Vec<String> = sort_flags(&v).into_iter().map(|f| f.name).collect();
    assert_eq!(names, vec!["b", "d", "a", "c"]);
    let l = vec![(Language::Rust, 2), (Language::Python, 5), (Language::Other, 2)];
    assert_eq!(sort_languages(&l), vec![(Language::Python, 5), (Language::Rust, 2), (Language::Other, 2)]);
}

#[test]
fn project_stats_of_an_indexed_file() {
    let src = br#"
pub fn wide(a: i32, b: i32, c: i32, d: i32, e: i32) -> i32 { a + b + c + d + e }
fn small() {}
pub struct Point { x: i32 }
"#;
    let mut engine = Engine::init("/p", Config::defaults_for("/p")).unwrap();
    let changes = vec![ChangedFile { path: "src/lib.rs".to_string(), content: src.to_vec(), kind: ChangeKind::Added }];
    engine.index(&changes, 0).unwrap();
    let stats = project_stats(&engine.graph);
    assert_eq!(stats.files, vec!["src/lib.rs".to_string()]);
    assert_eq!(stats.functions, 2);
    assert_eq!(stats.public_functions, 1);
    assert_eq!(stats.types, 1);
    assert_eq!(stats.hotspots.len(), 0);
    assert_eq!(stats.wide.len(), 1);
    assert_eq!(stats.wide[0].name, "wide");
    assert_eq!(stats.wide[0].file, "lib.rs");
    assert_eq!(stats.wide[0].amount, 5);
    assert_eq!(stats.health, 98);
    assert_eq!(stats.languages.len(), 1);
    assert_eq!(stats.languages[0].0, Language::Rust);
}

// ─── Report ────────────────────────────────────────────────────

#[test]
fn descriptions_are_simplified() {
    let (lead, part, tint) = simplify_description(SemanticChangeKind::FunctionAdded, "New function 'login'");
    assert_eq!((lead.as_str(), part.as_str(), tint), ("New function ", "login", Tint::Cyan));
    let (lead, part, tint) = simplify_description(SemanticChangeKind::ComplexityChange { old: 3, new: 12 }, "x");
    assert_eq!((lead.as_str(), part.as_str(), tint), ("Complexity increased 3 → ", "12", Tint::Red));
    let (lead, part, tint) = simplify_description(SemanticChangeKind::ComplexityChange { old: 9, new: 4 }, "x");
    assert_eq!((lead.as_str(), part.as_str(), tint), ("Complexity decreased 9 → ", "4", Tint::Green));
}

#[test]
fn actions_severities_and_verdicts() {
    assert_eq!(
        suggest_action(SemanticChangeKind::SignatureChange, ChangeRisk::Breaking).as_deref(),
        Some("Update all callers or add a backward-compatible wrapper")
    );
    assert_eq!(
        suggest_action(SemanticChangeKind::ComplexityChange { old: 1, new: 21 }, ChangeRisk::Safe).as_deref(),
        Some("Consider splitting into smaller functions")
    );
    assert_eq!(suggest_action(SemanticChangeKind::TypeChange, ChangeRisk::Breaking), None);
    assert_eq!(severity_of(ChangeRisk::SecuritySensitive), Severity::Error);
    assert_eq!(severity_of(ChangeRisk::Safe), Severity::Info);
    assert_eq!(risk_tint(50), Tint::RedBold);
    assert_eq!(risk_tint(19), Tint::Green);
    assert_eq!(verdict(1, 0), Verdict::Fail);
    assert_eq!(verdict(0, 2), Verdict::Warn);
    assert_eq!(verdict(0, 0), Verdict::Pass);
    assert!(matches!(detect_best_diff(true, true), DiffSpec::Staged));
    assert!(matches!(detect_best_diff(false, true), DiffSpec::WorkingDir));
    assert!(matches!(detect_best_diff(false, false), DiffSpec::GitDiff { .. }));
}

#[test]
fn pointer_lines_are_appended_once() {
    assert_eq!(append_if_missing(None, "omnilens", "see docs").as_deref(), Some("see docs\n"));
    assert_eq!(append_if_missing(Some("# Notes  \n\n"), "omnilens", "see docs").as_deref(), Some("# Notes\nsee docs\n"));
    assert_eq!(append_if_missing(Some("uses omnilens"), "omnilens", "see docs"), None);
}

// ─── Pipeline ──────────────────────────────────────────────────

#[test]
fn risk_weighs_changes_files_and_violations() {
    assert_eq!(risk_score(&vec![], 0, false), 0);
    let v = vec![change(ChangeRisk::Breaking), change(ChangeRisk::NeedsReview), change(ChangeRisk::Safe)];
    assert_eq!(risk_score(&v, 2, false), 35);
    assert_eq!(risk_score(&v, 2, true), 50);
    let many: Vec<SemanticChange> = (0..5).map(|_| change(ChangeRisk::Breaking)).collect();
    assert_eq!(risk_score(&many, 1, true), 100);
}

#[test]
fn git_listing_and_refs() {
    assert_eq!(git_lines("a.rs\n\nb.ts\n"), vec!["a.rs".to_string(), "b.ts".to_string()]);
    let d = DiffSpec::GitDiff { base: "HEAD~1".to_string(), head: "HEAD".to_string() };
    assert_eq!(changed_files_args(&d).unwrap(), vec!["diff", "--name-only", "HEAD~1", "HEAD"]);
    assert_eq!(changed_files_args(&DiffSpec::Staged).unwrap(), vec!["diff", "--name-only", "--cached"]);
    assert!(changed_files_args(&DiffSpec::Files(vec!["x.rs".to_string()])).is_none());
    assert_eq!(base_ref_of(&d, None).as_deref(), Some("HEAD~1"));
    assert_eq!(base_ref_of(&DiffSpec::WorkingDir, None).as_deref(), Some("HEAD"));
    assert_eq!(base_ref_of(&DiffSpec::Files(vec![]), Some("abc".to_string())).as_deref(), Some("abc"));
    assert_eq!(changed_files_of(&DiffSpec::Files(vec!["x.rs".to_string()]), "y.rs\n"), vec!["x.rs".to_string()]);
    assert_eq!(changed_files_of(&DiffSpec::Staged, "y.rs\n\nz.rs"), vec!["y.rs".to_string(), "z.rs".to_string()]);
}

// ─── Semantic diff ─────────────────────────────────────────────

#[test]
fn an_unchanged_file_has_no_semantic_change() {
    let src = b"pub fn f(a: i32) -> i32 { if a > 0 { a } else { 0 } }\n";
    let g = SemanticGraph::new();
    let changes = diff_parse_results(&rust(src, 1), &rust(src, 100), &g);
    assert!(changes.is_empty());
}

#[test]
fn function_changes_are_told() {
    let g = SemanticGraph::new();
    let old = rust(b"pub fn f(a: i32) -> i32 { a }\nfn gone() {}\n", 1);
    let new = rust(b"fn f(a: i32, b: i32) -> i64 { if a > b { 1 } else if a > 0 { 2 } else if b > 0 { 3 } else { 4 } }\npub fn added() {}\n", 100);
    let changes = diff_parse_results(&old, &new, &g);
    let kinds: Vec<SemanticChangeKind> = changes.iter().map(|c| c.kind).collect();
    assert!(kinds.contains(&SemanticChangeKind::FunctionAdded));
    assert!(kinds.contains(&SemanticChangeKind::FunctionRemoved));
    assert!(kinds.contains(&SemanticChangeKind::SignatureChange));
    assert!(kinds.contains(&SemanticChangeKind::ApiSurfaceChange));
    assert!(kinds.contains(&SemanticChangeKind::ComplexityChange { old: 1, new: 7 }));
    let added = changes.iter().find(|c| c.kind == SemanticChangeKind::FunctionAdded).unwrap();
    assert_eq!(added.risk, ChangeRisk::NeedsReview);
    let removed = changes.iter().find(|c| c.kind == SemanticChangeKind::FunctionRemoved).unwrap();
    assert_eq!(removed.risk, ChangeRisk::Safe);
}

#[test]
fn new_and_deleted_files() {
    let g = SemanticGraph::new();
    let added = diff_file(&SourceVersion::Absent, &SourceVersion::Parsed(rust(b"pub fn a() {}\n", 1)), &g);
    assert_eq!(added.len(), 1);
    assert_eq!(added[0].kind, SemanticChangeKind::FunctionAdded);
    let removed = diff_file(&SourceVersion::Parsed(rust(b"pub fn a() {}\n", 1)), &SourceVersion::Absent, &g);
    assert_eq!(removed.len(), 1);
    assert_eq!(removed[0].kind, SemanticChangeKind::FunctionRemoved);
    assert!(diff_file(&SourceVersion::Absent, &SourceVersion::Absent, &g).is_empty());
}

// ─── Fix flow ──────────────────────────────────────────────────

#[test]
fn runners_follow_the_languages() {
    let files = vec!["src/lib.rs".to_string(), "app/x.py".to_string(), "web/a.mjs".to_string()];
    assert_eq!(runners_needed(&files), vec![RunnerKind::JavaScript, RunnerKind::Python, RunnerKind::Rust]);
    assert_eq!(runners_needed(&vec!["a.pyi".to_string()]), vec![RunnerKind::Python]);
    let (cmd, args) = ts_runner(Some("{\"devDependencies\":{\"jest\":\"1\"}}"), true, false);
    assert_eq!((cmd.as_str(), args), ("npx", vec!["jest".to_string(), "--passWithNoTests".to_string()]));
    let (_, args) = ts_runner(None, false, false);
    assert_eq!(args, vec!["vitest".to_string(), "run".to_string()]);
    let (cmd, args) = py_runner(false, true, false).unwrap();
    assert_eq!(cmd, "python3");
    assert_eq!(args[0], "-m");
    assert!(py_runner(false, false, true).is_none());
}

#[test]
fn the_fix_loop_stops_after_its_attempts() {
    assert_eq!(run_verdict(false, true, true), RunVerdict::NoRunner);
    assert_eq!(run_verdict(true, false, true), RunVerdict::AllPassed);
    assert_eq!(run_verdict(true, true, false), RunVerdict::Failed);
    assert_eq!(run_verdict(true, true, true), RunVerdict::StartFixing);
    let (mut s, mut a) = fix_start(2);
    assert_eq!(a, FixAction::RunTests);
    let mut steps = 0;
    while a != FixAction::GaveUp && a != FixAction::Passed {
        let e = match a {
            FixAction::RunTests => FixEvent::TestsRan(3),
            FixAction::AskAi => FixEvent::AiAnswered(true),
            _ => FixEvent::Reran(3),
        };
        let (s2, a2) = fix_step(s, e);
        assert!(1 <= s2.attempt && s2.attempt <= 2);
        s = s2;
        a = a2;
        steps += 1;
    }
    assert_eq!(a, FixAction::GaveUp);
    assert_eq!(steps, 6);
    assert_eq!(fix_start(0).1, FixAction::GaveUp);
    assert_eq!(fix_step(s, FixEvent::TestsRan(0)).1, FixAction::Passed);
}

#[test]
fn registered_extensions_and_marker_files() {
    let mut engine = Engine::init("/p", Config::defaults_for("/p")).unwrap();
    let all: Vec<&str> = vec!["rs", "ts", "tsx", "js", "jsx", "mts", "mjs", "py", "pyi"];
    assert_eq!(engine.all_extensions(), all.iter().map(|s| s.to_string()).collect::<Vec<String>>());
    engine.register_frontend(Box::new(RustFrontend::new()), 500_000);
    assert_eq!(engine.all_extensions().len(), 10);
    assert_eq!(houndlens::frontend::detect_frontends("/p").len(), 3);
    let markers = houndlens::snapshot::tooling_marker_files();
    assert_eq!(markers.len(), 23);
    assert_eq!(markers[0], "tsconfig.json");
    assert_eq!(markers[22], "Cargo.toml");
}

#[test]
fn a_parsed_file_is_indexed_and_a_python_file_too() {
    let mut engine = Engine::init("/p", Config::defaults_for("/p")).unwrap();
    let changes = vec![
        ChangedFile { path: "a.py".to_string(), content: b"def f():\n    pass\n".to_vec(), kind: ChangeKind::Added },
        ChangedFile { path: "notes.md".to_string(), content: b"# x\n".to_vec(), kind: ChangeKind::Added },
    ];
    let r = engine.index(&changes, 0).unwrap();
    assert_eq!(r.files_analyzed, 1);
    assert_eq!(r.nodes_added, 1);
}

#[test]
fn tool_command_lines() {
    let files = vec!["a.ts".to_string(), "b.ts".to_string()];
    assert_eq!(
        shell_line(&ToolRun::Eslint { files: files.clone() }).as_deref(),
        Some("npx eslint --format json a.ts b.ts 2>/dev/null")
    );
    assert_eq!(
        shell_line(&ToolRun::TypeCheck { command: "npx tsc --noEmit".to_string(), files }).as_deref(),
        Some("npx tsc --noEmit 2>&1")
    );
    assert_eq!(
        shell_line(&ToolRun::PythonCompile { file: "x.py".to_string() }).as_deref(),
        Some("python -m py_compile x.py 2>&1")
    );
    assert!(shell_line(&ToolRun::CargoCheck).is_none());
}
