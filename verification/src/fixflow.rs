//! The decisions of the test-and-fix command: which test runners the
//! generated tests call for, how each runner is chosen, what a first test
//! run leads to, and the retry loop in which an AI agent repairs failing
//! tests. The command itself performs each action and reports each outcome.

use vstd::prelude::*;
use crate::text::{contains, contains_exec, ends_with, ends_with_exec, lit, views};

verus! {

/// The extensions whose tests run under a JavaScript test runner.
pub open spec fn ts_exts() -> Seq<Seq<char>> {
    seq!["ts"@, "tsx"@, "js"@, "jsx"@, "mts"@, "mjs"@]
}

/// The file's extension is `ext`.
pub open spec fn has_ext(file: Seq<char>, ext: Seq<char>) -> bool {
    crate::fixgen::path_extension(file) == Some(ext)
}

/// Some file has one of the extensions.
pub open spec fn any_ext(files: Seq<Seq<char>>, exts: Seq<Seq<char>>) -> bool {
    exists|i: int, j: int| 0 <= i < files.len() && 0 <= j < exts.len() && has_ext(#[trigger] files[i], #[trigger] exts[j])
}

/// Some file ends with `.rs`.
pub open spec fn any_rust(files: Seq<Seq<char>>) -> bool {
    exists|i: int| 0 <= i < files.len() && ends_with(#[trigger] files[i], ".rs"@)
}

/// The test runners to start.
#[derive(Debug, Clone, Copy, PartialEq, Eq, Structural)]
pub enum RunnerKind {
    JavaScript,
    Python,
    Rust,
}

/// The runners that the source files of the generated tests call for, in
/// the order they are started: JavaScript, then Python, then Rust.
pub open spec fn runners_for(files: Seq<Seq<char>>) -> Seq<RunnerKind> {
    let a: Seq<RunnerKind> = if any_ext(files, ts_exts()) { seq![RunnerKind::JavaScript] } else { Seq::empty() };
    let b: Seq<RunnerKind> = if any_ext(files, seq!["py"@, "pyi"@]) { seq![RunnerKind::Python] } else { Seq::empty() };
    let c: Seq<RunnerKind> = if any_rust(files) { seq![RunnerKind::Rust] } else { Seq::empty() };
    a + b + c
}

fn ext_among(files: &Vec<String>, exts: &Vec<Vec<char>>) -> (r: bool)
    ensures
        r == any_ext(views(files@), crate::text::vviews(exts@)),
{
    let mut i: usize = 0;
    while i < files.len()
        invariant
            i <= files@.len(),
            forall|a: int, b: int| 0 <= a < i && 0 <= b < exts@.len() ==> !has_ext(
                #[trigger] views(files@)[a],
                #[trigger] crate::text::vviews(exts@)[b],
            ),
        decreases files@.len() - i,
    {
        let e = crate::fixgen::file_extension(files[i].as_str());
        proof {
            assert(views(files@)[i as int] == files@[i as int]@);
        }
        match e {
            Some(x) => {
                let mut j: usize = 0;
                while j < exts.len()
                    invariant
                        j <= exts@.len(),
                        i < files@.len(),
                        views(files@)[i as int] == files@[i as int]@,
                        crate::fixgen::path_extension(files@[i as int]@) == Some(x@),
                        forall|a: int, b: int| 0 <= a < i && 0 <= b < exts@.len() ==> !has_ext(
                            #[trigger] views(files@)[a],
                            #[trigger] crate::text::vviews(exts@)[b],
                        ),
                        forall|b: int| 0 <= b < j ==> !has_ext(files@[i as int]@, #[trigger] crate::text::vviews(exts@)[b]),
                    decreases exts@.len() - j,
                {
                    proof {
                        assert(crate::text::vviews(exts@)[j as int] == exts@[j as int]@);
                    }
                    if crate::text::eq_chars(crate::text::chars_of(x.as_str()).as_slice(), exts[j].as_slice()) {
                        proof {
                            assert(has_ext(views(files@)[i as int], crate::text::vviews(exts@)[j as int]));
                        }
                        return true;
                    }
                    j = j + 1;
                }
            },
            None => {},
        }
        i = i + 1;
    }
    false
}

/// The runners that the source files of the generated tests call for (see
/// `runners_for`).
pub fn runners_needed(files: &Vec<String>) -> (r: Vec<RunnerKind>)
    ensures
        r@ == runners_for(views(files@)),
{
    let ts = vec![lit("ts"), lit("tsx"), lit("js"), lit("jsx"), lit("mts"), lit("mjs")];
    let py = vec![lit("py"), lit("pyi")];
    proof {
        assert(crate::text::vviews(ts@) =~= ts_exts());
        assert(crate::text::vviews(py@) =~= seq!["py"@, "pyi"@]);
    }
    let mut out: Vec<RunnerKind> = Vec::new();
    if ext_among(files, &ts) {
        out.push(RunnerKind::JavaScript);
    }
    if ext_among(files, &py) {
        out.push(RunnerKind::Python);
    }
    let rs = lit(".rs");
    let mut any_rs = false;
    let mut i: usize = 0;
    while i < files.len()
        invariant
            i <= files@.len(),
            rs@ == ".rs"@,
            any_rs == exists|a: int| 0 <= a < i && ends_with(#[trigger] views(files@)[a], ".rs"@),
        decreases files@.len() - i,
    {
        proof {
            assert(views(files@)[i as int] == files@[i as int]@);
        }
        if ends_with_exec(crate::text::chars_of(files[i].as_str()).as_slice(), rs.as_slice()) {
            any_rs = true;
        }
        i = i + 1;
    }
    if any_rs {
        out.push(RunnerKind::Rust);
    }
    proof {
        assert(out@ =~= runners_for(views(files@)));
    }
    out
}

/// The JavaScript runner: the one `package.json` names (vitest before
/// jest), else the one installed under `node_modules/.bin`, else vitest.
pub open spec fn ts_runner_spec(package_json: Option<Seq<char>>, vitest_bin: bool, jest_bin: bool) -> (Seq<char>, Seq<Seq<char>>) {
    let vitest = ("npx"@, seq!["vitest"@, "run"@]);
    let jest = ("npx"@, seq!["jest"@, "--passWithNoTests"@]);
    match package_json {
        Some(p) if contains(p, "vitest"@) => vitest,
        Some(p) if contains(p, "jest"@) => jest,
        _ => if vitest_bin { vitest } else if jest_bin { jest } else { vitest },
    }
}

/// The JavaScript test command (see `ts_runner_spec`), given the text of
/// `package.json` when it could be read and whether the vitest and jest
/// executables are installed.
pub fn ts_runner(package_json: Option<&str>, vitest_bin: bool, jest_bin: bool) -> (r: (String, Vec<String>))
    ensures
        (r.0@, views(r.1@)) == ts_runner_spec(
            match package_json { Some(p) => Some(p@), None => None },
            vitest_bin,
            jest_bin,
        ),
{
    let use_vitest = match package_json {
        Some(p) => {
            let c = crate::text::chars_of(p);
            if contains_exec(c.as_slice(), lit("vitest").as_slice()) {
                true
            } else if contains_exec(c.as_slice(), lit("jest").as_slice()) {
                false
            } else {
                vitest_bin || !jest_bin
            }
        },
        None => vitest_bin || !jest_bin,
    };
    if use_vitest {
        let args = vec![String::from_str("vitest"), String::from_str("run")];
        proof {
            assert(views(args@) =~= seq!["vitest"@, "run"@]);
        }
        (String::from_str("npx"), args)
    } else {
        let args = vec![String::from_str("jest"), String::from_str("--passWithNoTests")];
        proof {
            assert(views(args@) =~= seq!["jest"@, "--passWithNoTests"@]);
        }
        (String::from_str("npx"), args)
    }
}

/// The Python runner: `pytest` when it answers, else `python -m pytest`
/// when that answers (`python` on Windows, `python3` elsewhere), else none.
pub open spec fn py_runner_spec(pytest_ok: bool, module_ok: bool, windows: bool) -> Option<(Seq<char>, Seq<Seq<char>>)> {
    if pytest_ok {
        Some(("pytest"@, seq!["-v"@, "--tb=short"@, "--rootdir=."@]))
    } else if module_ok {
        Some((if windows { "python"@ } else { "python3"@ }, seq!["-m"@, "pytest"@, "-v"@, "--tb=short"@, "--rootdir=."@]))
    } else {
        None
    }
}

/// The Python interpreter asked for `-m pytest`.
pub fn python_command(windows: bool) -> (r: String)
    ensures
        r@ == (if windows { "python"@ } else { "python3"@ }),
{
    if windows { String::from_str("python") } else { String::from_str("python3") }
}

/// The Python test command (see `py_runner_spec`), given whether `pytest
/// --version` and `python -m pytest --version` succeeded.
pub fn py_runner(pytest_ok: bool, module_ok: bool, windows: bool) -> (r: Option<(String, Vec<String>)>)
    ensures
        match r {
            Some(x) => py_runner_spec(pytest_ok, module_ok, windows) == Some((x.0@, views(x.1@))),
            None => py_runner_spec(pytest_ok, module_ok, windows) is None,
        },
{
    if pytest_ok {
        let args = vec![String::from_str("-v"), String::from_str("--tb=short"), String::from_str("--rootdir=.")];
        proof {
            assert(views(args@) =~= seq!["-v"@, "--tb=short"@, "--rootdir=."@]);
        }
        Some((String::from_str("pytest"), args))
    } else if module_ok {
        let args = vec![
            String::from_str("-m"),
            String::from_str("pytest"),
            String::from_str("-v"),
            String::from_str("--tb=short"),
            String::from_str("--rootdir=."),
        ];
        proof {
            assert(views(args@) =~= seq!["-m"@, "pytest"@, "-v"@, "--tb=short"@, "--rootdir=."@]);
        }
        Some((python_command(windows), args))
    } else {
        None
    }
}

/// What the first run of the generated tests leads to.
#[derive(Debug, Clone, Copy, PartialEq, Eq, Structural)]
pub enum RunVerdict {
    /// No runner could be started.
    NoRunner,
    /// Every runner passed.
    AllPassed,
    /// Some tests failed and no AI fixing was asked for: the command fails.
    Failed,
    /// Some tests failed: hand them to an AI agent.
    StartFixing,
}

/// What the first test run leads to.
pub fn run_verdict(any_ran: bool, any_failed: bool, auto: bool) -> (r: RunVerdict)
    ensures
        r == (if !any_ran {
            RunVerdict::NoRunner
        } else if !any_failed {
            RunVerdict::AllPassed
        } else if !auto {
            RunVerdict::Failed
        } else {
            RunVerdict::StartFixing
        }),
{
    if !any_ran {
        RunVerdict::NoRunner
    } else if !any_failed {
        RunVerdict::AllPassed
    } else if !auto {
        RunVerdict::Failed
    } else {
        RunVerdict::StartFixing
    }
}

/// Where the fixing loop stands: the attempt under way (from one) out of
/// `max_retries`.
#[derive(Debug, Clone, Copy, PartialEq, Eq, Structural)]
pub struct FixLoop {
    pub attempt: u32,
    pub max_retries: u32,
}

/// What the loop asks for next.
#[derive(Debug, Clone, Copy, PartialEq, Eq, Structural)]
pub enum FixAction {
    /// Run the tests and report how many failed.
    RunTests,
    /// Send the failures to the AI agent and report whether it answered.
    AskAi,
    /// Apply the answer, rerun the tests and report how many failed.
    Rerun,
    /// Every test passes.
    Passed,
    /// The attempts are used up with tests still failing.
    GaveUp,
}

/// What happened when the last action was performed.
#[derive(Debug, Clone, Copy, PartialEq, Eq, Structural)]
pub enum FixEvent {
    /// The tests ran with this many failures.
    TestsRan(usize),
    /// The agent answered (`true`) or failed (`false`).
    AiAnswered(bool),
    /// The tests ran again after the answer was applied, with this many
    /// failures.
    Reran(usize),
}

/// The state after a finished attempt: the next attempt, or giving up after
/// the last.
pub open spec fn next_attempt(s: FixLoop) -> (FixLoop, FixAction) {
    if s.attempt >= s.max_retries {
        (s, FixAction::GaveUp)
    } else {
        (FixLoop { attempt: (s.attempt + 1) as u32, max_retries: s.max_retries }, FixAction::RunTests)
    }
}

/// One step of the loop. An attempt runs the tests; if none fails the loop
/// ends, else the failures go to the agent; an agent that fails ends the
/// attempt, one that answers has its edits applied and the tests rerun; if
/// none fails then the loop ends, else the attempt ends. After the last
/// attempt the loop gives up.
pub open spec fn fix_step_spec(s: FixLoop, e: FixEvent) -> (FixLoop, FixAction) {
    match e {
        FixEvent::TestsRan(n) => if n == 0 { (s, FixAction::Passed) } else { (s, FixAction::AskAi) },
        FixEvent::AiAnswered(ok) => if ok { (s, FixAction::Rerun) } else { next_attempt(s) },
        FixEvent::Reran(n) => if n == 0 { (s, FixAction::Passed) } else { next_attempt(s) },
    }
}

/// The loop's first state and action: the first attempt, or giving up at
/// once when no attempt is allowed.
pub fn fix_start(max_retries: u32) -> (r: (FixLoop, FixAction))
    ensures
        r.0 == (FixLoop { attempt: 1, max_retries }),
        r.1 == (if max_retries == 0 { FixAction::GaveUp } else { FixAction::RunTests }),
{
    let s = FixLoop { attempt: 1, max_retries };
    if max_retries == 0 { (s, FixAction::GaveUp) } else { (s, FixAction::RunTests) }
}

/// One step of the fixing loop (see `fix_step_spec`).
pub fn fix_step(s: FixLoop, e: FixEvent) -> (r: (FixLoop, FixAction))
    ensures
        r == fix_step_spec(s, e),
{
    let finished = if s.attempt >= s.max_retries {
        (s, FixAction::GaveUp)
    } else {
        (FixLoop { attempt: s.attempt + 1, max_retries: s.max_retries }, FixAction::RunTests)
    };
    match e {
        FixEvent::TestsRan(n) => if n == 0 { (s, FixAction::Passed) } else { (s, FixAction::AskAi) },
        FixEvent::AiAnswered(ok) => if ok { (s, FixAction::Rerun) } else { finished },
        FixEvent::Reran(n) => if n == 0 { (s, FixAction::Passed) } else { finished },
    }
}

/// The loop never runs past its last attempt: from a state within the
/// attempts, every step stays within them.
pub proof fn law_fix_loop_bounded(s: FixLoop, e: FixEvent)
    requires
        1 <= s.attempt <= s.max_retries,
    ensures
        1 <= fix_step_spec(s, e).0.attempt <= fix_step_spec(s, e).0.max_retries,
        fix_step_spec(s, e).0.max_retries == s.max_retries,
        fix_step_spec(s, e).0.attempt >= s.attempt,
{
}

} // verus!
