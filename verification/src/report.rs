//! What the command line shows of a verification: each change told in a
//! few words with the part worth highlighting, what to do about it, how
//! serious it is, the colour of the risk, and which changes to check when
//! none are named.

use vstd::prelude::*;
use crate::numtext::{decimal, decimal_string};
use crate::text::{chars_of, ends_with, ends_with_exec, lit, starts_with, starts_with_exec, string_of};
use crate::verify::{ChangeRisk, DiffSpec, SemanticChangeKind};

verus! {

/// How a piece of text is shown.
#[derive(Debug, Clone, Copy, PartialEq, Eq, Structural)]
pub enum Tint {
    Plain,
    Cyan,
    Red,
    RedBold,
    Yellow,
    Green,
}

/// `s` without the prefix `p`, when it has it.
pub open spec fn strip_prefix(s: Seq<char>, p: Seq<char>) -> Seq<char> {
    if starts_with(s, p) { s.skip(p.len() as int) } else { s }
}

/// `s` without the suffix `p`, when it has it.
pub open spec fn strip_suffix(s: Seq<char>, p: Seq<char>) -> Seq<char> {
    if ends_with(s, p) { s.take(s.len() - p.len()) } else { s }
}

/// The name a description of the form `PREFIX'NAME'` quotes.
pub open spec fn quoted_in(original: Seq<char>, prefix: Seq<char>) -> Seq<char> {
    strip_suffix(strip_prefix(original, prefix), "'"@)
}

/// A change told in a few words: a plain lead, then a part shown with a
/// tint. New and removed functions by name, complexity by its old and new
/// value; signatures and API changes in yellow, control flow in red, other
/// changes as they are.
pub open spec fn simplified(kind: SemanticChangeKind, original: Seq<char>) -> (Seq<char>, Seq<char>, Tint) {
    match kind {
        SemanticChangeKind::FunctionAdded => ("New function "@, quoted_in(original, "New function '"@), Tint::Cyan),
        SemanticChangeKind::FunctionRemoved => ("Removed "@, quoted_in(original, "Removed function '"@), Tint::Red),
        SemanticChangeKind::SignatureChange => (Seq::empty(), original, Tint::Yellow),
        SemanticChangeKind::ComplexityChange { old, new } => if new > old {
            ("Complexity increased "@ + decimal(old as nat) + " → "@, decimal(new as nat), Tint::Red)
        } else {
            ("Complexity decreased "@ + decimal(old as nat) + " → "@, decimal(new as nat), Tint::Green)
        },
        SemanticChangeKind::ApiSurfaceChange => (Seq::empty(), original, Tint::Yellow),
        SemanticChangeKind::ControlFlowChange => (Seq::empty(), original, Tint::Red),
        _ => (Seq::empty(), original, Tint::Plain),
    }
}

fn strip_prefix_exec(s: &Vec<char>, p: &Vec<char>) -> (r: Vec<char>)
    ensures
        r@ == strip_prefix(s@, p@),
{
    if starts_with_exec(s.as_slice(), p.as_slice()) {
        crate::text::slice_chars(s.as_slice(), p.len(), s.len())
    } else {
        crate::text::slice_chars(s.as_slice(), 0, s.len())
    }
}

fn strip_suffix_exec(s: &Vec<char>, p: &Vec<char>) -> (r: Vec<char>)
    ensures
        r@ == strip_suffix(s@, p@),
{
    if ends_with_exec(s.as_slice(), p.as_slice()) {
        crate::text::slice_chars(s.as_slice(), 0, s.len() - p.len())
    } else {
        crate::text::slice_chars(s.as_slice(), 0, s.len())
    }
}

fn quoted_in_exec(original: &str, prefix: &str) -> (r: String)
    ensures
        r@ == quoted_in(original@, prefix@),
{
    let a = strip_prefix_exec(&chars_of(original), &lit(prefix));
    string_of(strip_suffix_exec(&a, &lit("'")).as_slice())
}

/// A change told in a few words (see `simplified`).
pub fn simplify_description(kind: SemanticChangeKind, original: &str) -> (r: (String, String, Tint))
    ensures
        (r.0@, r.1@, r.2) == simplified(kind, original@),
{
    match kind {
        SemanticChangeKind::FunctionAdded => (String::from_str("New function "), quoted_in_exec(original, "New function '"), Tint::Cyan),
        SemanticChangeKind::FunctionRemoved => (String::from_str("Removed "), quoted_in_exec(original, "Removed function '"), Tint::Red),
        SemanticChangeKind::SignatureChange => (String::new(), String::from_str(original), Tint::Yellow),
        SemanticChangeKind::ComplexityChange { old, new } => {
            let mut lead = if new > old {
                String::from_str("Complexity increased ")
            } else {
                String::from_str("Complexity decreased ")
            };
            lead.append(decimal_string(old as u64).as_str());
            lead.append(" → ");
            (lead, decimal_string(new as u64), if new > old { Tint::Red } else { Tint::Green })
        },
        SemanticChangeKind::ApiSurfaceChange => (String::new(), String::from_str(original), Tint::Yellow),
        SemanticChangeKind::ControlFlowChange => (String::new(), String::from_str(original), Tint::Red),
        _ => {
            let r = (String::new(), String::from_str(original), Tint::Plain);
            proof {
                assert(r.0@ =~= Seq::<char>::empty());
            }
            r
        },
    }
}

/// What to do about a change: update callers of a breaking signature,
/// check consumers of a removed function, test a new one that needs review,
/// split a function past twenty in complexity, review security-sensitive
/// control flow.
pub open spec fn action_for(kind: SemanticChangeKind, risk: ChangeRisk) -> Option<Seq<char>> {
    match (kind, risk) {
        (SemanticChangeKind::SignatureChange, ChangeRisk::Breaking) => Some("Update all callers or add a backward-compatible wrapper"@),
        (SemanticChangeKind::FunctionRemoved, ChangeRisk::Breaking) => Some("Verify no external consumers depend on this"@),
        (SemanticChangeKind::FunctionAdded, ChangeRisk::NeedsReview) => Some("Add tests for the new function"@),
        (SemanticChangeKind::ComplexityChange { old: _, new }, _) if new > 20 => Some("Consider splitting into smaller functions"@),
        (SemanticChangeKind::ControlFlowChange, ChangeRisk::SecuritySensitive) => Some("Requires security review"@),
        _ => None,
    }
}

/// What to do about a change (see `action_for`).
pub fn suggest_action(kind: SemanticChangeKind, risk: ChangeRisk) -> (r: Option<String>)
    ensures
        match r {
            Some(s) => action_for(kind, risk) == Some(s@),
            None => action_for(kind, risk) is None,
        },
{
    match (kind, risk) {
        (SemanticChangeKind::SignatureChange, ChangeRisk::Breaking) => Some(String::from_str("Update all callers or add a backward-compatible wrapper")),
        (SemanticChangeKind::FunctionRemoved, ChangeRisk::Breaking) => Some(String::from_str("Verify no external consumers depend on this")),
        (SemanticChangeKind::FunctionAdded, ChangeRisk::NeedsReview) => Some(String::from_str("Add tests for the new function")),
        (SemanticChangeKind::ComplexityChange { old: _, new }, _) if new > 20 => Some(String::from_str("Consider splitting into smaller functions")),
        (SemanticChangeKind::ControlFlowChange, ChangeRisk::SecuritySensitive) => Some(String::from_str("Requires security review")),
        _ => None,
    }
}

/// How a finding counts in the summary.
#[derive(Debug, Clone, Copy, PartialEq, Eq, Structural)]
pub enum Severity {
    Error,
    Warning,
    Info,
}

/// Breaking and security-sensitive changes are errors, those needing review
/// warnings, safe ones informational.
pub fn severity_of(risk: ChangeRisk) -> (r: Severity)
    ensures
        r == match risk {
            ChangeRisk::Breaking => Severity::Error,
            ChangeRisk::SecuritySensitive => Severity::Error,
            ChangeRisk::NeedsReview => Severity::Warning,
            ChangeRisk::Safe => Severity::Info,
        },
{
    match risk {
        ChangeRisk::Breaking => Severity::Error,
        ChangeRisk::SecuritySensitive => Severity::Error,
        ChangeRisk::NeedsReview => Severity::Warning,
        ChangeRisk::Safe => Severity::Info,
    }
}

/// The colour of a risk in hundredths: red from fifty, yellow from twenty,
/// green below.
pub fn risk_tint(percent: u32) -> (r: Tint)
    ensures
        r == (if percent >= 50 { Tint::RedBold } else if percent >= 20 { Tint::Yellow } else { Tint::Green }),
{
    if percent >= 50 {
        Tint::RedBold
    } else if percent >= 20 {
        Tint::Yellow
    } else {
        Tint::Green
    }
}

/// What to check when no file is named: the staged changes if there are
/// any, else the working changes if there are any, else the last commit.
pub fn detect_best_diff(staged: bool, working: bool) -> (r: DiffSpec)
    ensures
        staged ==> r is Staged,
        !staged && working ==> r is WorkingDir,
        !staged && !working ==> (r matches DiffSpec::GitDiff { base, head } && base@ == "HEAD~1"@ && head@ == "HEAD"@),
{
    if staged {
        DiffSpec::Staged
    } else if working {
        DiffSpec::WorkingDir
    } else {
        DiffSpec::GitDiff { base: String::from_str("HEAD~1"), head: String::from_str("HEAD") }
    }
}

/// What the verify command checks: the diff against a given ref, else the
/// given files, else the working changes.
pub fn verify_target(diff: Option<String>, files: Vec<String>) -> (r: DiffSpec)
    ensures
        diff matches Some(d) ==> (r matches DiffSpec::GitDiff { base, head } && base@ == d@ && head@ == "HEAD"@),
        diff is None && files@.len() > 0 ==> (r matches DiffSpec::Files(fs) && fs@ == files@),
        diff is None && files@.len() == 0 ==> r is WorkingDir,
{
    match diff {
        Some(d) => DiffSpec::GitDiff { base: d, head: String::from_str("HEAD") },
        None => if files.len() > 0 { DiffSpec::Files(files) } else { DiffSpec::WorkingDir },
    }
}

/// How a check ends.
#[derive(Debug, Clone, Copy, PartialEq, Eq, Structural)]
pub enum Verdict {
    /// Some error: the check fails.
    Fail,
    /// Warnings only.
    Warn,
    /// Nothing to report.
    Pass,
}

pub fn verdict(errors: usize, warnings: usize) -> (r: Verdict)
    ensures
        r == (if errors > 0 { Verdict::Fail } else if warnings > 0 { Verdict::Warn } else { Verdict::Pass }),
{
    if errors > 0 {
        Verdict::Fail
    } else if warnings > 0 {
        Verdict::Warn
    } else {
        Verdict::Pass
    }
}

/// The last segment of a node's name (the empty text when it has none).
pub fn short_name(node: &crate::node::UsirNode) -> (r: String)
    ensures
        r@ == (if node.name_spec().segments@.len() > 0 { node.name_spec().segments@.last()@ } else { Seq::empty() }),
{
    let n = node.name();
    let k = n.segments.len();
    if k > 0 {
        crate::text::copy_string(&n.segments[k - 1])
    } else {
        String::new()
    }
}

/// A file's text with a line added when it does not mention `word` yet:
/// the text without its trailing whitespace, a line break, the line and a
/// line break; just the line and a line break for a file that does not
/// exist; `None` when the file already mentions the word.
pub open spec fn with_line(existing: Option<Seq<char>>, word: Seq<char>, line: Seq<char>) -> Option<Seq<char>> {
    match existing {
        Some(c) => if crate::text::contains(c, word) {
            None
        } else {
            Some(crate::text::trim_end(c) + seq!['\n'] + line + seq!['\n'])
        },
        None => Some(line + seq!['\n']),
    }
}

/// A file's text with a line added (see `with_line`).
pub fn append_if_missing(existing: Option<&str>, word: &str, line: &str) -> (r: Option<String>)
    ensures
        match r {
            Some(s) => with_line(match existing { Some(e) => Some(e@), None => None }, word@, line@) == Some(s@),
            None => with_line(match existing { Some(e) => Some(e@), None => None }, word@, line@) is None,
        },
{
    match existing {
        Some(c) => {
            let cc = chars_of(c);
            if crate::text::contains_exec(cc.as_slice(), chars_of(word).as_slice()) {
                None
            } else {
                let t = crate::text::trim_end_exec(cc.as_slice());
                let mut s = string_of(t.as_slice());
                crate::text::push_char(&mut s, '\n');
                s.append(line);
                crate::text::push_char(&mut s, '\n');
                Some(s)
            }
        },
        None => {
            let mut s = String::from_str(line);
            crate::text::push_char(&mut s, '\n');
            Some(s)
        },
    }
}

} // verus!
