//! The exchange with an AI assistant that fixes failing tests: the request
//! the tool sends, the reply it reads back, the prompt it writes, and the
//! reading of test-runner output into structured failures.

use vstd::prelude::*;
use crate::numtext::{decimal, decimal_string, is_digit, parse_u32, parse_u32_spec};
use crate::text::{
    chars_of, contains, contains_exec, find, find_exec, lines, lines_exec, lit,
    lemma_find_bounds, slice_chars, starts_with, starts_with_exec, string_of, trim, trim_exec, vviews,
};

verus! {

/// Request sent to the assistant.
pub struct FixRequest {
    /// What the assistant is asked to do.
    pub task: String,
    /// Test failures with file, line, error message.
    pub failures: Vec<TestFailure>,
    /// Test files the assistant should modify.
    pub test_files: Vec<FileContent>,
    /// Source files for reference (read-only).
    pub source_files: Vec<FileContent>,
    /// Rules the assistant must follow.
    pub rules: Vec<String>,
}

/// One failing test.
pub struct TestFailure {
    pub test_name: String,
    pub file: String,
    pub line: Option<u32>,
    pub error_type: String,
    pub error_message: String,
}

/// A file handed to the assistant.
pub struct FileContent {
    pub path: String,
    pub content: String,
    /// If true, the assistant must not modify this file.
    pub readonly: bool,
}

/// Reply from the assistant.
pub struct FixResponse {
    /// Files the assistant has modified.
    pub edits: Vec<FileEdit>,
    /// Explanation of what was changed.
    pub explanation: Option<String>,
}

/// One file the assistant rewrote, with its whole new content.
pub struct FileEdit {
    pub path: String,
    pub content: String,
}

/// An assistant that can be asked to fix tests.
pub trait AiAdapter {
    /// The assistant's name.
    fn name(&self) -> String;

    /// Sends the request, with `cwd` as the working directory, and returns
    /// the reply or what went wrong.
    fn fix(&self, request: &FixRequest, cwd: &str) -> Result<FixResponse, String>;
}

// ─── Reading test-runner output ────────────────────────────────

/// A failure as plain values: test name, file, line, error type, message.
pub type FailureView = (Seq<char>, Seq<char>, Option<u32>, Seq<char>, Seq<char>);

pub open spec fn failure_view(f: TestFailure) -> FailureView {
    (f.test_name@, f.file@, f.line, f.error_type@, f.error_message@)
}

pub open spec fn failures_view(s: Seq<TestFailure>) -> Seq<FailureView> {
    s.map_values(|f: TestFailure| failure_view(f))
}

/// The failure a pytest summary line `FAILED path::test - message` opens
/// (`rest` is what follows `FAILED `).
pub open spec fn failed_entry(rest: Seq<char>) -> FailureView {
    let (head, error) = match find(rest, " - "@) {
        Some(i) => (rest.take(i), trim(rest.skip(i + 3))),
        None => (rest, Seq::<char>::empty()),
    };
    let test_path = trim(head);
    match find(test_path, "::"@) {
        Some(i) => (test_path.skip(i + 2), test_path.take(i), None, "TestFailure"@, error),
        None => (Seq::<char>::empty(), test_path, None, "TestFailure"@, error),
    }
}

/// The last failure after a detail line `E   Type: message` (`err` is what
/// follows the `E   `).
pub open spec fn with_detail(f: FailureView, err: Seq<char>) -> FailureView {
    match find(err, ": "@) {
        Some(i) => (f.0, f.1, f.2, trim(err.take(i)), trim(err.skip(i + 2))),
        None => if f.4.len() == 0 {
            (f.0, f.1, f.2, f.3, err)
        } else {
            f
        },
    }
}

/// The line number a location line `file.py:42: in test_foo` gives: what
/// stands between its first two colons.
pub open spec fn location_line(line: Seq<char>) -> Option<u32> {
    match find(line, ":"@) {
        Some(i) => {
            let after = line.skip(i + 1);
            let field = match find(after, ":"@) {
                Some(j) => after.take(j),
                None => after,
            };
            parse_u32_spec(trim(field))
        },
        None => None,
    }
}

/// The failures after one more line of output.
pub open spec fn failure_step(fs: Seq<FailureView>, raw: Seq<char>) -> Seq<FailureView> {
    let line = trim(raw);
    if starts_with(line, "FAILED "@) {
        fs.push(failed_entry(line.skip(7)))
    } else {
        let fs1 = if starts_with(line, "E   "@) && fs.len() > 0 {
            fs.update(fs.len() - 1, with_detail(fs.last(), line.skip(4)))
        } else {
            fs
        };
        if contains(line, ": in test_"@) && fs1.len() > 0 {
            match location_line(line) {
                Some(n) => {
                    let l = fs1.last();
                    fs1.update(fs1.len() - 1, (l.0, l.1, Some(n), l.3, l.4))
                },
                None => fs1,
            }
        } else {
            fs1
        }
    }
}

/// The failures that a run of output lines gives, line by line.
pub open spec fn failures_of(ls: Seq<Seq<char>>) -> Seq<FailureView>
    decreases ls.len(),
{
    if ls.len() == 0 {
        Seq::empty()
    } else {
        failure_step(failures_of(ls.drop_last()), ls.last())
    }
}

/// What follows `FAILED ` on each summary line, in order.
pub open spec fn failed_lines(ls: Seq<Seq<char>>) -> Seq<Seq<char>>
    decreases ls.len(),
{
    if ls.len() == 0 {
        Seq::empty()
    } else {
        let r = failed_lines(ls.drop_last());
        if starts_with(trim(ls.last()), "FAILED "@) { r.push(trim(ls.last()).skip(7)) } else { r }
    }
}

/// There is one failure per `FAILED` line, in order, each with the test
/// name and file that its line gives.
pub proof fn law_one_failure_per_failed_line(ls: Seq<Seq<char>>)
    ensures
        failures_of(ls).len() == failed_lines(ls).len(),
        forall|i: int| 0 <= i < failures_of(ls).len() ==> (#[trigger] failures_of(ls)[i]).0 == failed_entry(failed_lines(ls)[i]).0
            && failures_of(ls)[i].1 == failed_entry(failed_lines(ls)[i]).1,
    decreases ls.len(),
{
    if ls.len() > 0 {
        law_one_failure_per_failed_line(ls.drop_last());
        let fs = failures_of(ls.drop_last());
        let line = trim(ls.last());
        if !starts_with(line, "FAILED "@) && fs.len() > 0 {
            let d = with_detail(fs.last(), line.skip(4));
            assert(d.0 == fs.last().0 && d.1 == fs.last().1);
        }
    }
}

/// Lines before the first `FAILED` line change nothing.
pub proof fn law_leading_lines_ignored(pre: Seq<Seq<char>>, ls: Seq<Seq<char>>)
    requires
        failed_lines(pre).len() == 0,
    ensures
        failures_of(pre + ls) == failures_of(ls),
    decreases ls.len(),
{
    if ls.len() == 0 {
        assert(pre + ls =~= pre);
        law_one_failure_per_failed_line(pre);
    } else {
        law_leading_lines_ignored(pre, ls.drop_last());
        assert((pre + ls).drop_last() =~= pre + ls.drop_last());
        assert((pre + ls).last() == ls.last());
    }
}

/// A detail line `E   T: m` after a failure gives that failure the error
/// type `T` and the message `m` (`T` and `m` trimmed, `m` not empty, `T`
/// without `": "`), and adds no failure.
pub proof fn law_detail_line_sets_type_and_message(ls: Seq<Seq<char>>, t: Seq<char>, m: Seq<char>)
    requires
        failures_of(ls).len() > 0,
        trim(t) == t,
        trim(m) == m,
        m.len() > 0,
        !contains(t, ": "@),
    ensures
        ({
            let r = failures_of(ls.push("E   "@ + t + ": "@ + m));
            &&& r.len() == failures_of(ls).len()
            &&& r.last().3 == t
            &&& r.last().4 == m
        }),
{
    reveal_strlit("E   ");
    reveal_strlit(": ");
    reveal_strlit("FAILED ");
    let line = "E   "@ + t + ": "@ + m;
    let ls2 = ls.push(line);
    assert(ls2.drop_last() =~= ls);
    assert(ls2.last() == line);
    crate::text::lemma_trimmed_ends(m);
    assert(line.last() == m.last());
    assert(line[0] == 'E');
    crate::text::lemma_trim_unchanged(line);
    assert(!starts_with(line, "FAILED "@)) by {
        assert(line.subrange(0, 7)[0] == 'E');
    }
    assert(starts_with(line, "E   "@)) by {
        assert(line.subrange(0, 4) =~= "E   "@);
    }
    let err = line.skip(4);
    assert(err =~= t + ": "@ + m);
    let k = t.len() as int;
    assert(crate::text::match_at(err, ": "@, k)) by {
        assert(err.subrange(k, k + 2) =~= ": "@);
    }
    assert forall|j: int| 0 <= j < k implies !crate::text::match_at(err, ": "@, j) by {
        if j + 2 <= k {
            crate::text::lemma_no_match_within(t, ": "@, j);
            if crate::text::match_at(err, ": "@, j) {
                assert(t.subrange(j, j + 2) =~= err.subrange(j, j + 2));
                assert(crate::text::match_at(t, ": "@, j));
            }
        } else {
            assert(err[j + 1] == ':');
            if crate::text::match_at(err, ": "@, j) {
                assert(err.subrange(j, j + 2)[1] == err[j + 1]);
                assert((": "@)[1] == ' ');
            }
        }
    }
    crate::text::lemma_find_at(err, ": "@, k);
    assert(err.take(k) =~= t);
    assert(err.skip(k + 2) =~= m);
}

/// A detail line `E   m` after a failure, `m` trimmed and without `": "`,
/// gives that failure the message `m` when it has none yet and otherwise
/// keeps its message; it keeps the error type and adds no failure.
pub proof fn law_detail_line_without_type(ls: Seq<Seq<char>>, m: Seq<char>)
    requires
        failures_of(ls).len() > 0,
        trim(m) == m,
        m.len() > 0,
        !contains(m, ": "@),
    ensures
        ({
            let old = failures_of(ls).last();
            let r = failures_of(ls.push("E   "@ + m));
            &&& r.len() == failures_of(ls).len()
            &&& r.last().3 == old.3
            &&& r.last().4 == if old.4.len() == 0 { m } else { old.4 }
        }),
{
    reveal_strlit("E   ");
    reveal_strlit("FAILED ");
    let line = "E   "@ + m;
    let ls2 = ls.push(line);
    assert(ls2.drop_last() =~= ls);
    assert(ls2.last() == line);
    crate::text::lemma_trimmed_ends(m);
    assert(line.last() == m.last());
    assert(line[0] == 'E');
    crate::text::lemma_trim_unchanged(line);
    assert(!starts_with(line, "FAILED "@)) by {
        if starts_with(line, "FAILED "@) {
            assert(line.subrange(0, 7)[0] == line[0]);
        }
    }
    assert(starts_with(line, "E   "@)) by {
        assert(line.subrange(0, 4) =~= "E   "@);
    }
    assert(line.skip(4) =~= m);
}

/// A summary line `FAILED p::n - m` (a path `p` without colons or
/// whitespace, a test name `n` without whitespace, a trimmed non-empty
/// message `m`) adds one failure: test `n` in file `p`, of type
/// `TestFailure`, with the message `m` and no line yet.
pub proof fn law_failed_line_fields(ls: Seq<Seq<char>>, p: Seq<char>, n: Seq<char>, m: Seq<char>)
    requires
        forall|i: int| 0 <= i < p.len() ==> #[trigger] p[i] != ':' && !crate::text::is_ws(p[i]),
        forall|i: int| 0 <= i < n.len() ==> !crate::text::is_ws(#[trigger] n[i]),
        trim(m) == m,
        m.len() > 0,
    ensures
        failures_of(ls.push("FAILED "@ + p + "::"@ + n + " - "@ + m))
            == failures_of(ls).push((n, p, None::<u32>, "TestFailure"@, m)),
{
    reveal_strlit("FAILED ");
    reveal_strlit("::");
    reveal_strlit(" - ");
    let head = p + "::"@ + n;
    let rest = head + " - "@ + m;
    let line = "FAILED "@ + rest;
    assert("FAILED "@ + p + "::"@ + n + " - "@ + m =~= line);
    let ls2 = ls.push(line);
    assert(ls2.drop_last() =~= ls);
    assert(ls2.last() == line);
    crate::text::lemma_trimmed_ends(m);
    assert(line.last() == m.last());
    assert(line[0] == 'F');
    crate::text::lemma_trim_unchanged(line);
    assert(starts_with(line, "FAILED "@)) by {
        assert(line.subrange(0, 7) =~= "FAILED "@);
    }
    assert(line.skip(7) =~= rest);
    let q = p.len() as int;
    assert forall|i: int| 0 <= i < head.len() implies !crate::text::is_ws(#[trigger] head[i]) by {
        if i < q {
            assert(head[i] == p[i]);
        } else if i < q + 2 {
            assert(head[i] == ':');
        } else {
            assert(head[i] == n[i - q - 2]);
        }
    }
    let k = head.len() as int;
    assert(crate::text::match_at(rest, " - "@, k)) by {
        assert(rest.subrange(k, k + 3) =~= " - "@);
    }
    assert forall|j: int| 0 <= j < k implies !crate::text::match_at(rest, " - "@, j) by {
        if crate::text::match_at(rest, " - "@, j) {
            assert(rest.subrange(j, j + 3)[0] == (" - "@)[0]);
            assert(rest[j] == head[j]);
            assert(!crate::text::is_ws(head[j]));
        }
    }
    crate::text::lemma_find_at(rest, " - "@, k);
    assert(rest.take(k) =~= head);
    assert(rest.skip(k + 3) =~= m);
    assert(!crate::text::is_ws(head[0]));
    assert(!crate::text::is_ws(head[k - 1]));
    crate::text::lemma_trim_unchanged(head);
    assert(crate::text::match_at(head, "::"@, q)) by {
        assert(head.subrange(q, q + 2) =~= "::"@);
    }
    assert forall|j: int| 0 <= j < q implies !crate::text::match_at(head, "::"@, j) by {
        if crate::text::match_at(head, "::"@, j) {
            assert(head.subrange(j, j + 2)[0] == ("::"@)[0]);
            assert(head[j] == p[j]);
        }
    }
    crate::text::lemma_find_at(head, "::"@, q);
    assert(head.skip(q + 2) =~= n);
    assert(head.take(q) =~= p);
    assert(failed_entry(rest) == (n, p, None::<u32>, "TestFailure"@, m));
}

/// A location line `p:L: in test_…` after a failure (a path `p` without
/// colons or whitespace, `L` a digit string) sets that failure's line to
/// `L` and changes nothing else.
pub proof fn law_location_line_sets_line(ls: Seq<Seq<char>>, p: Seq<char>, d: Seq<char>, rest: Seq<char>)
    requires
        failures_of(ls).len() > 0,
        p.len() > 0,
        forall|i: int| 0 <= i < p.len() ==> #[trigger] p[i] != ':' && !crate::text::is_ws(p[i]),
        d.len() > 0,
        crate::numtext::all_digits(d),
        crate::numtext::digits_value(d) <= u32::MAX,
        rest.len() == 0 || !crate::text::is_ws(rest.last()),
    ensures
        ({
            let fs = failures_of(ls);
            let l = fs.last();
            failures_of(ls.push(p + seq![':'] + d + ": in test_"@ + rest))
                == fs.update(fs.len() - 1, (l.0, l.1, Some(crate::numtext::digits_value(d) as u32), l.3, l.4))
        }),
{
    reveal_strlit(": in test_");
    reveal_strlit("FAILED ");
    reveal_strlit("E   ");
    let tail = ": in test_"@;
    let after = d + tail + rest;
    let line = p + seq![':'] + after;
    assert(p + seq![':'] + d + ": in test_"@ + rest =~= line);
    let ls2 = ls.push(line);
    assert(ls2.drop_last() =~= ls);
    assert(ls2.last() == line);
    let q = p.len() as int;
    assert(line[0] == p[0]);
    assert(is_digit(d[0]));
    assert(is_digit(d[d.len() - 1]));
    if rest.len() == 0 {
        assert(line.last() == '_');
    } else {
        assert(line.last() == rest.last());
    }
    crate::text::lemma_trim_unchanged(line);
    assert(line[q] == ':');
    assert(!starts_with(line, "FAILED "@)) by {
        if starts_with(line, "FAILED "@) {
            if q < 7 {
                assert(line.subrange(0, 7)[q] == line[q]);
            } else {
                assert(line.subrange(0, 7)[6] == line[6]);
                assert(line[6] == p[6]);
            }
        }
    }
    assert(!starts_with(line, "E   "@)) by {
        if starts_with(line, "E   "@) {
            assert(line.subrange(0, 4)[1] == line[1]);
            if q == 1 {
            } else {
                assert(line[1] == p[1]);
            }
        }
    }
    let k = (q + 1 + d.len()) as int;
    assert(crate::text::match_at(line, tail, q + 1 + d.len())) by {
        assert(line.subrange(k, k + 10) =~= tail);
    }
    assert(contains(line, tail)) by {
        crate::text::lemma_find_from_props(line, tail, 0);
    }
    assert(crate::text::match_at(line, seq![':'], q)) by {
        assert(line.subrange(q, q + 1) =~= seq![':']);
    }
    assert forall|j: int| 0 <= j < q implies !crate::text::match_at(line, seq![':'], j) by {
        if crate::text::match_at(line, seq![':'], j) {
            assert(line.subrange(j, j + 1)[0] == line[j]);
            assert(line[j] == p[j]);
        }
    }
    assert(":"@ =~= seq![':']) by {
        reveal_strlit(":");
    }
    crate::text::lemma_find_at(line, ":"@, q);
    assert(line.skip(q + 1) =~= after);
    let dl = d.len() as int;
    assert(crate::text::match_at(after, seq![':'], dl)) by {
        assert(after.subrange(dl, dl + 1) =~= seq![':']);
    }
    assert forall|j: int| 0 <= j < dl implies !crate::text::match_at(after, seq![':'], j) by {
        if crate::text::match_at(after, seq![':'], j) {
            assert(after.subrange(j, j + 1)[0] == after[j]);
            assert(after[j] == d[j]);
            assert(is_digit(d[j]));
        }
    }
    crate::text::lemma_find_at(after, ":"@, dl);
    assert(after.take(dl) =~= d);
    crate::text::lemma_trim_unchanged(d);
    assert(d[0] != '+');
    assert(location_line(line) == Some(crate::numtext::digits_value(d) as u32));
}

fn text_of(v: &Vec<char>) -> (r: String)
    ensures
        r@ == v@,
{
    string_of(v.as_slice())
}

fn failed_entry_exec(rest: &Vec<char>) -> (r: TestFailure)
    ensures
        failure_view(r) == failed_entry(rest@),
{
    let sep = lit(" - ");
    proof {
        reveal_strlit(" - ");
        reveal_strlit("::");
        lemma_find_bounds(rest@, " - "@);
    }
    let n = rest.len();
    let (head, error) = match find_exec(rest, &sep) {
        Some(i) => (slice_chars(rest, 0, i), trim_exec(&slice_chars(rest, i + 3, n))),
        None => (slice_chars(rest, 0, n), Vec::new()),
    };
    proof {
        assert(rest@.subrange(0, rest@.len() as int) =~= rest@);
        if let Some(i) = find(rest@, " - "@) {
            assert(rest@.subrange(0, i) =~= rest@.take(i));
            assert(rest@.subrange(i + 3, rest@.len() as int) =~= rest@.skip(i + 3));
        }
    }
    let test_path = trim_exec(&head);
    let colons = lit("::");
    proof {
        lemma_find_bounds(test_path@, "::"@);
    }
    let tn = test_path.len();
    match find_exec(&test_path, &colons) {
        Some(i) => {
            let name = slice_chars(&test_path, i + 2, tn);
            let file = slice_chars(&test_path, 0, i);
            proof {
                assert(name@ =~= test_path@.skip(i + 2));
                assert(file@ =~= test_path@.take(i as int));
            }
            TestFailure {
                test_name: text_of(&name),
                file: text_of(&file),
                line: None,
                error_type: String::from_str("TestFailure"),
                error_message: text_of(&error),
            }
        },
        None => TestFailure {
            test_name: String::new(),
            file: text_of(&test_path),
            line: None,
            error_type: String::from_str("TestFailure"),
            error_message: text_of(&error),
        },
    }
}

fn with_detail_exec(f: TestFailure, err: &Vec<char>) -> (r: TestFailure)
    ensures
        failure_view(r) == with_detail(failure_view(f), err@),
{
    let sep = lit(": ");
    proof {
        reveal_strlit(": ");
        lemma_find_bounds(err@, ": "@);
    }
    let n = err.len();
    match find_exec(err, &sep) {
        Some(i) => {
            let t = trim_exec(&slice_chars(err, 0, i));
            let m = trim_exec(&slice_chars(err, i + 2, n));
            proof {
                assert(err@.subrange(0, i as int) =~= err@.take(i as int));
                assert(err@.subrange(i + 2, err@.len() as int) =~= err@.skip(i + 2));
            }
            TestFailure {
                test_name: f.test_name,
                file: f.file,
                line: f.line,
                error_type: text_of(&t),
                error_message: text_of(&m),
            }
        },
        None => {
            if chars_of(f.error_message.as_str()).len() == 0 {
                TestFailure {
                    test_name: f.test_name,
                    file: f.file,
                    line: f.line,
                    error_type: f.error_type,
                    error_message: text_of(err),
                }
            } else {
                f
            }
        },
    }
}

fn location_line_exec(line: &Vec<char>) -> (r: Option<u32>)
    ensures
        r == location_line(line@),
{
    let colon = lit(":");
    proof {
        reveal_strlit(":");
        lemma_find_bounds(line@, ":"@);
    }
    let n = line.len();
    match find_exec(line, &colon) {
        Some(i) => {
            let after = slice_chars(line, i + 1, n);
            proof {
                assert(after@ =~= line@.skip(i + 1));
                lemma_find_bounds(after@, ":"@);
            }
            let field = match find_exec(&after, &colon) {
                Some(j) => {
                    let f = slice_chars(&after, 0, j);
                    proof {
                        assert(f@ =~= after@.take(j as int));
                    }
                    f
                },
                None => after,
            };
            parse_u32(trim_exec(&field).as_slice())
        },
        None => None,
    }
}

/// Reads pytest/jest output into structured failures: a `FAILED` summary
/// line opens a failure, an `E   ` line gives the last one its error type
/// and message, a `: in test_` location line its line number.
pub fn parse_test_failures(output: &str) -> (r: Vec<TestFailure>)
    ensures
        failures_view(r@) == failures_of(lines(output@)),
{
    let ls = lines_exec(&chars_of(output));
    let mut out: Vec<TestFailure> = Vec::new();
    let mut k: usize = 0;
    while k < ls.len()
        invariant
            k <= ls@.len(),
            vviews(ls@) == lines(output@),
            failures_view(out@) == failures_of(vviews(ls@).take(k as int)),
        decreases ls@.len() - k,
    {
        proof {
            let lv = vviews(ls@);
            assert(lv.take(k + 1).drop_last() =~= lv.take(k as int));
            assert(lv.take(k + 1).last() == ls@[k as int]@);
        }
        let ghost fs = failures_view(out@);
        let line = trim_exec(&ls[k]);
        proof {
            reveal_strlit("FAILED ");
            reveal_strlit("E   ");
        }
        if starts_with_exec(&line, &lit("FAILED ")) {
            let rest = slice_chars(&line, 7, line.len());
            proof {
                assert(rest@ =~= line@.skip(7));
            }
            let e = failed_entry_exec(&rest);
            out.push(e);
            proof {
                assert(failures_view(out@) =~= fs.push(failure_view(e)));
            }
        } else {
            if starts_with_exec(&line, &lit("E   ")) && out.len() > 0 {
                let err = slice_chars(&line, 4, line.len());
                proof {
                    assert(err@ =~= line@.skip(4));
                }
                let last = out.pop().unwrap();
                proof {
                    assert(fs.last() == failure_view(last));
                }
                let e = with_detail_exec(last, &err);
                out.push(e);
                proof {
                    assert(failures_view(out@) =~= fs.update(fs.len() - 1, with_detail(fs.last(), line@.skip(4))));
                }
            }
            let ghost fs1 = failures_view(out@);
            if contains_exec(&line, &lit(": in test_")) && out.len() > 0 {
                match location_line_exec(&line) {
                    Some(n) => {
                        let last = out.pop().unwrap();
                        proof {
                            assert(fs1.last() == failure_view(last));
                        }
                        let e = TestFailure {
                            test_name: last.test_name,
                            file: last.file,
                            line: Some(n),
                            error_type: last.error_type,
                            error_message: last.error_message,
                        };
                        out.push(e);
                        proof {
                            let l = fs1.last();
                            assert(failures_view(out@) =~= fs1.update(fs1.len() - 1, (l.0, l.1, Some(n), l.3, l.4)));
                        }
                    },
                    None => {},
                }
            }
        }
        k = k + 1;
    }
    proof {
        assert(vviews(ls@).take(ls@.len() as int) =~= vviews(ls@));
    }
    out
}

// ─── Writing the prompt ─────────────────────────────────────────

/// The pieces one after the other.
pub open spec fn concat_all(parts: Seq<Seq<char>>) -> Seq<char>
    decreases parts.len(),
{
    if parts.len() == 0 {
        Seq::empty()
    } else {
        concat_all(parts.drop_last()) + parts.last()
    }
}

/// A rule as the prompt lists it.
pub open spec fn rule_line(r: Seq<char>) -> Seq<char> {
    "- "@ + r + "\n"@
}

/// A failure as the prompt lists it.
pub open spec fn failure_line(f: FailureView) -> Seq<char> {
    let line: nat = match f.2 {
        Some(n) => n as nat,
        None => 0,
    };
    "  "@ + f.0 + " ("@ + f.1 + ":"@ + decimal(line) + ") — "@ + f.3 + ": "@ + f.4 + "\n"@
}

/// A file as the prompt shows it.
pub open spec fn file_block(f: FileContent) -> Seq<char> {
    "--- "@ + f.path@ + " ---\n"@ + f.content@ + "\n\n"@
}

/// The prompt for a request: the task, the rules, the failures, the test
/// files to change, and the source files for reference.
pub open spec fn prompt_of(r: FixRequest) -> Seq<char> {
    r.task@ + "\n\n"@
        + "RULES:\n"@ + concat_all(r.rules@.map_values(|s: String| rule_line(s@))) + "\n"@
        + "FAILURES:\n"@ + concat_all(failures_view(r.failures@).map_values(|f: FailureView| failure_line(f))) + "\n"@
        + "TEST FILES (modify these):\n"@ + concat_all(r.test_files@.map_values(|f: FileContent| file_block(f)))
        + "SOURCE FILES (read-only, for reference):\n"@ + concat_all(r.source_files@.map_values(|f: FileContent| file_block(f)))
}

fn append_rules(out: &mut String, rules: &Vec<String>)
    ensures
        final(out)@ == old(out)@ + concat_all(rules@.map_values(|s: String| rule_line(s@))),
{
    let ghost parts = rules@.map_values(|s: String| rule_line(s@));
    let mut i: usize = 0;
    while i < rules.len()
        invariant
            i <= rules@.len(),
            parts == rules@.map_values(|s: String| rule_line(s@)),
            out@ == old(out)@ + concat_all(parts.take(i as int)),
        decreases rules@.len() - i,
    {
        proof {
            assert(parts.take(i + 1).drop_last() =~= parts.take(i as int));
        }
        out.append("- ");
        out.append(rules[i].as_str());
        out.append("\n");
        i = i + 1;
    }
    proof {
        assert(parts.take(rules@.len() as int) =~= parts);
    }
}

#[verifier::spinoff_prover]
#[verifier::rlimit(60)]
fn append_failures(out: &mut String, fs: &Vec<TestFailure>)
    ensures
        final(out)@ == old(out)@ + concat_all(failures_view(fs@).map_values(|f: FailureView| failure_line(f))),
{
    let ghost parts = failures_view(fs@).map_values(|f: FailureView| failure_line(f));
    let mut i: usize = 0;
    while i < fs.len()
        invariant
            i <= fs@.len(),
            parts == failures_view(fs@).map_values(|f: FailureView| failure_line(f)),
            out@ == old(out)@ + concat_all(parts.take(i as int)),
        decreases fs@.len() - i,
    {
        proof {
            assert(parts.take(i + 1).drop_last() =~= parts.take(i as int));
        }
        let f = &fs[i];
        let n: u32 = match f.line {
            Some(n) => n,
            None => 0,
        };
        out.append("  ");
        out.append(f.test_name.as_str());
        out.append(" (");
        out.append(f.file.as_str());
        out.append(":");
        out.append(decimal_string(n as u64).as_str());
        out.append(") — ");
        out.append(f.error_type.as_str());
        out.append(": ");
        out.append(f.error_message.as_str());
        out.append("\n");
        i = i + 1;
    }
    proof {
        assert(parts.take(fs@.len() as int) =~= parts);
    }
}

fn append_files(out: &mut String, files: &Vec<FileContent>)
    ensures
        final(out)@ == old(out)@ + concat_all(files@.map_values(|f: FileContent| file_block(f))),
{
    let ghost parts = files@.map_values(|f: FileContent| file_block(f));
    let mut i: usize = 0;
    while i < files.len()
        invariant
            i <= files@.len(),
            parts == files@.map_values(|f: FileContent| file_block(f)),
            out@ == old(out)@ + concat_all(parts.take(i as int)),
        decreases files@.len() - i,
    {
        proof {
            assert(parts.take(i + 1).drop_last() =~= parts.take(i as int));
        }
        out.append("--- ");
        out.append(files[i].path.as_str());
        out.append(" ---\n");
        out.append(files[i].content.as_str());
        out.append("\n\n");
        i = i + 1;
    }
    proof {
        assert(parts.take(files@.len() as int) =~= parts);
    }
}

/// The prompt the assistant is given for a request (see `prompt_of`).
pub fn build_prompt(request: &FixRequest) -> (r: String)
    ensures
        r@ == prompt_of(*request),
{
    let mut prompt = String::new();
    prompt.append(request.task.as_str());
    prompt.append("\n\n");
    prompt.append("RULES:\n");
    append_rules(&mut prompt, &request.rules);
    prompt.append("\n");
    prompt.append("FAILURES:\n");
    append_failures(&mut prompt, &request.failures);
    prompt.append("\n");
    prompt.append("TEST FILES (modify these):\n");
    append_files(&mut prompt, &request.test_files);
    prompt.append("SOURCE FILES (read-only, for reference):\n");
    append_files(&mut prompt, &request.source_files);
    prompt
}

} // verus!
