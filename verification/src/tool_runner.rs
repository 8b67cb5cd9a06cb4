//! The project's own tools on the changed files: which tools run on which
//! files, and what their output says, as structured errors.
//!
//! Running a command is left to the caller: `plan_tool_runs` says what to
//! run, and `run_project_tools` reads what the runs printed.

use vstd::prelude::*;
use crate::text::copy_strings;
use crate::graph::{slashed, to_slashes};
use crate::json::{
    as_str, as_u64, get_member, index, is_str, json_parse, member, parse_json, str_or_empty, str_value,
    u64_or_zero, u64_value, JsonValue,
};
use crate::numtext::{is_digit, parse_u32, parse_u32_spec};
use crate::snapshot::Tooling;
use crate::text::{
    append_chars, chars_of, contains, contains_exec, ends_with, ends_with_exec, find, find_exec, lines,
    lines_exec, lit, rfind, rfind_exec, slice_chars, split, split_exec, splitn, splitn_exec, starts_with,
    starts_with_exec, string_of, trim, trim_exec, vviews,
};

verus! {

/// A tool error parsed from linter/type checker output.
#[derive(Debug)]
pub struct ToolError {
    pub tool: String,
    pub file: String,
    pub line: u32,
    pub col: u32,
    pub message: String,
    pub severity: ToolSeverity,
}

#[derive(Debug, Clone, Copy, PartialEq, Eq, Structural)]
pub enum ToolSeverity {
    Error,
    Warning,
}

/// A tool error as plain values: tool, file, line, column, message,
/// severity.
pub open spec fn error_view(e: ToolError) -> (Seq<char>, Seq<char>, u32, u32, Seq<char>, ToolSeverity) {
    (e.tool@, e.file@, e.line, e.col, e.message@, e.severity)
}

/// Tool errors as plain values.
pub open spec fn errors_view(v: Seq<ToolError>) -> Seq<(Seq<char>, Seq<char>, u32, u32, Seq<char>, ToolSeverity)> {
    v.map_values(|e: ToolError| error_view(e))
}

/// A parsed number, or 0.
pub open spec fn num_or_zero(s: Seq<char>) -> u32 {
    match parse_u32_spec(s) {
        Some(n) => n,
        None => 0,
    }
}

// ─── tsc ────────────────────────────────────────────────────────

/// The file is one of the changed files (either path ending with the
/// other).
pub open spec fn among_changed(file: Seq<char>, changed: Seq<Seq<char>>) -> bool {
    exists|i: int| 0 <= i < changed.len() && (ends_with(file, #[trigger] changed[i]) || ends_with(changed[i], file))
}

/// What one line of `tsc` output says (`src/a.ts(42,5): error TS2345: ...`),
/// when it is about a changed file.
pub open spec fn tsc_line(line: Seq<char>, changed: Seq<Seq<char>>) -> Option<(Seq<char>, Seq<char>, u32, u32, Seq<char>, ToolSeverity)> {
    match find(line, "): "@) {
        None => None,
        Some(k) => {
            let file_part = line.take(k);
            let rest = line.skip(k + 3);
            match rfind(file_part, seq!['(']) {
                None => None,
                Some(j) => {
                    let file = slashed(file_part.take(j));
                    let parts = split(file_part.skip(j + 1), seq![',']);
                    if !among_changed(file, changed) {
                        None
                    } else {
                        let col = if parts.len() > 1 { num_or_zero(parts[1]) } else { 0 };
                        let sev = if starts_with(rest, "error"@) { ToolSeverity::Error } else { ToolSeverity::Warning };
                        Some(("tsc"@, file, num_or_zero(parts[0]), col, rest, sev))
                    }
                },
            }
        },
    }
}

/// `s` holds no character equal to `c`.
pub open spec fn lacks(s: Seq<char>, c: char) -> bool {
    forall|i: int| 0 <= i < s.len() ==> s[i] != c
}

/// A string of digits splits at a comma into itself, and a comma-free one
/// into itself alone.
proof fn lemma_split_comma(a: Seq<char>, b: Seq<char>)
    requires
        lacks(a, ','),
        lacks(b, ','),
    ensures
        split(a + seq![','] + b, seq![',']) == seq![a, b],
{
    let s = a + seq![','] + b;
    let p = seq![','];
    assert(crate::text::match_at(s, p, a.len() as int)) by {
        assert(s.subrange(a.len() as int, a.len() as int + 1) =~= p);
    }
    assert forall|j: int| 0 <= j < a.len() implies !crate::text::match_at(s, p, j) by {
        if crate::text::match_at(s, p, j) {
            assert(s.subrange(j, j + 1)[0] == s[j]);
        }
    }
    crate::text::lemma_find_at(s, p, a.len() as int);
    assert(s.take(a.len() as int) =~= a);
    assert(s.skip(a.len() as int + 1) =~= b);
    crate::text::lemma_find_from_props(b, p, 0);
    if find(b, p) is Some {
        let k = find(b, p)->0;
        assert(b.subrange(k, k + 1)[0] == b[k]);
    }
    assert(split(b, p) == seq![b]);
    assert(split(s, p) =~= seq![a] + seq![b]);
}

/// A digit string parses to its value.
proof fn lemma_digits_parse(d: Seq<char>)
    requires
        d.len() > 0,
        crate::numtext::all_digits(d),
        crate::numtext::digits_value(d) <= u32::MAX,
    ensures
        num_or_zero(d) == crate::numtext::digits_value(d),
{
    assert(is_digit(d[0]));
}

/// A `tsc` line `F(L,C): rest` about a changed file `F` (a path with no
/// backslash and no `"): "`, `L` and `C` digit strings) gives an error at
/// line `L` and column `C` of `F` with the message `rest`, an error when
/// `rest` starts with `error`.
pub proof fn law_tsc_line_position(
    ls: Seq<Seq<char>>,
    changed: Seq<Seq<char>>,
    f: Seq<char>,
    l: Seq<char>,
    c: Seq<char>,
    rest: Seq<char>,
)
    requires
        changed.contains(f),
        lacks(f, '\\'),
        !contains(f, "): "@),
        l.len() > 0,
        c.len() > 0,
        crate::numtext::all_digits(l),
        crate::numtext::all_digits(c),
        crate::numtext::digits_value(l) <= u32::MAX,
        crate::numtext::digits_value(c) <= u32::MAX,
    ensures
        ({
            let r = tsc_errors(ls.push(f + seq!['('] + l + seq![','] + c + "): "@ + rest), changed);
            &&& r.len() == tsc_errors(ls, changed).len() + 1
            &&& r.last().1 == f
            &&& r.last().2 == crate::numtext::digits_value(l)
            &&& r.last().3 == crate::numtext::digits_value(c)
            &&& r.last().4 == rest
            &&& (r.last().5 == ToolSeverity::Error <==> starts_with(rest, "error"@))
        }),
{
    reveal_strlit("): ");
    let close = "): "@;
    let pre = f + seq!['('] + l + seq![','] + c;
    let line = pre + close + rest;
    assert(f + seq!['('] + l + seq![','] + c + "): "@ + rest =~= line);
    let ls2 = ls.push(line);
    assert(ls2.drop_last() =~= ls);
    assert(ls2.last() == line);
    let k = pre.len() as int;
    let n = f.len() as int;
    assert forall|i: int| n <= i < k implies pre[i] != ')' by {
        if i == n {
        } else if i < n + 1 + l.len() {
            assert(pre[i] == l[i - n - 1]);
            assert(is_digit(l[i - n - 1]));
        } else if i == n + 1 + l.len() {
        } else {
            assert(pre[i] == c[i - n - 2 - l.len()]);
            assert(is_digit(c[i - n - 2 - l.len()]));
        }
    }
    assert(crate::text::match_at(line, close, k)) by {
        assert(line.subrange(k, k + 3) =~= close);
    }
    assert forall|j: int| 0 <= j < k implies !crate::text::match_at(line, close, j) by {
        if crate::text::match_at(line, close, j) {
            assert(line.subrange(j, j + 3)[0] == line[j]);
            assert(line.subrange(j, j + 3)[1] == line[j + 1]);
            assert(line.subrange(j, j + 3)[2] == line[j + 2]);
            if j + 3 <= n {
                assert(f.subrange(j, j + 3) =~= line.subrange(j, j + 3));
                crate::text::lemma_no_match_within(f, close, j);
            } else if j < n {
                assert(line[n] == '(');
            } else {
                assert(line[j] == pre[j]);
            }
        }
    }
    crate::text::lemma_find_at(line, close, k);
    assert(line.take(k) =~= pre);
    assert(line.skip(k + 3) =~= rest);
    let open = seq!['('];
    assert(crate::text::match_at(pre, open, n)) by {
        assert(pre.subrange(n, n + 1) =~= open);
    }
    crate::text::lemma_rfind_upto_props(pre, open, pre.len() - 1);
    let j = rfind(pre, open);
    assert(j == Some(n)) by {
        match j {
            Some(q) => {
                if q > n {
                    assert(pre.subrange(q, q + 1)[0] == pre[q]);
                    if q < n + 1 + l.len() {
                        assert(pre[q] == l[q - n - 1]);
                        assert(is_digit(l[q - n - 1]));
                    } else if q > n + 1 + l.len() {
                        assert(pre[q] == c[q - n - 2 - l.len()]);
                        assert(is_digit(c[q - n - 2 - l.len()]));
                    }
                }
                if q < n {
                    assert(n <= pre.len() - 1);
                }
            },
            None => {
                assert(n <= pre.len() - 1);
            },
        }
    }
    assert(pre.take(n) =~= f);
    assert(slashed(f) =~= f);
    assert(pre.skip(n + 1) =~= l + seq![','] + c);
    assert(lacks(l, ',')) by {
        assert forall|i: int| 0 <= i < l.len() implies l[i] != ',' by {
            assert(is_digit(l[i]));
        }
    }
    assert(lacks(c, ',')) by {
        assert forall|i: int| 0 <= i < c.len() implies c[i] != ',' by {
            assert(is_digit(c[i]));
        }
    }
    lemma_split_comma(l, c);
    lemma_digits_parse(l);
    lemma_digits_parse(c);
    let i = choose|i: int| 0 <= i < changed.len() && changed[i] == f;
    assert(ends_with(f, changed[i])) by {
        assert(f.subrange(0, f.len() as int) =~= f);
    }
    assert(among_changed(f, changed));
}

/// What `tsc` output says about the changed files, line by line.
pub open spec fn tsc_errors(ls: Seq<Seq<char>>, changed: Seq<Seq<char>>) -> Seq<(Seq<char>, Seq<char>, u32, u32, Seq<char>, ToolSeverity)>
    decreases ls.len(),
{
    if ls.len() == 0 {
        Seq::empty()
    } else {
        let rest = tsc_errors(ls.drop_last(), changed);
        match tsc_line(ls.last(), changed) {
            Some(e) => rest.push(e),
            None => rest,
        }
    }
}

fn among_changed_exec(file: &Vec<char>, changed: &Vec<String>) -> (r: bool)
    ensures
        r == among_changed(file@, crate::text::views(changed@)),
{
    let ghost cv = crate::text::views(changed@);
    let mut i: usize = 0;
    while i < changed.len()
        invariant
            i <= changed@.len(),
            cv == crate::text::views(changed@),
            forall|j: int| 0 <= j < i ==> !(ends_with(file@, #[trigger] cv[j]) || ends_with(cv[j], file@)),
        decreases changed@.len() - i,
    {
        let f = chars_of(changed[i].as_str());
        proof {
            assert(cv[i as int] == f@);
        }
        if ends_with_exec(file, &f) || ends_with_exec(&f, file) {
            return true;
        }
        i = i + 1;
    }
    false
}

fn num_or_zero_exec(s: &[char]) -> (r: u32)
    ensures
        r == num_or_zero(s@),
{
    match parse_u32(s) {
        Some(n) => n,
        None => 0,
    }
}

fn tsc_line_exec(line: &Vec<char>, changed: &Vec<String>) -> (r: Option<ToolError>)
    ensures
        match r {
            Some(e) => tsc_line(line@, crate::text::views(changed@)) == Some(error_view(e)),
            None => tsc_line(line@, crate::text::views(changed@)) is None,
        },
{
    let sep = lit("): ");
    let n = line.len();
    let k = match find_exec(line, &sep) {
        Some(k) => k,
        None => return None,
    };
    proof {
        reveal_strlit("): ");
        assert(sep@.len() == 3);
        crate::text::lemma_find_from_props(line@, sep@, 0);
        assert(crate::text::match_at(line@, sep@, k as int));
    }
    let file_part = slice_chars(line, 0, k);
    let rest = slice_chars(line, k + 3, n);
    proof {
        assert(file_part@ =~= line@.take(k as int));
        assert(rest@ =~= line@.skip(k + 3));
    }
    let mut open: Vec<char> = Vec::new();
    open.push('(');
    proof {
        assert(open@ =~= seq!['(']);
    }
    let j = match rfind_exec(&file_part, &open) {
        Some(j) => j,
        None => return None,
    };
    proof {
        crate::text::lemma_rfind_upto_props(file_part@, open@, file_part@.len() - open@.len());
        assert(crate::text::match_at(file_part@, open@, j as int));
    }
    let file = to_slashes(&slice_chars(&file_part, 0, j));
    let pos = slice_chars(&file_part, j + 1, k);
    let mut comma: Vec<char> = Vec::new();
    comma.push(',');
    proof {
        assert(comma@ =~= seq![',']);
        assert(slice_chars_view(file_part@, 0, j as int) =~= file_part@.take(j as int));
        assert(pos@ =~= file_part@.skip(j + 1));
    }
    if !among_changed_exec(&file, changed) {
        proof {
            assert(file@ == slashed(file_part@.take(j as int)));
        }
        return None;
    }
    let parts = split_exec(&pos, &comma);
    proof {
        crate::typeparse::lemma_split_pieces(pos@, comma@);
        assert(vviews(parts@)[0] == parts@[0]@);
    }
    let line_num = num_or_zero_exec(&parts[0]);
    let col = if parts.len() > 1 {
        proof {
            assert(vviews(parts@)[1] == parts@[1]@);
        }
        num_or_zero_exec(&parts[1])
    } else {
        0
    };
    let sev = if starts_with_exec(&rest, &lit("error")) {
        ToolSeverity::Error
    } else {
        ToolSeverity::Warning
    };
    Some(
        ToolError {
            tool: String::from_str("tsc"),
            file: string_of(&file),
            line: line_num,
            col,
            message: string_of(&rest),
            severity: sev,
        },
    )
}

/// The view of `s[a..b]`.
pub open spec fn slice_chars_view(s: Seq<char>, a: int, b: int) -> Seq<char> {
    s.subrange(a, b)
}

/// Errors in `tsc` output about the changed files
/// (`src/a.ts(42,5): error TS2345: ...`).
pub fn parse_tsc_output(output: &str, changed_files: &Vec<String>) -> (r: Vec<ToolError>)
    ensures
        errors_view(r@) == tsc_errors(lines(output@), crate::text::views(changed_files@)),
{
    let ls = lines_exec(&chars_of(output));
    let mut out: Vec<ToolError> = Vec::new();
    let mut i: usize = 0;
    while i < ls.len()
        invariant
            i <= ls@.len(),
            vviews(ls@) == lines(output@),
            errors_view(out@) == tsc_errors(vviews(ls@).take(i as int), crate::text::views(changed_files@)),
        decreases ls@.len() - i,
    {
        proof {
            let lv = vviews(ls@);
            assert(lv.take(i + 1).drop_last() =~= lv.take(i as int));
            assert(lv.take(i + 1).last() == ls@[i as int]@);
        }
        match tsc_line_exec(&ls[i], changed_files) {
            Some(e) => {
                let ghost before = out@;
                out.push(e);
                proof {
                    assert(errors_view(out@) =~= errors_view(before).push(error_view(e)));
                }
            },
            None => {},
        }
        i = i + 1;
    }
    proof {
        assert(vviews(ls@).take(ls@.len() as int) =~= vviews(ls@));
    }
    out
}

// ─── pylint ─────────────────────────────────────────────────────

/// What one line of pylint output says (`src/a.py:42:0: E0001: ...`).
/// The code is trimmed before it is checked for a leading ` E` or ` F`, so
/// every such line reads as a warning.
pub open spec fn pylint_line(line: Seq<char>) -> Option<(Seq<char>, Seq<char>, u32, u32, Seq<char>, ToolSeverity)> {
    let parts = splitn(line, seq![':'], 5);
    if parts.len() >= 5 {
        let code = trim(parts[3]);
        let sev = if starts_with(code, seq![' ', 'E']) || starts_with(code, seq![' ', 'F']) {
            ToolSeverity::Error
        } else {
            ToolSeverity::Warning
        };
        Some(
            (
                "pylint"@,
                slashed(trim(parts[0])),
                num_or_zero(trim(parts[1])),
                num_or_zero(trim(parts[2])),
                trim(code) + seq![':', ' '] + trim(parts[4]),
                sev,
            ),
        )
    } else {
        None
    }
}

/// What pylint output says, line by line.
pub open spec fn pylint_errors(ls: Seq<Seq<char>>) -> Seq<(Seq<char>, Seq<char>, u32, u32, Seq<char>, ToolSeverity)>
    decreases ls.len(),
{
    if ls.len() == 0 {
        Seq::empty()
    } else {
        let rest = pylint_errors(ls.drop_last());
        match pylint_line(ls.last()) {
            Some(e) => rest.push(e),
            None => rest,
        }
    }
}

proof fn lemma_splitn_colon(a: Seq<char>, rest: Seq<char>, n: nat)
    requires
        lacks(a, ':'),
        n >= 2,
    ensures
        splitn(a + seq![':'] + rest, seq![':'], n) == seq![a] + splitn(rest, seq![':'], (n - 1) as nat),
{
    let s = a + seq![':'] + rest;
    let p = seq![':'];
    assert(crate::text::match_at(s, p, a.len() as int)) by {
        assert(s.subrange(a.len() as int, a.len() as int + 1) =~= p);
    }
    assert forall|j: int| 0 <= j < a.len() implies !crate::text::match_at(s, p, j) by {
        if crate::text::match_at(s, p, j) {
            assert(s.subrange(j, j + 1)[0] == s[j]);
        }
    }
    crate::text::lemma_find_at(s, p, a.len() as int);
    assert(s.take(a.len() as int) =~= a);
    assert(s.skip(a.len() as int + 1) =~= rest);
}

/// A digit string has no colon and no surrounding whitespace.
proof fn lemma_digits_plain(d: Seq<char>)
    requires
        d.len() > 0,
        crate::numtext::all_digits(d),
    ensures
        lacks(d, ':'),
        trim(d) == d,
{
    assert(is_digit(d[0]));
    assert(is_digit(d[d.len() - 1]));
    crate::text::lemma_trim_unchanged(d);
}

/// A pylint line `F:L:C: CODE: message` (a path `F` without colons,
/// backslashes or surrounding whitespace, `L` and `C` digit strings, a code
/// without colons) gives an error of file `F` at line `L` and column `C`,
/// with the message `CODE: message`, both parts trimmed.
pub proof fn law_pylint_line_position(
    ls: Seq<Seq<char>>,
    f: Seq<char>,
    l: Seq<char>,
    c: Seq<char>,
    code: Seq<char>,
    msg: Seq<char>,
)
    requires
        lacks(f, ':'),
        lacks(f, '\\'),
        trim(f) == f,
        lacks(code, ':'),
        l.len() > 0,
        c.len() > 0,
        crate::numtext::all_digits(l),
        crate::numtext::all_digits(c),
        crate::numtext::digits_value(l) <= u32::MAX,
        crate::numtext::digits_value(c) <= u32::MAX,
    ensures
        ({
            let r = pylint_errors(ls.push(f + seq![':'] + l + seq![':'] + c + seq![':'] + code + seq![':'] + msg));
            &&& r.len() == pylint_errors(ls).len() + 1
            &&& r.last().0 == "pylint"@
            &&& r.last().1 == f
            &&& r.last().2 == crate::numtext::digits_value(l)
            &&& r.last().3 == crate::numtext::digits_value(c)
            &&& r.last().4 == trim(code) + seq![':', ' '] + trim(msg)
        }),
{
    let colon = seq![':'];
    let line = f + colon + l + colon + c + colon + code + colon + msg;
    let ls2 = ls.push(line);
    assert(ls2.drop_last() =~= ls);
    assert(ls2.last() == line);
    lemma_digits_plain(l);
    lemma_digits_plain(c);
    lemma_digits_parse(l);
    lemma_digits_parse(c);
    let t3 = code + colon + msg;
    let t2 = c + colon + t3;
    let t1 = l + colon + t2;
    assert(line =~= f + colon + t1);
    assert(t1 =~= l + colon + t2);
    lemma_splitn_colon(f, t1, 5);
    lemma_splitn_colon(l, t2, 4);
    lemma_splitn_colon(c, t3, 3);
    lemma_splitn_colon(code, msg, 2);
    assert(splitn(msg, colon, 1) == seq![msg]);
    let parts = splitn(line, colon, 5);
    assert(parts =~= seq![f, l, c, code, msg]);
    assert(slashed(f) =~= f);
    crate::text::lemma_trim_twice(code);
}

fn pylint_line_exec(line: &Vec<char>) -> (r: Option<ToolError>)
    ensures
        match r {
            Some(e) => pylint_line(line@) == Some(error_view(e)),
            None => pylint_line(line@) is None,
        },
{
    let mut colon: Vec<char> = Vec::new();
    colon.push(':');
    proof {
        assert(colon@ =~= seq![':']);
    }
    let parts = splitn_exec(line, &colon, 5);
    if parts.len() < 5 {
        return None;
    }
    proof {
        assert(vviews(parts@)[0] == parts@[0]@);
        assert(vviews(parts@)[1] == parts@[1]@);
        assert(vviews(parts@)[2] == parts@[2]@);
        assert(vviews(parts@)[3] == parts@[3]@);
        assert(vviews(parts@)[4] == parts@[4]@);
    }
    let file = to_slashes(&trim_exec(&parts[0]));
    let line_num = num_or_zero_exec(&trim_exec(&parts[1]));
    let col = num_or_zero_exec(&trim_exec(&parts[2]));
    let code = trim_exec(&parts[3]);
    let message = trim_exec(&parts[4]);
    let mut se: Vec<char> = Vec::new();
    se.push(' ');
    se.push('E');
    let mut sf: Vec<char> = Vec::new();
    sf.push(' ');
    sf.push('F');
    proof {
        assert(se@ =~= seq![' ', 'E']);
        assert(sf@ =~= seq![' ', 'F']);
    }
    let is_error = starts_with_exec(&code, &se) || starts_with_exec(&code, &sf);
    let mut text = string_of(&trim_exec(&code));
    crate::text::push_char(&mut text, ':');
    crate::text::push_char(&mut text, ' ');
    append_chars(&mut text, &message);
    proof {
        assert(text@ =~= trim(code@) + seq![':', ' '] + message@);
    }
    Some(
        ToolError {
            tool: String::from_str("pylint"),
            file: string_of(&file),
            line: line_num,
            col,
            message: text,
            severity: if is_error {
                ToolSeverity::Error
            } else {
                ToolSeverity::Warning
            },
        },
    )
}

/// Errors in pylint output (`src/a.py:42:0: E0001: ...`).
pub fn parse_pylint_output(output: &str) -> (r: Vec<ToolError>)
    ensures
        errors_view(r@) == pylint_errors(lines(output@)),
{
    let ls = lines_exec(&chars_of(output));
    let mut out: Vec<ToolError> = Vec::new();
    let mut i: usize = 0;
    while i < ls.len()
        invariant
            i <= ls@.len(),
            vviews(ls@) == lines(output@),
            errors_view(out@) == pylint_errors(vviews(ls@).take(i as int)),
        decreases ls@.len() - i,
    {
        proof {
            let lv = vviews(ls@);
            assert(lv.take(i + 1).drop_last() =~= lv.take(i as int));
            assert(lv.take(i + 1).last() == ls@[i as int]@);
        }
        match pylint_line_exec(&ls[i]) {
            Some(e) => {
                let ghost before = out@;
                out.push(e);
                proof {
                    assert(errors_view(out@) =~= errors_view(before).push(error_view(e)));
                }
            },
            None => {},
        }
        i = i + 1;
    }
    proof {
        assert(vviews(ls@).take(ls@.len() as int) =~= vviews(ls@));
    }
    out
}

// ─── line numbers in messages ───────────────────────────────────

/// The longest prefix of `s` made of ASCII digits.
pub open spec fn digit_prefix(s: Seq<char>) -> Seq<char>
    decreases s.len(),
{
    if s.len() > 0 && is_digit(s[0]) {
        seq![s[0]] + digit_prefix(s.drop_first())
    } else {
        Seq::empty()
    }
}

/// The number after the first `line ` in a message (0 when there is none
/// or it does not fit in 32 bits).
pub open spec fn line_number(text: Seq<char>) -> u32 {
    match find(text, "line "@) {
        Some(p) => num_or_zero(digit_prefix(text.skip(p + 5))),
        None => 0,
    }
}

/// The number after the first `line ` in a message (see `line_number`).
pub fn extract_line_number(text: &str) -> (r: u32)
    ensures
        r == line_number(text@),
{
    let t = chars_of(text);
    let n = t.len();
    let pat = lit("line ");
    match find_exec(&t, &pat) {
        Some(p) => {
            proof {
                reveal_strlit("line ");
                assert(pat@.len() == 5);
                crate::text::lemma_find_from_props(t@, pat@, 0);
                assert(crate::text::match_at(t@, pat@, p as int));
            }
            let mut i = p + 5;
            let mut num: Vec<char> = Vec::new();
            proof {
                assert(t@.skip(p + 5) =~= t@.skip(i as int));
                assert(num@ + digit_prefix(t@.skip(i as int)) =~= digit_prefix(t@.skip(p + 5)));
            }
            while i < n && '0' <= t[i] && t[i] <= '9'
                invariant
                    p + 5 <= i <= n,
                    n == t@.len(),
                    num@ + digit_prefix(t@.skip(i as int)) == digit_prefix(t@.skip(p + 5)),
                decreases n - i,
            {
                proof {
                    assert(t@.skip(i as int)[0] == t@[i as int]);
                    assert(t@.skip(i as int).drop_first() =~= t@.skip(i + 1));
                    assert(num@.push(t@[i as int]) + digit_prefix(t@.skip(i + 1)) =~= num@ + digit_prefix(
                        t@.skip(i as int),
                    ));
                }
                num.push(t[i]);
                i = i + 1;
            }
            proof {
                if i < n {
                    assert(t@.skip(i as int)[0] == t@[i as int]);
                }
                assert(num@ =~= digit_prefix(t@.skip(p + 5)));
            }
            num_or_zero_exec(&num)
        },
        None => 0,
    }
}


// ─── eslint ─────────────────────────────────────────────────────

/// `a (b)`.
pub open spec fn with_rule(a: Seq<char>, b: Seq<char>) -> Seq<char> {
    a + seq![' ', '('] + b + seq![')']
}

/// The errors in one file's eslint messages (severity 0 skipped).
pub open spec fn eslint_msgs(file: Seq<char>, msgs: Seq<JsonValue>) -> Seq<(Seq<char>, Seq<char>, u32, u32, Seq<char>, ToolSeverity)>
    decreases msgs.len(),
{
    if msgs.len() == 0 {
        Seq::empty()
    } else {
        let rest = eslint_msgs(file, msgs.drop_last());
        let m = msgs.last();
        let sev = u64_or_zero(index(m, "severity"@));
        if sev == 0 {
            rest
        } else {
            rest.push(
                (
                    "eslint"@,
                    file,
                    u64_or_zero(index(m, "line"@)) as u32,
                    u64_or_zero(index(m, "column"@)) as u32,
                    with_rule(str_or_empty(index(m, "message"@)), str_or_empty(index(m, "ruleId"@))),
                    if sev >= 2 {
                        ToolSeverity::Error
                    } else {
                        ToolSeverity::Warning
                    },
                ),
            )
        }
    }
}

/// An eslint message of non-zero severity adds one error of the file, at
/// the message's line and column, with its text and rule, an error from
/// severity 2 and a warning below; a message of severity 0 adds nothing.
pub proof fn law_eslint_message_position(file: Seq<char>, msgs: Seq<JsonValue>, m: JsonValue)
    ensures
        ({
            let sev = u64_or_zero(index(m, "severity"@));
            let r = eslint_msgs(file, msgs.push(m));
            &&& sev == 0 ==> r == eslint_msgs(file, msgs)
            &&& sev != 0 ==> {
                &&& r.len() == eslint_msgs(file, msgs).len() + 1
                &&& r.last().1 == file
                &&& r.last().2 == u64_or_zero(index(m, "line"@)) as u32
                &&& r.last().3 == u64_or_zero(index(m, "column"@)) as u32
                &&& r.last().4 == str_or_empty(index(m, "message"@)) + " ("@ + str_or_empty(index(m, "ruleId"@)) + ")"@
                &&& (r.last().5 == ToolSeverity::Error <==> sev >= 2)
            }
        }),
{
    reveal_strlit(" (");
    reveal_strlit(")");
    assert(msgs.push(m).drop_last() =~= msgs);
    assert(" ("@ =~= seq![' ', '(']);
    assert(")"@ =~= seq![')']);
}

/// The errors of each eslint file result, in order.
pub open spec fn eslint_results(results: Seq<JsonValue>) -> Seq<(Seq<char>, Seq<char>, u32, u32, Seq<char>, ToolSeverity)>
    decreases results.len(),
{
    if results.len() == 0 {
        Seq::empty()
    } else {
        let r = results.last();
        let file = slashed(str_or_empty(index(r, "filePath"@)));
        eslint_results(results.drop_last()) + match index(r, "messages"@) {
            JsonValue::Array(ms) => eslint_msgs(file, ms@),
            _ => Seq::empty(),
        }
    }
}

/// What eslint's JSON output says: nothing unless it is a JSON array.
pub open spec fn eslint_errors(text: Seq<char>) -> Seq<(Seq<char>, Seq<char>, u32, u32, Seq<char>, ToolSeverity)> {
    match json_parse(text) {
        Some(JsonValue::Array(rs)) => eslint_results(rs@),
        _ => Seq::empty(),
    }
}

fn with_rule_exec(a: String, b: String) -> (r: String)
    ensures
        r@ == with_rule(a@, b@),
{
    let mut out = a;
    crate::text::push_char(&mut out, ' ');
    crate::text::push_char(&mut out, '(');
    out.append(b.as_str());
    crate::text::push_char(&mut out, ')');
    proof {
        assert(out@ =~= with_rule(a@, b@));
    }
    out
}

fn eslint_msgs_exec(file: &Vec<char>, msgs: &Vec<JsonValue>, out: &mut Vec<ToolError>)
    ensures
        errors_view(final(out)@) == errors_view(old(out)@) + eslint_msgs(file@, msgs@),
{
    let ghost start = errors_view(out@);
    let mut i: usize = 0;
    while i < msgs.len()
        invariant
            i <= msgs@.len(),
            errors_view(out@) == start + eslint_msgs(file@, msgs@.take(i as int)),
        decreases msgs@.len() - i,
    {
        proof {
            assert(msgs@.take(i + 1).drop_last() =~= msgs@.take(i as int));
            assert(msgs@.take(i + 1).last() == msgs@[i as int]);
        }
        let m = &msgs[i];
        let sev = u64_value(get_member(m, "severity"));
        if sev != 0 {
            let line = u64_value(get_member(m, "line")) as u32;
            let col = u64_value(get_member(m, "column")) as u32;
            let text = with_rule_exec(str_value(get_member(m, "message")), str_value(get_member(m, "ruleId")));
            let e = ToolError {
                tool: String::from_str("eslint"),
                file: string_of(file),
                line,
                col,
                message: text,
                severity: if sev >= 2 {
                    ToolSeverity::Error
                } else {
                    ToolSeverity::Warning
                },
            };
            let ghost before = out@;
            out.push(e);
            proof {
                assert(errors_view(out@) =~= errors_view(before).push(error_view(e)));
            }
        }
        i = i + 1;
    }
    proof {
        assert(msgs@.take(msgs@.len() as int) =~= msgs@);
    }
}

/// Errors in eslint's JSON output
/// (`[{ "filePath": ..., "messages": [{ "line", "column", "message", "ruleId", "severity" }] }]`).
pub fn parse_eslint_json(output: &str) -> (r: Vec<ToolError>)
    ensures
        errors_view(r@) == eslint_errors(output@),
{
    let mut out: Vec<ToolError> = Vec::new();
    match parse_json(output) {
        Some(JsonValue::Array(results)) => {
            let mut i: usize = 0;
            while i < results.len()
                invariant
                    i <= results@.len(),
                    errors_view(out@) == eslint_results(results@.take(i as int)),
                decreases results@.len() - i,
            {
                proof {
                    assert(results@.take(i + 1).drop_last() =~= results@.take(i as int));
                    assert(results@.take(i + 1).last() == results@[i as int]);
                }
                let r = &results[i];
                let file = to_slashes(&chars_of(str_value(get_member(r, "filePath")).as_str()));
                match get_member(r, "messages") {
                    Some(JsonValue::Array(ms)) => {
                        eslint_msgs_exec(&file, ms, &mut out);
                    },
                    _ => {
                        proof {
                            assert(errors_view(out@) =~= errors_view(out@) + Seq::empty());
                        }
                    },
                }
                i = i + 1;
            }
            proof {
                assert(results@.take(results@.len() as int) =~= results@);
            }
        },
        _ => {
            proof {
                assert(errors_view(out@) =~= Seq::empty());
            }
        },
    }
    out
}

// ─── cargo ──────────────────────────────────────────────────────

/// Where a compiler message points: its first span's file, line and
/// column, or nothing.
pub open spec fn span_of(m: JsonValue) -> (Seq<char>, u32, u32) {
    match index(m, "spans"@) {
        JsonValue::Array(sp) => if sp@.len() > 0 {
            (
                slashed(str_or_empty(index(sp@[0], "file_name"@))),
                u64_or_zero(index(sp@[0], "line_start"@)) as u32,
                u64_or_zero(index(sp@[0], "column_start"@)) as u32,
            )
        } else {
            (Seq::empty(), 0, 0)
        },
        _ => (Seq::empty(), 0, 0),
    }
}

/// What one line of `cargo check --message-format=json` output says: a
/// `compiler-message` of level `error` or `warning`.
pub open spec fn cargo_line(line: Seq<char>) -> Option<(Seq<char>, Seq<char>, u32, u32, Seq<char>, ToolSeverity)> {
    match json_parse(line) {
        Some(msg) => if as_str(index(msg, "reason"@)) == Some("compiler-message"@) {
            match member(msg, "message"@) {
                Some(m) => {
                    let level = str_or_empty(index(m, "level"@));
                    if level != "error"@ && level != "warning"@ {
                        None
                    } else {
                        let (file, l, c) = span_of(m);
                        Some(
                            (
                                "cargo"@,
                                file,
                                l,
                                c,
                                str_or_empty(index(m, "message"@)),
                                if level == "error"@ {
                                    ToolSeverity::Error
                                } else {
                                    ToolSeverity::Warning
                                },
                            ),
                        )
                    }
                },
                None => None,
            }
        } else {
            None
        },
        None => None,
    }
}

/// A line that parses as a cargo `compiler-message` of level `error` or
/// `warning` with a first span adds one error at that span's file, line
/// and column, with the message's text, an error exactly for level `error`.
pub proof fn law_cargo_message_position(ls: Seq<Seq<char>>, line: Seq<char>, msg: JsonValue, m: JsonValue, sp: Vec<JsonValue>)
    requires
        json_parse(line) == Some(msg),
        as_str(index(msg, "reason"@)) == Some("compiler-message"@),
        member(msg, "message"@) == Some(m),
        str_or_empty(index(m, "level"@)) == "error"@ || str_or_empty(index(m, "level"@)) == "warning"@,
        index(m, "spans"@) == JsonValue::Array(sp),
        sp@.len() > 0,
    ensures
        ({
            let r = cargo_errors(ls.push(line));
            &&& r.len() == cargo_errors(ls).len() + 1
            &&& r.last().1 == slashed(str_or_empty(index(sp@[0], "file_name"@)))
            &&& r.last().2 == u64_or_zero(index(sp@[0], "line_start"@)) as u32
            &&& r.last().3 == u64_or_zero(index(sp@[0], "column_start"@)) as u32
            &&& r.last().4 == str_or_empty(index(m, "message"@))
            &&& (r.last().5 == ToolSeverity::Error <==> str_or_empty(index(m, "level"@)) == "error"@)
        }),
{
    assert(ls.push(line).drop_last() =~= ls);
    assert(ls.push(line).last() == line);
}

/// What cargo's JSON output says, line by line.
pub open spec fn cargo_errors(ls: Seq<Seq<char>>) -> Seq<(Seq<char>, Seq<char>, u32, u32, Seq<char>, ToolSeverity)>
    decreases ls.len(),
{
    if ls.len() == 0 {
        Seq::empty()
    } else {
        let rest = cargo_errors(ls.drop_last());
        match cargo_line(ls.last()) {
            Some(e) => rest.push(e),
            None => rest,
        }
    }
}

fn cargo_line_exec(line: &Vec<char>) -> (r: Option<ToolError>)
    ensures
        match r {
            Some(e) => cargo_line(line@) == Some(error_view(e)),
            None => cargo_line(line@) is None,
        },
{
    let text = string_of(line);
    let msg = match parse_json(text.as_str()) {
        Some(v) => v,
        None => return None,
    };
    if !is_str(get_member(&msg, "reason"), "compiler-message") {
        return None;
    }
    let m = match get_member(&msg, "message") {
        Some(m) => m,
        None => return None,
    };
    let level = chars_of(str_value(get_member(m, "level")).as_str());
    let is_error = crate::text::eq_chars(&level, &lit("error"));
    let is_warning = crate::text::eq_chars(&level, &lit("warning"));
    if !is_error && !is_warning {
        return None;
    }
    let message = str_value(get_member(m, "message"));
    let (file, l, c) = match get_member(m, "spans") {
        Some(JsonValue::Array(sp)) => {
            if sp.len() > 0 {
                (
                    string_of(&to_slashes(&chars_of(str_value(get_member(&sp[0], "file_name")).as_str()))),
                    u64_value(get_member(&sp[0], "line_start")) as u32,
                    u64_value(get_member(&sp[0], "column_start")) as u32,
                )
            } else {
                (String::new(), 0, 0)
            }
        },
        _ => (String::new(), 0, 0),
    };
    Some(
        ToolError {
            tool: String::from_str("cargo"),
            file,
            line: l,
            col: c,
            message,
            severity: if is_error {
                ToolSeverity::Error
            } else {
                ToolSeverity::Warning
            },
        },
    )
}

/// Errors and warnings in the JSON output of `cargo check
/// --message-format=json`.
pub fn parse_cargo_output(output: &str) -> (r: Vec<ToolError>)
    ensures
        errors_view(r@) == cargo_errors(lines(output@)),
{
    let ls = lines_exec(&chars_of(output));
    let mut out: Vec<ToolError> = Vec::new();
    let mut i: usize = 0;
    while i < ls.len()
        invariant
            i <= ls@.len(),
            vviews(ls@) == lines(output@),
            errors_view(out@) == cargo_errors(vviews(ls@).take(i as int)),
        decreases ls@.len() - i,
    {
        proof {
            let lv = vviews(ls@);
            assert(lv.take(i + 1).drop_last() =~= lv.take(i as int));
            assert(lv.take(i + 1).last() == ls@[i as int]@);
        }
        match cargo_line_exec(&ls[i]) {
            Some(e) => {
                let ghost before = out@;
                out.push(e);
                proof {
                    assert(errors_view(out@) =~= errors_view(before).push(error_view(e)));
                }
            },
            None => {},
        }
        i = i + 1;
    }
    proof {
        assert(vviews(ls@).take(ls@.len() as int) =~= vviews(ls@));
    }
    out
}


// ─── which tools run ────────────────────────────────────────────

/// A tool run over some of the changed files.
pub enum ToolRun {
    /// The type checker command, over the TypeScript/JavaScript files.
    TypeCheck { command: String, files: Vec<String> },
    /// `npx eslint --format json`, over the TypeScript/JavaScript files.
    Eslint { files: Vec<String> },
    /// The Python linter command, over the Python files.
    PythonLint { command: String, files: Vec<String> },
    /// `python -m py_compile` on one Python file.
    PythonCompile { file: String },
    /// `cargo check --message-format=json`.
    CargoCheck,
}

/// What a run printed (standard output with standard error merged), and
/// whether it exited successfully.
pub struct ToolOutput {
    pub stdout: String,
    pub success: bool,
}

/// A tool run as plain values.
pub enum RunModel {
    TypeCheck(Seq<char>, Seq<Seq<char>>),
    Eslint(Seq<Seq<char>>),
    PythonLint(Seq<char>, Seq<Seq<char>>),
    PythonCompile(Seq<char>),
    CargoCheck,
}

/// A tool run as plain values.
pub open spec fn run_view(r: ToolRun) -> RunModel {
    match r {
        ToolRun::TypeCheck { command, files } => RunModel::TypeCheck(command@, crate::text::views(files@)),
        ToolRun::Eslint { files } => RunModel::Eslint(crate::text::views(files@)),
        ToolRun::PythonLint { command, files } => RunModel::PythonLint(command@, crate::text::views(files@)),
        ToolRun::PythonCompile { file } => RunModel::PythonCompile(file@),
        ToolRun::CargoCheck => RunModel::CargoCheck,
    }
}

/// The extension of a file name: what follows its last `.` (the whole
/// name when there is none).
pub open spec fn ext_of(f: Seq<char>) -> Seq<char> {
    split(f, seq!['.']).last()
}

/// TypeScript/JavaScript (and Vue) files.
pub open spec fn is_ts_file(f: Seq<char>) -> bool {
    let e = ext_of(f);
    e == "ts"@ || e == "tsx"@ || e == "js"@ || e == "jsx"@ || e == "vue"@ || e == "mts"@ || e == "mjs"@
}

/// Python files.
pub open spec fn is_py_file(f: Seq<char>) -> bool {
    ends_with(f, ".py"@) || ends_with(f, ".pyi"@)
}

/// Rust files.
pub open spec fn is_rs_file(f: Seq<char>) -> bool {
    ends_with(f, ".rs"@)
}

/// The files of one kind (0: TypeScript, 1: Python, 2: Rust), in order.
pub open spec fn files_of(fs: Seq<Seq<char>>, kind: nat) -> Seq<Seq<char>>
    decreases fs.len(),
{
    if fs.len() == 0 {
        Seq::empty()
    } else {
        let f = fs.last();
        let keep = if kind == 0 {
            is_ts_file(f)
        } else if kind == 1 {
            is_py_file(f)
        } else {
            is_rs_file(f)
        };
        if keep {
            files_of(fs.drop_last(), kind).push(f)
        } else {
            files_of(fs.drop_last(), kind)
        }
    }
}

/// One compile run per file.
pub open spec fn compile_runs(fs: Seq<Seq<char>>) -> Seq<RunModel>
    decreases fs.len(),
{
    if fs.len() == 0 {
        Seq::empty()
    } else {
        compile_runs(fs.drop_last()).push(RunModel::PythonCompile(fs.last()))
    }
}

/// The tool runs for the changed files: the type checker over the
/// TypeScript files; eslint over them when the linter is eslint; the
/// Python linter over the Python files; without a linter, a compile check
/// of each Python file; cargo when a Rust file changed. Nothing when no
/// file changed.
pub open spec fn plan_spec(
    type_check: Option<Seq<char>>,
    linter: Option<Seq<char>>,
    changed: Seq<Seq<char>>,
) -> Seq<RunModel> {
    let ts = files_of(changed, 0);
    let py = files_of(changed, 1);
    let rs = files_of(changed, 2);
    if changed.len() == 0 {
        Seq::empty()
    } else {
        let a: Seq<RunModel> = match type_check {
            Some(cmd) => if ts.len() > 0 { seq![RunModel::TypeCheck(cmd, ts)] } else { Seq::empty() },
            None => Seq::empty(),
        };
        let b: Seq<RunModel> = match linter {
            Some(l) => (if contains(l, "eslint"@) && ts.len() > 0 {
                seq![RunModel::Eslint(ts)]
            } else {
                Seq::empty()
            }) + (if (contains(l, "pylint"@) || contains(l, "flake8"@)) && py.len() > 0 {
                seq![RunModel::PythonLint(l, py)]
            } else {
                Seq::empty()
            }),
            None => Seq::empty(),
        };
        let c: Seq<RunModel> = if py.len() > 0 && linter is None { compile_runs(py) } else { Seq::empty() };
        let d: Seq<RunModel> = if rs.len() > 0 { seq![RunModel::CargoCheck] } else { Seq::empty() };
        a + b + c + d
    }
}

/// The file is of the kind (0: TypeScript, 1: Python, 2: Rust).
pub open spec fn of_kind(f: Seq<char>, kind: nat) -> bool {
    if kind == 0 {
        is_ts_file(f)
    } else if kind == 1 {
        is_py_file(f)
    } else {
        is_rs_file(f)
    }
}

/// The files of a kind are exactly the changed files of that kind.
pub proof fn law_files_of_kind(fs: Seq<Seq<char>>, kind: nat)
    ensures
        forall|f: Seq<char>| #[trigger] files_of(fs, kind).contains(f) <==> fs.contains(f) && of_kind(f, kind),
    decreases fs.len(),
{
    if fs.len() > 0 {
        let init = fs.drop_last();
        law_files_of_kind(init, kind);
        let r = files_of(fs, kind);
        let ri = files_of(init, kind);
        assert forall|f: Seq<char>| #[trigger] r.contains(f) <==> fs.contains(f) && of_kind(f, kind) by {
            if r.contains(f) {
                let i = choose|i: int| 0 <= i < r.len() && r[i] == f;
                if i < ri.len() {
                    assert(ri[i] == f);
                    assert(ri.contains(f));
                    let j = choose|j: int| 0 <= j < init.len() && init[j] == f;
                    assert(fs[j] == f);
                } else {
                    assert(fs[fs.len() - 1] == f);
                }
            }
            if fs.contains(f) && of_kind(f, kind) {
                let j = choose|j: int| 0 <= j < fs.len() && fs[j] == f;
                if j < init.len() {
                    assert(init[j] == f);
                    assert(init.contains(f));
                    assert(ri.contains(f));
                    let i = choose|i: int| 0 <= i < ri.len() && ri[i] == f;
                    if of_kind(fs.last(), kind) {
                        assert(r[i] == f);
                    }
                } else {
                    assert(r[r.len() - 1] == f);
                }
            }
        }
    }
}

proof fn lemma_compile_runs_only_compile(fs: Seq<Seq<char>>)
    ensures
        forall|i: int| 0 <= i < compile_runs(fs).len() ==> (#[trigger] compile_runs(fs)[i]) is PythonCompile,
    decreases fs.len(),
{
    if fs.len() > 0 {
        lemma_compile_runs_only_compile(fs.drop_last());
    }
}

/// When some changed file is a Rust file, the plan ends with one cargo
/// check, and otherwise holds none; when a type checker is set and some
/// changed file is a TypeScript file, the plan starts with that type
/// checker over the changed TypeScript files.
pub proof fn law_plan_runs(type_check: Option<Seq<char>>, linter: Option<Seq<char>>, changed: Seq<Seq<char>>)
    ensures
        (exists|i: int| 0 <= i < changed.len() && is_rs_file(#[trigger] changed[i])) ==> {
            let p = plan_spec(type_check, linter, changed);
            p.len() > 0 && p.last() == RunModel::CargoCheck
                && forall|j: int| 0 <= j < p.len() - 1 ==> #[trigger] p[j] != RunModel::CargoCheck
        },
        (forall|i: int| 0 <= i < changed.len() ==> !is_rs_file(#[trigger] changed[i]))
            ==> !plan_spec(type_check, linter, changed).contains(RunModel::CargoCheck),
        (type_check is Some && exists|i: int| 0 <= i < changed.len() && is_ts_file(#[trigger] changed[i]))
            ==> plan_spec(type_check, linter, changed)[0] == RunModel::TypeCheck(type_check->0, files_of(changed, 0)),
{
    law_files_of_kind(changed, 0);
    law_files_of_kind(changed, 2);
    let ts = files_of(changed, 0);
    let py = files_of(changed, 1);
    let rs = files_of(changed, 2);
    let p = plan_spec(type_check, linter, changed);
    lemma_compile_runs_only_compile(py);
    if exists|i: int| 0 <= i < changed.len() && is_rs_file(#[trigger] changed[i]) {
        let i = choose|i: int| 0 <= i < changed.len() && is_rs_file(#[trigger] changed[i]);
        assert(changed.contains(changed[i]));
        assert(of_kind(changed[i], 2));
        assert(rs.contains(changed[i]));
    }
    if forall|i: int| 0 <= i < changed.len() ==> !is_rs_file(#[trigger] changed[i]) {
        if rs.len() > 0 {
            assert(rs.contains(rs[0]));
            let j = choose|j: int| 0 <= j < changed.len() && changed[j] == rs[0];
            assert(!is_rs_file(changed[j]));
        }
    }
    if changed.len() > 0 {
        let a: Seq<RunModel> = match type_check {
            Some(cmd) => if ts.len() > 0 { seq![RunModel::TypeCheck(cmd, ts)] } else { Seq::empty() },
            None => Seq::empty(),
        };
        let b: Seq<RunModel> = match linter {
            Some(l) => (if contains(l, "eslint"@) && ts.len() > 0 {
                seq![RunModel::Eslint(ts)]
            } else {
                Seq::empty()
            }) + (if (contains(l, "pylint"@) || contains(l, "flake8"@)) && py.len() > 0 {
                seq![RunModel::PythonLint(l, py)]
            } else {
                Seq::empty()
            }),
            None => Seq::empty(),
        };
        let c: Seq<RunModel> = if py.len() > 0 && linter is None { compile_runs(py) } else { Seq::empty() };
        let d: Seq<RunModel> = if rs.len() > 0 { seq![RunModel::CargoCheck] } else { Seq::empty() };
        assert(p == a + b + c + d);
        let abc = a + b + c;
        assert forall|j: int| 0 <= j < abc.len() implies #[trigger] abc[j] != RunModel::CargoCheck by {
            if j < a.len() {
                assert(abc[j] == a[j]);
            } else if j < a.len() + b.len() {
                assert(abc[j] == b[j - a.len()]);
            } else {
                assert(abc[j] == c[j - a.len() - b.len()]);
            }
        }
        assert forall|j: int| 0 <= j < p.len() - d.len() implies #[trigger] p[j] != RunModel::CargoCheck by {
            assert(p[j] == abc[j]);
        }
        if rs.len() == 0 {
            assert(p =~= abc);
        }
        if type_check is Some && ts.len() > 0 {
            assert(p[0] == a[0]);
        }
        if type_check is Some && exists|i: int| 0 <= i < changed.len() && is_ts_file(#[trigger] changed[i]) {
            let i = choose|i: int| 0 <= i < changed.len() && is_ts_file(#[trigger] changed[i]);
            assert(changed.contains(changed[i]));
            assert(of_kind(changed[i], 0));
            assert(ts.contains(changed[i]));
        }
    }
}

/// The optional string as plain values.
pub open spec fn opt_view(o: Option<String>) -> Option<Seq<char>> {
    match o {
        Some(s) => Some(s@),
        None => None,
    }
}

fn file_kind(f: &String, kind: u8) -> (r: bool)
    ensures
        r == (if kind == 0 {
            is_ts_file(f@)
        } else if kind == 1 {
            is_py_file(f@)
        } else {
            is_rs_file(f@)
        }),
{
    let c = chars_of(f.as_str());
    if kind == 0 {
        let mut dot: Vec<char> = Vec::new();
        dot.push('.');
        proof {
            assert(dot@ =~= seq!['.']);
        }
        let parts = split_exec(&c, &dot);
        proof {
            crate::typeparse::lemma_split_pieces(c@, dot@);
        }
        let e = &parts[parts.len() - 1];
        proof {
            assert(vviews(parts@)[parts@.len() - 1] == e@);
        }
        crate::text::eq_chars(e, &lit("ts")) || crate::text::eq_chars(e, &lit("tsx")) || crate::text::eq_chars(
            e,
            &lit("js"),
        ) || crate::text::eq_chars(e, &lit("jsx")) || crate::text::eq_chars(e, &lit("vue"))
            || crate::text::eq_chars(e, &lit("mts")) || crate::text::eq_chars(e, &lit("mjs"))
    } else if kind == 1 {
        ends_with_exec(&c, &lit(".py")) || ends_with_exec(&c, &lit(".pyi"))
    } else {
        ends_with_exec(&c, &lit(".rs"))
    }
}

fn files_of_exec(fs: &Vec<String>, kind: u8) -> (r: Vec<String>)
    requires
        kind <= 2,
    ensures
        crate::text::views(r@) == files_of(crate::text::views(fs@), kind as nat),
{
    let ghost fv = crate::text::views(fs@);
    let mut out: Vec<String> = Vec::new();
    let mut i: usize = 0;
    while i < fs.len()
        invariant
            kind <= 2,
            i <= fs@.len(),
            fv == crate::text::views(fs@),
            crate::text::views(out@) == files_of(fv.take(i as int), kind as nat),
        decreases fs@.len() - i,
    {
        proof {
            assert(fv.take(i + 1).drop_last() =~= fv.take(i as int));
            assert(fv.take(i + 1).last() == fs@[i as int]@);
        }
        if file_kind(&fs[i], kind) {
            let ghost before = out@;
            out.push(fs[i].clone());
            proof {
                assert(crate::text::views(out@) =~= crate::text::views(before).push(fs@[i as int]@));
            }
        }
        i = i + 1;
    }
    proof {
        assert(fv.take(fs@.len() as int) =~= fv);
    }
    out
}


/// Which tools run on the changed files (see `plan_spec`).
pub fn plan_tool_runs(tooling: &Tooling, changed_files: &Vec<String>) -> (r: Vec<ToolRun>)
    ensures
        r@.map_values(|x: ToolRun| run_view(x)) == plan_spec(
            opt_view(tooling.type_check),
            opt_view(tooling.linter),
            crate::text::views(changed_files@),
        ),
{
    let mut runs: Vec<ToolRun> = Vec::new();
    if changed_files.len() == 0 {
        proof {
            assert(runs@.map_values(|x: ToolRun| run_view(x)) =~= Seq::<RunModel>::empty());
        }
        return runs;
    }
    let ts = files_of_exec(changed_files, 0);
    let py = files_of_exec(changed_files, 1);
    let rs = files_of_exec(changed_files, 2);
    let ghost tsv = crate::text::views(ts@);
    let ghost pyv = crate::text::views(py@);
    let ghost a: Seq<RunModel> = match opt_view(tooling.type_check) {
        Some(cmd) => if tsv.len() > 0 { seq![RunModel::TypeCheck(cmd, tsv)] } else { Seq::empty() },
        None => Seq::empty(),
    };
    match &tooling.type_check {
        Some(cmd) => {
            if ts.len() > 0 {
                runs.push(ToolRun::TypeCheck { command: cmd.clone(), files: copy_strings(&ts) });
            }
        },
        None => {},
    }
    proof {
        assert(runs@.map_values(|x: ToolRun| run_view(x)) =~= a);
    }
    let ghost b: Seq<RunModel> = match opt_view(tooling.linter) {
        Some(l) => (if contains(l, "eslint"@) && tsv.len() > 0 {
            seq![RunModel::Eslint(tsv)]
        } else {
            Seq::empty()
        }) + (if (contains(l, "pylint"@) || contains(l, "flake8"@)) && pyv.len() > 0 {
            seq![RunModel::PythonLint(l, pyv)]
        } else {
            Seq::empty()
        }),
        None => Seq::empty(),
    };
    match &tooling.linter {
        Some(l) => {
            let lc = chars_of(l.as_str());
            let ghost before = runs@;
            if contains_exec(&lc, &lit("eslint")) && ts.len() > 0 {
                runs.push(ToolRun::Eslint { files: copy_strings(&ts) });
            }
            let ghost mid = runs@;
            if (contains_exec(&lc, &lit("pylint")) || contains_exec(&lc, &lit("flake8"))) && py.len() > 0 {
                runs.push(ToolRun::PythonLint { command: l.clone(), files: copy_strings(&py) });
            }
            proof {
                assert(runs@.map_values(|x: ToolRun| run_view(x)) =~= a + b);
            }
        },
        None => {
            proof {
                assert(runs@.map_values(|x: ToolRun| run_view(x)) =~= a + b);
            }
        },
    }
    let ghost ab = a + b;
    if py.len() > 0 && tooling.linter.is_none() {
        let mut k: usize = 0;
        while k < py.len()
            invariant
                k <= py@.len(),
                pyv == crate::text::views(py@),
                runs@.map_values(|x: ToolRun| run_view(x)) == ab + compile_runs(pyv.take(k as int)),
            decreases py@.len() - k,
        {
            let ghost before = runs@;
            runs.push(ToolRun::PythonCompile { file: py[k].clone() });
            proof {
                assert(pyv.take(k + 1).drop_last() =~= pyv.take(k as int));
                assert(pyv.take(k + 1).last() == py@[k as int]@);
                assert(runs@.map_values(|x: ToolRun| run_view(x)) =~= before.map_values(|x: ToolRun| run_view(x)).push(
                    RunModel::PythonCompile(py@[k as int]@),
                ));
            }
            k = k + 1;
        }
        proof {
            assert(pyv.take(py@.len() as int) =~= pyv);
        }
    } else {
        proof {
            assert(runs@.map_values(|x: ToolRun| run_view(x)) =~= ab + Seq::<RunModel>::empty());
        }
    }
    let ghost abc = runs@.map_values(|x: ToolRun| run_view(x));
    if rs.len() > 0 {
        runs.push(ToolRun::CargoCheck);
        proof {
            assert(runs@.map_values(|x: ToolRun| run_view(x)) =~= abc + seq![RunModel::CargoCheck]);
        }
    } else {
        proof {
            assert(runs@.map_values(|x: ToolRun| run_view(x)) =~= abc + Seq::<RunModel>::empty());
        }
    }
    runs
}

// ─── what the runs printed ──────────────────────────────────────

/// The compile errors of one Python file: each printed line that mentions
/// `SyntaxError` or `Error`.
pub open spec fn compile_errors(file: Seq<char>, ls: Seq<Seq<char>>) -> Seq<(Seq<char>, Seq<char>, u32, u32, Seq<char>, ToolSeverity)>
    decreases ls.len(),
{
    if ls.len() == 0 {
        Seq::empty()
    } else {
        let rest = compile_errors(file, ls.drop_last());
        let l = ls.last();
        if contains(l, "SyntaxError"@) || contains(l, "Error"@) {
            rest.push(("python"@, file, line_number(l), 0, trim(l), ToolSeverity::Error))
        } else {
            rest
        }
    }
}

/// What one run's output says.
pub open spec fn run_errors(run: RunModel, out: Seq<char>, success: bool) -> Seq<(Seq<char>, Seq<char>, u32, u32, Seq<char>, ToolSeverity)> {
    match run {
        RunModel::TypeCheck(_, files) => tsc_errors(lines(out), files),
        RunModel::Eslint(_) => eslint_errors(out),
        RunModel::PythonLint(_, _) => pylint_errors(lines(out)),
        RunModel::PythonCompile(file) => if success { Seq::empty() } else { compile_errors(file, lines(out)) },
        RunModel::CargoCheck => cargo_errors(lines(out)),
    }
}

/// What the runs printed, run by run; a run without output (it could not
/// be started) says nothing.
pub open spec fn all_run_errors(runs: Seq<RunModel>, outputs: Seq<Option<ToolOutput>>) -> Seq<(Seq<char>, Seq<char>, u32, u32, Seq<char>, ToolSeverity)>
    decreases runs.len(),
{
    if runs.len() == 0 {
        Seq::empty()
    } else {
        let i = runs.len() - 1;
        all_run_errors(runs.drop_last(), outputs) + if i < outputs.len() && outputs[i] is Some {
            run_errors(runs.last(), outputs[i]->0.stdout@, outputs[i]->0.success)
        } else {
            Seq::empty()
        }
    }
}

fn compile_errors_exec(file: &String, output: &String) -> (r: Vec<ToolError>)
    ensures
        errors_view(r@) == compile_errors(file@, lines(output@)),
{
    let ls = lines_exec(&chars_of(output.as_str()));
    let mut out: Vec<ToolError> = Vec::new();
    let mut i: usize = 0;
    while i < ls.len()
        invariant
            i <= ls@.len(),
            vviews(ls@) == lines(output@),
            errors_view(out@) == compile_errors(file@, vviews(ls@).take(i as int)),
        decreases ls@.len() - i,
    {
        proof {
            let lv = vviews(ls@);
            assert(lv.take(i + 1).drop_last() =~= lv.take(i as int));
            assert(lv.take(i + 1).last() == ls@[i as int]@);
        }
        let l = &ls[i];
        if contains_exec(l, &lit("SyntaxError")) || contains_exec(l, &lit("Error")) {
            let ls_str = string_of(l);
            let e = ToolError {
                tool: String::from_str("python"),
                file: file.clone(),
                line: extract_line_number(ls_str.as_str()),
                col: 0,
                message: string_of(&trim_exec(l)),
                severity: ToolSeverity::Error,
            };
            let ghost before = out@;
            out.push(e);
            proof {
                assert(errors_view(out@) =~= errors_view(before).push(error_view(e)));
            }
        }
        i = i + 1;
    }
    proof {
        assert(vviews(ls@).take(ls@.len() as int) =~= vviews(ls@));
    }
    out
}

fn append_errors(out: &mut Vec<ToolError>, more: Vec<ToolError>)
    ensures
        errors_view(final(out)@) == errors_view(old(out)@) + errors_view(more@),
{
    let mut more = more;
    let ghost a = out@;
    let ghost b = more@;
    out.append(&mut more);
    proof {
        assert(errors_view(a + b) =~= errors_view(a) + errors_view(b));
    }
}

/// The errors that the project's tools reported for the changed files:
/// `outputs[i]` is what the `i`-th run of `plan_tool_runs` printed (`None`
/// when it could not be started).
pub fn run_project_tools(tooling: &Tooling, changed_files: &Vec<String>, outputs: &Vec<Option<ToolOutput>>) -> (r: Vec<ToolError>)
    ensures
        errors_view(r@) == all_run_errors(
            plan_spec(opt_view(tooling.type_check), opt_view(tooling.linter), crate::text::views(changed_files@)),
            outputs@,
        ),
{
    let runs = plan_tool_runs(tooling, changed_files);
    let ghost rv = runs@.map_values(|x: ToolRun| run_view(x));
    let mut out: Vec<ToolError> = Vec::new();
    let mut i: usize = 0;
    while i < runs.len()
        invariant
            i <= runs@.len(),
            rv == runs@.map_values(|x: ToolRun| run_view(x)),
            errors_view(out@) == all_run_errors(rv.take(i as int), outputs@),
        decreases runs@.len() - i,
    {
        proof {
            assert(rv.take(i + 1).drop_last() =~= rv.take(i as int));
            assert(rv.take(i + 1).last() == run_view(runs@[i as int]));
        }
        if i < outputs.len() {
            match &outputs[i] {
                Some(o) => {
                    let found = match &runs[i] {
                        ToolRun::TypeCheck { command: _, files } => parse_tsc_output(o.stdout.as_str(), files),
                        ToolRun::Eslint { files: _ } => parse_eslint_json(o.stdout.as_str()),
                        ToolRun::PythonLint { command: _, files: _ } => parse_pylint_output(o.stdout.as_str()),
                        ToolRun::PythonCompile { file } => {
                            if o.success {
                                let v: Vec<ToolError> = Vec::new();
                                proof {
                                    assert(errors_view(v@) =~= Seq::empty());
                                }
                                v
                            } else {
                                compile_errors_exec(file, &o.stdout)
                            }
                        },
                        ToolRun::CargoCheck => parse_cargo_output(o.stdout.as_str()),
                    };
                    append_errors(&mut out, found);
                },
                None => {
                    proof {
                        assert(errors_view(out@) =~= errors_view(out@) + Seq::empty());
                    }
                },
            }
        } else {
            proof {
                assert(errors_view(out@) =~= errors_view(out@) + Seq::empty());
            }
        }
        i = i + 1;
    }
    proof {
        assert(rv.take(runs@.len() as int) =~= rv);
    }
    out
}

/// The shell command line of a tool run, its error output merged into its
/// standard output (for eslint, discarded); none for `cargo check`, which
/// runs without a shell.
pub open spec fn shell_line_spec(run: ToolRun) -> Option<Seq<char>> {
    match run {
        ToolRun::TypeCheck { command, files: _ } => Some(command@ + " 2>&1"@),
        ToolRun::Eslint { files } => Some("npx eslint --format json "@ + crate::text::join(crate::text::views(files@), " "@)
            + " 2>/dev/null"@),
        ToolRun::PythonLint { command, files } => Some(command@ + " "@ + crate::text::join(crate::text::views(files@), " "@)
            + " 2>&1"@),
        ToolRun::PythonCompile { file } => Some("python -m py_compile "@ + file@ + " 2>&1"@),
        ToolRun::CargoCheck => None,
    }
}

/// The shell command line of a tool run (see `shell_line_spec`).
pub fn shell_line(run: &ToolRun) -> (r: Option<String>)
    ensures
        match r {
            Some(x) => shell_line_spec(*run) == Some(x@),
            None => shell_line_spec(*run) is None,
        },
{
    match run {
        ToolRun::TypeCheck { command, files: _ } => {
            let mut out = crate::text::copy_string(command);
            crate::text::append_chars(&mut out, crate::text::lit(" 2>&1").as_slice());
            Some(out)
        },
        ToolRun::Eslint { files } => {
            let mut out = String::from_str("npx eslint --format json ");
            crate::text::append_chars(&mut out, crate::text::chars_of(crate::text::join_strings(files, " ").as_str()).as_slice());
            crate::text::append_chars(&mut out, crate::text::lit(" 2>/dev/null").as_slice());
            Some(out)
        },
        ToolRun::PythonLint { command, files } => {
            let mut out = crate::text::copy_string(command);
            crate::text::append_chars(&mut out, crate::text::lit(" ").as_slice());
            crate::text::append_chars(&mut out, crate::text::chars_of(crate::text::join_strings(files, " ").as_str()).as_slice());
            crate::text::append_chars(&mut out, crate::text::lit(" 2>&1").as_slice());
            Some(out)
        },
        ToolRun::PythonCompile { file } => {
            let mut out = String::from_str("python -m py_compile ");
            crate::text::append_chars(&mut out, crate::text::chars_of(file.as_str()).as_slice());
            crate::text::append_chars(&mut out, crate::text::lit(" 2>&1").as_slice());
            Some(out)
        },
        ToolRun::CargoCheck => None,
    }
}

} // verus!
