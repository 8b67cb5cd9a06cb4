//! Character-sequence utilities: the string operations the analysis logic is
//! built from, each specified over `Seq<char>`.

use vstd::prelude::*;

verus! {

broadcast use vstd::slice::group_slice_axioms;

// ─── Specifications ─────────────────────────────────────────────

/// Unicode `White_Space` property, as `char::is_whitespace` defines it.
pub open spec fn is_ws(c: char) -> bool {
    c == ' ' || ('\t' <= c && c <= '\r') || c == '\u{85}' || c == '\u{A0}' || c == '\u{1680}'
        || ('\u{2000}' <= c && c <= '\u{200A}') || c == '\u{2028}' || c == '\u{2029}'
        || c == '\u{202F}' || c == '\u{205F}' || c == '\u{3000}'
}

/// `s` with leading whitespace removed.
pub open spec fn trim_start(s: Seq<char>) -> Seq<char>
    decreases s.len(),
{
    if s.len() > 0 && is_ws(s[0]) {
        trim_start(s.drop_first())
    } else {
        s
    }
}

/// `s` with trailing whitespace removed.
pub open spec fn trim_end(s: Seq<char>) -> Seq<char>
    decreases s.len(),
{
    if s.len() > 0 && is_ws(s.last()) {
        trim_end(s.drop_last())
    } else {
        s
    }
}

/// `s` with surrounding whitespace removed (`str::trim`).
pub open spec fn trim(s: Seq<char>) -> Seq<char> {
    trim_end(trim_start(s))
}

/// `p` occurs in `s` starting at index `i`.
pub open spec fn match_at(s: Seq<char>, p: Seq<char>, i: int) -> bool {
    0 <= i && i + p.len() <= s.len() && s.subrange(i, i + p.len()) == p
}

/// Index of the first occurrence of `p` in `s` at or after `i`.
pub open spec fn find_from(s: Seq<char>, p: Seq<char>, i: int) -> Option<int>
    decreases s.len() + 1 - i,
{
    if i < 0 || i + p.len() > s.len() {
        None
    } else if match_at(s, p, i) {
        Some(i)
    } else {
        find_from(s, p, i + 1)
    }
}

/// Index of the first occurrence of `p` in `s` (`str::find`).
pub open spec fn find(s: Seq<char>, p: Seq<char>) -> Option<int> {
    find_from(s, p, 0)
}

/// `p` occurs somewhere in `s` (`str::contains`).
pub open spec fn contains(s: Seq<char>, p: Seq<char>) -> bool {
    find(s, p) is Some
}

/// Index of the last occurrence of `p` in `s` starting at or before `i`.
pub open spec fn rfind_upto(s: Seq<char>, p: Seq<char>, i: int) -> Option<int>
    decreases i + 1,
{
    if i < 0 {
        None
    } else if match_at(s, p, i) {
        Some(i)
    } else {
        rfind_upto(s, p, i - 1)
    }
}

/// Index of the last occurrence of `p` in `s` (`str::rfind`).
pub open spec fn rfind(s: Seq<char>, p: Seq<char>) -> Option<int> {
    rfind_upto(s, p, s.len() - p.len())
}

pub open spec fn starts_with(s: Seq<char>, p: Seq<char>) -> bool {
    p.len() <= s.len() && s.subrange(0, p.len() as int) == p
}

pub open spec fn ends_with(s: Seq<char>, p: Seq<char>) -> bool {
    p.len() <= s.len() && s.subrange(s.len() - p.len(), s.len() as int) == p
}

/// The pieces of `s` between the occurrences of the non-empty separator `p`
/// (`str::split`).
pub open spec fn split(s: Seq<char>, p: Seq<char>) -> Seq<Seq<char>>
    decreases s.len(),
{
    if p.len() == 0 {
        seq![s]
    } else {
        proof {
            lemma_find_from_props(s, p, 0);
        }
        match find(s, p) {
            None => seq![s],
            Some(i) => seq![s.take(i)] + split(s.skip(i + p.len()), p),
        }
    }
}

/// At most `n` pieces of `s` split at `p`, the last holding the rest (`str::splitn`).
pub open spec fn splitn(s: Seq<char>, p: Seq<char>, n: nat) -> Seq<Seq<char>>
    decreases n,
{
    if n == 0 {
        seq![]
    } else if n == 1 || p.len() == 0 {
        seq![s]
    } else {
        match find(s, p) {
            None => seq![s],
            Some(i) => seq![s.take(i)] + splitn(s.skip(i + p.len()), p, (n - 1) as nat),
        }
    }
}

/// `s` without one trailing `'\r'`.
pub open spec fn strip_cr(s: Seq<char>) -> Seq<char> {
    if s.len() > 0 && s.last() == '\r' {
        s.drop_last()
    } else {
        s
    }
}

/// The lines of `s` (`str::lines`).
pub open spec fn lines(s: Seq<char>) -> Seq<Seq<char>>
    decreases s.len(),
{
    if s.len() == 0 {
        seq![]
    } else {
        proof {
            lemma_find_from_props(s, seq!['\n'], 0);
        }
        match find(s, seq!['\n']) {
            None => seq![s],
            Some(i) => seq![strip_cr(s.take(i))] + lines(s.skip(i + 1)),
        }
    }
}

/// The pieces joined with `sep` between them (`[T]::join`).
pub open spec fn join(parts: Seq<Seq<char>>, sep: Seq<char>) -> Seq<char>
    decreases parts.len(),
{
    if parts.len() == 0 {
        seq![]
    } else if parts.len() == 1 {
        parts[0]
    } else {
        join(parts.drop_last(), sep) + sep + parts.last()
    }
}

/// The views of a sequence of strings.
pub open spec fn views(v: Seq<String>) -> Seq<Seq<char>> {
    v.map_values(|s: String| s@)
}

/// The views of a sequence of character vectors.
pub open spec fn vviews(v: Seq<Vec<char>>) -> Seq<Seq<char>> {
    v.map_values(|s: Vec<char>| s@)
}

// ─── Lemmas ─────────────────────────────────────────────────────

pub proof fn lemma_find_from_props(s: Seq<char>, p: Seq<char>, i: int)
    requires
        0 <= i,
    ensures
        find_from(s, p, i) matches Some(k) ==> i <= k && match_at(s, p, k) && (forall|j: int|
            i <= j < k ==> !match_at(s, p, j)),
        find_from(s, p, i) is None ==> forall|j: int| i <= j ==> !match_at(s, p, j),
    decreases s.len() + 1 - i,
{
    if i + p.len() > s.len() {
    } else if match_at(s, p, i) {
    } else {
        lemma_find_from_props(s, p, i + 1);
    }
}

/// Where `find` finds `p`, `p` fits in `s` there.
/// A text that neither starts nor ends with whitespace is its own trim.
pub proof fn lemma_trim_unchanged(s: Seq<char>)
    requires
        s.len() > 0,
        !is_ws(s[0]),
        !is_ws(s.last()),
    ensures
        trim(s) == s,
{
    assert(trim_start(s) == s);
}

/// A non-empty trimmed text ends with a character that is not whitespace.
pub proof fn lemma_trimmed_ends(s: Seq<char>)
    requires
        s.len() > 0,
        trim(s) == s,
    ensures
        !is_ws(s.last()),
{
    lemma_trim_start_suffix(s);
    let t = trim_start(s);
    lemma_trim_end_prefix(t);
    let k = choose|k: int| 0 <= k <= s.len() && trim_start(s) == s.skip(k) && (forall|j: int|
        0 <= j < k ==> is_ws(#[trigger] s[j])) && (k < s.len() ==> !is_ws(s[k]));
    let k2 = choose|k2: int| 0 <= k2 <= t.len() && trim_end(t) == t.take(k2) && (forall|j: int|
        k2 <= j < t.len() ==> is_ws(#[trigger] t[j])) && (k2 > 0 ==> !is_ws(t[k2 - 1]));
    assert(k == 0 && k2 == t.len());
    assert(t =~= s);
}

/// The first match of `p` in `s` is at `k` when `p` occurs at `k` and at no
/// earlier index.
/// Trimming twice trims no more than once.
pub proof fn lemma_trim_twice(s: Seq<char>)
    ensures
        trim(trim(s)) == trim(s),
{
    lemma_trim_start_suffix(s);
    let u = trim_start(s);
    lemma_trim_end_prefix(u);
    let k = choose|k: int| 0 <= k <= s.len() && trim_start(s) == s.skip(k) && (forall|j: int|
        0 <= j < k ==> is_ws(#[trigger] s[j])) && (k < s.len() ==> !is_ws(s[k]));
    let k2 = choose|k2: int| 0 <= k2 <= u.len() && trim_end(u) == u.take(k2) && (forall|j: int|
        k2 <= j < u.len() ==> is_ws(#[trigger] u[j])) && (k2 > 0 ==> !is_ws(u[k2 - 1]));
    let t = trim(s);
    if t.len() > 0 {
        assert(t[0] == u[0]);
        assert(u[0] == s[k]);
        assert(t.last() == u[k2 - 1]);
        lemma_trim_unchanged(t);
    } else {
        assert(trim_start(t) == t);
    }
}

pub proof fn lemma_find_at(s: Seq<char>, p: Seq<char>, k: int)
    requires
        match_at(s, p, k),
        forall|j: int| 0 <= j < k ==> !match_at(s, p, j),
    ensures
        find(s, p) == Some(k),
{
    lemma_find_from_props(s, p, 0);
}

/// A text without `p` has no match of `p` inside it.
pub proof fn lemma_no_match_within(t: Seq<char>, p: Seq<char>, j: int)
    requires
        !contains(t, p),
        0 <= j,
    ensures
        !match_at(t, p, j),
{
    lemma_find_from_props(t, p, 0);
}

pub proof fn lemma_find_bounds(s: Seq<char>, p: Seq<char>)
    ensures
        find(s, p) matches Some(k) ==> 0 <= k && k + p.len() <= s.len() && match_at(s, p, k),
{
    lemma_find_from_props(s, p, 0);
}

/// Where `rfind` finds `p`, `p` fits in `s` there.
pub proof fn lemma_rfind_bounds(s: Seq<char>, p: Seq<char>)
    ensures
        rfind(s, p) matches Some(k) ==> 0 <= k && k + p.len() <= s.len() && match_at(s, p, k),
{
    lemma_rfind_upto_props(s, p, s.len() - p.len());
}

pub proof fn lemma_rfind_upto_props(s: Seq<char>, p: Seq<char>, i: int)
    ensures
        rfind_upto(s, p, i) matches Some(k) ==> 0 <= k <= i && match_at(s, p, k) && (forall|j: int|
            k < j <= i ==> !match_at(s, p, j)),
        rfind_upto(s, p, i) is None ==> forall|j: int| j <= i ==> !match_at(s, p, j),
    decreases i + 1,
{
    if i < 0 {
    } else if match_at(s, p, i) {
    } else {
        lemma_rfind_upto_props(s, p, i - 1);
    }
}

pub proof fn lemma_trim_start_suffix(s: Seq<char>)
    ensures
        exists|k: int| 0 <= k <= s.len() && trim_start(s) == s.skip(k) && (forall|j: int|
            0 <= j < k ==> is_ws(#[trigger] s[j])) && (k < s.len() ==> !is_ws(s[k])),
    decreases s.len(),
{
    if s.len() > 0 && is_ws(s[0]) {
        lemma_trim_start_suffix(s.drop_first());
        let k = choose|k: int|
            0 <= k <= s.drop_first().len() && trim_start(s.drop_first()) == s.drop_first().skip(k)
                && (forall|j: int| 0 <= j < k ==> is_ws(#[trigger] s.drop_first()[j])) && (k
                < s.drop_first().len() ==> !is_ws(s.drop_first()[k]));
        assert(s.drop_first().skip(k) =~= s.skip(k + 1));
        assert forall|j: int| 0 <= j < k + 1 implies is_ws(#[trigger] s[j]) by {
            if j > 0 {
                assert(s[j] == s.drop_first()[j - 1]);
            }
        }
        if k + 1 < s.len() {
            assert(s[k + 1] == s.drop_first()[k]);
        }
        assert(0 <= k + 1 <= s.len() && trim_start(s) == s.skip(k + 1) && (forall|j: int|
            0 <= j < k + 1 ==> is_ws(#[trigger] s[j])) && (k + 1 < s.len() ==> !is_ws(s[k + 1])));
    } else {
        assert(s.skip(0) =~= s);
        assert(0 <= 0 <= s.len() && trim_start(s) == s.skip(0) && (forall|j: int|
            0 <= j < 0 ==> is_ws(#[trigger] s[j])) && (0 < s.len() ==> !is_ws(s[0])));
    }
}

pub proof fn lemma_trim_end_prefix(s: Seq<char>)
    ensures
        exists|k: int| 0 <= k <= s.len() && trim_end(s) == s.take(k) && (forall|j: int|
            k <= j < s.len() ==> is_ws(#[trigger] s[j])) && (k > 0 ==> !is_ws(s[k - 1])),
    decreases s.len(),
{
    if s.len() > 0 && is_ws(s.last()) {
        lemma_trim_end_prefix(s.drop_last());
        let k = choose|k: int|
            0 <= k <= s.drop_last().len() && trim_end(s.drop_last()) == s.drop_last().take(k)
                && (forall|j: int| k <= j < s.drop_last().len() ==> is_ws(#[trigger] s.drop_last()[j]))
                && (k > 0 ==> !is_ws(s.drop_last()[k - 1]));
        assert(s.drop_last().take(k) =~= s.take(k));
        assert forall|j: int| k <= j < s.len() implies is_ws(#[trigger] s[j]) by {
            if j < s.len() - 1 {
                assert(s[j] == s.drop_last()[j]);
            }
        }
        if k > 0 {
            assert(s[k - 1] == s.drop_last()[k - 1]);
        }
        assert(0 <= k <= s.len() && trim_end(s) == s.take(k) && (forall|j: int|
            k <= j < s.len() ==> is_ws(#[trigger] s[j])) && (k > 0 ==> !is_ws(s[k - 1])));
    } else {
        assert(s.take(s.len() as int) =~= s);
        let k = s.len() as int;
        assert(0 <= k <= s.len() && trim_end(s) == s.take(k) && (forall|j: int|
            k <= j < s.len() ==> is_ws(#[trigger] s[j])) && (k > 0 ==> !is_ws(s[k - 1])));
    }
}

// ─── Executable operations ──────────────────────────────────────

/// Whether `c` is whitespace (`char::is_whitespace`).
pub fn is_whitespace(c: char) -> (r: bool)
    ensures
        r == is_ws(c),
{
    c == ' ' || ('\t' <= c && c <= '\r') || c == '\u{85}' || c == '\u{A0}' || c == '\u{1680}'
        || ('\u{2000}' <= c && c <= '\u{200A}') || c == '\u{2028}' || c == '\u{2029}'
        || c == '\u{202F}' || c == '\u{205F}' || c == '\u{3000}'
}

/// The characters of a string slice (`str::chars`, collected).
#[verifier::external_body]
pub fn chars_of(s: &str) -> (r: Vec<char>)
    ensures
        r@ == s@,
{
    s.chars().collect()
}

/// Appends one character to a string (`String::push`).
#[verifier::external_body]
pub(crate) fn push_char(s: &mut String, c: char)
    ensures
        final(s)@ == old(s)@.push(c),
{
    s.push(c);
}

/// The string made of the given characters.
pub fn string_of(v: &[char]) -> (r: String)
    ensures
        r@ == v@,
{
    let mut out = String::new();
    let mut i: usize = 0;
    while i < v.len()
        invariant
            i <= v@.len(),
            out@ == v@.take(i as int),
        decreases v@.len() - i,
    {
        push_char(&mut out, v[i]);
        assert(v@.take(i as int).push(v@[i as int]) =~= v@.take(i as int + 1));
        i = i + 1;
    }
    assert(v@.take(v@.len() as int) =~= v@);
    out
}

/// The characters `s[i..j]`.
pub fn slice_chars(s: &[char], i: usize, j: usize) -> (r: Vec<char>)
    requires
        i <= j <= s@.len(),
    ensures
        r@ == s@.subrange(i as int, j as int),
{
    let mut out: Vec<char> = Vec::new();
    let mut k = i;
    while k < j
        invariant
            i <= k <= j <= s@.len(),
            out@ == s@.subrange(i as int, k as int),
        decreases j - k,
    {
        out.push(s[k]);
        assert(s@.subrange(i as int, k as int).push(s@[k as int]) =~= s@.subrange(
            i as int,
            k + 1,
        ));
        k = k + 1;
    }
    out
}

/// Whether two character sequences are equal.
pub fn eq_chars(a: &[char], b: &[char]) -> (r: bool)
    ensures
        r == (a@ == b@),
{
    if a.len() != b.len() {
        return false;
    }
    let mut i: usize = 0;
    while i < a.len()
        invariant
            a@.len() == b@.len(),
            i <= a@.len(),
            forall|j: int| 0 <= j < i ==> a@[j] == b@[j],
        decreases a@.len() - i,
    {
        if a[i] != b[i] {
            return false;
        }
        i = i + 1;
    }
    assert(a@ =~= b@);
    true
}

/// Whether a string equals the given characters.
pub fn str_eq(a: &String, b: &[char]) -> (r: bool)
    ensures
        r == (a@ == b@),
{
    let v = chars_of(a.as_str());
    eq_chars(&v, b)
}

/// Whether `p` occurs in `s` at index `i`.
pub fn matches_at(s: &[char], p: &[char], i: usize) -> (r: bool)
    ensures
        r == match_at(s@, p@, i as int),
{
    if i > s.len() || p.len() > s.len() - i {
        return false;
    }
    let n = s.len();
    let mut k: usize = 0;
    while k < p.len()
        invariant
            n == s@.len(),
            i + p@.len() <= n,
            k <= p@.len(),
            forall|j: int| 0 <= j < k ==> s@[i + j] == p@[j],
        decreases p@.len() - k,
    {
        if s[i + k] != p[k] {
            assert(s@.subrange(i as int, i + p@.len())[k as int] != p@[k as int]);
            return false;
        }
        k = k + 1;
    }
    assert(s@.subrange(i as int, i + p@.len()) =~= p@);
    true
}

/// Index of the first occurrence of `p` in `s` at or after `from`.
pub fn find_from_exec(s: &[char], p: &[char], from: usize) -> (r: Option<usize>)
    ensures
        r matches Some(k) ==> find_from(s@, p@, from as int) == Some(k as int),
        r is None ==> find_from(s@, p@, from as int) is None,
{
    if p.len() > s.len() || from > s.len() - p.len() {
        return None;
    }
    let last = s.len() - p.len();
    let mut i = from;
    loop
        invariant
            from <= i <= last,
            last == s@.len() - p@.len(),
            find_from(s@, p@, from as int) == find_from(s@, p@, i as int),
        decreases last - i,
    {
        if matches_at(s, p, i) {
            return Some(i);
        }
        if i == last {
            assert(find_from(s@, p@, i + 1) is None);
            return None;
        }
        i = i + 1;
    }
}

/// Index of the first occurrence of `p` in `s` (`str::find`).
pub fn find_exec(s: &[char], p: &[char]) -> (r: Option<usize>)
    ensures
        r matches Some(k) ==> find(s@, p@) == Some(k as int),
        r is None ==> find(s@, p@) is None,
{
    find_from_exec(s, p, 0)
}

/// Whether `p` occurs in `s` (`str::contains`).
pub fn contains_exec(s: &[char], p: &[char]) -> (r: bool)
    ensures
        r == contains(s@, p@),
{
    find_exec(s, p).is_some()
}

/// Index of the last occurrence of `p` in `s` (`str::rfind`).
pub fn rfind_exec(s: &[char], p: &[char]) -> (r: Option<usize>)
    ensures
        r matches Some(k) ==> rfind(s@, p@) == Some(k as int),
        r is None ==> rfind(s@, p@) is None,
{
    if p.len() > s.len() {
        assert(rfind_upto(s@, p@, s@.len() - p@.len()) is None);
        return None;
    }
    let mut i = s.len() - p.len();
    loop
        invariant
            i <= s@.len() - p@.len(),
            rfind(s@, p@) == rfind_upto(s@, p@, i as int),
        decreases i,
    {
        if matches_at(s, p, i) {
            return Some(i);
        }
        if i == 0 {
            assert(rfind_upto(s@, p@, -1) is None);
            return None;
        }
        i = i - 1;
    }
}

pub fn starts_with_exec(s: &[char], p: &[char]) -> (r: bool)
    ensures
        r == starts_with(s@, p@),
{
    matches_at(s, p, 0)
}

pub fn ends_with_exec(s: &[char], p: &[char]) -> (r: bool)
    ensures
        r == ends_with(s@, p@),
{
    if p.len() > s.len() {
        return false;
    }
    matches_at(s, p, s.len() - p.len())
}

/// Bounds `(a, b)` such that `s[a..b]` is `s` without surrounding whitespace.
pub fn trim_bounds(s: &[char]) -> (r: (usize, usize))
    ensures
        r.0 <= r.1 <= s@.len(),
        s@.subrange(r.0 as int, r.1 as int) == trim(s@),
{
    let mut a: usize = 0;
    while a < s.len() && is_whitespace(s[a])
        invariant
            a <= s@.len(),
            forall|j: int| 0 <= j < a ==> is_ws(#[trigger] s@[j]),
        decreases s@.len() - a,
    {
        a = a + 1;
    }
    proof {
        lemma_trim_start_suffix(s@);
        let k = choose|k: int|
            0 <= k <= s@.len() && trim_start(s@) == s@.skip(k) && (forall|j: int|
                0 <= j < k ==> is_ws(#[trigger] s@[j])) && (k < s@.len() ==> !is_ws(s@[k]));
        if k < a {
            assert(is_ws(s@[k]));
        }
        if a < k {
            assert(is_ws(s@[a as int]));
        }
        assert(k == a);
    }
    let mut b: usize = s.len();
    while b > a && is_whitespace(s[b - 1])
        invariant
            a <= b <= s@.len(),
            forall|j: int| b <= j < s@.len() ==> is_ws(#[trigger] s@[j]),
        decreases b,
    {
        b = b - 1;
    }
    proof {
        let t = s@.skip(a as int);
        lemma_trim_end_prefix(t);
        let k = choose|k: int|
            0 <= k <= t.len() && trim_end(t) == t.take(k) && (forall|j: int|
                k <= j < t.len() ==> is_ws(#[trigger] t[j])) && (k > 0 ==> !is_ws(t[k - 1]));
        let kb = b - a;
        if k < kb {
            assert(t[kb - 1] == s@[b - 1]);
            assert(is_ws(t[kb - 1]));
        }
        if kb < k {
            assert(t[k - 1] == s@[a + k - 1]);
            assert(is_ws(s@[a + k - 1]));
        }
        assert(k == kb);
        assert(t.take(k) =~= s@.subrange(a as int, b as int));
    }
    (a, b)
}

/// `s` without trailing whitespace (`str::trim_end`).
pub fn trim_end_exec(s: &[char]) -> (r: Vec<char>)
    ensures
        r@ == trim_end(s@),
{
    let mut b: usize = s.len();
    while b > 0 && is_whitespace(s[b - 1])
        invariant
            b <= s@.len(),
            forall|j: int| b <= j < s@.len() ==> is_ws(#[trigger] s@[j]),
        decreases b,
    {
        b = b - 1;
    }
    proof {
        let t = s@;
        lemma_trim_end_prefix(t);
        let k = choose|k: int|
            0 <= k <= t.len() && trim_end(t) == t.take(k) && (forall|j: int|
                k <= j < t.len() ==> is_ws(#[trigger] t[j])) && (k > 0 ==> !is_ws(t[k - 1]));
        if k < b {
            assert(is_ws(t[b - 1]));
        }
        if b < k {
            assert(is_ws(t[k - 1]));
        }
        assert(k == b);
    }
    slice_chars(s, 0, b)
}

/// `s` without surrounding whitespace (`str::trim`).
pub fn trim_exec(s: &[char]) -> (r: Vec<char>)
    ensures
        r@ == trim(s@),
{
    let (a, b) = trim_bounds(s);
    slice_chars(s, a, b)
}

/// The pieces of `s` between occurrences of the separator `p` (`str::split`).
pub fn split_exec(s: &[char], p: &[char]) -> (r: Vec<Vec<char>>)
    ensures
        vviews(r@) == split(s@, p@),
{
    let mut out: Vec<Vec<char>> = Vec::new();
    if p.len() == 0 {
        out.push(slice_chars(s, 0, s.len()));
        assert(s@.subrange(0, s@.len() as int) =~= s@);
        assert(vviews(out@) =~= split(s@, p@));
        return out;
    }
    let mut start: usize = 0;
    assert(s@.skip(0) =~= s@);
    assert(vviews(out@) + split(s@, p@) =~= split(s@, p@));
    loop
        invariant
            p@.len() > 0,
            start <= s@.len(),
            split(s@, p@) == vviews(out@) + split(s@.skip(start as int), p@),
        decreases s@.len() - start,
    {
        let rest = slice_chars(s, start, s.len());
        assert(rest@ =~= s@.skip(start as int));
        let ghost old_out = out@;
        match find_exec(&rest, p) {
            None => {
                out.push(rest);
                assert(vviews(out@) =~= vviews(old_out).push(rest@));
                assert(vviews(out@) =~= split(s@, p@));
                return out;
            },
            Some(i) => {
                proof {
                    lemma_find_from_props(rest@, p@, 0);
                }
                let piece = slice_chars(&rest, 0, i);
                out.push(piece);
                proof {
                    assert(vviews(out@) =~= vviews(old_out).push(piece@));
                    assert(piece@ =~= rest@.take(i as int));
                    assert(rest@.skip(i + p@.len()) =~= s@.skip(start + i + p@.len()));
                    assert(split(rest@, p@) =~= seq![piece@] + split(
                        s@.skip(start + i + p@.len()),
                        p@,
                    ));
                }
                start = start + i + p.len();
            },
        }
    }
}

/// At most `n` pieces of `s` split at `p` (`str::splitn`).
pub fn splitn_exec(s: &[char], p: &[char], n: usize) -> (r: Vec<Vec<char>>)
    ensures
        vviews(r@) == splitn(s@, p@, n as nat),
{
    let mut out: Vec<Vec<char>> = Vec::new();
    let mut start: usize = 0;
    let mut left = n;
    assert(s@.skip(0) =~= s@);
    assert(vviews(out@) + splitn(s@, p@, n as nat) =~= splitn(s@, p@, n as nat));
    loop
        invariant
            start <= s@.len(),
            left <= n,
            splitn(s@, p@, n as nat) == vviews(out@) + splitn(
                s@.skip(start as int),
                p@,
                left as nat,
            ),
        decreases left,
    {
        let rest = slice_chars(s, start, s.len());
        assert(rest@ =~= s@.skip(start as int));
        let ghost old_out = out@;
        if left == 0 {
            assert(vviews(out@) + splitn(rest@, p@, 0) =~= vviews(out@));
            return out;
        }
        let found = if left == 1 || p.len() == 0 {
            None
        } else {
            find_exec(&rest, p)
        };
        match found {
            None => {
                out.push(rest);
                assert(vviews(out@) =~= vviews(old_out).push(rest@));
                assert(vviews(out@) =~= splitn(s@, p@, n as nat));
                return out;
            },
            Some(i) => {
                proof {
                    lemma_find_from_props(rest@, p@, 0);
                }
                let piece = slice_chars(&rest, 0, i);
                out.push(piece);
                proof {
                    assert(vviews(out@) =~= vviews(old_out).push(piece@));
                    assert(piece@ =~= rest@.take(i as int));
                    assert(rest@.skip(i + p@.len()) =~= s@.skip(start + i + p@.len()));
                }
                start = start + i + p.len();
                left = left - 1;
            },
        }
    }
}

/// The lines of `s` (`str::lines`).
pub fn lines_exec(s: &[char]) -> (r: Vec<Vec<char>>)
    ensures
        vviews(r@) == lines(s@),
{
    let mut out: Vec<Vec<char>> = Vec::new();
    let mut start: usize = 0;
    let nl = vec!['\n'];
    assert(s@.skip(0) =~= s@);
    assert(vviews(out@) + lines(s@) =~= lines(s@));
    loop
        invariant
            start <= s@.len(),
            nl@ == seq!['\n'],
            lines(s@) == vviews(out@) + lines(s@.skip(start as int)),
        decreases s@.len() - start,
    {
        let rest = slice_chars(s, start, s.len());
        assert(rest@ =~= s@.skip(start as int));
        let ghost old_out = out@;
        if rest.len() == 0 {
            assert(vviews(out@) + lines(rest@) =~= vviews(out@));
            return out;
        }
        match find_exec(&rest, &nl) {
            None => {
                out.push(rest);
                assert(vviews(out@) =~= vviews(old_out).push(rest@));
                assert(vviews(out@) =~= lines(s@));
                return out;
            },
            Some(i) => {
                proof {
                    lemma_find_from_props(rest@, nl@, 0);
                }
                let end = if i > 0 && rest[i - 1] == '\r' {
                    i - 1
                } else {
                    i
                };
                let piece = slice_chars(&rest, 0, end);
                proof {
                    assert(piece@ =~= strip_cr(rest@.take(i as int)));
                }
                out.push(piece);
                proof {
                    assert(vviews(out@) =~= vviews(old_out).push(piece@));
                    assert(rest@.skip(i + 1) =~= s@.skip(start + i + 1));
                }
                start = start + i + 1;
            },
        }
    }
}

/// The characters of a string slice, as a vector.
pub fn lit(s: &str) -> (r: Vec<char>)
    ensures
        r@ == s@,
{
    chars_of(s)
}

/// Appends characters to a string.
pub fn append_chars(out: &mut String, v: &[char])
    ensures
        final(out)@ == old(out)@ + v@,
{
    let mut i: usize = 0;
    while i < v.len()
        invariant
            i <= v@.len(),
            out@ == old(out)@ + v@.take(i as int),
        decreases v@.len() - i,
    {
        push_char(out, v[i]);
        assert(v@.take(i as int).push(v@[i as int]) =~= v@.take(i as int + 1));
        i = i + 1;
    }
    assert(v@.take(v@.len() as int) =~= v@);
}

/// The strings joined with `sep` between them.
pub fn join_strings(parts: &Vec<String>, sep: &str) -> (r: String)
    ensures
        r@ == join(views(parts@), sep@),
{
    let mut out = String::new();
    let mut i: usize = 0;
    while i < parts.len()
        invariant
            i <= parts@.len(),
            out@ == join(views(parts@).take(i as int), sep@),
        decreases parts@.len() - i,
    {
        proof {
            assert(views(parts@).take(i + 1).drop_last() =~= views(parts@).take(i as int));
        }
        if i > 0 {
            out.append(sep);
        }
        out.append(parts[i].as_str());
        i = i + 1;
    }
    assert(views(parts@).take(parts@.len() as int) =~= views(parts@));
    out
}

/// A copy of a string.
pub fn copy_string(s: &String) -> (r: String)
    ensures
        r@ == s@,
{
    s.clone()
}

/// A copy of an optional string.
pub fn copy_opt_string(s: &Option<String>) -> (r: Option<String>)
    ensures
        r matches Some(x) ==> s matches Some(y) && x@ == y@,
        r is None <==> s is None,
{
    match s {
        Some(x) => Some(copy_string(x)),
        None => None,
    }
}

/// A copy of a vector of strings.
pub fn copy_strings(v: &Vec<String>) -> (r: Vec<String>)
    ensures
        views(r@) == views(v@),
{
    let mut out: Vec<String> = Vec::new();
    let mut i: usize = 0;
    while i < v.len()
        invariant
            i <= v@.len(),
            views(out@) == views(v@).take(i as int),
        decreases v@.len() - i,
    {
        let ghost before = out@;
        out.push(v[i].clone());
        proof {
            assert(views(out@) =~= views(before).push(v@[i as int]@));
            assert(views(v@).take(i + 1) =~= views(v@).take(i as int).push(v@[i as int]@));
        }
        i = i + 1;
    }
    proof {
        assert(views(v@).take(v@.len() as int) =~= views(v@));
    }
    out
}

} // verus!
