//! Pieces shared by the type-annotation parsers of the language frontends:
//! unwrapping `Name<...>`-style wrappers and splitting generic arguments at
//! the first top-level comma.

use vstd::prelude::*;
use crate::text::{
    find, is_ws, lemma_find_from_props, lemma_trim_end_prefix, lemma_trim_start_suffix, match_at,
    slice_chars, split, starts_with, starts_with_exec, trim, trim_end, trim_exec, trim_start,
};

verus! {

/// The inside of `t` when it is `pre`, something, then `suf`
/// (`strip_prefix(pre)` then `strip_suffix(suf)`).
pub open spec fn wrapped(t: Seq<char>, pre: Seq<char>, suf: char) -> Option<Seq<char>> {
    if starts_with(t, pre) && t.len() >= pre.len() + 1 && t.last() == suf {
        Some(t.subrange(pre.len() as int, t.len() - 1))
    } else {
        None
    }
}

/// The inside of `t` when it is `pre`, something, then `suf`.
pub fn wrapped_exec(t: &[char], pre: &[char], suf: char) -> (r: Option<Vec<char>>)
    ensures
        match r {
            Some(v) => wrapped(t@, pre@, suf) == Some(v@),
            None => wrapped(t@, pre@, suf) is None,
        },
{
    if starts_with_exec(t, pre) && t.len() > pre.len() && t[t.len() - 1] == suf {
        Some(slice_chars(t, pre.len(), t.len() - 1))
    } else {
        None
    }
}

/// Whether `c` opens a generic argument list (`<`, and `[` when `square`).
pub open spec fn opens(c: char, square: bool) -> bool {
    c == '<' || (square && c == '[')
}

/// Whether `c` closes a generic argument list (`>`, and `]` when `square`).
pub open spec fn closes(c: char, square: bool) -> bool {
    c == '>' || (square && c == ']')
}

/// The first comma at bracket depth zero in `s` from index `i` on, the
/// depth there being `depth` (a closer before its opener takes the depth
/// below zero).
pub open spec fn top_comma(s: Seq<char>, i: int, depth: int, square: bool) -> Option<int>
    decreases s.len() - i,
{
    if i < 0 || i >= s.len() {
        None
    } else if opens(s[i], square) {
        top_comma(s, i + 1, depth + 1, square)
    } else if closes(s[i], square) {
        top_comma(s, i + 1, depth - 1, square)
    } else if s[i] == ',' && depth == 0 {
        Some(i)
    } else {
        top_comma(s, i + 1, depth, square)
    }
}

/// `s` split at its first top-level comma, both sides trimmed.
pub open spec fn split_top(s: Seq<char>, square: bool) -> Option<(Seq<char>, Seq<char>)> {
    match top_comma(s, 0, 0, square) {
        Some(i) => Some((trim(s.take(i)), trim(s.skip(i + 1)))),
        None => None,
    }
}

proof fn lemma_top_comma_range(s: Seq<char>, i: int, depth: int, square: bool)
    requires
        0 <= i,
    ensures
        top_comma(s, i, depth, square) matches Some(k) ==> i <= k < s.len(),
    decreases s.len() - i,
{
    if i < s.len() {
        lemma_top_comma_range(s, i + 1, depth + 1, square);
        lemma_top_comma_range(s, i + 1, depth - 1, square);
        lemma_top_comma_range(s, i + 1, depth, square);
    }
}

/// `s` split at its first top-level comma, both sides trimmed.
pub fn split_top_exec(s: &[char], square: bool) -> (r: Option<(Vec<char>, Vec<char>)>)
    ensures
        match r {
            Some((a, b)) => split_top(s@, square) == Some((a@, b@)),
            None => split_top(s@, square) is None,
        },
{
    let mut up: usize = 0;
    let mut down: usize = 0;
    let mut i: usize = 0;
    while i < s.len()
        invariant
            i <= s@.len(),
            up + down <= i,
            top_comma(s@, 0, 0, square) == top_comma(s@, i as int, up - down, square),
        decreases s@.len() - i,
    {
        let c = s[i];
        if c == '<' || (square && c == '[') {
            up = up + 1;
        } else if c == '>' || (square && c == ']') {
            down = down + 1;
        } else if c == ',' && up == down {
            proof {
                lemma_top_comma_range(s@, 0, 0, square);
            }
            let a = trim_exec(&slice_chars(s, 0, i));
            let b = trim_exec(&slice_chars(s, i + 1, s.len()));
            proof {
                assert(s@.subrange(0, i as int) =~= s@.take(i as int));
                assert(s@.subrange(i + 1, s@.len() as int) =~= s@.skip(i + 1));
            }
            return Some((a, b));
        }
        i = i + 1;
    }
    None
}

/// `trim(s)` is a piece of `s`.
pub proof fn lemma_trim_piece(s: Seq<char>)
    ensures
        exists|a: int, b: int| 0 <= a <= b <= s.len() && trim(s) == s.subrange(a, b),
        trim(s).len() <= s.len(),
{
    lemma_trim_start_suffix(s);
    let a = choose|a: int| 0 <= a <= s.len() && trim_start(s) == s.skip(a) && (forall|j: int|
        0 <= j < a ==> is_ws(#[trigger] s[j])) && (a < s.len() ==> !is_ws(s[a]));
    let t = trim_start(s);
    lemma_trim_end_prefix(t);
    let b = choose|b: int| 0 <= b <= t.len() && trim_end(t) == t.take(b) && (forall|j: int|
        b <= j < t.len() ==> is_ws(#[trigger] t[j])) && (b > 0 ==> !is_ws(t[b - 1]));
    assert(trim(s) =~= s.subrange(a, a + b));
}

/// Both sides of a top-level split are shorter than the whole.
pub proof fn lemma_split_top_shorter(s: Seq<char>, square: bool)
    ensures
        split_top(s, square) matches Some((a, b)) ==> a.len() < s.len() && b.len() < s.len(),
{
    lemma_top_comma_range(s, 0, 0, square);
    if let Some(i) = top_comma(s, 0, 0, square) {
        lemma_trim_piece(s.take(i));
        lemma_trim_piece(s.skip(i + 1));
    }
}

/// The pieces of a split are no longer than the whole, and there is at
/// least one.
pub proof fn lemma_split_pieces(s: Seq<char>, p: Seq<char>)
    requires
        p.len() > 0,
    ensures
        split(s, p).len() >= 1,
        forall|k: int| 0 <= k < split(s, p).len() ==> (#[trigger] split(s, p)[k]).len() <= s.len(),
        find(s, p) is Some ==> split(s, p).len() >= 2 && forall|k: int| 0 <= k < split(s, p).len()
            ==> (#[trigger] split(s, p)[k]).len() < s.len(),
    decreases s.len(),
{
    lemma_find_from_props(s, p, 0);
    match find(s, p) {
        None => {},
        Some(i) => {
            let rest = s.skip(i + p.len());
            lemma_split_pieces(rest, p);
            let whole = split(s, p);
            assert(whole == seq![s.take(i)] + split(rest, p));
            assert forall|k: int| 0 <= k < whole.len() implies (#[trigger] whole[k]).len() < s.len() by {
                if k > 0 {
                    assert(whole[k] == split(rest, p)[k - 1]);
                }
            }
        },
    }
}

} // verus!
