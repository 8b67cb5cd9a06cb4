//! Sorting strings and dropping repeats, in the order of `String`'s `Ord`
//! (lexicographic by character).

use vstd::prelude::*;
use crate::text::{chars_of, views};

verus! {

/// `a` comes before `b` (lexicographic order by character, a proper prefix
/// first).
pub open spec fn lex_lt(a: Seq<char>, b: Seq<char>) -> bool
    decreases a.len(),
{
    if a.len() == 0 {
        b.len() > 0
    } else if b.len() == 0 {
        false
    } else if a[0] != b[0] {
        a[0] < b[0]
    } else {
        lex_lt(a.drop_first(), b.drop_first())
    }
}

/// Nothing comes before itself.
pub proof fn lemma_lex_irreflexive(a: Seq<char>)
    ensures
        !lex_lt(a, a),
    decreases a.len(),
{
    if a.len() > 0 {
        lemma_lex_irreflexive(a.drop_first());
    }
}

/// Of two different strings, one comes first, and not both.
pub proof fn lemma_lex_total(a: Seq<char>, b: Seq<char>)
    ensures
        a != b ==> (lex_lt(a, b) || lex_lt(b, a)),
        !(lex_lt(a, b) && lex_lt(b, a)),
    decreases a.len(),
{
    if a.len() > 0 && b.len() > 0 && a[0] == b[0] {
        lemma_lex_total(a.drop_first(), b.drop_first());
        if a != b {
            assert(a.drop_first() != b.drop_first()) by {
                if a.drop_first() == b.drop_first() {
                    assert(a =~= seq![a[0]] + a.drop_first());
                    assert(b =~= seq![b[0]] + b.drop_first());
                }
            }
        }
    }
    if a.len() == 0 && b.len() == 0 {
        assert(a =~= b);
    }
}

/// The order is transitive.
pub proof fn lemma_lex_transitive(a: Seq<char>, b: Seq<char>, c: Seq<char>)
    requires
        lex_lt(a, b),
        lex_lt(b, c),
    ensures
        lex_lt(a, c),
    decreases a.len(),
{
    if a.len() > 0 && b.len() > 0 && c.len() > 0 && a[0] == b[0] && b[0] == c[0] {
        lemma_lex_transitive(a.drop_first(), b.drop_first(), c.drop_first());
    }
}

/// `s` is strictly increasing.
pub open spec fn strictly_sorted(s: Seq<Seq<char>>) -> bool {
    forall|i: int, j: int| 0 <= i < j < s.len() ==> lex_lt(s[i], s[j])
}

/// Whether `a` comes before `b`.
pub fn lex_less(a: &[char], b: &[char]) -> (r: bool)
    ensures
        r == lex_lt(a@, b@),
{
    let mut i: usize = 0;
    proof {
        assert(a@.skip(0) =~= a@);
        assert(b@.skip(0) =~= b@);
        assert(a@.take(0) =~= b@.take(0));
    }
    while i < a.len() && i < b.len()
        invariant
            i <= a@.len(),
            i <= b@.len(),
            a@.take(i as int) == b@.take(i as int),
            lex_lt(a@, b@) == lex_lt(a@.skip(i as int), b@.skip(i as int)),
        decreases a@.len() - i,
    {
        proof {
            assert(a@.skip(i as int)[0] == a@[i as int]);
            assert(b@.skip(i as int)[0] == b@[i as int]);
            assert(a@.skip(i as int).drop_first() =~= a@.skip(i + 1));
            assert(b@.skip(i as int).drop_first() =~= b@.skip(i + 1));
        }
        if a[i] != b[i] {
            return a[i] < b[i];
        }
        proof {
            assert(a@.take(i + 1) =~= a@.take(i as int).push(a@[i as int]));
            assert(b@.take(i + 1) =~= b@.take(i as int).push(b@[i as int]));
        }
        i = i + 1;
    }
    i < b.len()
}

/// The strings sorted, each once.
pub fn sort_dedup(v: &Vec<String>) -> (r: Vec<String>)
    ensures
        strictly_sorted(views(r@)),
        forall|x: Seq<char>| views(r@).contains(x) <==> views(v@).contains(x),
{
    let mut out: Vec<String> = Vec::new();
    let mut k: usize = 0;
    while k < v.len()
        invariant
            k <= v@.len(),
            strictly_sorted(views(out@)),
            forall|x: Seq<char>| views(out@).contains(x) <==> views(v@).take(k as int).contains(x),
        decreases v@.len() - k,
    {
        let x = chars_of(v[k].as_str());
        let ghost ov = views(out@);
        let mut p: usize = 0;
        while p < out.len() && lex_less(&chars_of(out[p].as_str()), &x)
            invariant
                p <= out@.len(),
                ov == views(out@),
                forall|i: int| 0 <= i < p ==> lex_lt(ov[i], x@),
            decreases out@.len() - p,
        {
            proof {
                assert(ov[p as int] == out@[p as int]@);
            }
            p = p + 1;
        }
        let ghost tk = views(v@).take(k as int);
        proof {
            assert(views(v@).take(k + 1) =~= tk.push(x@));
            assert(forall|y: Seq<char>| ov.contains(y) <==> tk.contains(y));
        }
        if p < out.len() && crate::text::str_eq(&out[p], &x) {
            proof {
                assert(ov[p as int] == x@);
                assert forall|y: Seq<char>| views(out@).contains(y) <==> views(v@).take(k + 1).contains(y) by {
                    lemma_push_contains(tk, x@, y);
                    if y == x@ {
                        assert(views(out@)[p as int] == y);
                    }
                }
            }
        } else {
            proof {
                if p < out@.len() {
                    assert(ov[p as int] == out@[p as int]@);
                    assert(!lex_lt(ov[p as int], x@));
                    lemma_lex_total(ov[p as int], x@);
                    assert(lex_lt(x@, ov[p as int]));
                }
            }
            out.insert(p, string_copy(&v[k]));
            proof {
                let nv = views(out@);
                assert(nv =~= ov.insert(p as int, x@));
                assert forall|i: int, j: int| 0 <= i < j < nv.len() implies lex_lt(nv[i], nv[j]) by {
                    if j < p {
                    } else if j == p {
                    } else if i < p {
                        lemma_lex_transitive(ov[i], x@, ov[p as int]);
                        if j - 1 > p {
                            lemma_lex_transitive(ov[i], ov[p as int], ov[j - 1]);
                        }
                    } else if i == p {
                        if j - 1 > p {
                            lemma_lex_transitive(x@, ov[p as int], ov[j - 1]);
                        }
                    } else {
                    }
                }
                assert forall|y: Seq<char>| nv.contains(y) <==> views(v@).take(k + 1).contains(y) by {
                    lemma_push_contains(tk, x@, y);
                    assert(ov.contains(y) <==> tk.contains(y));
                    if nv.contains(y) {
                        let i = choose|i: int| 0 <= i < nv.len() && nv[i] == y;
                        if i < p {
                            assert(ov[i] == y);
                        } else if i > p {
                            assert(ov[i - 1] == y);
                        }
                    }
                    if ov.contains(y) {
                        let i = choose|i: int| 0 <= i < ov.len() && ov[i] == y;
                        if i < p {
                            assert(nv[i] == y);
                        } else {
                            assert(nv[i + 1] == y);
                        }
                    }
                    if y == x@ {
                        assert(nv[p as int] == y);
                    }
                }
            }
        }
        k = k + 1;
    }
    proof {
        assert(views(v@).take(v@.len() as int) =~= views(v@));
    }
    out
}

/// The keys of an association list.
pub open spec fn keys_of<T>(e: Seq<(String, T)>) -> Seq<Seq<char>> {
    e.map_values(|p: (String, T)| p.0@)
}

/// Where `key` belongs among entries sorted by key: after every smaller key,
/// and whether it is there already.
pub fn find_slot<T>(entries: &Vec<(String, T)>, key: &Vec<char>) -> (r: (usize, bool))
    requires
        strictly_sorted(keys_of(entries@)),
    ensures
        r.0 <= entries@.len(),
        forall|i: int| 0 <= i < r.0 ==> lex_lt(#[trigger] keys_of(entries@)[i], key@),
        r.1 ==> r.0 < entries@.len() && keys_of(entries@)[r.0 as int] == key@,
        !r.1 ==> (r.0 < entries@.len() ==> lex_lt(key@, keys_of(entries@)[r.0 as int])),
        r.1 == keys_of(entries@).contains(key@),
{
    let ghost ks = keys_of(entries@);
    let mut p: usize = 0;
    while p < entries.len() && lex_less(&chars_of(entries[p].0.as_str()), key)
        invariant
            p <= entries@.len(),
            ks == keys_of(entries@),
            forall|i: int| 0 <= i < p ==> lex_lt(#[trigger] ks[i], key@),
        decreases entries@.len() - p,
    {
        proof {
            assert(ks[p as int] == entries@[p as int].0@);
        }
        p = p + 1;
    }
    let found = p < entries.len() && crate::text::str_eq(&entries[p].0, key);
    proof {
        if p < entries@.len() {
            assert(ks[p as int] == entries@[p as int].0@);
            if !found {
                lemma_lex_total(ks[p as int], key@);
            }
        }
        if found {
            assert(ks.contains(key@));
        } else {
            assert forall|i: int| 0 <= i < ks.len() implies ks[i] != key@ by {
                if i < p {
                    lemma_lex_irreflexive(key@);
                } else {
                    if i > p {
                        lemma_lex_transitive(key@, ks[p as int], ks[i]);
                    }
                    lemma_lex_irreflexive(key@);
                }
            }
        }
    }
    (p, found)
}

/// What a sequence holds after a push.
pub proof fn lemma_push_contains(s: Seq<Seq<char>>, a: Seq<char>, y: Seq<char>)
    ensures
        s.push(a).contains(y) <==> (s.contains(y) || y == a),
{
    if s.contains(y) {
        let i = choose|i: int| 0 <= i < s.len() && s[i] == y;
        assert(s.push(a)[i] == y);
    }
    if y == a {
        assert(s.push(a)[s.len() as int] == y);
    }
    if s.push(a).contains(y) {
        let i = choose|i: int| 0 <= i < s.push(a).len() && s.push(a)[i] == y;
        if i < s.len() {
            assert(s[i] == y);
        }
    }
}

/// A copy of a string.
fn string_copy(s: &String) -> (r: String)
    ensures
        r@ == s@,
{
    s.clone()
}

} // verus!
