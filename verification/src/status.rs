//! Project health figures: what the status dashboard reports of an indexed
//! graph.

use vstd::prelude::*;
use crate::discovery::index_order;
use crate::fixgen::{last_part, last_part_exec};
use crate::graph::{SemanticGraph, slashed, to_slashes};
use crate::ir::{NodeId, Visibility};
use crate::node::{FunctionNode, UsirNode};
use crate::pyparse::{after_last_dot, after_last_dot_exec};
use crate::text::{chars_of, eq_chars, lit, str_eq, string_of, views};

verus! {

/// The language a source file is counted under, by its extension.
#[derive(Debug, Clone, Copy, PartialEq, Eq, Structural)]
pub enum Language {
    Rust,
    TypeScript,
    Python,
    Other,
}

impl Language {
    pub open spec fn label_spec(self) -> Seq<char> {
        match self {
            Language::Rust => "Rust"@,
            Language::TypeScript => "TypeScript"@,
            Language::Python => "Python"@,
            Language::Other => "Other"@,
        }
    }

    /// The language's name as the dashboard prints it.
    pub fn label(&self) -> (r: &'static str)
        ensures
            r@ == self.label_spec(),
    {
        match self {
            Language::Rust => "Rust",
            Language::TypeScript => "TypeScript",
            Language::Python => "Python",
            Language::Other => "Other",
        }
    }
}

/// The language of a file with the given extension: `rs` is Rust; `ts`,
/// `tsx`, `js` and `jsx` are TypeScript; `py` and `pyi` are Python.
pub open spec fn language_of(ext: Seq<char>) -> Language {
    if ext == "rs"@ {
        Language::Rust
    } else if ext == "ts"@ || ext == "tsx"@ || ext == "js"@ || ext == "jsx"@ {
        Language::TypeScript
    } else if ext == "py"@ || ext == "pyi"@ {
        Language::Python
    } else {
        Language::Other
    }
}

/// The language of a file path: by the text after its last dot (the whole
/// path when it has none).
pub fn language_for(path: &str) -> (r: Language)
    ensures
        r == language_of(after_last_dot(path@)),
{
    let ext = after_last_dot_exec(&chars_of(path));
    proof {
        reveal_strlit("rs");
        reveal_strlit("ts");
        reveal_strlit("tsx");
        reveal_strlit("js");
        reveal_strlit("jsx");
        reveal_strlit("py");
        reveal_strlit("pyi");
    }
    if eq_chars(&ext, &lit("rs")) {
        Language::Rust
    } else if eq_chars(&ext, &lit("ts")) || eq_chars(&ext, &lit("tsx")) || eq_chars(&ext, &lit("js"))
        || eq_chars(&ext, &lit("jsx")) {
        Language::TypeScript
    } else if eq_chars(&ext, &lit("py")) || eq_chars(&ext, &lit("pyi")) {
        Language::Python
    } else {
        Language::Other
    }
}

/// A function the dashboard points at: its short name, the last part of
/// its file path, its first line, and the figure it stands out by (its
/// complexity, or its number of parameters).
#[derive(Debug)]
pub struct Flagged {
    pub name: String,
    pub file: String,
    pub line: u32,
    pub amount: usize,
}

impl View for Flagged {
    type V = (Seq<char>, Seq<char>, u32, usize);

    open spec fn view(&self) -> (Seq<char>, Seq<char>, u32, usize) {
        (self.name@, self.file@, self.line, self.amount)
    }
}

/// The views of flagged functions.
pub open spec fn flag_views(v: Seq<Flagged>) -> Seq<(Seq<char>, Seq<char>, u32, usize)> {
    v.map_values(|f: Flagged| f@)
}

/// What a project's indexed nodes add up to.
pub struct StatsModel {
    pub files: Seq<Seq<char>>,
    pub functions: nat,
    pub public_functions: nat,
    pub async_functions: nat,
    pub types: nat,
    pub modules: nat,
    pub rust: nat,
    pub typescript: nat,
    pub python: nat,
    pub other: nat,
    pub hot: Seq<(Seq<char>, Seq<char>, u32, usize)>,
    pub wide: Seq<(Seq<char>, Seq<char>, u32, usize)>,
}

/// Nothing counted yet.
pub open spec fn empty_model() -> StatsModel {
    StatsModel {
        files: Seq::empty(),
        functions: 0,
        public_functions: 0,
        async_functions: 0,
        types: 0,
        modules: 0,
        rust: 0,
        typescript: 0,
        python: 0,
        other: 0,
        hot: Seq::empty(),
        wide: Seq::empty(),
    }
}

/// A node's file path, with forward slashes.
pub open spec fn file_of(n: UsirNode) -> Seq<char> {
    slashed(n.span_spec().file@)
}

/// The last segment of a function's name (the empty text when it has none).
pub open spec fn short_of(f: FunctionNode) -> Seq<char> {
    if f.name.segments@.len() > 0 {
        f.name.segments@.last()@
    } else {
        Seq::empty()
    }
}

/// The entry for a flagged function with the given figure.
pub open spec fn flag_of(f: FunctionNode, amount: usize) -> (Seq<char>, Seq<char>, u32, usize) {
    (short_of(f), last_part(slashed(f.span.file@)), f.span.start_line, amount)
}

/// A function is a hotspot when its complexity is above fifteen.
pub open spec fn is_hot(f: FunctionNode) -> bool {
    f.complexity matches Some(c) && c > 15
}

/// A function is wide when it takes more than four parameters.
pub open spec fn is_wide(f: FunctionNode) -> bool {
    f.params@.len() > 4
}

/// One more node counted: its file (once), its language, and by its kind
/// the function, type and module figures.
pub open spec fn step(m: StatsModel, n: UsirNode) -> StatsModel {
    let file = file_of(n);
    let lang = language_of(after_last_dot(file));
    let files = if m.files.contains(file) { m.files } else { m.files.push(file) };
    let rust = m.rust + if lang == Language::Rust { 1nat } else { 0nat };
    let typescript = m.typescript + if lang == Language::TypeScript { 1nat } else { 0nat };
    let python = m.python + if lang == Language::Python { 1nat } else { 0nat };
    let other = m.other + if lang == Language::Other { 1nat } else { 0nat };
    match n {
        UsirNode::Function(f) => StatsModel {
            files,
            functions: m.functions + 1,
            public_functions: m.public_functions + if f.visibility == Visibility::Public { 1nat } else { 0nat },
            async_functions: m.async_functions + if f.is_async { 1nat } else { 0nat },
            types: m.types,
            modules: m.modules,
            rust,
            typescript,
            python,
            other,
            hot: if is_hot(f) { m.hot.push(flag_of(f, f.complexity->0 as usize)) } else { m.hot },
            wide: if is_wide(f) { m.wide.push(flag_of(f, f.params@.len() as usize)) } else { m.wide },
        },
        _ => StatsModel {
            files,
            functions: m.functions,
            public_functions: m.public_functions,
            async_functions: m.async_functions,
            types: m.types + if n is DataType { 1nat } else { 0nat },
            modules: m.modules + if n is Module { 1nat } else { 0nat },
            rust,
            typescript,
            python,
            other,
            hot: m.hot,
            wide: m.wide,
        },
    }
}

/// The node an id leads to, unless it is a placeholder.
pub open spec fn counted(g: SemanticGraph, id: NodeId) -> Option<UsirNode> {
    match g.lookup(id) {
        Some(n) => if n.is_placeholder_spec() { None } else { Some(n) },
        None => None,
    }
}

/// The figures of the nodes that `ids` lead to, placeholders left out, in
/// the order of `ids`.
pub open spec fn tally(g: SemanticGraph, ids: Seq<NodeId>) -> StatsModel
    decreases ids.len(),
{
    if ids.len() == 0 {
        empty_model()
    } else {
        let m = tally(g, ids.drop_last());
        match counted(g, ids.last()) {
            Some(n) => step(m, n),
            None => m,
        }
    }
}

/// Where an entry with figure `k` goes among entries in descending order:
/// before the first one with a smaller figure.
pub open spec fn flag_slot(s: Seq<(Seq<char>, Seq<char>, u32, usize)>, k: usize) -> int
    decreases s.len(),
{
    if s.len() == 0 {
        0
    } else if s[0].3 < k {
        0
    } else {
        1 + flag_slot(s.drop_first(), k)
    }
}

/// Flagged entries ordered by their figure, largest first; equal figures
/// keep their order.
pub open spec fn flags_by_amount(s: Seq<(Seq<char>, Seq<char>, u32, usize)>) -> Seq<(Seq<char>, Seq<char>, u32, usize)>
    decreases s.len(),
{
    if s.len() == 0 {
        Seq::empty()
    } else {
        let r = flags_by_amount(s.drop_last());
        let p = flag_slot(r, s.last().3);
        r.take(p).push(s.last()) + r.skip(p)
    }
}

/// The languages with at least one node, in the order Rust, TypeScript,
/// Python, other.
pub open spec fn language_counts(m: StatsModel) -> Seq<(Language, u32)> {
    let a = if m.rust > 0 { seq![(Language::Rust, m.rust as u32)] } else { Seq::empty() };
    let b = if m.typescript > 0 { seq![(Language::TypeScript, m.typescript as u32)] } else { Seq::empty() };
    let c = if m.python > 0 { seq![(Language::Python, m.python as u32)] } else { Seq::empty() };
    let d = if m.other > 0 { seq![(Language::Other, m.other as u32)] } else { Seq::empty() };
    a + b + c + d
}

/// Where a language with count `k` goes among languages in descending
/// order of count.
pub open spec fn language_slot(s: Seq<(Language, u32)>, k: u32) -> int
    decreases s.len(),
{
    if s.len() == 0 {
        0
    } else if s[0].1 < k {
        0
    } else {
        1 + language_slot(s.drop_first(), k)
    }
}

/// Languages ordered by count, largest first; equal counts keep their
/// order.
pub open spec fn languages_by_count(s: Seq<(Language, u32)>) -> Seq<(Language, u32)>
    decreases s.len(),
{
    if s.len() == 0 {
        Seq::empty()
    } else {
        let r = languages_by_count(s.drop_last());
        let p = language_slot(r, s.last().1);
        r.take(p).push(s.last()) + r.skip(p)
    }
}

/// Entries ordered by figure in descending order.
pub open spec fn descending(s: Seq<(Seq<char>, Seq<char>, u32, usize)>) -> bool {
    forall|i: int, j: int| 0 <= i < j < s.len() ==> s[i].3 >= s[j].3
}

proof fn lemma_flag_slot_facts(s: Seq<(Seq<char>, Seq<char>, u32, usize)>, k: usize)
    ensures
        0 <= flag_slot(s, k) <= s.len(),
        forall|j: int| 0 <= j < flag_slot(s, k) ==> s[j].3 >= k,
        flag_slot(s, k) < s.len() ==> s[flag_slot(s, k)].3 < k,
    decreases s.len(),
{
    if s.len() > 0 && s[0].3 >= k {
        lemma_flag_slot_facts(s.drop_first(), k);
        assert forall|j: int| 0 <= j < flag_slot(s, k) implies s[j].3 >= k by {
            if j > 0 {
                assert(s[j] == s.drop_first()[j - 1]);
            }
        }
    }
}

/// The hotspots and wide functions come out with the largest figure first,
/// and none is lost or added.
pub proof fn law_flags_descending(s: Seq<(Seq<char>, Seq<char>, u32, usize)>)
    ensures
        descending(flags_by_amount(s)),
        flags_by_amount(s).len() == s.len(),
        flags_by_amount(s).to_multiset() == s.to_multiset(),
    decreases s.len(),
{
    broadcast use vstd::seq_lib::group_to_multiset_ensures;
    if s.len() == 0 {
        assert(flags_by_amount(s) =~= s);
    } else {
        let r = flags_by_amount(s.drop_last());
        law_flags_descending(s.drop_last());
        let x = s.last();
        lemma_flag_slot_facts(r, x.3);
        let p = flag_slot(r, x.3);
        let out = r.take(p).push(x) + r.skip(p);
        assert(out.len() == s.len());
        assert forall|i: int, j: int| 0 <= i < j < out.len() implies out[i].3 >= out[j].3 by {
            if j < p {
                assert(out[i] == r[i] && out[j] == r[j]);
            } else if j == p {
                assert(out[j] == x);
                assert(out[i] == r[i]);
            } else if i < p {
                assert(out[i] == r[i] && out[j] == r[j - 1]);
            } else if i == p {
                assert(out[i] == x && out[j] == r[j - 1]);
                assert(r[p].3 < x.3);
                assert(r[p].3 >= r[j - 1].3 || p == j - 1);
            } else {
                assert(out[i] == r[i - 1] && out[j] == r[j - 1]);
            }
        }
        assert(flags_by_amount(s) == out);
        assert(out =~= r.insert(p, x));
        assert(s =~= s.drop_last().push(x));
    }
}

/// The health score: a hundred, less three for each hotspot (thirty at
/// most) and two for each wide function (fifteen at most).
pub open spec fn health_of(hot: nat, wide: nat) -> nat {
    let a: int = if 3 * hot > 30 { 30 } else { (3 * hot) as int };
    let b: int = if 2 * wide > 15 { 15 } else { (2 * wide) as int };
    (100 - a - b) as nat
}

/// The dashboard's figures.
#[derive(Debug)]
pub struct ProjectStats {
    /// The distinct files, with forward slashes, in the order first met.
    pub files: Vec<String>,
    pub functions: u32,
    pub public_functions: u32,
    pub async_functions: u32,
    pub types: u32,
    pub modules: u32,
    /// Functions with a complexity above fifteen, the most complex first.
    pub hotspots: Vec<Flagged>,
    /// Functions with more than four parameters, the widest first.
    pub wide: Vec<Flagged>,
    /// Node counts per language, the largest first.
    pub languages: Vec<(Language, u32)>,
    /// From 0 to 100.
    pub health: u32,
}

/// `r` holds the figures of the graph's nodes, taken in the order `ids`.
pub open spec fn stats_match(r: ProjectStats, g: SemanticGraph, ids: Seq<NodeId>) -> bool {
    let m = tally(g, ids);
    &&& views(r.files@) == m.files
    &&& r.functions == m.functions
    &&& r.public_functions == m.public_functions
    &&& r.async_functions == m.async_functions
    &&& r.types == m.types
    &&& r.modules == m.modules
    &&& flag_views(r.hotspots@) == flags_by_amount(m.hot)
    &&& flag_views(r.wide@) == flags_by_amount(m.wide)
    &&& r.languages@ == languages_by_count(language_counts(m))
    &&& r.health == health_of(m.hot.len(), m.wide.len())
}

/// No figure exceeds the number of ids.
pub proof fn lemma_tally_bounded(g: SemanticGraph, ids: Seq<NodeId>)
    ensures
        ({
            let m = tally(g, ids);
            &&& m.files.len() <= ids.len()
            &&& m.functions <= ids.len()
            &&& m.public_functions <= m.functions
            &&& m.async_functions <= m.functions
            &&& m.types <= ids.len()
            &&& m.modules <= ids.len()
            &&& m.rust + m.typescript + m.python + m.other <= ids.len()
            &&& m.hot.len() <= ids.len()
            &&& m.wide.len() <= ids.len()
        }),
    decreases ids.len(),
{
    if ids.len() > 0 {
        lemma_tally_bounded(g, ids.drop_last());
    }
}

/// The dashboard's health is a hundred with no hotspot and no wide
/// function; each hotspot takes three points off (thirty at most), each
/// wide function two (fifteen at most), so it stays between 55 and 100.
pub proof fn law_dashboard_health(hot: nat, wide: nat)
    ensures
        health_of(0, 0) == 100,
        55 <= health_of(hot, wide) <= 100,
        health_of(hot + 1, wide) <= health_of(hot, wide),
        health_of(hot, wide + 1) <= health_of(hot, wide),
        hot < 10 ==> health_of(hot + 1, wide) + 3 == health_of(hot, wide),
        wide < 7 ==> health_of(hot, wide + 1) + 2 == health_of(hot, wide),
{
}

/// The hotspot entry of the node that an id leads to: a counted function
/// of complexity above fifteen, with its complexity.
pub open spec fn hot_flag(g: SemanticGraph, k: NodeId) -> Option<(Seq<char>, Seq<char>, u32, usize)> {
    match counted(g, k) {
        Some(UsirNode::Function(f)) => if is_hot(f) { Some(flag_of(f, f.complexity->0 as usize)) } else { None },
        _ => None,
    }
}

/// The wide-function entry of the node that an id leads to: a counted
/// function of more than four parameters, with their number.
pub open spec fn wide_flag(g: SemanticGraph, k: NodeId) -> Option<(Seq<char>, Seq<char>, u32, usize)> {
    match counted(g, k) {
        Some(UsirNode::Function(f)) => if is_wide(f) { Some(flag_of(f, f.params@.len() as usize)) } else { None },
        _ => None,
    }
}

proof fn lemma_tally_flags(g: SemanticGraph, ids: Seq<NodeId>)
    ensures
        forall|j: int| 0 <= j < ids.len() && (#[trigger] hot_flag(g, ids[j])) is Some
            ==> tally(g, ids).hot.contains(hot_flag(g, ids[j])->0),
        forall|i: int| #![trigger tally(g, ids).hot[i]] 0 <= i < tally(g, ids).hot.len()
            ==> exists|j: int| 0 <= j < ids.len() && #[trigger] hot_flag(g, ids[j]) == Some(tally(g, ids).hot[i]),
        forall|j: int| 0 <= j < ids.len() && (#[trigger] wide_flag(g, ids[j])) is Some
            ==> tally(g, ids).wide.contains(wide_flag(g, ids[j])->0),
        forall|i: int| #![trigger tally(g, ids).wide[i]] 0 <= i < tally(g, ids).wide.len()
            ==> exists|j: int| 0 <= j < ids.len() && #[trigger] wide_flag(g, ids[j]) == Some(tally(g, ids).wide[i]),
    decreases ids.len(),
{
    if ids.len() > 0 {
        let init = ids.drop_last();
        lemma_tally_flags(g, init);
        let k = ids.last();
        let m0 = tally(g, init);
        let m = tally(g, ids);
        assert(m.hot == (match hot_flag(g, k) { Some(x) => m0.hot.push(x), None => m0.hot }));
        assert(m.wide == (match wide_flag(g, k) { Some(x) => m0.wide.push(x), None => m0.wide }));
        assert forall|j: int| 0 <= j < ids.len() && (#[trigger] hot_flag(g, ids[j])) is Some
            implies m.hot.contains(hot_flag(g, ids[j])->0) by {
            if j < init.len() {
                assert(init[j] == ids[j]);
                assert(hot_flag(g, init[j]) is Some);
                let x = hot_flag(g, ids[j])->0;
                let i = choose|i: int| 0 <= i < m0.hot.len() && m0.hot[i] == x;
                assert(m.hot[i] == x);
            } else {
                assert(ids[j] == k);
                assert(m.hot[m.hot.len() - 1] == hot_flag(g, k)->0);
            }
        }
        assert forall|i: int| #![trigger m.hot[i]] 0 <= i < m.hot.len()
            implies exists|j: int| 0 <= j < ids.len() && #[trigger] hot_flag(g, ids[j]) == Some(m.hot[i]) by {
            if i < m0.hot.len() {
                assert(m.hot[i] == m0.hot[i]);
                let j = choose|j: int| 0 <= j < init.len() && #[trigger] hot_flag(g, init[j]) == Some(m0.hot[i]);
                assert(ids[j] == init[j]);
            } else {
                assert(hot_flag(g, ids[ids.len() - 1]) == Some(m.hot[i]));
            }
        }
        assert forall|j: int| 0 <= j < ids.len() && (#[trigger] wide_flag(g, ids[j])) is Some
            implies m.wide.contains(wide_flag(g, ids[j])->0) by {
            if j < init.len() {
                assert(init[j] == ids[j]);
                assert(wide_flag(g, init[j]) is Some);
                let x = wide_flag(g, ids[j])->0;
                let i = choose|i: int| 0 <= i < m0.wide.len() && m0.wide[i] == x;
                assert(m.wide[i] == x);
            } else {
                assert(ids[j] == k);
                assert(m.wide[m.wide.len() - 1] == wide_flag(g, k)->0);
            }
        }
        assert forall|i: int| #![trigger m.wide[i]] 0 <= i < m.wide.len()
            implies exists|j: int| 0 <= j < ids.len() && #[trigger] wide_flag(g, ids[j]) == Some(m.wide[i]) by {
            if i < m0.wide.len() {
                assert(m.wide[i] == m0.wide[i]);
                let j = choose|j: int| 0 <= j < init.len() && #[trigger] wide_flag(g, init[j]) == Some(m0.wide[i]);
                assert(ids[j] == init[j]);
            } else {
                assert(wide_flag(g, ids[ids.len() - 1]) == Some(m.wide[i]));
            }
        }
    }
}

/// On the dashboard, the hotspots are exactly the counted functions of
/// complexity above fifteen, each with its complexity, and the wide
/// functions exactly those of more than four parameters, each with their
/// number; both lists come largest first.
pub proof fn law_dashboard_flags(r: ProjectStats, g: SemanticGraph, ids: Seq<NodeId>)
    requires
        stats_match(r, g, ids),
    ensures
        forall|j: int| 0 <= j < ids.len() && (#[trigger] hot_flag(g, ids[j])) is Some
            ==> flag_views(r.hotspots@).contains(hot_flag(g, ids[j])->0),
        forall|i: int| #![trigger flag_views(r.hotspots@)[i]] 0 <= i < r.hotspots@.len()
            ==> exists|j: int| 0 <= j < ids.len() && #[trigger] hot_flag(g, ids[j]) == Some(flag_views(r.hotspots@)[i]),
        forall|j: int| 0 <= j < ids.len() && (#[trigger] wide_flag(g, ids[j])) is Some
            ==> flag_views(r.wide@).contains(wide_flag(g, ids[j])->0),
        forall|i: int| #![trigger flag_views(r.wide@)[i]] 0 <= i < r.wide@.len()
            ==> exists|j: int| 0 <= j < ids.len() && #[trigger] wide_flag(g, ids[j]) == Some(flag_views(r.wide@)[i]),
        descending(flag_views(r.hotspots@)),
        descending(flag_views(r.wide@)),
{
    broadcast use vstd::seq_lib::group_to_multiset_ensures;
    let m = tally(g, ids);
    lemma_tally_flags(g, ids);
    law_flags_descending(m.hot);
    law_flags_descending(m.wide);
    let h = flag_views(r.hotspots@);
    let w = flag_views(r.wide@);
    assert forall|x: (Seq<char>, Seq<char>, u32, usize)| h.contains(x) <==> m.hot.contains(x) by {
        assert(h.to_multiset() == m.hot.to_multiset());
        assert(h.to_multiset().count(x) == m.hot.to_multiset().count(x));
    }
    assert forall|x: (Seq<char>, Seq<char>, u32, usize)| w.contains(x) <==> m.wide.contains(x) by {
        assert(w.to_multiset() == m.wide.to_multiset());
        assert(w.to_multiset().count(x) == m.wide.to_multiset().count(x));
    }
    assert forall|i: int| #![trigger flag_views(r.hotspots@)[i]] 0 <= i < r.hotspots@.len()
        implies exists|j: int| 0 <= j < ids.len() && #[trigger] hot_flag(g, ids[j]) == Some(h[i]) by {
        assert(h.contains(h[i]));
        let q = choose|q: int| 0 <= q < m.hot.len() && m.hot[q] == h[i];
    }
    assert forall|i: int| #![trigger flag_views(r.wide@)[i]] 0 <= i < r.wide@.len()
        implies exists|j: int| 0 <= j < ids.len() && #[trigger] wide_flag(g, ids[j]) == Some(w[i]) by {
        assert(w.contains(w[i]));
        let q = choose|q: int| 0 <= q < m.wide.len() && m.wide[q] == w[i];
    }
}

/// The health score of a project with the given numbers of hotspots and
/// wide functions.
pub fn health_score(hot: usize, wide: usize) -> (r: u32)
    ensures
        r == health_of(hot as nat, wide as nat),
        55 <= r <= 100,
{
    let a: u32 = if hot >= 10 { 30 } else { 3 * (hot as u32) };
    let b: u32 = if wide >= 8 { 15 } else { 2 * (wide as u32) };
    100 - a - b
}

/// How many of the twenty cells of the health bar are filled.
pub fn bar_filled(health: u32) -> (r: u32)
    requires
        health <= 100,
    ensures
        r == health * 20 / 100,
        r <= 20,
{
    health * 20 / 100
}

fn copy_flag(f: &Flagged) -> (r: Flagged)
    ensures
        r@ == f@,
{
    Flagged { name: crate::text::copy_string(&f.name), file: crate::text::copy_string(&f.file), line: f.line, amount: f.amount }
}

proof fn lemma_flag_slot(s: Seq<(Seq<char>, Seq<char>, u32, usize)>, k: usize, p: int)
    requires
        0 <= p <= s.len(),
        forall|j: int| 0 <= j < p ==> s[j].3 >= k,
        p < s.len() ==> s[p].3 < k,
    ensures
        flag_slot(s, k) == p,
    decreases s.len(),
{
    if s.len() > 0 && p > 0 {
        lemma_flag_slot(s.drop_first(), k, p - 1);
    }
}

proof fn lemma_language_slot(s: Seq<(Language, u32)>, k: u32, p: int)
    requires
        0 <= p <= s.len(),
        forall|j: int| 0 <= j < p ==> s[j].1 >= k,
        p < s.len() ==> s[p].1 < k,
    ensures
        language_slot(s, k) == p,
    decreases s.len(),
{
    if s.len() > 0 && p > 0 {
        lemma_language_slot(s.drop_first(), k, p - 1);
    }
}

/// Flagged functions ordered by their figure, largest first, equal figures
/// in the order given.
pub fn sort_flags(v: &Vec<Flagged>) -> (r: Vec<Flagged>)
    ensures
        flag_views(r@) == flags_by_amount(flag_views(v@)),
{
    let mut out: Vec<Flagged> = Vec::new();
    let mut i: usize = 0;
    while i < v.len()
        invariant
            i <= v@.len(),
            flag_views(out@) == flags_by_amount(flag_views(v@.take(i as int))),
        decreases v@.len() - i,
    {
        let k = v[i].amount;
        let mut p: usize = 0;
        while p < out.len() && out[p].amount >= k
            invariant
                p <= out@.len(),
                forall|j: int| 0 <= j < p ==> (#[trigger] out@[j]).amount >= k,
            decreases out@.len() - p,
        {
            p = p + 1;
        }
        let ghost before = flag_views(out@);
        proof {
            assert forall|j: int| 0 <= j < p implies before[j].3 >= k by {
                assert(out@[j].amount >= k);
            }
            lemma_flag_slot(before, k, p as int);
            assert(flag_views(v@.take(i + 1)).drop_last() =~= flag_views(v@.take(i as int)));
            assert(flag_views(v@.take(i + 1)).last() == v@[i as int]@);
        }
        out.insert(p, copy_flag(&v[i]));
        proof {
            assert(flag_views(out@) =~= before.take(p as int).push(v@[i as int]@) + before.skip(p as int));
        }
        i = i + 1;
    }
    proof {
        assert(v@.take(v@.len() as int) =~= v@);
    }
    out
}

/// Languages ordered by count, largest first, equal counts in the order
/// given.
pub fn sort_languages(v: &Vec<(Language, u32)>) -> (r: Vec<(Language, u32)>)
    ensures
        r@ == languages_by_count(v@),
{
    let mut out: Vec<(Language, u32)> = Vec::new();
    let mut i: usize = 0;
    while i < v.len()
        invariant
            i <= v@.len(),
            out@ == languages_by_count(v@.take(i as int)),
        decreases v@.len() - i,
    {
        let k = v[i].1;
        let mut p: usize = 0;
        while p < out.len() && out[p].1 >= k
            invariant
                p <= out@.len(),
                forall|j: int| 0 <= j < p ==> (#[trigger] out@[j]).1 >= k,
            decreases out@.len() - p,
        {
            p = p + 1;
        }
        let ghost before = out@;
        proof {
            lemma_language_slot(before, k, p as int);
            assert(v@.take(i + 1).drop_last() =~= v@.take(i as int));
        }
        out.insert(p, v[i]);
        proof {
            assert(out@ =~= before.take(p as int).push(v@[i as int]) + before.skip(p as int));
        }
        i = i + 1;
    }
    proof {
        assert(v@.take(v@.len() as int) =~= v@);
    }
    out
}

/// The running figures while the nodes are walked.
struct Tally {
    files: Vec<String>,
    functions: u32,
    public_functions: u32,
    async_functions: u32,
    types: u32,
    modules: u32,
    rust: u32,
    typescript: u32,
    python: u32,
    other: u32,
    hot: Vec<Flagged>,
    wide: Vec<Flagged>,
}

impl Tally {
    spec fn model(&self) -> StatsModel {
        StatsModel {
            files: views(self.files@),
            functions: self.functions as nat,
            public_functions: self.public_functions as nat,
            async_functions: self.async_functions as nat,
            types: self.types as nat,
            modules: self.modules as nat,
            rust: self.rust as nat,
            typescript: self.typescript as nat,
            python: self.python as nat,
            other: self.other as nat,
            hot: flag_views(self.hot@),
            wide: flag_views(self.wide@),
        }
    }
}

fn has_file(files: &Vec<String>, f: &Vec<char>) -> (r: bool)
    ensures
        r == views(files@).contains(f@),
{
    let mut j: usize = 0;
    while j < files.len()
        invariant
            j <= files@.len(),
            forall|k: int| 0 <= k < j ==> (#[trigger] files@[k])@ != f@,
        decreases files@.len() - j,
    {
        if str_eq(&files[j], f.as_slice()) {
            proof {
                assert(views(files@)[j as int] == f@);
            }
            return true;
        }
        j = j + 1;
    }
    proof {
        if views(files@).contains(f@) {
            let k = choose|k: int| 0 <= k < views(files@).len() && views(files@)[k] == f@;
            assert(files@[k]@ == f@);
        }
    }
    false
}

fn flag_for(f: &FunctionNode, amount: usize) -> (r: Flagged)
    ensures
        r@ == flag_of(*f, amount),
{
    let k = f.name.segments.len();
    let name = if k > 0 { crate::text::copy_string(&f.name.segments[k - 1]) } else { String::new() };
    let path = to_slashes(&chars_of(f.span.file.as_str()));
    let file = string_of(&last_part_exec(&path));
    Flagged { name, file, line: f.span.start_line, amount }
}

fn count_node(t: &mut Tally, n: &UsirNode)
    requires
        old(t).functions < 0xFFFF_FFFF,
        old(t).types < 0xFFFF_FFFF,
        old(t).modules < 0xFFFF_FFFF,
        old(t).rust + old(t).typescript + old(t).python + old(t).other < 0xFFFF_FFFF,
        old(t).public_functions <= old(t).functions,
        old(t).async_functions <= old(t).functions,
    ensures
        final(t).model() == step(old(t).model(), *n),
{
    let path = to_slashes(&chars_of(n.span().file.as_str()));
    if !has_file(&t.files, &path) {
        t.files.push(string_of(&path));
        proof {
            assert(views(t.files@) =~= views(old(t).files@).push(path@));
        }
    }
    let lang = language_for(string_of(&path).as_str());
    match lang {
        Language::Rust => { t.rust = t.rust + 1; },
        Language::TypeScript => { t.typescript = t.typescript + 1; },
        Language::Python => { t.python = t.python + 1; },
        Language::Other => { t.other = t.other + 1; },
    }
    match n {
        UsirNode::Function(f) => {
            t.functions = t.functions + 1;
            if f.visibility == Visibility::Public {
                t.public_functions = t.public_functions + 1;
            }
            if f.is_async {
                t.async_functions = t.async_functions + 1;
            }
            match f.complexity {
                Some(c) => {
                    if c > 15 {
                        let ghost h0 = flag_views(t.hot@);
                        t.hot.push(flag_for(f, c as usize));
                        proof {
                            assert(flag_views(t.hot@) =~= h0.push(flag_of(*f, c as usize)));
                        }
                    }
                },
                None => {},
            }
            if f.params.len() > 4 {
                let ghost w0 = flag_views(t.wide@);
                t.wide.push(flag_for(f, f.params.len()));
                proof {
                    assert(flag_views(t.wide@) =~= w0.push(flag_of(*f, f.params@.len() as usize)));
                }
            }
        },
        UsirNode::DataType(_) => {
            t.types = t.types + 1;
        },
        UsirNode::Module(_) => {
            t.modules = t.modules + 1;
        },
        _ => {},
    }
}

/// The dashboard's figures for a graph: its nodes, placeholders left out,
/// in the order the id index gives them (not fixed), counted by file,
/// language and kind; the hotspots and wide functions ordered by their
/// figure; and the health score.
pub fn project_stats(g: &SemanticGraph) -> (r: ProjectStats)
    requires
        g.wf(),
    ensures
        exists|ids: Seq<NodeId>| index_order(*g, ids) && stats_match(r, *g, ids),
{
    let ids = g.all_node_ids();
    proof {
        g.lemma_index_count();
        assert(ids@.no_duplicates()) by {
            assert forall|a: int, b: int| 0 <= a < ids@.len() && 0 <= b < ids@.len() && a != b implies ids@[a] != ids@[b] by {
                if a < b {
                } else {
                }
            }
        }
    }
    let mut t = Tally {
        files: Vec::new(),
        functions: 0,
        public_functions: 0,
        async_functions: 0,
        types: 0,
        modules: 0,
        rust: 0,
        typescript: 0,
        python: 0,
        other: 0,
        hot: Vec::new(),
        wide: Vec::new(),
    };
    proof {
        assert(t.model().files =~= Seq::<Seq<char>>::empty());
        assert(t.model().hot =~= Seq::<(Seq<char>, Seq<char>, u32, usize)>::empty());
        assert(t.model().wide =~= Seq::<(Seq<char>, Seq<char>, u32, usize)>::empty());
        assert(ids@.take(0) =~= Seq::<NodeId>::empty());
    }
    let mut i: usize = 0;
    while i < ids.len()
        invariant
            g.wf(),
            i <= ids@.len(),
            ids@.len() <= 0xFFFF_FFFF,
            t.model() == tally(*g, ids@.take(i as int)),
            t.public_functions <= t.functions,
            t.async_functions <= t.functions,
        decreases ids@.len() - i,
    {
        proof {
            lemma_tally_bounded(*g, ids@.take(i as int));
            assert(ids@.take(i + 1).drop_last() =~= ids@.take(i as int));
            assert(ids@.take(i + 1).last() == ids@[i as int]);
        }
        match g.get_node(ids[i]) {
            Some(n) => {
                if !g.is_placeholder(ids[i]) {
                    count_node(&mut t, n);
                }
            },
            None => {},
        }
        i = i + 1;
    }
    proof {
        assert(ids@.take(ids@.len() as int) =~= ids@);
        lemma_tally_bounded(*g, ids@);
    }
    let hotspots = sort_flags(&t.hot);
    let wide = sort_flags(&t.wide);
    let mut langs: Vec<(Language, u32)> = Vec::new();
    if t.rust > 0 {
        langs.push((Language::Rust, t.rust));
    }
    if t.typescript > 0 {
        langs.push((Language::TypeScript, t.typescript));
    }
    if t.python > 0 {
        langs.push((Language::Python, t.python));
    }
    if t.other > 0 {
        langs.push((Language::Other, t.other));
    }
    proof {
        assert(langs@ =~= language_counts(t.model()));
    }
    let languages = sort_languages(&langs);
    let health = health_score(t.hot.len(), t.wide.len());
    let r = ProjectStats {
        files: t.files,
        functions: t.functions,
        public_functions: t.public_functions,
        async_functions: t.async_functions,
        types: t.types,
        modules: t.modules,
        hotspots,
        wide,
        languages,
        health,
    };
    proof {
        assert(index_order(*g, ids@));
        assert(stats_match(r, *g, ids@));
    }
    r
}

} // verus!
