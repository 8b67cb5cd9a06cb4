//! Core identifiers of the semantic IR: node ids, source spans, qualified
//! names, visibility and content hashes.

use vstd::prelude::*;
use crate::text::{join, join_strings, views};

verus! {

/// Unique identifier for a node in the semantic graph.
#[derive(Debug, Clone, Copy, PartialEq, Eq, Hash, Structural)]
pub struct NodeId(pub u64);

/// Unique identifier for an edge in the semantic graph.
#[derive(Debug, Clone, Copy, PartialEq, Eq, Hash, Structural)]
pub struct EdgeId(pub u64);

/// A span in source code, referencing a file and byte range.
#[derive(Debug, Clone, PartialEq, Eq)]
pub struct SourceSpan {
    pub file: String,
    pub start_byte: usize,
    pub end_byte: usize,
    pub start_line: u32,
    pub start_col: u32,
    pub end_line: u32,
    pub end_col: u32,
}

/// A span as plain values.
pub open spec fn span_view(s: SourceSpan) -> (Seq<char>, usize, usize, u32, u32, u32, u32) {
    (s.file@, s.start_byte, s.end_byte, s.start_line, s.start_col, s.end_line, s.end_col)
}

/// A copy of a span.
pub fn copy_span(s: &SourceSpan) -> (r: SourceSpan)
    ensures
        span_view(r) == span_view(*s),
{
    SourceSpan {
        file: crate::text::copy_string(&s.file),
        start_byte: s.start_byte,
        end_byte: s.end_byte,
        start_line: s.start_line,
        start_col: s.start_col,
        end_line: s.end_line,
        end_col: s.end_col,
    }
}

/// Fully qualified name (e.g., `crate::auth::token::verify`).
#[derive(Debug, Clone, PartialEq, Eq, Hash)]
pub struct QualifiedName {
    pub segments: Vec<String>,
}

impl QualifiedName {
    /// The segments as character sequences.
    pub open spec fn segs(&self) -> Seq<Seq<char>> {
        views(self.segments@)
    }

    /// The name's `::`-joined display form.
    pub open spec fn shown(&self) -> Seq<char> {
        join(self.segs(), seq![':', ':'])
    }

    pub fn new(segments: Vec<String>) -> (r: Self)
        ensures
            r.segments == segments,
    {
        Self { segments }
    }

    /// The segments joined with `::`.
    pub fn display(&self) -> (r: String)
        ensures
            r@ == self.shown(),
    {
        let sep = "::";
        let r = join_strings(&self.segments, sep);
        proof {
            reveal_strlit("::");
            assert("::"@ =~= seq![':', ':']);
        }
        r
    }
}

/// A copy of a qualified name.
pub fn clone_name(q: &QualifiedName) -> (r: QualifiedName)
    ensures
        r.segs() == q.segs(),
{
    let mut segments: Vec<String> = Vec::new();
    let mut i: usize = 0;
    while i < q.segments.len()
        invariant
            i <= q.segments@.len(),
            views(segments@) == views(q.segments@).take(i as int),
        decreases q.segments@.len() - i,
    {
        let ghost before = segments@;
        let c = q.segments[i].clone();
        segments.push(c);
        proof {
            assert(c@ == q.segments@[i as int]@);
            assert(segments@ == before.push(c));
            assert(views(before).len() == i);
            assert forall|j: int| 0 <= j < i + 1 implies views(segments@)[j] == views(q.segments@).take(i + 1)[j] by {
                if j < i {
                    assert(views(segments@)[j] == views(before)[j]);
                }
            }
            assert(views(segments@) =~= views(q.segments@).take(i + 1));
        }
        i = i + 1;
    }
    proof {
        assert(views(q.segments@).take(q.segments@.len() as int) =~= views(q.segments@));
    }
    QualifiedName { segments }
}

/// Whether two qualified names have the same segments.
pub fn qname_eq(a: &QualifiedName, b: &QualifiedName) -> (r: bool)
    ensures
        r == (a.segs() == b.segs()),
{
    if a.segments.len() != b.segments.len() {
        assert(a.segs().len() != b.segs().len());
        return false;
    }
    let mut i: usize = 0;
    while i < a.segments.len()
        invariant
            a.segments@.len() == b.segments@.len(),
            i <= a.segments@.len(),
            forall|j: int| 0 <= j < i ==> a.segments@[j]@ == b.segments@[j]@,
        decreases a.segments@.len() - i,
    {
        if !(a.segments[i] == b.segments[i]) {
            assert(a.segs()[i as int] != b.segs()[i as int]);
            return false;
        }
        i = i + 1;
    }
    assert(a.segs() =~= b.segs());
    true
}

/// Visibility of a symbol.
#[derive(Debug, Clone, Copy, PartialEq, Eq, Hash, Structural)]
pub enum Visibility {
    Public,
    Private,
    Protected,
    /// crate/package-level
    Internal,
}

impl Visibility {
    /// The variant's name, as `{:?}` prints it.
    pub open spec fn name_spec(self) -> Seq<char> {
        match self {
            Visibility::Public => "Public"@,
            Visibility::Private => "Private"@,
            Visibility::Protected => "Protected"@,
            Visibility::Internal => "Internal"@,
        }
    }

    /// The variant's name, as `{:?}` prints it.
    pub fn debug_name(&self) -> (r: String)
        ensures
            r@ == self.name_spec(),
    {
        match self {
            Visibility::Public => String::from_str("Public"),
            Visibility::Private => String::from_str("Private"),
            Visibility::Protected => String::from_str("Protected"),
            Visibility::Internal => String::from_str("Internal"),
        }
    }
}

/// A ratio `num / den` with `den > 0`, used for confidence scores.
#[derive(Debug, Clone, Copy, PartialEq, Eq, Structural)]
pub struct Ratio {
    pub num: u64,
    pub den: u64,
}

impl Ratio {
    /// The ratio is at least `n / d`.
    pub open spec fn at_least(self, n: int, d: int) -> bool {
        self.num * d >= n * self.den
    }

    /// Whether the ratio is at least `n / d`.
    pub fn is_at_least(&self, n: u64, d: u64) -> (r: bool)
        requires
            n <= 1000,
            d <= 1000,
        ensures
            r == self.at_least(n as int, d as int),
    {
        let a = self.num as u128;
        let b = self.den as u128;
        assert(a * (d as u128) <= 0x1_0000_0000_0000_0000 * 1000) by (nonlinear_arith)
            requires
                a < 0x1_0000_0000_0000_0000,
                d <= 1000,
        ;
        assert((n as u128) * b <= 0x1_0000_0000_0000_0000 * 1000) by (nonlinear_arith)
            requires
                b < 0x1_0000_0000_0000_0000,
                n <= 1000,
        ;
        a * (d as u128) >= (n as u128) * b
    }
}

/// SHA-256 digest of a byte sequence.
pub uninterp spec fn sha256(data: Seq<u8>) -> Seq<u8>;

/// The SHA-256 digest (`sha2::Sha256::digest`), copied into an array; the
/// result is `sha256` of the input bytes.
#[verifier::external_body]
fn sha256_digest(data: &[u8]) -> (r: [u8; 32])
    ensures
        r@ == sha256(data@),
{
    let d = <sha2::Sha256 as sha2::Digest>::digest(data);
    let mut h = [0u8; 32];
    h.copy_from_slice(&d);
    h
}

/// The bytes that are hashed: the data, followed by the salt when there is
/// one.
pub open spec fn salted(data: Seq<u8>, salt: Option<Seq<u8>>) -> Seq<u8> {
    match salt {
        Some(s) => data + s,
        None => data,
    }
}

/// Content hash for content-addressed storage.
#[derive(Debug, Clone, PartialEq, Eq, Hash)]
pub struct ContentHash(pub [u8; 32]);

impl ContentHash {
    /// Hash `data`, followed by the salt when there is one, with SHA-256.
    pub fn from_bytes(data: &[u8], salt: Option<&[u8]>) -> (r: Self)
        ensures
            r.0@ == sha256(salted(data@, match salt { Some(s) => Some(s@), None => None })),
    {
        match salt {
            None => ContentHash(sha256_digest(data)),
            Some(s) => {
                let mut all: Vec<u8> = Vec::new();
                let mut i: usize = 0;
                while i < data.len()
                    invariant
                        i <= data@.len(),
                        all@ == data@.take(i as int),
                    decreases data@.len() - i,
                {
                    all.push(data[i]);
                    proof {
                        assert(data@.take(i + 1) =~= data@.take(i as int).push(data@[i as int]));
                    }
                    i = i + 1;
                }
                let mut j: usize = 0;
                while j < s.len()
                    invariant
                        j <= s@.len(),
                        i == data@.len(),
                        all@ == data@.take(i as int) + s@.take(j as int),
                    decreases s@.len() - j,
                {
                    all.push(s[j]);
                    proof {
                        assert(s@.take(j + 1) =~= s@.take(j as int).push(s@[j as int]));
                        assert(data@.take(i as int) + s@.take(j + 1) =~= (data@.take(i as int) + s@.take(j as int)).push(
                            s@[j as int],
                        ));
                    }
                    j = j + 1;
                }
                proof {
                    assert(all@ =~= data@ + s@);
                }
                ContentHash(sha256_digest(all.as_slice()))
            },
        }
    }
}

/// Whether two content hashes are equal.
pub fn hash_eq(a: &ContentHash, b: &ContentHash) -> (r: bool)
    ensures
        r == (a.0@ == b.0@),
{
    let mut i: usize = 0;
    while i < 32
        invariant
            i <= 32,
            forall|j: int| 0 <= j < i ==> a.0@[j] == b.0@[j],
        decreases 32 - i,
    {
        if a.0[i] != b.0[i] {
            return false;
        }
        i = i + 1;
    }
    assert(a.0@ =~= b.0@);
    true
}

} // verus!
