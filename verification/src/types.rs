//! Type system representation for the semantic IR.

use vstd::prelude::*;

verus! {

/// A reference to a type (may be unresolved).
#[derive(Debug, PartialEq, Eq, Hash)]
pub enum TypeRef {
    /// Fully resolved type.
    Resolved(ResolvedType),
    /// Unresolved type name (best-effort for dynamic languages).
    Unresolved(String),
    /// Type could not be determined.
    Unknown,
}

/// A resolved type in the IR type system.
#[derive(Debug, PartialEq, Eq, Hash)]
pub enum ResolvedType {
    /// Primitive types (int, float, string, bool, etc.).
    Primitive(PrimitiveType),
    /// Named type from the codebase.
    Named { name: String, generic_args: Vec<TypeRef> },
    /// Function/callable type.
    Function { params: Vec<TypeRef>, return_type: Box<TypeRef> },
    /// Array/list type.
    Array(Box<TypeRef>),
    /// Map/dictionary type.
    MapType { key: Box<TypeRef>, value: Box<TypeRef> },
    /// Optional/nullable type.
    Optional(Box<TypeRef>),
    /// Result/Either type (success + error).
    Result { ok: Box<TypeRef>, err: Box<TypeRef> },
    /// Tuple type.
    Tuple(Vec<TypeRef>),
    /// Union type (TypeScript union, Python Union, etc.).
    Union(Vec<TypeRef>),
    /// Void / unit type.
    Unit,
}

#[derive(Debug, Clone, Copy, PartialEq, Eq, Hash, Structural)]
pub enum PrimitiveType {
    Bool,
    Int8,
    Int16,
    Int32,
    Int64,
    Uint8,
    Uint16,
    Uint32,
    Uint64,
    Float32,
    Float64,
    String,
    Bytes,
}

/// The mathematical value of a type reference: strings as character sequences.
pub enum TypeModel {
    Primitive(PrimitiveType),
    Named(Seq<char>, Seq<TypeModel>),
    Function(Seq<TypeModel>, Box<TypeModel>),
    Array(Box<TypeModel>),
    MapType(Box<TypeModel>, Box<TypeModel>),
    Optional(Box<TypeModel>),
    Result(Box<TypeModel>, Box<TypeModel>),
    Tuple(Seq<TypeModel>),
    Union(Seq<TypeModel>),
    Unit,
    Unresolved(Seq<char>),
    Unknown,
}

pub open spec fn tmodel(t: TypeRef) -> TypeModel
    decreases t,
{
    match t {
        TypeRef::Resolved(r) => rmodel(r),
        TypeRef::Unresolved(s) => TypeModel::Unresolved(s@),
        TypeRef::Unknown => TypeModel::Unknown,
    }
}

pub open spec fn rmodel(r: ResolvedType) -> TypeModel
    decreases r,
{
    match r {
        ResolvedType::Primitive(p) => TypeModel::Primitive(p),
        ResolvedType::Named { name, generic_args } => TypeModel::Named(
            name@,
            tmodels(generic_args@),
        ),
        ResolvedType::Function { params, return_type } => TypeModel::Function(
            tmodels(params@),
            Box::new(tmodel(*return_type)),
        ),
        ResolvedType::Array(b) => TypeModel::Array(Box::new(tmodel(*b))),
        ResolvedType::MapType { key, value } => TypeModel::MapType(
            Box::new(tmodel(*key)),
            Box::new(tmodel(*value)),
        ),
        ResolvedType::Optional(b) => TypeModel::Optional(Box::new(tmodel(*b))),
        ResolvedType::Result { ok, err } => TypeModel::Result(
            Box::new(tmodel(*ok)),
            Box::new(tmodel(*err)),
        ),
        ResolvedType::Tuple(items) => TypeModel::Tuple(tmodels(items@)),
        ResolvedType::Union(items) => TypeModel::Union(tmodels(items@)),
        ResolvedType::Unit => TypeModel::Unit,
    }
}

pub open spec fn tmodels(ts: Seq<TypeRef>) -> Seq<TypeModel>
    decreases ts,
{
    if ts.len() == 0 {
        seq![]
    } else {
        seq![tmodel(ts[0])] + tmodels(ts.drop_first())
    }
}

impl View for TypeRef {
    type V = TypeModel;

    open spec fn view(&self) -> TypeModel {
        tmodel(*self)
    }
}

pub proof fn lemma_tmodels_len(ts: Seq<TypeRef>)
    ensures
        tmodels(ts).len() == ts.len(),
        forall|i: int| 0 <= i < ts.len() ==> #[trigger] tmodels(ts)[i] == tmodel(ts[i]),
    decreases ts.len(),
{
    if ts.len() > 0 {
        lemma_tmodels_len(ts.drop_first());
        assert forall|i: int| 0 <= i < ts.len() implies #[trigger] tmodels(ts)[i] == tmodel(
            ts[i],
        ) by {
            if i > 0 {
                assert(tmodels(ts)[i] == tmodels(ts.drop_first())[i - 1]);
            }
        }
    }
}

pub proof fn lemma_tmodels_push(ts: Seq<TypeRef>, t: TypeRef)
    ensures
        tmodels(ts.push(t)) == tmodels(ts).push(tmodel(t)),
{
    lemma_tmodels_len(ts);
    lemma_tmodels_len(ts.push(t));
    assert(tmodels(ts.push(t)) =~= tmodels(ts).push(tmodel(t)));
}

impl Clone for TypeRef {
    fn clone(&self) -> (r: Self)
        ensures
            r@ == self@,
    {
        clone_type_ref(self)
    }
}

impl Clone for ResolvedType {
    fn clone(&self) -> (r: Self)
        ensures
            rmodel(r) == rmodel(*self),
    {
        clone_resolved(self)
    }
}

/// A copy of a type reference.
pub fn clone_type_ref(t: &TypeRef) -> (r: TypeRef)
    ensures
        r@ == t@,
    decreases t,
{
    match t {
        TypeRef::Resolved(x) => TypeRef::Resolved(clone_resolved(x)),
        TypeRef::Unresolved(s) => TypeRef::Unresolved(s.clone()),
        TypeRef::Unknown => TypeRef::Unknown,
    }
}

fn clone_resolved(t: &ResolvedType) -> (r: ResolvedType)
    ensures
        rmodel(r) == rmodel(*t),
    decreases t,
{
    match t {
        ResolvedType::Primitive(p) => ResolvedType::Primitive(*p),
        ResolvedType::Named { name, generic_args } => ResolvedType::Named {
            name: name.clone(),
            generic_args: clone_type_refs(generic_args),
        },
        ResolvedType::Function { params, return_type } => ResolvedType::Function {
            params: clone_type_refs(params),
            return_type: Box::new(clone_type_ref(return_type)),
        },
        ResolvedType::Array(b) => ResolvedType::Array(Box::new(clone_type_ref(b))),
        ResolvedType::MapType { key, value } => ResolvedType::MapType {
            key: Box::new(clone_type_ref(key)),
            value: Box::new(clone_type_ref(value)),
        },
        ResolvedType::Optional(b) => ResolvedType::Optional(Box::new(clone_type_ref(b))),
        ResolvedType::Result { ok, err } => ResolvedType::Result {
            ok: Box::new(clone_type_ref(ok)),
            err: Box::new(clone_type_ref(err)),
        },
        ResolvedType::Tuple(items) => ResolvedType::Tuple(clone_type_refs(items)),
        ResolvedType::Union(items) => ResolvedType::Union(clone_type_refs(items)),
        ResolvedType::Unit => ResolvedType::Unit,
    }
}

/// Copies of a sequence of type references.
pub fn clone_type_refs(v: &Vec<TypeRef>) -> (r: Vec<TypeRef>)
    ensures
        tmodels(r@) == tmodels(v@),
    decreases v,
{
    let mut out: Vec<TypeRef> = Vec::new();
    let mut i: usize = 0;
    proof {
        lemma_tmodels_len(v@);
    }
    while i < v.len()
        invariant
            i <= v@.len(),
            tmodels(out@) == tmodels(v@.take(i as int)),
        decreases v@.len() - i,
    {
        let c = clone_type_ref(&v[i]);
        proof {
            lemma_tmodels_push(out@, c);
            lemma_tmodels_push(v@.take(i as int), v@[i as int]);
            assert(v@.take(i as int).push(v@[i as int]) =~= v@.take(i + 1));
        }
        out.push(c);
        i = i + 1;
    }
    assert(v@.take(v@.len() as int) =~= v@);
    out
}

pub fn prim(p: PrimitiveType) -> (r: TypeRef)
    ensures
        r@ == TypeModel::Primitive(p),
{
    TypeRef::Resolved(ResolvedType::Primitive(p))
}

/// Whether two type references denote the same type.
pub fn type_ref_eq(a: &TypeRef, b: &TypeRef) -> (r: bool)
    ensures
        r == (a@ == b@),
    decreases a,
{
    match (a, b) {
        (TypeRef::Resolved(x), TypeRef::Resolved(y)) => resolved_eq(x, y),
        (TypeRef::Unresolved(x), TypeRef::Unresolved(y)) => *x == *y,
        (TypeRef::Unknown, TypeRef::Unknown) => true,
        (TypeRef::Resolved(x), _) => {
            proof {
                lemma_rmodel_not_unres(*x);
            }
            false
        },
        (_, TypeRef::Resolved(y)) => {
            proof {
                lemma_rmodel_not_unres(*y);
            }
            false
        },
        _ => false,
    }
}

proof fn lemma_rmodel_not_unres(r: ResolvedType)
    ensures
        !(rmodel(r) is Unresolved),
        !(rmodel(r) is Unknown),
{
}

fn resolved_eq(a: &ResolvedType, b: &ResolvedType) -> (r: bool)
    ensures
        r == (rmodel(*a) == rmodel(*b)),
    decreases a,
{
    match (a, b) {
        (ResolvedType::Primitive(x), ResolvedType::Primitive(y)) => *x == *y,
        (
            ResolvedType::Named { name: n1, generic_args: g1 },
            ResolvedType::Named { name: n2, generic_args: g2 },
        ) => *n1 == *n2 && type_refs_eq(g1, g2),
        (
            ResolvedType::Function { params: p1, return_type: r1 },
            ResolvedType::Function { params: p2, return_type: r2 },
        ) => type_refs_eq(p1, p2) && type_ref_eq(r1, r2),
        (ResolvedType::Array(x), ResolvedType::Array(y)) => type_ref_eq(x, y),
        (ResolvedType::MapType { key: k1, value: v1 }, ResolvedType::MapType { key: k2, value: v2 }) => {
            type_ref_eq(k1, k2) && type_ref_eq(v1, v2)
        },
        (ResolvedType::Optional(x), ResolvedType::Optional(y)) => type_ref_eq(x, y),
        (ResolvedType::Result { ok: o1, err: e1 }, ResolvedType::Result { ok: o2, err: e2 }) => {
            type_ref_eq(o1, o2) && type_ref_eq(e1, e2)
        },
        (ResolvedType::Tuple(x), ResolvedType::Tuple(y)) => type_refs_eq(x, y),
        (ResolvedType::Union(x), ResolvedType::Union(y)) => type_refs_eq(x, y),
        (ResolvedType::Unit, ResolvedType::Unit) => true,
        _ => false,
    }
}

fn type_refs_eq(a: &Vec<TypeRef>, b: &Vec<TypeRef>) -> (r: bool)
    ensures
        r == (tmodels(a@) == tmodels(b@)),
    decreases a,
{
    proof {
        lemma_tmodels_len(a@);
        lemma_tmodels_len(b@);
    }
    if a.len() != b.len() {
        return false;
    }
    let mut i: usize = 0;
    while i < a.len()
        invariant
            a@.len() == b@.len(),
            i <= a@.len(),
            tmodels(a@).len() == a@.len(),
            tmodels(b@).len() == b@.len(),
            forall|j: int| 0 <= j < a@.len() ==> #[trigger] tmodels(a@)[j] == tmodel(a@[j]),
            forall|j: int| 0 <= j < b@.len() ==> #[trigger] tmodels(b@)[j] == tmodel(b@[j]),
            forall|j: int| 0 <= j < i ==> tmodel(a@[j]) == tmodel(b@[j]),
        decreases a@.len() - i,
    {
        if !type_ref_eq(&a[i], &b[i]) {
            assert(tmodels(a@)[i as int] != tmodels(b@)[i as int]);
            return false;
        }
        i = i + 1;
    }
    assert(tmodels(a@) =~= tmodels(b@));
    true
}

} // verus!
