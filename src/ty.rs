//! The type lattice: the shapes a JSON position can take, and their
//! well-formedness.
use vstd::prelude::*;
use crate::value::JsonValue;

verus! {

broadcast use vstd::std_specs::vec::group_vec_axioms;

/// An object field of an inferred type.
#[derive(Debug)]
pub struct Field {
    pub name: String,
    pub ty: Ty,
    /// The field was absent from at least one merged sample.
    pub optional: bool,
}

/// An element of the type lattice.
#[derive(Debug)]
pub enum Ty {
    /// Nothing observed yet: the identity of `merge`.
    Unit,
    Null,
    Bool,
    Int,
    Float,
    Str,
    /// Observed as null, or absent, in some samples and present in others.
    Optional(Box<Ty>),
    /// One element type for every element of every merged array.
    Array(Box<Ty>),
    /// Fields in order of first appearance.
    Object(Vec<Field>),
    /// Mutually incompatible shapes seen at one position, one per kind.
    Union(Vec<Ty>),
}

/// The kind of a shape. `Int` and `Float` share the numeric kind, so a
/// union holds at most one number variant.
pub open spec fn kind(t: Ty) -> int {
    match t {
        Ty::Unit => 0,
        Ty::Null => 1,
        Ty::Bool => 2,
        Ty::Int => 3,
        Ty::Float => 3,
        Ty::Str => 4,
        Ty::Array(_) => 5,
        Ty::Object(_) => 6,
        Ty::Optional(_) => 7,
        Ty::Union(_) => 8,
    }
}

/// A shape that a present, non-null value takes, and that can be a
/// variant of a union.
pub open spec fn plain(t: Ty) -> bool {
    2 <= kind(t) <= 6
}

/// A shape of a present, non-null value: plain, or a union of plain shapes.
pub open spec fn present(t: Ty) -> bool {
    plain(t) || t is Union
}

pub open spec fn has_name(fs: Seq<Field>, n: Seq<char>) -> bool {
    exists|i: int| 0 <= i < fs.len() && #[trigger] fs[i].name@ == n
}

/// Some field named `n` is marked optional.
pub open spec fn optional_named(fs: Seq<Field>, n: Seq<char>) -> bool {
    exists|i: int| 0 <= i < fs.len() && #[trigger] fs[i].name@ == n && fs[i].optional
}

pub open spec fn names_distinct(fs: Seq<Field>) -> bool {
    forall|i: int, j: int|
        0 <= i < fs.len() && 0 <= j < fs.len() && i != j ==> #[trigger] fs[i].name@
            != #[trigger] fs[j].name@
}

pub open spec fn has_kind(vs: Seq<Ty>, k: int) -> bool {
    exists|i: int| 0 <= i < vs.len() && kind(#[trigger] vs[i]) == k
}

pub open spec fn kinds_distinct(vs: Seq<Ty>) -> bool {
    forall|i: int, j: int|
        0 <= i < vs.len() && 0 <= j < vs.len() && i != j ==> kind(#[trigger] vs[i]) != kind(
            #[trigger] vs[j],
        )
}

/// The kinds a shape stands for: those of its variants for a union, its
/// own otherwise.
pub open spec fn kind_set(t: Ty) -> Set<int> {
    match t {
        Ty::Union(vs) => Set::new(|k: int| has_kind(vs@, k)),
        _ => set![kind(t)],
    }
}

/// Field names are unique in every object, and every union holds at least
/// two plain variants of distinct kinds.
pub open spec fn well_formed(t: Ty) -> bool
    decreases t,
{
    match t {
        Ty::Optional(x) => well_formed(*x),
        Ty::Array(x) => well_formed(*x),
        Ty::Object(fs) => names_distinct(fs@) && forall|i: int|
            0 <= i < fs.len() ==> well_formed(#[trigger] fs@[i].ty),
        Ty::Union(vs) => vs.len() >= 2 && kinds_distinct(vs@) && forall|i: int|
            0 <= i < vs.len() ==> plain(#[trigger] vs@[i]) && well_formed(vs@[i]),
        _ => true,
    }
}


/// `t` describes the value `v`: decoding `v` as `t` succeeds. Every member
/// of an object has a field of its name that describes its value, and
/// every field that is not optional has a member.
pub open spec fn describes(t: Ty, v: JsonValue) -> bool
    decreases t,
{
    match t {
        Ty::Unit => false,
        Ty::Null => v is Null,
        Ty::Bool => v is Bool,
        Ty::Int => v is Int,
        Ty::Float => v is Int || v is BigInt || v is Float,
        Ty::Str => v is Str,
        Ty::Optional(x) => v is Null || describes(*x, v),
        Ty::Array(x) => match v {
            JsonValue::Array(items) => forall|i: int|
                0 <= i < items.len() ==> describes(*x, #[trigger] items@[i]),
            _ => false,
        },
        Ty::Object(fs) => match v {
            JsonValue::Object(ms) => (forall|i: int|
                0 <= i < ms.len() ==> exists|j: int|
                    0 <= j < fs.len() && fs@[j].name@ == (#[trigger] ms@[i]).key@ && describes(
                        fs@[j].ty,
                        ms@[i].value,
                    )) && (forall|j: int|
                0 <= j < fs.len() && !(#[trigger] fs@[j]).optional ==> exists|i: int|
                    0 <= i < ms.len() && ms@[i].key@ == fs@[j].name@),
            _ => false,
        },
        Ty::Union(vs) => exists|i: int| 0 <= i < vs.len() && describes(#[trigger] vs@[i], v),
    }
}


/// `u` describes every value that `t` describes.
pub open spec fn covers(t: Ty, u: Ty) -> bool {
    forall|w: JsonValue| describes(t, w) ==> #[trigger] describes(u, w)
}

} // verus!
