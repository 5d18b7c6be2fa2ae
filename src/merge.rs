//! The merge operator of the type lattice.
use vstd::prelude::*;
use crate::value::{JsonValue, value_wf, keys_distinct};
use crate::ty::{
    Field, Ty, kind, plain, present, has_name, optional_named, names_distinct, has_kind,
    kinds_distinct, kind_set, well_formed, describes, covers,
};

verus! {

broadcast use vstd::std_specs::vec::group_vec_axioms;

/// The kind of a shape, as `kind` numbers it.
pub fn kind_of(t: &Ty) -> (k: u8)
    ensures
        k == kind(*t),
{
    match t {
        Ty::Unit => 0,
        Ty::Null => 1,
        Ty::Bool => 2,
        Ty::Int => 3,
        Ty::Float => 3,
        Ty::Str => 4,
        Ty::Array(_) => 5,
        Ty::Object(_) => 6,
        Ty::Optional(_) => 7,
        Ty::Union(_) => 8,
    }
}

/// The position of the field named `name`, if any.
pub fn find_field(fs: &Vec<Field>, name: &String) -> (r: Option<usize>)
    ensures
        r matches Some(i) ==> i < fs.len() && fs@[i as int].name@ == name@,
        r is None ==> !has_name(fs@, name@),
{
    let mut i: usize = 0;
    while i < fs.len()
        invariant
            i <= fs.len(),
            forall|j: int| 0 <= j < i ==> fs@[j].name@ != name@,
        decreases fs.len() - i,
    {
        if fs[i].name == *name {
            return Some(i);
        }
        i = i + 1;
    }
    None
}

/// The position of the variant of kind `k`, if any.
pub fn find_kind(vs: &Vec<Ty>, k: u8) -> (r: Option<usize>)
    ensures
        r matches Some(i) ==> i < vs.len() && kind(vs@[i as int]) == k,
        r is None ==> !has_kind(vs@, k as int),
{
    let mut i: usize = 0;
    while i < vs.len()
        invariant
            i <= vs.len(),
            forall|j: int| 0 <= j < i ==> kind(vs@[j]) != k,
        decreases vs.len() - i,
    {
        if kind_of(&vs[i]) == k {
            return Some(i);
        }
        i = i + 1;
    }
    None
}


/// The optional flag of the field named `n` after merging objects with
/// fields `fa` and `fb`: absent from one side, or optional on either.
pub open spec fn merged_optional(fa: Seq<Field>, fb: Seq<Field>, n: Seq<char>) -> bool {
    ||| !has_name(fa, n)
    ||| !has_name(fb, n)
    ||| optional_named(fa, n)
    ||| optional_named(fb, n)
}

/// `fr` is the field-wise merge of `fa` and `fb`: every name of either side
/// once, the fields of `fa` first and in their order, each marked optional
/// as `merged_optional` says.
pub open spec fn object_merged(fa: Seq<Field>, fb: Seq<Field>, fr: Seq<Field>) -> bool {
    &&& forall|n: Seq<char>| has_name(fr, n) <==> (has_name(fa, n) || has_name(fb, n))
    &&& forall|i: int|
        0 <= i < fr.len() ==> #[trigger] fr[i].optional == merged_optional(fa, fb, fr[i].name@)
    &&& fa.len() <= fr.len()
    &&& forall|i: int| 0 <= i < fa.len() ==> #[trigger] fr[i].name@ == fa[i].name@
}

/// The field types of the merge: a field of `fa` absent from `fb` keeps
/// its type; a field of both gets a type describing everything each
/// side's type describes; the fields after those of `fa` are fields of
/// `fb`, with their types.
pub open spec fn field_types_merged(fa: Seq<Field>, fb: Seq<Field>, fr: Seq<Field>) -> bool {
    &&& forall|i: int| 0 <= i < fa.len() && !has_name(fb, fa[i].name@) ==> #[trigger] fr[i].ty == fa[i].ty
    &&& forall|i: int| 0 <= i < fa.len() ==> covers(fa[i].ty, #[trigger] fr[i].ty)
    &&& forall|i: int, j: int|
        0 <= i < fa.len() && 0 <= j < fb.len() && (#[trigger] fb[j]).name@ == (#[trigger] fr[i]).name@
            ==> covers(fb[j].ty, fr[i].ty) && merge_top(fa[i].ty, fb[j].ty, fr[i].ty)
    &&& forall|i: int|
        fa.len() <= i < fr.len() ==> exists|j: int|
            0 <= j < fb.len() && fb[j].name@ == (#[trigger] fr[i]).name@ && fb[j].ty == fr[i].ty
}

proof fn lemma_optional_covers(x: Ty, t: Ty)
    requires
        covers(x, t),
    ensures
        covers(x, Ty::Optional(Box::new(t))),
        covers(Ty::Null, Ty::Optional(Box::new(t))),
{
    assert forall|w: JsonValue| describes(x, w) implies #[trigger] describes(Ty::Optional(Box::new(t)), w) by {
        assert(describes(t, w));
    }
}

proof fn lemma_optional_mono(t: Ty, m: Ty)
    requires
        covers(t, m),
    ensures
        covers(Ty::Optional(Box::new(t)), Ty::Optional(Box::new(m))),
{
    assert forall|w: JsonValue| describes(Ty::Optional(Box::new(t)), w) implies #[trigger] describes(
        Ty::Optional(Box::new(m)),
        w,
    ) by {
        assert(describes(Ty::Optional(Box::new(t)), w) == (w is Null || describes(t, w)));
        assert(describes(Ty::Optional(Box::new(m)), w) == (w is Null || describes(m, w)));
        if !(w is Null) {
            assert(describes(t, w));
        }
    }
}

proof fn lemma_array_mono(t: Ty, m: Ty)
    requires
        covers(t, m),
    ensures
        covers(Ty::Array(Box::new(t)), Ty::Array(Box::new(m))),
{
    assert forall|w: JsonValue| describes(Ty::Array(Box::new(t)), w) implies #[trigger] describes(
        Ty::Array(Box::new(m)),
        w,
    ) by {
        let items = w->Array_0;
        assert forall|i: int| 0 <= i < items.len() implies describes(m, #[trigger] items@[i]) by {
            assert(describes(t, items@[i]));
        }
    }
}

proof fn lemma_variant_covers(t: Ty, vs: Vec<Ty>, i: int)
    requires
        0 <= i < vs.len(),
        vs@[i] == t,
    ensures
        covers(t, Ty::Union(vs)),
{
    assert forall|w: JsonValue| describes(t, w) implies #[trigger] describes(Ty::Union(vs), w) by {
        assert((Ty::Union(vs))->Union_0 == vs);
        assert(describes(vs@[i], w));
    }
}

/// The shape of `r`, the merge of `a` and `b`, as far as the top level of
/// `a` and `b` fixes it.
pub open spec fn merge_top(a: Ty, b: Ty, r: Ty) -> bool {
    &&& a is Unit ==> r == b
    &&& b is Unit ==> r == a
    &&& a is Null && b is Null ==> r is Null
    &&& a is Null && present(b) ==> r == Ty::Optional(Box::new(b))
    &&& present(a) && b is Null ==> r == Ty::Optional(Box::new(a))
    &&& a is Null && b is Optional ==> r == b
    &&& a is Optional && b is Null ==> r == a
    &&& a is Optional && !(b is Unit) ==> r is Optional
    &&& b is Optional && !(a is Unit) ==> r is Optional
    &&& present(a) && present(b) ==> present(r) && kind_set(r) == kind_set(a).union(kind_set(b))
    &&& plain(a) && plain(b) && kind(a) == kind(b) ==> plain(r) && kind(r) == kind(a)
    &&& a is Bool && b is Bool ==> r is Bool
    &&& a is Int && b is Int ==> r is Int
    &&& kind(a) == 3 && kind(b) == 3 && (a is Float || b is Float) ==> r is Float
    &&& a is Str && b is Str ==> r is Str
    &&& a is Array && b is Array ==> r is Array
    &&& a is Object && b is Object ==> r is Object
    &&& present(a) && present(b) && !(plain(a) && plain(b) && kind(a) == kind(b)) ==> r is Union
}

/// What `merge` guarantees of `r`, the merge of `a` and `b`.
pub open spec fn merge_post(a: Ty, b: Ty, r: Ty) -> bool {
    &&& well_formed(r)
    &&& covers(a, r)
    &&& covers(b, r)
    &&& merge_top(a, b, r)
    &&& a is Optional && b is Optional ==> merge_top(*a->Optional_0, *b->Optional_0, *r->Optional_0)
    &&& a is Optional && present(b) ==> merge_top(*a->Optional_0, b, *r->Optional_0)
    &&& present(a) && b is Optional ==> merge_top(a, *b->Optional_0, *r->Optional_0)
    &&& a is Array && b is Array ==> r is Array && merge_top(*a->Array_0, *b->Array_0, *r->Array_0)
    &&& a is Object && b is Object ==> object_merged(a->Object_0@, b->Object_0@, r->Object_0@)
        && field_types_merged(a->Object_0@, b->Object_0@, r->Object_0@) && new_fields_ordered(
        a->Object_0@,
        b->Object_0@,
        r->Object_0@,
    )
}


/// Merges two lattice elements into one that describes every value either
/// describes.
pub fn merge(a: Ty, b: Ty) -> (r: Ty)
    requires
        well_formed(a),
        well_formed(b),
    ensures
        merge_post(a, b, r),
    decreases a, b, 1nat,
{
    match a {
        Ty::Unit => b,
        Ty::Null => match b {
            Ty::Unit => Ty::Null,
            Ty::Null => Ty::Null,
            Ty::Optional(u) => {
                proof {
                    lemma_optional_covers(*u, *u);
                }
                Ty::Optional(u)
            },
            other => {
                proof {
                    lemma_optional_covers(other, other);
                }
                Ty::Optional(Box::new(other))
            },
        },
        Ty::Optional(t) => match b {
            Ty::Unit => Ty::Optional(t),
            Ty::Null => {
                proof {
                    lemma_optional_covers(*t, *t);
                }
                Ty::Optional(t)
            },
            Ty::Optional(u) => {
                let ghost (gt, gu) = (*t, *u);
                let m = merge(*t, *u);
                proof {
                    lemma_optional_mono(gt, m);
                    lemma_optional_mono(gu, m);
                }
                Ty::Optional(Box::new(m))
            },
            other => {
                let ghost (gt, go) = (*t, other);
                let m = merge(*t, other);
                proof {
                    lemma_optional_mono(gt, m);
                    lemma_optional_covers(go, m);
                }
                Ty::Optional(Box::new(m))
            },
        },
        x => match b {
            Ty::Unit => x,
            Ty::Null => {
                proof {
                    lemma_optional_covers(x, x);
                }
                Ty::Optional(Box::new(x))
            },
            Ty::Optional(u) => {
                let ghost (gx, gu) = (x, *u);
                let m = merge(x, *u);
                proof {
                    lemma_optional_covers(gx, m);
                    lemma_optional_mono(gu, m);
                }
                Ty::Optional(Box::new(m))
            },
            y => {
                let kx = kind_of(&x);
                let ky = kind_of(&y);
                if kx == ky && kx != 8 {
                    proof {
                        assert(kind_set(a) =~= kind_set(a).union(kind_set(b)));
                    }
                    match x {
                        Ty::Bool => Ty::Bool,
                        Ty::Int => match y {
                            Ty::Int => Ty::Int,
                            _ => Ty::Float,
                        },
                        Ty::Float => Ty::Float,
                        Ty::Str => Ty::Str,
                        Ty::Array(t) => match y {
                            Ty::Array(u) => {
                                let ghost (gt, gu) = (*t, *u);
                                let m = merge(*t, *u);
                                proof {
                                    lemma_array_mono(gt, m);
                                    lemma_array_mono(gu, m);
                                }
                                Ty::Array(Box::new(m))
                            },
                            _ => Ty::Unit,
                        },
                        Ty::Object(fa) => match y {
                            Ty::Object(fb) => {
                                let ghost (ga, gb) = (fa@, fb@);
                                let fr = merge_fields(fa, fb, Ghost(a), Ghost(b));
                                proof {
                                    assert(object_merged(ga, gb, fr@));
                                    assert(field_types_merged(ga, gb, fr@));
                                }
                                Ty::Object(fr)
                            },
                            _ => Ty::Unit,
                        },
                        _ => Ty::Unit,
                    }
                } else if kx != 8 && ky != 8 {
                    let mut vs: Vec<Ty> = Vec::new();
                    vs.push(x);
                    vs.push(y);
                    proof {
                        assert(kind(vs@[0]) == kind(a) && kind(vs@[1]) == kind(b));
                        assert(has_kind(vs@, kind(a)) && has_kind(vs@, kind(b)));
                        assert(kind_set(Ty::Union(vs)) =~= kind_set(a).union(kind_set(b)));
                        lemma_variant_covers(a, vs, 0);
                        lemma_variant_covers(b, vs, 1);
                    }
                    Ty::Union(vs)
                } else {
                    let us: Vec<Ty> = match x {
                        Ty::Union(vs) => vs,
                        other => {
                            let mut vs: Vec<Ty> = Vec::new();
                            vs.push(other);
                            vs
                        },
                    };
                    let vs: Vec<Ty> = match y {
                        Ty::Union(vs) => vs,
                        other => {
                            let mut vs: Vec<Ty> = Vec::new();
                            vs.push(other);
                            vs
                        },
                    };
                    Ty::Union(merge_variants(us, vs, Ghost(a), Ghost(b)))
                }
            },
        },
    }
}


/// `t` is described by a shape in `out`, or is still in `vs`.
pub open spec fn placed(t: Ty, out: Seq<Ty>, vs: Seq<Ty>) -> bool {
    (exists|q: int| 0 <= q < out.len() && covers(t, #[trigger] out[q])) || vs.contains(t)
}

/// The variants in `out` describe every value that either side describes.
proof fn lemma_variants_cover(a: Ty, b: Ty, us0: Seq<Ty>, vs0: Seq<Ty>, out: Vec<Ty>)
    requires
        a matches Ty::Union(ua) ==> us0 == ua@,
        !(a is Union) ==> us0 == seq![a],
        b matches Ty::Union(ub) ==> vs0 == ub@,
        !(b is Union) ==> vs0 == seq![b],
        us0.len() <= out.len(),
        forall|k: int| 0 <= k < us0.len() ==> covers(us0[k], #[trigger] out@[k]),
        forall|j: int|
            0 <= j < vs0.len() ==> exists|k: int| 0 <= k < out.len() && covers(#[trigger] vs0[j], out@[k]),
    ensures
        covers(a, Ty::Union(out)),
        covers(b, Ty::Union(out)),
{
    assert forall|w: JsonValue| describes(a, w) implies #[trigger] describes(Ty::Union(out), w) by {
        assert((Ty::Union(out))->Union_0 == out);
        assert(describes(Ty::Union(out), w) <==> exists|i: int| 0 <= i < out@.len() && describes(#[trigger] out@[i], w));
        if a is Union {
            let k = choose|k: int| 0 <= k < us0.len() && describes(us0[k], w);
            assert(covers(us0[k], out@[k]));
            assert(describes(out@[k], w));
        } else {
            assert(us0[0] == a);
            assert(covers(us0[0], out@[0]));
            assert(describes(out@[0], w));
        }
    }
    assert forall|w: JsonValue| describes(b, w) implies #[trigger] describes(Ty::Union(out), w) by {
        assert((Ty::Union(out))->Union_0 == out);
        assert(describes(Ty::Union(out), w) <==> exists|i: int| 0 <= i < out@.len() && describes(#[trigger] out@[i], w));
        let j = if b is Union {
            choose|j: int| 0 <= j < vs0.len() && describes(vs0[j], w)
        } else {
            0
        };
        assert(describes(vs0[j], w));
        let k = choose|k: int| 0 <= k < out.len() && covers(vs0[j], out@[k]);
        assert(describes(out@[k], w));
    }
}

/// Merges the variant lists of two shapes, at least one of them a union:
/// variants of one kind merge, the others are kept, those of `us` first.
fn merge_variants(us: Vec<Ty>, vs: Vec<Ty>, Ghost(a): Ghost<Ty>, Ghost(b): Ghost<Ty>) -> (out: Vec<Ty>)
    requires
        well_formed(a),
        well_formed(b),
        present(a),
        present(b),
        a is Union || b is Union,
        a matches Ty::Union(ua) ==> us@ == ua@,
        !(a is Union) ==> us@ == seq![a],
        b matches Ty::Union(ub) ==> vs@ == ub@,
        !(b is Union) ==> vs@ == seq![b],
    ensures
        well_formed(Ty::Union(out)),
        kind_set(Ty::Union(out)) == kind_set(a).union(kind_set(b)),
        covers(a, Ty::Union(out)),
        covers(b, Ty::Union(out)),
    decreases a, b, 0nat,
{
    let ghost us0 = us@;
    let ghost vs0 = vs@;
    let mut us = us;
    let mut vs = vs;
    let mut out: Vec<Ty> = Vec::new();
    proof {
        assert(us@ =~= us0.subrange(0, us0.len() as int));
        assert forall|j: int| 0 <= j < vs0.len() implies placed(#[trigger] vs0[j], out@, vs@) by {
            assert(vs@[j] == vs0[j]);
        }
    }
    while us.len() > 0
        invariant
            well_formed(a),
            well_formed(b),
            a is Union ==> forall|k: int| 0 <= k < us.len() ==> decreases_to!(a => us@[k]),
            !(a is Union) ==> us.len() <= 1 && (forall|k: int| 0 <= k < us.len() ==> us@[k] == a)
                && forall|k: int| 0 <= k < vs.len() ==> decreases_to!(b => vs@[k]),
            forall|k: int| 0 <= k < us.len() ==> plain(#[trigger] us@[k]) && well_formed(us@[k]),
            forall|k: int| 0 <= k < vs.len() ==> plain(#[trigger] vs@[k]) && well_formed(vs@[k]),
            forall|k: int| 0 <= k < out.len() ==> plain(#[trigger] out@[k]) && well_formed(out@[k]),
            kinds_distinct(us@),
            kinds_distinct(vs@),
            kinds_distinct(out@),
            forall|k: int| has_kind(out@, k) ==> !has_kind(us@, k) && !has_kind(vs@, k),
            forall|k: int| has_kind(us@, k) ==> !has_kind(out@, k),
            forall|k: int|
                (has_kind(us0, k) || has_kind(vs0, k)) <==> (has_kind(out@, k) || has_kind(us@, k)
                    || has_kind(vs@, k)),
            out.len() + us.len() == us0.len(),
            vs.len() + us0.len() >= vs0.len() + us.len(),
            us0.len() >= 2 || vs0.len() >= 2,
            us0.len() >= 1,
            us@ == us0.subrange(out.len() as int, us0.len() as int),
            forall|k: int| 0 <= k < out.len() ==> covers(us0[k], #[trigger] out@[k]),
            forall|j: int| 0 <= j < vs0.len() ==> placed(#[trigger] vs0[j], out@, vs@),
        decreases us.len(),
    {
        let ghost us_before = us@;
        let ghost vs_before = vs@;
        let ghost out_before = out@;
        let u = us.remove(0);
        let ku = kind_of(&u);
        let ghost mut jj: int = -1;
        proof {
            assert(us_before[0] == u);
            assert(has_kind(us_before, kind(u)));
            assert(!has_kind(out_before, kind(u)));
            assert(forall|k: int| 0 <= k < us.len() ==> us@[k] == us_before[k + 1]);
        }
        match find_kind(&vs, ku) {
            Some(j) => {
                let v = vs.remove(j);
                proof {
                    jj = j as int;
                    assert(vs_before[j as int] == v);
                    assert(forall|k: int| 0 <= k < j ==> vs@[k] == vs_before[k]);
                    assert(forall|k: int| j <= k < vs.len() ==> vs@[k] == vs_before[k + 1]);
                }
                let m = merge(u, v);
                let ghost ob = out@;
                out.push(m);
                proof {
                    assert(out@[out.len() - 1] == m);
                    assert(forall|q: int| 0 <= q < ob.len() ==> out@[q] == ob[q]);
                    assert forall|t: int| 0 <= t < vs0.len() implies placed(#[trigger] vs0[t], out@, vs@) by {
                        let x = vs0[t];
                        assert(placed(x, out_before, vs_before));
                        if exists|q: int| 0 <= q < out_before.len() && covers(x, #[trigger] out_before[q]) {
                            let q = choose|q: int| 0 <= q < out_before.len() && covers(x, #[trigger] out_before[q]);
                            assert(covers(x, out@[q]));
                        } else {
                            let q = choose|q: int| 0 <= q < vs_before.len() && vs_before[q] == x;
                            if q == j {
                                assert(covers(x, out@[out.len() - 1]));
                            } else if q < j {
                                assert(vs@[q] == x);
                            } else {
                                assert(vs@[q - 1] == x);
                            }
                        }
                    }
                }
            },
            None => {
                let ghost ob = out@;
                out.push(u);
                proof {
                    assert(forall|q: int| 0 <= q < ob.len() ==> out@[q] == ob[q]);
                    assert forall|t: int| 0 <= t < vs0.len() implies placed(#[trigger] vs0[t], out@, vs@) by {
                        let x = vs0[t];
                        assert(placed(x, out_before, vs_before));
                        if exists|q: int| 0 <= q < out_before.len() && covers(x, #[trigger] out_before[q]) {
                            let q = choose|q: int| 0 <= q < out_before.len() && covers(x, #[trigger] out_before[q]);
                            assert(covers(x, out@[q]));
                        }
                    }
                }
            },
        }
        proof {
            assert(us_before[0] == us0[out_before.len() as int]);
            assert(covers(us0[out_before.len() as int], out@[out_before.len() as int]));
            assert(us@ =~= us0.subrange(out.len() as int, us0.len() as int));
        }
        proof {
            assert(out@.last() == out@[out.len() - 1]);
            assert(kind(out@[out.len() - 1]) == kind(u));
            assert forall|i: int, j: int|
                0 <= i < out.len() && 0 <= j < out.len() && i != j implies kind(#[trigger] out@[i])
                != kind(#[trigger] out@[j]) by {
                if i == out.len() - 1 && j < out_before.len() {
                    assert(kind(out_before[j]) == kind(out@[j]));
                }
                if j == out.len() - 1 && i < out_before.len() {
                    assert(kind(out_before[i]) == kind(out@[i]));
                }
            }
            assert(forall|k: int| 0 <= k < out_before.len() ==> out@[k] == out_before[k]);
            assert forall|k: int| #[trigger] has_kind(out@, k) implies !has_kind(us@, k)
                && !has_kind(vs@, k) by {
                let i = choose|i: int| 0 <= i < out.len() && kind(out@[i]) == k;
                if i < out_before.len() {
                    assert(has_kind(out_before, k));
                    if has_kind(us@, k) {
                        let t = choose|t: int| 0 <= t < us.len() && kind(us@[t]) == k;
                        assert(kind(us_before[t + 1]) == k);
                    }
                    if has_kind(vs@, k) {
                        let t = choose|t: int| 0 <= t < vs.len() && kind(vs@[t]) == k;
                        assert(has_kind(vs_before, kind(vs@[t])));
                    }
                } else {
                    assert(kind(u) == k);
                    if has_kind(us@, k) {
                        let t = choose|t: int| 0 <= t < us.len() && kind(us@[t]) == k;
                        assert(kind(us_before[t + 1]) == kind(us_before[0]));
                    }
                    if has_kind(vs@, k) {
                        let t = choose|t: int| 0 <= t < vs.len() && kind(vs@[t]) == k;
                        assert(has_kind(vs_before, k));
                    }
                }
            }
            assert forall|k: int| (has_kind(us0, k) || has_kind(vs0, k)) <==> (has_kind(out@, k)
                || has_kind(us@, k) || has_kind(vs@, k)) by {
                if has_kind(us_before, k) {
                    let t = choose|t: int| 0 <= t < us_before.len() && kind(us_before[t]) == k;
                    if t == 0 {
                        assert(kind(out@[out.len() - 1]) == k);
                    } else {
                        assert(kind(us@[t - 1]) == k);
                    }
                }
                if has_kind(vs_before, k) {
                    let t = choose|t: int| 0 <= t < vs_before.len() && kind(vs_before[t]) == k;
                    if kind(u) == k {
                        assert(kind(out@[out.len() - 1]) == k);
                    } else if jj < 0 {
                        assert(kind(vs@[t]) == k);
                    } else if t < jj {
                        assert(kind(vs@[t]) == k);
                    } else {
                        assert(t != jj);
                        assert(kind(vs@[t - 1]) == k);
                    }
                }
                if has_kind(out_before, k) {
                    let t = choose|t: int| 0 <= t < out_before.len() && kind(out_before[t]) == k;
                    assert(kind(out@[t]) == k);
                }
                if has_kind(out@, k) {
                    let t = choose|t: int| 0 <= t < out.len() && kind(out@[t]) == k;
                    if t < out_before.len() {
                        assert(has_kind(out_before, k));
                    } else {
                        assert(has_kind(us_before, k));
                    }
                }
                if has_kind(us@, k) {
                    let t = choose|t: int| 0 <= t < us.len() && kind(us@[t]) == k;
                    assert(kind(us_before[t + 1]) == k);
                }
                if has_kind(vs@, k) {
                    let t = choose|t: int| 0 <= t < vs.len() && kind(vs@[t]) == k;
                    assert(has_kind(vs_before, kind(vs@[t])));
                }
            }
        }
    }
    let ghost out_before = out@;
    let ghost vs_before = vs@;
    out.append(&mut vs);
    proof {
        assert forall|j: int| 0 <= j < vs0.len() implies exists|k: int|
            0 <= k < out.len() && covers(#[trigger] vs0[j], out@[k]) by {
            let x = vs0[j];
            assert(placed(x, out_before, vs_before));
            if exists|q: int| 0 <= q < out_before.len() && covers(x, #[trigger] out_before[q]) {
                let q = choose|q: int| 0 <= q < out_before.len() && covers(x, #[trigger] out_before[q]);
                assert(out@[q] == out_before[q]);
            } else {
                let q = choose|q: int| 0 <= q < vs_before.len() && vs_before[q] == x;
                assert(out@[out_before.len() + q] == x);
                assert(covers(x, x));
            }
        }
        assert forall|k: int| 0 <= k < us0.len() implies covers(us0[k], #[trigger] out@[k]) by {
            assert(out@[k] == out_before[k]);
        }
        lemma_variants_cover(a, b, us0, vs0, out);
    }
    proof {
        assert(out@ == out_before + vs_before);
        assert forall|k: int| has_kind(out@, k) <==> (has_kind(us0, k) || has_kind(vs0, k)) by {
            if has_kind(out@, k) {
                let t = choose|t: int| 0 <= t < out.len() && kind(out@[t]) == k;
                if t < out_before.len() {
                    assert(has_kind(out_before, k));
                } else {
                    assert(kind(vs_before[t - out_before.len()]) == k);
                }
            }
            if has_kind(out_before, k) {
                let t = choose|t: int| 0 <= t < out_before.len() && kind(out_before[t]) == k;
                assert(kind(out@[t]) == k);
            }
            if has_kind(vs_before, k) {
                let t = choose|t: int| 0 <= t < vs_before.len() && kind(vs_before[t]) == k;
                assert(kind(out@[out_before.len() + t]) == k);
            }
        }
        assert forall|i: int, j: int|
            0 <= i < out.len() && 0 <= j < out.len() && i != j implies kind(#[trigger] out@[i])
            != kind(#[trigger] out@[j]) by {
            if i >= out_before.len() && j < out_before.len() {
                assert(has_kind(out_before, kind(out@[j])));
                assert(kind(vs_before[i - out_before.len()]) == kind(out@[i]));
            }
            if j >= out_before.len() && i < out_before.len() {
                assert(has_kind(out_before, kind(out@[i])));
                assert(kind(vs_before[j - out_before.len()]) == kind(out@[j]));
            }
        }
        assert forall|k: int| has_kind(us0, k) <==> kind_set(a).contains(k) by {
            if !(a is Union) {
                assert(us0[0] == a);
            }
        }
        assert forall|k: int| has_kind(vs0, k) <==> kind_set(b).contains(k) by {
            if !(b is Union) {
                assert(vs0[0] == b);
            }
        }
        assert forall|k: int|
            kind_set(Ty::Union(out)).contains(k) <==> kind_set(a).union(kind_set(b)).contains(k) by {
            assert(kind_set(Ty::Union(out)).contains(k) <==> has_kind(out@, k));
            assert(has_kind(out@, k) <==> (has_kind(us0, k) || has_kind(vs0, k)));
            assert(kind_set(a).contains(k) <==> has_kind(us0, k));
            assert(kind_set(b).contains(k) <==> has_kind(vs0, k));
        }
        assert(kind_set(Ty::Union(out)) =~= kind_set(a).union(kind_set(b)));
    }
    out
}


/// The position of the field named `n` in `fs`.
pub open spec fn name_pos(fs: Seq<Field>, n: Seq<char>) -> int {
    choose|j: int| 0 <= j < fs.len() && fs[j].name@ == n
}

/// The fields of `fr` after those of `fa` follow the order of `fb`.
pub open spec fn new_fields_ordered(fa: Seq<Field>, fb: Seq<Field>, fr: Seq<Field>) -> bool {
    forall|i: int, k: int|
        fa.len() <= i < k < fr.len() ==> name_pos(fb, #[trigger] fr[i].name@) < name_pos(
            fb,
            #[trigger] fr[k].name@,
        )
}

/// The fields of `fs` follow their order in `fs0`.
pub open spec fn in_order_of(fs: Seq<Field>, fs0: Seq<Field>) -> bool {
    forall|k: int, m: int|
        0 <= k < m < fs.len() ==> name_pos(fs0, #[trigger] fs[k].name@) < name_pos(
            fs0,
            #[trigger] fs[m].name@,
        )
}

proof fn lemma_name_pos(fs: Seq<Field>, j: int)
    requires
        names_distinct(fs),
        0 <= j < fs.len(),
    ensures
        name_pos(fs, fs[j].name@) == j,
{
    let p = name_pos(fs, fs[j].name@);
    assert(0 <= p < fs.len() && fs[p].name@ == fs[j].name@);
}

/// Every element of `s` is an element of `s0`.
pub open spec fn drawn_from(s: Seq<Field>, s0: Seq<Field>) -> bool {
    forall|k: int| 0 <= k < s.len() ==> s0.contains(#[trigger] s[k])
}

/// The merged fields describe every object that either side describes.
proof fn lemma_fields_cover(a: Ty, b: Ty, fa0: Seq<Field>, fb0: Seq<Field>, out: Vec<Field>)
    requires
        a matches Ty::Object(xa) && xa@ == fa0,
        b matches Ty::Object(xb) && xb@ == fb0,
        object_merged(fa0, fb0, out@),
        forall|i: int| 0 <= i < fa0.len() ==> covers(fa0[i].ty, #[trigger] out@[i].ty),
        forall|i: int, j: int|
            0 <= i < out.len() && 0 <= j < fb0.len() && (#[trigger] fb0[j]).name@ == (
            #[trigger] out@[i]).name@ ==> covers(fb0[j].ty, out@[i].ty),
    ensures
        covers(a, Ty::Object(out)),
        covers(b, Ty::Object(out)),
{
assert forall|w: JsonValue| describes(a, w) implies #[trigger] describes(Ty::Object(out), w) by {
        let ms = w->Object_0;
        assert forall|i: int| 0 <= i < ms.len() implies exists|j: int|
            0 <= j < out.len() && out@[j].name@ == (#[trigger] ms@[i]).key@ && describes(out@[j].ty, ms@[i].value) by {
            let j = choose|j: int| 0 <= j < fa0.len() && fa0[j].name@ == ms@[i].key@ && describes(fa0[j].ty, ms@[i].value);
            assert(covers(fa0[j].ty, out@[j].ty));
            assert(describes(out@[j].ty, ms@[i].value));
        }
        assert forall|j: int| 0 <= j < out.len() && !(#[trigger] out@[j]).optional implies exists|i: int|
            0 <= i < ms.len() && ms@[i].key@ == out@[j].name@ by {
            let n = out@[j].name@;
            assert(has_name(fa0, n));
            let t = choose|t: int| 0 <= t < fa0.len() && fa0[t].name@ == n;
            assert(!fa0[t].optional);
        }
    }
    assert forall|w: JsonValue| describes(b, w) implies #[trigger] describes(Ty::Object(out), w) by {
        let ms = w->Object_0;
        assert forall|i: int| 0 <= i < ms.len() implies exists|j: int|
            0 <= j < out.len() && out@[j].name@ == (#[trigger] ms@[i]).key@ && describes(out@[j].ty, ms@[i].value) by {
            let j = choose|j: int| 0 <= j < fb0.len() && fb0[j].name@ == ms@[i].key@ && describes(fb0[j].ty, ms@[i].value);
            assert(has_name(fb0, fb0[j].name@));
            assert(has_name(out@, fb0[j].name@));
            let q = choose|q: int| 0 <= q < out.len() && out@[q].name@ == fb0[j].name@;
            assert(covers(fb0[j].ty, out@[q].ty));
            assert(describes(out@[q].ty, ms@[i].value));
        }
        assert forall|j: int| 0 <= j < out.len() && !(#[trigger] out@[j]).optional implies exists|i: int|
            0 <= i < ms.len() && ms@[i].key@ == out@[j].name@ by {
            let n = out@[j].name@;
            assert(has_name(fb0, n));
            let t = choose|t: int| 0 <= t < fb0.len() && fb0[t].name@ == n;
            assert(!fb0[t].optional);
        }
    }
}

/// Merges the fields of two objects field by field.
#[verifier::rlimit(40)]
fn merge_fields(fa: Vec<Field>, fb: Vec<Field>, Ghost(a): Ghost<Ty>, Ghost(b): Ghost<Ty>) -> (out: Vec<Field>)
    requires
        well_formed(a),
        well_formed(b),
        a matches Ty::Object(xa) && xa@ == fa@,
        b matches Ty::Object(xb) && xb@ == fb@,
    ensures
        object_merged(fa@, fb@, out@),
        names_distinct(out@),
        forall|i: int| 0 <= i < out.len() ==> well_formed(#[trigger] out@[i].ty),
        covers(a, Ty::Object(out)),
        covers(b, Ty::Object(out)),
        field_types_merged(fa@, fb@, out@),
        new_fields_ordered(fa@, fb@, out@),
    decreases a, b, 0nat,
{
    let ghost fa0 = fa@;
    let ghost fb0 = fb@;
    let mut fa = fa;
    let mut fb = fb;
    let mut out: Vec<Field> = Vec::new();
    proof {
        assert forall|k: int| 0 <= k < fb.len() implies fb0.contains(#[trigger] fb@[k]) by {
            assert(fb0[k] == fb@[k]);
        }
        assert forall|k: int, m: int| 0 <= k < m < fb.len() implies name_pos(fb0, #[trigger] fb@[k].name@) < name_pos(
            fb0,
            #[trigger] fb@[m].name@,
        ) by {
            lemma_name_pos(fb0, k);
            lemma_name_pos(fb0, m);
        }
        assert forall|k: int|
            0 <= k < fb.len() implies optional_named(fb0, #[trigger] fb@[k].name@) == fb@[k].optional by {
            if optional_named(fb0, fb@[k].name@) {
                let i = choose|i: int| 0 <= i < fb0.len() && fb0[i].name@ == fb@[k].name@ && fb0[i].optional;
                assert(i == k);
            }
        }
    }
    while fa.len() > 0
        invariant
            well_formed(a),
            well_formed(b),
            a matches Ty::Object(xa) && xa@ == fa0,
            b matches Ty::Object(xb) && xb@ == fb0,
            names_distinct(fa0),
            names_distinct(fb0),
            forall|k: int| 0 <= k < fa.len() ==> decreases_to!(a => fa@[k].ty),
            fa@ == fa0.subrange(fa0.len() - fa.len(), fa0.len() as int),
            out.len() == fa0.len() - fa.len(),
            forall|i: int|
                0 <= i < out.len() ==> #[trigger] out@[i].name@ == fa0[i].name@ && out@[i].optional
                    == merged_optional(fa0, fb0, fa0[i].name@),
            forall|i: int| 0 <= i < out.len() ==> well_formed(#[trigger] out@[i].ty),
            forall|k: int| 0 <= k < fa.len() ==> well_formed(#[trigger] fa@[k].ty),
            forall|k: int| 0 <= k < fb.len() ==> well_formed(#[trigger] fb@[k].ty),
            forall|k: int|
                0 <= k < fb.len() ==> optional_named(fb0, #[trigger] fb@[k].name@) == fb@[k].optional,
            names_distinct(fb@),
            forall|n: Seq<char>|
                has_name(fb@, n) <==> (has_name(fb0, n) && !has_name(out@, n)),
            forall|i: int| 0 <= i < out.len() ==> covers(fa0[i].ty, #[trigger] out@[i].ty),
            forall|i: int|
                0 <= i < out.len() && !has_name(fb0, fa0[i].name@) ==> #[trigger] out@[i].ty == fa0[i].ty,
            forall|i: int, j: int|
                0 <= i < out.len() && 0 <= j < fb0.len() && (#[trigger] fb0[j]).name@ == (
                #[trigger] out@[i]).name@ ==> covers(fb0[j].ty, out@[i].ty) && merge_top(fa0[i].ty, fb0[j].ty, out@[i].ty),
            drawn_from(fb@, fb0),
            in_order_of(fb@, fb0),
        decreases fa.len(),
    {
        let ghost fa_before = fa@;
        let ghost fb_before = fb@;
        let ghost out_before = out@;
        let ghost c = out.len() as int;
        let f = fa.remove(0);
        let ghost mut jj: int = -1;
        proof {
            assert(fa_before[0] == f);
            assert(fa0[c] == f);
            assert(forall|k: int| 0 <= k < fa.len() ==> fa@[k] == fa_before[k + 1]);
            assert(fa@ =~= fa0.subrange(fa0.len() - fa.len(), fa0.len() as int));
            assert(optional_named(fa0, f.name@) == f.optional);
            assert(has_name(fa0, f.name@));
        }
        match find_field(&fb, &f.name) {
            Some(j) => {
                let g = fb.remove(j);
                proof {
                    jj = j as int;
                    assert(fb_before[j as int] == g);
                    assert(forall|k: int| 0 <= k < j ==> fb@[k] == fb_before[k]);
                    assert(forall|k: int| j <= k < fb.len() ==> fb@[k] == fb_before[k + 1]);
                    assert(optional_named(fb0, fb_before[j as int].name@) == g.optional);
                    assert(optional_named(fb0, f.name@) == g.optional);
                    assert(has_name(fb0, f.name@));
                                        assert forall|k: int| 0 <= k < fb.len() implies fb0.contains(#[trigger] fb@[k]) by {
                        let kk = if k < j { k } else { k + 1 };
                        assert(fb@[k] == fb_before[kk]);
                        assert(fb0.contains(fb_before[kk]));
                    }
                    assert(fb0.contains(fb_before[j as int]));
                    assert forall|k: int, m: int| 0 <= k < m < fb.len() implies name_pos(fb0, #[trigger] fb@[k].name@) < name_pos(
                        fb0,
                        #[trigger] fb@[m].name@,
                    ) by {
                        let kk = if k < j { k } else { k + 1 };
                        let mm = if m < j { m } else { m + 1 };
                        assert(fb@[k] == fb_before[kk]);
                        assert(fb@[m] == fb_before[mm]);
                        assert(kk < mm);
                    }
                }
                let ghost gt = g.ty;
                let ghost gi = choose|t: int| 0 <= t < fb0.len() && fb0[t] == g;
                let opt = f.optional || g.optional;
                let t = merge(f.ty, g.ty);
                out.push(Field { name: f.name, ty: t, optional: opt });
                proof {
                    assert(out@[c].optional == merged_optional(fa0, fb0, fa0[c].name@));
                    assert(0 <= gi < fb0.len() && fb0[gi] == g);
                    assert forall|j: int| 0 <= j < fb0.len() && fb0[j].name@ == out@[c].name@ implies covers(fb0[j].ty, out@[c].ty) && merge_top(fa0[c].ty, fb0[j].ty, out@[c].ty) by {
                        assert(j == gi);
                    }
                }
            },
            None => {
                proof {
                    assert(!has_name(out_before, f.name@)) by {
                        if has_name(out_before, f.name@) {
                            let i = choose|i: int|
                                0 <= i < out_before.len() && out_before[i].name@ == f.name@;
                            assert(fa0[i].name@ == fa0[c].name@);
                        }
                    }
                    assert(!has_name(fb0, f.name@));
                }
                out.push(Field { name: f.name, ty: f.ty, optional: true });
                proof {
                    assert(out@[c].optional == merged_optional(fa0, fb0, fa0[c].name@));
                    assert(covers(fa0[c].ty, out@[c].ty));
                    assert forall|j: int| 0 <= j < fb0.len() implies fb0[j].name@ != out@[c].name@ by {
                        if fb0[j].name@ == out@[c].name@ {
                            assert(has_name(fb0, f.name@));
                        }
                    }
                }
            },
        }
        proof {
            assert(forall|k: int| 0 <= k < out_before.len() ==> out@[k] == out_before[k]);
            assert(out@[c].name@ == fa0[c].name@);
            assert forall|n: Seq<char>| has_name(fb@, n) <==> (has_name(fb0, n) && !has_name(out@, n)) by {
                if has_name(out@, n) {
                    let i = choose|i: int| 0 <= i < out.len() && out@[i].name@ == n;
                    if i < c {
                        assert(has_name(out_before, n));
                    }
                }
                if has_name(out_before, n) {
                    let i = choose|i: int| 0 <= i < out_before.len() && out_before[i].name@ == n;
                    assert(out@[i].name@ == n);
                }
                if has_name(fb@, n) {
                    let i = choose|i: int| 0 <= i < fb.len() && fb@[i].name@ == n;
                    assert(has_name(fb_before, n));
                }
                if has_name(fb_before, n) && n != f.name@ {
                    let i = choose|i: int| 0 <= i < fb_before.len() && fb_before[i].name@ == n;
                    if jj < 0 || i < jj {
                        assert(fb@[i].name@ == n);
                    } else {
                        assert(i != jj);
                        assert(fb@[i - 1].name@ == n);
                    }
                }
            }
        }
    }
    let ghost n_out = out.len() as int;
    proof {
        assert(n_out == fa0.len());
        assert forall|n: Seq<char>| has_name(out@, n) <==> has_name(fa0, n) by {
            if has_name(fa0, n) {
                let i = choose|i: int| 0 <= i < fa0.len() && fa0[i].name@ == n;
                assert(out@[i].name@ == n);
            }
        }
    }
    while fb.len() > 0
        invariant
            names_distinct(fa0),
            names_distinct(fb0),
            n_out == fa0.len(),
            n_out <= out.len(),
            forall|n: Seq<char>| #[trigger] has_name(fb@, n) ==> has_name(fb0, n) && !has_name(out@, n),
            forall|n: Seq<char>|
                (has_name(fa0, n) || has_name(fb0, n)) <==> (has_name(out@, n) || has_name(fb@, n)),
            forall|i: int| 0 <= i < n_out ==> #[trigger] out@[i].name@ == fa0[i].name@,
            forall|i: int|
                0 <= i < out.len() ==> #[trigger] out@[i].optional == merged_optional(
                    fa0,
                    fb0,
                    out@[i].name@,
                ),
            forall|i: int| 0 <= i < out.len() ==> well_formed(#[trigger] out@[i].ty),
            forall|k: int| 0 <= k < fb.len() ==> well_formed(#[trigger] fb@[k].ty),
            names_distinct(fb@),
            names_distinct(out@),
            forall|n: Seq<char>| has_name(fa0, n) ==> !has_name(fb@, n),
            forall|i: int| 0 <= i < n_out ==> covers(fa0[i].ty, #[trigger] out@[i].ty),
            forall|i: int|
                0 <= i < n_out && !has_name(fb0, fa0[i].name@) ==> #[trigger] out@[i].ty == fa0[i].ty,
            forall|i: int|
                n_out <= i < out.len() ==> exists|j: int|
                    0 <= j < fb0.len() && fb0[j].name@ == (#[trigger] out@[i]).name@ && fb0[j].ty == out@[i].ty,
            forall|i: int, j: int|
                0 <= i < out.len() && 0 <= j < fb0.len() && (#[trigger] fb0[j]).name@ == (
                #[trigger] out@[i]).name@ ==> covers(fb0[j].ty, out@[i].ty) && (i < n_out ==> merge_top(
                    fa0[i].ty,
                    fb0[j].ty,
                    out@[i].ty,
                )),
            drawn_from(fb@, fb0),
            in_order_of(fb@, fb0),
            forall|i: int, m: int|
                n_out <= i < m < out.len() ==> name_pos(fb0, #[trigger] out@[i].name@) < name_pos(
                    fb0,
                    #[trigger] out@[m].name@,
                ),
            forall|i: int, m: int|
                n_out <= i < out.len() && 0 <= m < fb.len() ==> name_pos(fb0, #[trigger] out@[i].name@)
                    < name_pos(fb0, #[trigger] fb@[m].name@),
        decreases fb.len(),
    {
        let ghost fb_before = fb@;
        let ghost out_before = out@;
        let g = fb.remove(0);
        proof {
            assert(fb_before[0] == g);
            assert(forall|k: int| 0 <= k < fb.len() ==> fb@[k] == fb_before[k + 1]);
            assert(has_name(fb_before, g.name@));
            assert(!has_name(fa0, g.name@));
        }
        proof {
            assert(fb0.contains(fb_before[0]));
        }
        let ghost gi = choose|t: int| 0 <= t < fb0.len() && fb0[t] == g;
        out.push(Field { name: g.name, ty: g.ty, optional: true });
        proof {
            let last = out_before.len() as int;
            assert(out@[last].name@ == fb_before[0].name@);
            assert forall|k: int, m: int| 0 <= k < m < fb.len() implies name_pos(fb0, #[trigger] fb@[k].name@) < name_pos(
                fb0,
                #[trigger] fb@[m].name@,
            ) by {
                assert(fb@[k] == fb_before[k + 1]);
                assert(fb@[m] == fb_before[m + 1]);
            }
            assert forall|i: int, m: int|
                n_out <= i < out.len() && 0 <= m < fb.len() implies name_pos(fb0, #[trigger] out@[i].name@)
                < name_pos(fb0, #[trigger] fb@[m].name@) by {
                assert(fb@[m] == fb_before[m + 1]);
                if i < last {
                    assert(out@[i] == out_before[i]);
                } else {
                    assert(name_pos(fb0, fb_before[0].name@) < name_pos(fb0, fb_before[m + 1].name@));
                }
            }
            assert forall|i: int, m: int|
                n_out <= i < m < out.len() implies name_pos(fb0, #[trigger] out@[i].name@) < name_pos(
                fb0,
                #[trigger] out@[m].name@,
            ) by {
                assert(out@[i] == out_before[i]);
                if m < last {
                    assert(out@[m] == out_before[m]);
                } else {
                    assert(name_pos(fb0, out_before[i].name@) < name_pos(fb0, fb_before[0].name@));
                }
            }
            assert(forall|k: int| 0 <= k < out_before.len() ==> out@[k] == out_before[k]);
            assert(0 <= gi < fb0.len() && fb0[gi] == g);
            assert forall|j: int| 0 <= j < fb0.len() && fb0[j].name@ == out@[out_before.len() as int].name@ implies covers(fb0[j].ty, out@[out_before.len() as int].ty) by {
                assert(j == gi);
            }
            assert forall|i: int| n_out <= i < out.len() implies exists|j: int|
                0 <= j < fb0.len() && fb0[j].name@ == (#[trigger] out@[i]).name@ && fb0[j].ty == out@[i].ty by {
                if i == out_before.len() {
                    assert(fb0[gi].name@ == out@[i].name@ && fb0[gi].ty == out@[i].ty);
                } else {
                    assert(out@[i] == out_before[i]);
                }
            }
            assert forall|k: int| 0 <= k < fb.len() implies fb0.contains(#[trigger] fb@[k]) by {
                assert(fb@[k] == fb_before[k + 1]);
                assert(fb0.contains(fb_before[k + 1]));
            }
            assert forall|n: Seq<char>| has_name(fb@, n) implies has_name(fb0, n) && !has_name(out@, n) by {
                let i = choose|i: int| 0 <= i < fb.len() && fb@[i].name@ == n;
                assert(fb_before[i + 1].name@ == n);
                assert(has_name(fb_before, n));
                assert(fb_before[0].name@ != fb_before[i + 1].name@);
                assert(!has_name(out_before, n));
                if has_name(out@, n) {
                    let t = choose|t: int| 0 <= t < out.len() && out@[t].name@ == n;
                    if t < out_before.len() {
                        assert(has_name(out_before, n));
                    } else {
                        assert(fb_before[0].name@ == fb_before[i + 1].name@);
                    }
                }
            }
            assert forall|n: Seq<char>|
                (has_name(fa0, n) || has_name(fb0, n)) <==> (has_name(out@, n) || has_name(fb@, n)) by {
                if has_name(out_before, n) {
                    let i = choose|i: int| 0 <= i < out_before.len() && out_before[i].name@ == n;
                    assert(out@[i].name@ == n);
                }
                if has_name(fb_before, n) {
                    let i = choose|i: int| 0 <= i < fb_before.len() && fb_before[i].name@ == n;
                    if i == 0 {
                        assert(out@[out.len() - 1].name@ == n);
                    } else {
                        assert(fb@[i - 1].name@ == n);
                    }
                }
                if has_name(out@, n) {
                    let i = choose|i: int| 0 <= i < out.len() && out@[i].name@ == n;
                    if i < out_before.len() {
                        assert(has_name(out_before, n));
                    } else {
                        assert(has_name(fb_before, n));
                    }
                }
                if has_name(fb@, n) {
                    let i = choose|i: int| 0 <= i < fb.len() && fb@[i].name@ == n;
                    assert(fb_before[i + 1].name@ == n);
                }
            }
            assert(names_distinct(out@)) by {
                assert forall|i: int, j: int|
                    0 <= i < out.len() && 0 <= j < out.len() && i != j implies #[trigger] out@[i].name@
                    != #[trigger] out@[j].name@ by {
                    if i == out.len() - 1 && j < out_before.len() {
                        assert(has_name(out_before, out@[j].name@));
                    }
                    if j == out.len() - 1 && i < out_before.len() {
                        assert(has_name(out_before, out@[i].name@));
                    }
                }
            }
        }
    }
    proof {
        assert forall|n: Seq<char>| has_name(out@, n) <==> (has_name(fa0, n) || has_name(fb0, n)) by {}
        lemma_fields_cover(a, b, fa0, fb0, out);
    }
    out
}


/// `t` has the top-level shape that single-sample inference gives `v`.
pub open spec fn top_shape(t: Ty, v: JsonValue) -> bool {
    &&& (v is Null <==> t is Null)
    &&& (v is Bool <==> t is Bool)
    &&& (v is Int <==> t is Int)
    &&& (v is Float || v is BigInt <==> t is Float)
    &&& (v is Str <==> t is Str)
    &&& (v is Array <==> t is Array)
    &&& (v is Object <==> t is Object)
}

/// What `infer` guarantees of `r`, the type of the single sample `v`.
pub open spec fn infer_post(v: JsonValue, r: Ty) -> bool
    decreases v,
{
    &&& well_formed(r)
    &&& describes(r, v)
    &&& v is Null <==> r is Null
    &&& v is Bool <==> r is Bool
    &&& v is Int <==> r is Int
    &&& (v is Float || v is BigInt) <==> r is Float
    &&& v is Str <==> r is Str
    &&& v is Array <==> r is Array
    &&& v is Object <==> r is Object
    &&& top_shape(r, v)
    &&& v matches JsonValue::Object(ms) ==> r->Object_0.len() == ms.len() && forall|i: int|
                0 <= i < ms.len() ==> (#[trigger] r->Object_0@[i]).name@ == ms@[i].key@
                    && !r->Object_0@[i].optional && top_shape(r->Object_0@[i].ty, ms@[i].value)
                    && infer_post(ms@[i].value, r->Object_0@[i].ty)
}

/// The type of a single sample.
pub fn infer(v: &JsonValue) -> (r: Ty)
    requires
        value_wf(*v),
    ensures
        infer_post(*v, r),
    decreases v,
{
    match v {
        JsonValue::Null => Ty::Null,
        JsonValue::Bool(_) => Ty::Bool,
        JsonValue::Int => Ty::Int,
        JsonValue::Float => Ty::Float,
        JsonValue::BigInt => Ty::Float,
        JsonValue::Str(_) => Ty::Str,
        JsonValue::Array(items) => {
            let mut t = Ty::Unit;
            let mut i: usize = 0;
            while i < items.len()
                invariant
                    i <= items.len(),
                    well_formed(t),
                    forall|k: int| 0 <= k < items.len() ==> value_wf(#[trigger] items@[k]),
                    forall|k: int| 0 <= k < items.len() ==> decreases_to!(*v => items@[k]),
                    forall|k: int| 0 <= k < i ==> describes(t, #[trigger] items@[k]),
                decreases items.len() - i,
            {
                let e = infer(&items[i]);
                let ghost t0 = t;
                t = merge(t, e);
                proof {
                    assert forall|k: int| 0 <= k < i + 1 implies describes(t, #[trigger] items@[k]) by {
                        if k < i {
                            assert(describes(t0, items@[k]));
                        }
                    }
                }
                i = i + 1;
            }
            let r = Ty::Array(Box::new(t));
            proof {
                assert((*v)->Array_0 == *items);
            }
            r
        },
        JsonValue::Object(ms) => {
            let mut fs: Vec<Field> = Vec::new();
            let mut i: usize = 0;
            while i < ms.len()
                invariant
                    i <= ms.len(),
                    fs.len() == i,
                    keys_distinct(ms@),
                    forall|k: int| 0 <= k < ms.len() ==> value_wf(#[trigger] ms@[k].value),
                    forall|k: int| 0 <= k < ms.len() ==> decreases_to!(*v => ms@[k].value),
                    forall|k: int|
                        0 <= k < i ==> (#[trigger] fs@[k]).name@ == ms@[k].key@ && !fs@[k].optional
                            && well_formed(fs@[k].ty) && describes(fs@[k].ty, ms@[k].value)
                            && top_shape(fs@[k].ty, ms@[k].value) && infer_post(ms@[k].value, fs@[k].ty),
                decreases ms.len() - i,
            {
                let t = infer(&ms[i].value);
                fs.push(Field { name: ms[i].key.clone(), ty: t, optional: false });
                i = i + 1;
            }
            proof {
                assert forall|p: int, q: int|
                    0 <= p < fs.len() && 0 <= q < fs.len() && p != q implies #[trigger] fs@[p].name@
                    != #[trigger] fs@[q].name@ by {
                    assert(ms@[p].key@ != ms@[q].key@);
                }
                assert((*v)->Object_0 == *ms);
                assert forall|k: int| 0 <= k < ms.len() implies exists|j: int|
                    0 <= j < fs.len() && fs@[j].name@ == (#[trigger] ms@[k]).key@ && describes(fs@[j].ty, ms@[k].value) by {
                    assert(fs@[k].name@ == ms@[k].key@);
                }
                assert forall|j: int| 0 <= j < fs.len() && !(#[trigger] fs@[j]).optional implies exists|k: int|
                    0 <= k < ms.len() && ms@[k].key@ == fs@[j].name@ by {
                    assert(ms@[j].key@ == fs@[j].name@);
                }
            }
            Ty::Object(fs)
        },
    }
}

} // verus!
