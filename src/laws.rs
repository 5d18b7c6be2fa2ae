//! Laws of the merge operator, stated over the field-wise and variant-wise
//! relations that `merge` guarantees.
use vstd::prelude::*;
use crate::ty::{Field, Ty, has_name, optional_named, kind_set};
use crate::merge::{object_merged, merged_optional, merge_post, infer_post};
use crate::generate::fold_trace;
use crate::value::JsonValue;

verus! {

/// Merging objects whose field sets are disjoint marks every field of the
/// result optional.
pub proof fn lemma_disjoint_fields_all_optional(fa: Seq<Field>, fb: Seq<Field>, fr: Seq<Field>)
    requires
        object_merged(fa, fb, fr),
        forall|n: Seq<char>| !(has_name(fa, n) && has_name(fb, n)),
    ensures
        forall|i: int| 0 <= i < fr.len() ==> #[trigger] fr[i].optional,
{
    assert forall|i: int| 0 <= i < fr.len() implies #[trigger] fr[i].optional by {
        assert(has_name(fr, fr[i].name@));
        assert(!(has_name(fa, fr[i].name@) && has_name(fb, fr[i].name@)));
    }
}

/// Merging objects with the same field set and no optional field yields no
/// optional field.
pub proof fn lemma_same_fields_none_optional(fa: Seq<Field>, fb: Seq<Field>, fr: Seq<Field>)
    requires
        object_merged(fa, fb, fr),
        forall|n: Seq<char>| has_name(fa, n) <==> has_name(fb, n),
        forall|i: int| 0 <= i < fa.len() ==> !(#[trigger] fa[i].optional),
        forall|i: int| 0 <= i < fb.len() ==> !(#[trigger] fb[i].optional),
    ensures
        forall|i: int| 0 <= i < fr.len() ==> !(#[trigger] fr[i].optional),
{
    assert forall|i: int| 0 <= i < fr.len() implies !(#[trigger] fr[i].optional) by {
        let n = fr[i].name@;
        assert(has_name(fr, n));
        assert(!optional_named(fa, n));
        assert(!optional_named(fb, n));
    }
}

/// A field of the merge of `fa` and `fb` is optional exactly as
/// `merged_optional` says of its name.
proof fn lemma_optional_named_merged(fa: Seq<Field>, fb: Seq<Field>, fr: Seq<Field>, n: Seq<char>)
    requires
        object_merged(fa, fb, fr),
    ensures
        optional_named(fr, n) <==> (has_name(fr, n) && merged_optional(fa, fb, n)),
{
    if has_name(fr, n) && merged_optional(fa, fb, n) {
        let i = choose|i: int| 0 <= i < fr.len() && #[trigger] fr[i].name@ == n;
        assert(fr[i].optional);
    }
}

proof fn lemma_optional_has_name(fs: Seq<Field>, n: Seq<char>)
    ensures
        optional_named(fs, n) ==> has_name(fs, n),
{
}

/// Field-wise merge is commutative on the set of fields and on which of
/// them are optional.
pub proof fn lemma_field_merge_commutes(
    fa: Seq<Field>,
    fb: Seq<Field>,
    r1: Seq<Field>,
    r2: Seq<Field>,
)
    requires
        object_merged(fa, fb, r1),
        object_merged(fb, fa, r2),
    ensures
        forall|n: Seq<char>| has_name(r1, n) <==> has_name(r2, n),
        forall|n: Seq<char>| optional_named(r1, n) <==> optional_named(r2, n),
{
    assert forall|n: Seq<char>| optional_named(r1, n) <==> optional_named(r2, n) by {
        lemma_optional_named_merged(fa, fb, r1, n);
        lemma_optional_named_merged(fb, fa, r2, n);
    }
}

/// Field-wise merge is associative on the set of fields and on which of
/// them are optional: (a + b) + c and a + (b + c) agree.
pub proof fn lemma_field_merge_associates(
    fa: Seq<Field>,
    fb: Seq<Field>,
    fc: Seq<Field>,
    fab: Seq<Field>,
    r1: Seq<Field>,
    fbc: Seq<Field>,
    r2: Seq<Field>,
)
    requires
        object_merged(fa, fb, fab),
        object_merged(fab, fc, r1),
        object_merged(fb, fc, fbc),
        object_merged(fa, fbc, r2),
    ensures
        forall|n: Seq<char>| has_name(r1, n) <==> has_name(r2, n),
        forall|n: Seq<char>| optional_named(r1, n) <==> optional_named(r2, n),
{
    assert forall|n: Seq<char>| optional_named(r1, n) <==> optional_named(r2, n) by {
        lemma_optional_named_merged(fa, fb, fab, n);
        lemma_optional_named_merged(fab, fc, r1, n);
        lemma_optional_named_merged(fb, fc, fbc, n);
        lemma_optional_named_merged(fa, fbc, r2, n);
        lemma_optional_has_name(fa, n);
        lemma_optional_has_name(fb, n);
        lemma_optional_has_name(fc, n);
    }
}

/// The kinds of the variants that merging present shapes produces do not
/// depend on the order or grouping of the merges.
pub proof fn lemma_variant_kinds_order_free(a: Ty, b: Ty, c: Ty, ab: Ty, r1: Ty, bc: Ty, r2: Ty, ba: Ty)
    requires
        kind_set(ab) == kind_set(a).union(kind_set(b)),
        kind_set(r1) == kind_set(ab).union(kind_set(c)),
        kind_set(bc) == kind_set(b).union(kind_set(c)),
        kind_set(r2) == kind_set(a).union(kind_set(bc)),
        kind_set(ba) == kind_set(b).union(kind_set(a)),
    ensures
        kind_set(r1) == kind_set(r2),
        kind_set(ab) == kind_set(ba),
{
    assert(kind_set(r1) =~= kind_set(r2));
    assert(kind_set(ab) =~= kind_set(ba));
}


/// The sample `v` is an object with the key `n`.
pub open spec fn key_in(v: JsonValue, n: Seq<char>) -> bool {
    v matches JsonValue::Object(ms) && exists|i: int| 0 <= i < ms.len() && (#[trigger] ms@[i]).key@ == n
}

/// Some of the first `k` samples has the key `n`.
pub open spec fn seen(samples: Seq<JsonValue>, k: int, n: Seq<char>) -> bool {
    exists|j: int| 0 <= j < k && #[trigger] key_in(samples[j], n)
}

/// Some of the first `k` samples lacks the key `n`.
pub open spec fn missed(samples: Seq<JsonValue>, k: int, n: Seq<char>) -> bool {
    exists|j: int| 0 <= j < k && !#[trigger] key_in(samples[j], n)
}

/// Folding object samples, in any order, gives an object whose fields are
/// exactly the keys seen in some sample, each optional exactly where some
/// sample lacks it: neither depends on the order of the samples.
pub proof fn lemma_fold_field_set(samples: Seq<JsonValue>, ts: Seq<Ty>, es: Seq<Ty>, t: Ty, k: int)
    requires
        fold_trace(samples, ts, es, t),
        forall|j: int| 0 <= j < samples.len() ==> (#[trigger] samples[j]) is Object,
        1 <= k <= samples.len(),
    ensures
        ts[k] is Object,
        forall|n: Seq<char>| has_name(ts[k]->Object_0@, n) <==> seen(samples, k, n),
        forall|n: Seq<char>|
            has_name(ts[k]->Object_0@, n) ==> (optional_named(ts[k]->Object_0@, n) <==> missed(
                samples,
                k,
                n,
            )),
    decreases k,
{
    let j = k - 1;
    assert(infer_post(samples[j], es[j]) && merge_post(ts[j], es[j], ts[j + 1]));
    let ms = samples[j]->Object_0;
    let ef = es[j]->Object_0@;
    assert forall|n: Seq<char>| has_name(ef, n) <==> key_in(samples[j], n) by {
        if has_name(ef, n) {
            let i = choose|i: int| 0 <= i < ef.len() && ef[i].name@ == n;
            assert(ms@[i].key@ == n);
        }
        if key_in(samples[j], n) {
            let i = choose|i: int| 0 <= i < ms.len() && (#[trigger] ms@[i]).key@ == n;
            assert(ef[i].name@ == n);
        }
    }
    assert forall|n: Seq<char>| !optional_named(ef, n) by {
        if optional_named(ef, n) {
            let i = choose|i: int| 0 <= i < ef.len() && ef[i].name@ == n && ef[i].optional;
        }
    }
    if k == 1 {
        assert(ts[0] is Unit);
        assert(ts[1] == es[0]);
        assert forall|n: Seq<char>| seen(samples, 1, n) <==> key_in(samples[0], n) by {
            if key_in(samples[0], n) {
                assert(key_in(samples[0], n));
            }
        }
        assert forall|n: Seq<char>| missed(samples, 1, n) <==> !key_in(samples[0], n) by {
            if !key_in(samples[0], n) {
                assert(!key_in(samples[0], n));
            }
        }
    } else {
        lemma_fold_field_set(samples, ts, es, t, k - 1);
        let ff = ts[j]->Object_0@;
        let rf = ts[k]->Object_0@;
        assert(object_merged(ff, ef, rf));
        assert forall|n: Seq<char>| has_name(rf, n) <==> seen(samples, k, n) by {
            if seen(samples, k, n) {
                let w = choose|w: int| 0 <= w < k && #[trigger] key_in(samples[w], n);
                if w < j {
                    assert(seen(samples, j, n));
                }
            }
            if seen(samples, j, n) {
                let w = choose|w: int| 0 <= w < j && #[trigger] key_in(samples[w], n);
                assert(key_in(samples[w], n));
            }
            if key_in(samples[j], n) {
                assert(key_in(samples[j], n));
            }
        }
        assert forall|n: Seq<char>| has_name(rf, n) implies (optional_named(rf, n) <==> missed(samples, k, n)) by {
            lemma_optional_named_merged(ff, ef, rf, n);
            lemma_optional_has_name(ff, n);
            if missed(samples, k, n) {
                let w = choose|w: int| 0 <= w < k && !#[trigger] key_in(samples[w], n);
                if w < j {
                    assert(missed(samples, j, n));
                }
            }
            if missed(samples, j, n) {
                let w = choose|w: int| 0 <= w < j && !#[trigger] key_in(samples[w], n);
                assert(!key_in(samples[w], n));
            }
            if !key_in(samples[j], n) {
                assert(!key_in(samples[j], n));
            }
            if !has_name(ff, n) {
                assert(!seen(samples, j, n));
                assert(!key_in(samples[0], n));
            }
        }
    }
}

} // verus!
