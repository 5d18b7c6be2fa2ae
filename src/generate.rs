//! The inference run: folding samples into one type, and the declarations
//! emitted for it.
use vstd::prelude::*;
use vstd::string::{StrSliceExecFns, StringExecFns};
use crate::ty::{Ty, well_formed, describes};
use crate::value::{JsonValue, value_wf};
use crate::merge::{merge, infer, merge_post, infer_post};
use crate::emit::{
    Decl, Namer, emit_ty, decls_named, name_taken, struct_head, enum_head, field_lines, variant_lines,
    use_text_ok, declared_between, field_types, flat_fields, flat_variants,
};

verus! {

broadcast use vstd::std_specs::vec::group_vec_axioms;

/// `t` is the left fold of `merge` over the types of the samples, starting
/// from `Unit`: `ts` holds the running types, `es` each sample's own type,
/// and every step meets the contracts of `infer` and `merge`.
pub open spec fn fold_trace(samples: Seq<JsonValue>, ts: Seq<Ty>, es: Seq<Ty>, t: Ty) -> bool {
    &&& ts.len() == samples.len() + 1
    &&& es.len() == samples.len()
    &&& ts[0] is Unit
    &&& ts.last() == t
    &&& forall|i: int|
        0 <= i < samples.len() ==> infer_post(samples[i], #[trigger] es[i]) && merge_post(
            ts[i],
            es[i],
            ts[i + 1],
        )
}

/// Folds every sample, in order, into one type, starting from `Unit`.
pub fn infer_all(samples: &Vec<JsonValue>) -> (t: Ty)
    requires
        forall|i: int| 0 <= i < samples.len() ==> value_wf(#[trigger] samples@[i]),
    ensures
        well_formed(t),
        samples.len() == 0 ==> t is Unit,
        forall|i: int| 0 <= i < samples.len() ==> describes(t, #[trigger] samples@[i]),
        exists|ts: Seq<Ty>, es: Seq<Ty>| #[trigger] fold_trace(samples@, ts, es, t),
{
    let mut t = Ty::Unit;
    let ghost mut ts: Seq<Ty> = seq![Ty::Unit];
    let ghost mut es: Seq<Ty> = seq![];
    let mut i: usize = 0;
    while i < samples.len()
        invariant
            i <= samples.len(),
            well_formed(t),
            i == 0 ==> t is Unit,
            forall|k: int| 0 <= k < samples.len() ==> value_wf(#[trigger] samples@[k]),
            forall|k: int| 0 <= k < i ==> describes(t, #[trigger] samples@[k]),
            ts.len() == i + 1,
            es.len() == i,
            ts[0] is Unit,
            ts.last() == t,
            forall|k: int|
                0 <= k < i ==> infer_post(samples@[k], #[trigger] es[k]) && merge_post(ts[k], es[k], ts[k + 1]),
        decreases samples.len() - i,
    {
        let ghost t0 = t;
        let e = infer(&samples[i]);
        let ghost ge = e;
        t = merge(t, e);
        proof {
            let ts2 = ts.push(t);
            let es2 = es.push(ge);
            assert forall|k: int| 0 <= k < i + 1 implies infer_post(samples@[k], #[trigger] es2[k]) && merge_post(
                ts2[k],
                es2[k],
                ts2[k + 1],
            ) by {
                if k < i {
                    assert(es2[k] == es[k] && ts2[k] == ts[k] && ts2[k + 1] == ts[k + 1]);
                } else {
                    assert(ts2[k] == t0);
                }
            }
            ts = ts2;
            es = es2;
        }
        proof {
            assert forall|k: int| 0 <= k < i + 1 implies describes(t, #[trigger] samples@[k]) by {
                if k < i {
                    assert(describes(t0, samples@[k]));
                }
            }
        }
        i = i + 1;
    }
    proof {
        assert(fold_trace(samples@, ts, es, t));
    }
    t
}

/// Declaration names are pairwise distinct.
pub open spec fn distinct_names(ds: Seq<Decl>) -> bool {
    forall|i: int, j: int|
        0 <= i < ds.len() && 0 <= j < ds.len() && i != j ==> #[trigger] ds[i].name@
            != #[trigger] ds[j].name@
}

/// The declarations for `t`, dependencies before their users, the root's
/// last and named `root_name`. A root that is neither an object nor a union
/// is declared as an alias, and `Unit` as a struct without fields.
pub fn emit_decls(root_name: &String, t: &Ty) -> (ds: Vec<Decl>)
    ensures
        ds.len() >= 1,
        distinct_names(ds@),
        ds@.last().name@ == root_name@,
        t matches Ty::Object(fs) && flat_fields(fs@) ==> ds.len() == 1,
        t matches Ty::Union(vs) && flat_variants(vs@) ==> ds.len() == 1,
        t is Unit ==> ds.len() == 1 && ds@[0].text@ == derive_line() + "pub struct "@ + root_name@
            + " {}\n"@,
        !(t is Unit || t is Object || t is Union) ==> exists|inner: Seq<char>|
            use_text_ok(*t, inner) && ds@.last().text@ == "pub type "@ + root_name@ + " = "@ + inner
                + ";\n"@,
        t matches Ty::Object(fs) ==> exists|ids: Seq<Seq<char>>, tys: Seq<Seq<char>>|
            ids.len() == fs.len() && tys.len() == fs.len() && (forall|i: int|
                0 <= i < fs.len() ==> use_text_ok(fs@[i].ty, #[trigger] tys[i]))
                && ds@.last().text@ == struct_head(root_name@) + #[trigger] field_lines(fs@, ids, tys)
                + "}\n"@ && declared_between(field_types(fs@), tys, ds@, 0, ds.len() - 1),
        t matches Ty::Union(vs) ==> exists|tys: Seq<Seq<char>>|
            tys.len() == vs.len() && (forall|i: int|
                0 <= i < vs.len() ==> use_text_ok(vs@[i], #[trigger] tys[i]))
                && ds@.last().text@ == enum_head(root_name@) + #[trigger] variant_lines(vs@, tys) + "}\n"@
                && declared_between(vs@, tys, ds@, 0, ds.len() - 1),
{
    let mut namer = Namer::new();
    let mut decls: Vec<Decl> = Vec::new();
    match t {
        Ty::Object(_) | Ty::Union(_) => {
            emit_ty(t, root_name, &mut namer, &mut decls);
        },
        Ty::Unit => {
            let n = namer.fresh(root_name);
            let mut text = String::from_str(
                "#[derive(Debug, Clone, PartialEq, Serialize, Deserialize)]\n",
            );
            text.append("pub struct ");
            text.append(n.as_str());
            text.append(" {}\n");
            decls.push(Decl { name: n, text });
        },
        _ => {
            let n = namer.fresh(root_name);
            let mut item = root_name.clone();
            item.append("Item");
            proof {
                assert(decls_named(namer.taken@, decls@));
            }
            let ghost taken1 = namer.taken@;
            let inner = emit_ty(t, &item, &mut namer, &mut decls);
            let ghost d1 = decls@;
            let mut text = String::from_str("pub type ");
            proof {
                reveal_strlit("pub type ");
            }
            text.append(n.as_str());
            text.append(" = ");
            text.append(inner.as_str());
            text.append(";\n");
            decls.push(Decl { name: n, text });
            proof {
                assert(name_taken(taken1, root_name@));
                assert forall|i: int, j: int|
                    0 <= i < decls@.len() && 0 <= j < decls@.len() && i != j implies #[trigger] decls@[i].name@
                    != #[trigger] decls@[j].name@ by {
                    if i == d1.len() {
                        assert(!name_taken(taken1, decls@[j].name@));
                    }
                    if j == d1.len() {
                        assert(!name_taken(taken1, decls@[i].name@));
                    }
                }
            }
        },
    }
    decls
}

/// The attribute line above every emitted struct and enum.
pub open spec fn derive_line() -> Seq<char> {
    "#[derive(Debug, Clone, PartialEq, Serialize, Deserialize)]\n"@
}

/// The text that precedes every set of declarations.
pub open spec fn prelude_text() -> Seq<char> {
    "use serde::{Deserialize, Serialize};\n"@
}

/// The declarations' texts in order, each after a blank line.
pub open spec fn joined(ds: Seq<Decl>) -> Seq<char>
    decreases ds.len(),
{
    if ds.len() == 0 {
        seq![]
    } else {
        joined(ds.drop_last()) + seq!['\n'] + ds.last().text@
    }
}

/// Renders declarations as one text.
pub fn render(ds: &Vec<Decl>) -> (r: String)
    ensures
        r@ == prelude_text() + joined(ds@),
{
    let mut r = String::from_str("use serde::{Deserialize, Serialize};\n");
    let mut i: usize = 0;
    while i < ds.len()
        invariant
            i <= ds.len(),
            r@ == prelude_text() + joined(ds@.subrange(0, i as int)),
        decreases ds.len() - i,
    {
        proof {
            assert(ds@.subrange(0, i + 1).drop_last() =~= ds@.subrange(0, i as int));
        }
        r.append("\n");
        proof {
            reveal_strlit("\n");
        }
        r.append(ds[i].text.as_str());
        proof {
            assert(r@ =~= prelude_text() + joined(ds@.subrange(0, i + 1)));
        }
        i = i + 1;
    }
    proof {
        assert(ds@.subrange(0, ds.len() as int) =~= ds@);
    }
    r
}

} // verus!
