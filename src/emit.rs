//! Naming of composite types and emission of their declarations.
use vstd::prelude::*;
use vstd::string::{StrSliceExecFns, StringExecFns};
use crate::ty::{Field, Ty};
use crate::text::{
    pascal_case, field_ident, escape_str, decimal, decimal_digits, escaped, pascal, ident_of,
};

verus! {

broadcast use vstd::std_specs::vec::group_vec_axioms;

pub open spec fn name_taken(taken: Seq<String>, s: Seq<char>) -> bool {
    exists|i: int| 0 <= i < taken.len() && #[trigger] taken[i]@ == s
}

/// The names handed out so far, in order.
pub struct Namer {
    pub taken: Vec<String>,
}

fn is_taken(taken: &Vec<String>, s: &String) -> (r: bool)
    ensures
        r == name_taken(taken@, s@),
{
    let mut i: usize = 0;
    while i < taken.len()
        invariant
            i <= taken.len(),
            forall|k: int| 0 <= k < i ==> taken@[k]@ != s@,
        decreases taken.len() - i,
    {
        if taken[i] == *s {
            return true;
        }
        i = i + 1;
    }
    false
}

impl Namer {
    pub fn new() -> (r: Namer)
        ensures
            r.taken@.len() == 0,
    {
        Namer { taken: Vec::new() }
    }

    /// Hands out `base`, or, where it is taken, `base` with the first
    /// numeric suffix from 2 up that is free.
    pub fn fresh(&mut self, base: &String) -> (r: String)
        ensures
            !name_taken(old(self).taken@, r@),
            final(self).taken@.len() == old(self).taken@.len() + 1,
            forall|i: int| 0 <= i < old(self).taken@.len() ==> final(self).taken@[i] == old(self).taken@[i],
            final(self).taken@[old(self).taken@.len() as int]@ == r@,
            !name_taken(old(self).taken@, base@) ==> r@ == base@,
            base@.is_prefix_of(r@),
            name_taken(old(self).taken@, base@) ==> (exists|k: nat|
                2 <= k && r@ == base@ + decimal_digits(k) && forall|j: nat|
                    2 <= j < k ==> name_taken(old(self).taken@, #[trigger] (base@ + decimal_digits(j))))
                || forall|i: int|
                0 <= i < old(self).taken@.len() ==> (#[trigger] old(self).taken@[i])@.len() < r@.len(),
    {
        if !is_taken(&self.taken, base) {
            let r = base.clone();
            self.taken.push(base.clone());
            return r;
        }
        let mut tries: usize = 0;
        while tries < self.taken.len() && tries < usize::MAX - 2
            invariant
                self.taken@ == old(self).taken@,
                name_taken(old(self).taken@, base@),
                forall|j: nat|
                    2 <= j < tries + 2 ==> name_taken(old(self).taken@, #[trigger] (base@ + decimal_digits(j))),
            decreases self.taken.len() - tries,
        {
            let mut cand = base.clone();
            cand.append(decimal(tries + 2).as_str());
            if !is_taken(&self.taken, &cand) {
                self.taken.push(cand.clone());
                proof {
                    assert(cand@ == base@ + decimal_digits((tries + 2) as nat));
                }
                return cand;
            }
            proof {
                assert(name_taken(old(self).taken@, base@ + decimal_digits((tries + 2) as nat)));
            }
            tries = tries + 1;
        }
        // Every candidate was taken: `base`, '_' and the longest taken name
        // is longer than every taken one, so it is free.
        let mut longest = String::new();
        let mut i: usize = 0;
        while i < self.taken.len()
            invariant
                i <= self.taken.len(),
                self.taken@ == old(self).taken@,
                name_taken(old(self).taken@, base@),
                forall|j: int| 0 <= j < i ==> self.taken@[j]@.len() <= longest@.len(),
            decreases self.taken.len() - i,
        {
            if self.taken[i].as_str().unicode_len() > longest.as_str().unicode_len() {
                longest = self.taken[i].clone();
            }
            i = i + 1;
        }
        let mut r = base.clone();
        r.append("_");
        r.append(longest.as_str());
        proof {
            reveal_strlit("_");
        }
        self.taken.push(r.clone());
        r
    }
}


/// The opening of the struct declared for an object type named `n`.
pub open spec fn struct_head(n: Seq<char>) -> Seq<char> {
    "#[derive(Debug, Clone, PartialEq, Serialize, Deserialize)]\n"@ + "pub struct "@ + n + " {\n"@
}

/// The opening of the untagged enum declared for a union type named `n`.
pub open spec fn enum_head(n: Seq<char>) -> Seq<char> {
    "#[derive(Debug, Clone, PartialEq, Serialize, Deserialize)]\n"@ + "#[serde(untagged)]\n"@
        + "pub enum "@ + n + " {\n"@
}

/// One emitted declaration: the name it declares and its text.
#[derive(Debug)]
pub struct Decl {
    pub name: String,
    pub text: String,
}

/// Every declaration's name was handed out, and no two declarations share
/// a name.
pub open spec fn decls_named(taken: Seq<String>, decls: Seq<Decl>) -> bool {
    &&& forall|i: int| 0 <= i < decls.len() ==> name_taken(taken, #[trigger] decls[i].name@)
    &&& forall|i: int, j: int|
        0 <= i < decls.len() && 0 <= j < decls.len() && i != j ==> #[trigger] decls[i].name@
            != #[trigger] decls[j].name@
}

pub open spec fn extends<T>(longer: Seq<T>, shorter: Seq<T>) -> bool {
    &&& shorter.len() <= longer.len()
    &&& forall|i: int| 0 <= i < shorter.len() ==> #[trigger] longer[i] == shorter[i]
}

/// The text of a type at its use site, as far as the type fixes it: exact
/// for a scalar, a wrapper for an option or an array, a declared name
/// otherwise.
pub open spec fn use_text_ok(t: Ty, text: Seq<char>) -> bool
    decreases t,
{
    match t {
        Ty::Unit => text == "()"@,
        Ty::Null => text == "()"@,
        Ty::Bool => text == "bool"@,
        Ty::Int => text == "i64"@,
        Ty::Float => text == "f64"@,
        Ty::Str => text == "String"@,
        Ty::Optional(x) => wrapped("Option<"@, text) && use_text_ok(*x, inner_text("Option<"@, text)),
        Ty::Array(x) => wrapped("Vec<"@, text) && use_text_ok(*x, inner_text("Vec<"@, text)),
        _ => true,
    }
}

/// `t` holds an object or a union, so emitting it declares something.
pub open spec fn has_composite(t: Ty) -> bool
    decreases t,
{
    match t {
        Ty::Optional(x) => has_composite(*x),
        Ty::Array(x) => has_composite(*x),
        Ty::Object(_) => true,
        Ty::Union(_) => true,
        _ => false,
    }
}

/// No field type holds an object or a union.
pub open spec fn flat_fields(fs: Seq<Field>) -> bool {
    forall|i: int| 0 <= i < fs.len() ==> !has_composite(#[trigger] fs[i].ty)
}

/// No variant holds an object or a union.
pub open spec fn flat_variants(vs: Seq<Ty>) -> bool {
    forall|i: int| 0 <= i < vs.len() ==> !has_composite(#[trigger] vs[i])
}

/// `text` is `open`, some inner text and '>'.
pub open spec fn wrapped(open: Seq<char>, text: Seq<char>) -> bool {
    exists|inner: Seq<char>| text == open + inner + ">"@
}

/// The text between `open` and the final '>'.
pub open spec fn inner_text(open: Seq<char>, text: Seq<char>) -> Seq<char> {
    text.subrange(open.len() as int, text.len() - 1)
}

proof fn lemma_inner_text(open: Seq<char>, inner: Seq<char>)
    ensures
        inner_text(open, open + inner + ">"@) == inner,
        wrapped(open, open + inner + ">"@),
{
    reveal_strlit(">");
    assert(inner_text(open, open + inner + ">"@) =~= inner);
}

/// The rename attribute of a field whose identifier differs from its key.
pub open spec fn rename_line(name: Seq<char>, id: Seq<char>) -> Seq<char> {
    if id == name {
        seq![]
    } else {
        "    #[serde(rename = \""@ + escaped(name) + "\")]\n"@
    }
}

/// The declaration lines of field `f`, with identifier `id` and type text
/// `ty`; an optional field whose type is not already optional is wrapped.
pub open spec fn field_line(f: Field, id: Seq<char>, ty: Seq<char>) -> Seq<char> {
    rename_line(f.name@, id) + "    pub "@ + id + ": "@ + (if f.optional && !(f.ty is Optional) {
        "Option<"@ + ty + ">"@
    } else {
        ty
    }) + ",\n"@
}

/// The lines of the fields, in order.
pub open spec fn field_lines(fs: Seq<Field>, ids: Seq<Seq<char>>, tys: Seq<Seq<char>>) -> Seq<char>
    decreases fs.len(),
{
    if fs.len() == 0 {
        seq![]
    } else {
        field_lines(fs.drop_last(), ids.drop_last(), tys.drop_last()) + field_line(
            fs.last(),
            ids.last(),
            tys.last(),
        )
    }
}

/// Each composite type among `ts` is used by the name of a declaration in
/// `ds` between positions `lo` and `hi`.
pub open spec fn declared_between(ts: Seq<Ty>, tys: Seq<Seq<char>>, ds: Seq<Decl>, lo: int, hi: int) -> bool {
    forall|i: int|
        0 <= i < ts.len() && (ts[i] is Object || ts[i] is Union) ==> exists|d: int|
            lo <= d < hi && #[trigger] ds[d].name@ == tys[i]
}

pub open spec fn field_types(fs: Seq<Field>) -> Seq<Ty> {
    Seq::new(fs.len(), |i: int| fs[i].ty)
}

pub open spec fn label(t: Ty) -> Seq<char> {
    match t {
        Ty::Unit => "Unit"@,
        Ty::Null => "Null"@,
        Ty::Bool => "Bool"@,
        Ty::Int => "Int"@,
        Ty::Float => "Float"@,
        Ty::Str => "Str"@,
        Ty::Optional(_) => "Optional"@,
        Ty::Array(_) => "Array"@,
        Ty::Object(_) => "Object"@,
        Ty::Union(_) => "Union"@,
    }
}

/// The lines of the variants, in order: one `Label(type),` each.
pub open spec fn variant_lines(vs: Seq<Ty>, tys: Seq<Seq<char>>) -> Seq<char>
    decreases vs.len(),
{
    if vs.len() == 0 {
        seq![]
    } else {
        variant_lines(vs.drop_last(), tys.drop_last()) + "    "@ + label(vs.last()) + "("@
            + tys.last() + "),\n"@
    }
}

/// The label of a union variant of this shape.
fn variant_label(t: &Ty) -> (r: &'static str)
    ensures
        r@ == label(*t),
{
    match t {
        Ty::Unit => "Unit",
        Ty::Null => "Null",
        Ty::Bool => "Bool",
        Ty::Int => "Int",
        Ty::Float => "Float",
        Ty::Str => "Str",
        Ty::Optional(_) => "Optional",
        Ty::Array(_) => "Array",
        Ty::Object(_) => "Object",
        Ty::Union(_) => "Union",
    }
}

fn concat3(a: &str, b: &str, c: &str) -> (r: String)
    ensures
        r@ == a@ + b@ + c@,
{
    let mut r = String::from_str(a);
    r.append(b);
    r.append(c);
    r
}

/// Emits the declarations that `t` needs (its own last where it is an
/// object or a union, named after `name`) and returns the text of the type
/// at its use site.
pub fn emit_ty(t: &Ty, name: &String, namer: &mut Namer, decls: &mut Vec<Decl>) -> (text: String)
    requires
        decls_named(old(namer).taken@, old(decls)@),
    ensures
        decls_named(final(namer).taken@, final(decls)@),
        extends(final(namer).taken@, old(namer).taken@),
        extends(final(decls)@, old(decls)@),
        forall|i: int|
            old(decls)@.len() <= i < final(decls)@.len() ==> !name_taken(
                old(namer).taken@,
                #[trigger] final(decls)@[i].name@,
            ),
        (t is Object || t is Union) ==> final(decls)@.len() > old(decls)@.len()
            && name_taken(final(namer).taken@, final(decls)@.last().name@)
            && (!name_taken(old(namer).taken@, name@) ==> final(decls)@.last().name@ == name@)
            && text@ == final(decls)@.last().name@ && name@.is_prefix_of(text@),
        use_text_ok(*t, text@),
        t matches Ty::Object(fs) ==> exists|ids: Seq<Seq<char>>, tys: Seq<Seq<char>>|
            ids.len() == fs.len() && tys.len() == fs.len() && (forall|i: int|
                0 <= i < fs.len() ==> use_text_ok(fs@[i].ty, #[trigger] tys[i]))
                && final(decls)@.last().text@ == struct_head(final(decls)@.last().name@)
                + #[trigger] field_lines(fs@, ids, tys) + "}\n"@ && (forall|i: int|
                0 <= i < fs.len() ==> ident_of(fs@[i].name@).is_prefix_of(#[trigger] ids[i])) && (forall|i: int|
                0 <= i < fs.len() && (fs@[i].ty is Object || fs@[i].ty is Union) ==> (
                final(decls)@.last().name@ + pascal(fs@[i].name@)).is_prefix_of(#[trigger] tys[i]))
                && declared_between(
                field_types(fs@),
                tys,
                final(decls)@,
                old(decls)@.len() as int,
                final(decls)@.len() - 1,
            ),
        t matches Ty::Union(vs) ==> exists|tys: Seq<Seq<char>>|
            tys.len() == vs.len() && (forall|i: int|
                0 <= i < vs.len() ==> use_text_ok(vs@[i], #[trigger] tys[i]))
                && final(decls)@.last().text@ == enum_head(final(decls)@.last().name@)
                + #[trigger] variant_lines(vs@, tys) + "}\n"@ && (forall|i: int|
                0 <= i < vs.len() && (vs@[i] is Object || vs@[i] is Union) ==> (final(decls)@.last().name@
                + label(vs@[i])).is_prefix_of(#[trigger] tys[i])) && declared_between(
                vs@,
                tys,
                final(decls)@,
                old(decls)@.len() as int,
                final(decls)@.len() - 1,
            ),
        (t is Unit || t is Null) ==> text@ == "()"@,
        t is Bool ==> text@ == "bool"@,
        t is Int ==> text@ == "i64"@,
        t is Float ==> text@ == "f64"@,
        t is Str ==> text@ == "String"@,
        t is Optional ==> exists|inner: Seq<char>| text@ == "Option<"@ + inner + ">"@,
        t is Array ==> exists|inner: Seq<char>| text@ == "Vec<"@ + inner + ">"@,
        !has_composite(*t) ==> final(decls)@ == old(decls)@,
        t matches Ty::Object(fs) && flat_fields(fs@) ==> final(decls)@.len() == old(decls)@.len() + 1,
        t matches Ty::Union(vs) && flat_variants(vs@) ==> final(decls)@.len() == old(decls)@.len() + 1,
    decreases t,
{
    match t {
        Ty::Unit => String::from_str("()"),
        Ty::Null => String::from_str("()"),
        Ty::Bool => String::from_str("bool"),
        Ty::Int => String::from_str("i64"),
        Ty::Float => String::from_str("f64"),
        Ty::Str => String::from_str("String"),
        Ty::Optional(x) => {
            let inner = emit_ty(x, name, namer, decls);
            let r = concat3("Option<", inner.as_str(), ">");
            proof {
                lemma_inner_text("Option<"@, inner@);
            }
            r
        },
        Ty::Array(x) => {
            let inner = emit_ty(x, name, namer, decls);
            let r = concat3("Vec<", inner.as_str(), ">");
            proof {
                lemma_inner_text("Vec<"@, inner@);
            }
            r
        },
        Ty::Object(fs) => {
            let ghost taken0 = namer.taken@;
            let ghost decls0 = decls@;
            let n = namer.fresh(name);
            let ghost taken1 = namer.taken@;
            proof {
                assert(name_taken(taken1, n@));
                assert forall|i: int| 0 <= i < decls0.len() implies name_taken(taken1, #[trigger] decls0[i].name@) by {
                    let k = choose|k: int| 0 <= k < taken0.len() && taken0[k]@ == decls0[i].name@;
                    assert(taken1[k]@ == decls0[i].name@);
                }
            }
            let mut body = String::new();
            let ghost mut ids: Seq<Seq<char>> = seq![];
            let ghost mut tys: Seq<Seq<char>> = seq![];
            let mut idents = Namer::new();
            let mut i: usize = 0;
            while i < fs.len()
                invariant
                    decls_named(namer.taken@, decls@),
                    extends(namer.taken@, taken1),
                    extends(decls@, decls0),
                    extends(taken1, taken0),
                    name_taken(taken1, n@),
                    !name_taken(taken0, n@),
                    forall|k: int| 0 <= k < decls0.len() ==> name_taken(taken0, #[trigger] decls0[k].name@),
                    forall|k: int| decls0.len() <= k < decls@.len() ==> !name_taken(taken1, #[trigger] decls@[k].name@),
                    forall|k: int| 0 <= k < fs.len() ==> decreases_to!(*t => fs@[k].ty),
                    ids.len() == i,
                    tys.len() == i,
                    i <= fs.len(),
                    forall|k: int| 0 <= k < i ==> use_text_ok(fs@[k].ty, #[trigger] tys[k]),
                    body@ == field_lines(fs@.subrange(0, i as int), ids, tys),
                    flat_fields(fs@) ==> decls@.len() == decls0.len(),
                    forall|k: int| 0 <= k < i ==> ident_of(fs@[k].name@).is_prefix_of(#[trigger] ids[k]),
                    forall|k: int|
                        0 <= k < i && (fs@[k].ty is Object || fs@[k].ty is Union) ==> (n@ + pascal(
                            fs@[k].name@,
                        )).is_prefix_of(#[trigger] tys[k]),
                    declared_between(field_types(fs@).subrange(0, i as int), tys, decls@, decls0.len() as int, decls@.len() as int),
                decreases fs.len() - i,
            {
                let f: &Field = &fs[i];
                let mut child = n.clone();
                child.append(pascal_case(f.name.as_str()).as_str());
                let ghost taken2 = namer.taken@;
                let ghost decls2 = decls@;
                let mut ty_text = emit_ty(&f.ty, &child, namer, decls);
                proof {
                    assert forall|k: int| decls0.len() <= k < decls@.len() implies !name_taken(taken1, #[trigger] decls@[k].name@) by {
                        if k >= decls2.len() {
                            if name_taken(taken1, decls@[k].name@) {
                                let w = choose|w: int| 0 <= w < taken1.len() && taken1[w]@ == decls@[k].name@;
                                assert(taken2[w]@ == decls@[k].name@);
                            }
                        } else {
                            assert(decls@[k] == decls2[k]);
                        }
                    }
                }
                let ghost body0 = body@;
                let ghost tt = ty_text@;
                let id = idents.fresh(&field_ident(f.name.as_str()));
                if id != f.name {
                    body.append("    #[serde(rename = \"");
                    body.append(escape_str(f.name.as_str()).as_str());
                    body.append("\")]\n");
                }
                if f.optional && !matches!(f.ty, Ty::Optional(_)) {
                    ty_text = concat3("Option<", ty_text.as_str(), ">");
                }
                body.append("    pub ");
                body.append(id.as_str());
                body.append(": ");
                body.append(ty_text.as_str());
                body.append(",\n");
                proof {
                    let fsi = fs@.subrange(0, i + 1);
                    assert(fsi.drop_last() =~= fs@.subrange(0, i as int));
                    assert(fsi.last() == *f);
                    let ids2 = ids.push(id@);
                    let tys2 = tys.push(tt);
                    assert(ids2.drop_last() =~= ids);
                    assert(tys2.drop_last() =~= tys);
                    assert(body@ =~= body0 + field_line(*f, id@, tt));
                    let ft = field_types(fs@).subrange(0, i + 1);
                    assert forall|k: int|
                        0 <= k < ft.len() && (ft[k] is Object || ft[k] is Union) implies exists|d: int|
                        decls0.len() <= d < decls@.len() && #[trigger] decls@[d].name@ == tys2[k] by {
                        if k < i {
                            assert(field_types(fs@).subrange(0, i as int)[k] == ft[k]);
                            let d = choose|d: int| decls0.len() <= d < decls2.len() && #[trigger] decls2[d].name@ == tys[k];
                            assert(decls@[d] == decls2[d]);
                        } else {
                            assert(ft[k] == f.ty);
                            assert(decls@[decls@.len() - 1].name@ == tt);
                        }
                    }
                    ids = ids2;
                    tys = tys2;
                }
                i = i + 1;
            }
            let mut text = String::from_str("#[derive(Debug, Clone, PartialEq, Serialize, Deserialize)]\n");
            text.append("pub struct ");
            text.append(n.as_str());
            text.append(" {\n");
            text.append(body.as_str());
            text.append("}\n");
            proof {
                assert(text@ == struct_head(n@) + body@ + "}\n"@);
                assert(fs@.subrange(0, fs.len() as int) =~= fs@);
                assert(field_types(fs@).subrange(0, fs.len() as int) =~= field_types(fs@));
            }
            let ghost decls3 = decls@;
            decls.push(Decl { name: n.clone(), text });
            proof {
                assert(decls@.last().name@ == n@);
                let ft = field_types(fs@);
                assert forall|k: int|
                    0 <= k < ft.len() && (ft[k] is Object || ft[k] is Union) implies exists|d: int|
                    decls0.len() <= d < decls@.len() - 1 && #[trigger] decls@[d].name@ == tys[k] by {
                    let d = choose|d: int| decls0.len() <= d < decls3.len() && #[trigger] decls3[d].name@ == tys[k];
                    assert(decls@[d] == decls3[d]);
                }
                assert forall|p: int, q: int|
                    0 <= p < decls@.len() && 0 <= q < decls@.len() && p != q implies #[trigger] decls@[p].name@
                    != #[trigger] decls@[q].name@ by {
                    if p == decls3.len() && q < decls0.len() {
                        assert(name_taken(taken0, decls@[q].name@));
                    }
                    if q == decls3.len() && p < decls0.len() {
                        assert(name_taken(taken0, decls@[p].name@));
                    }
                    if p == decls3.len() && decls0.len() <= q < decls3.len() {
                        assert(!name_taken(taken1, decls@[q].name@));
                    }
                    if q == decls3.len() && decls0.len() <= p < decls3.len() {
                        assert(!name_taken(taken1, decls@[p].name@));
                    }
                }
                assert forall|k: int| 0 <= k < decls@.len() implies name_taken(namer.taken@, #[trigger] decls@[k].name@) by {
                    if k == decls3.len() {
                        let w = choose|w: int| 0 <= w < taken1.len() && taken1[w]@ == n@;
                        assert(namer.taken@[w]@ == n@);
                    } else {
                        assert(decls@[k] == decls3[k]);
                    }
                }
                assert forall|k: int| decls0.len() <= k < decls@.len() implies !name_taken(taken0, #[trigger] decls@[k].name@) by {
                    if k < decls3.len() {
                        if name_taken(taken0, decls@[k].name@) {
                            let w = choose|w: int| 0 <= w < taken0.len() && taken0[w]@ == decls@[k].name@;
                            assert(taken1[w]@ == decls@[k].name@);
                        }
                    }
                }
            }
            proof {
                assert(decls@.last().name@ == n@);
            }
            n
        },
        Ty::Union(vs) => {
            let ghost taken0 = namer.taken@;
            let ghost decls0 = decls@;
            let n = namer.fresh(name);
            let ghost taken1 = namer.taken@;
            proof {
                assert(name_taken(taken1, n@));
                assert forall|i: int| 0 <= i < decls0.len() implies name_taken(taken1, #[trigger] decls0[i].name@) by {
                    let k = choose|k: int| 0 <= k < taken0.len() && taken0[k]@ == decls0[i].name@;
                    assert(taken1[k]@ == decls0[i].name@);
                }
            }
            let mut body = String::new();
            let ghost mut tys: Seq<Seq<char>> = seq![];
            let mut i: usize = 0;
            while i < vs.len()
                invariant
                    decls_named(namer.taken@, decls@),
                    extends(namer.taken@, taken1),
                    extends(decls@, decls0),
                    extends(taken1, taken0),
                    name_taken(taken1, n@),
                    !name_taken(taken0, n@),
                    forall|k: int| 0 <= k < decls0.len() ==> name_taken(taken0, #[trigger] decls0[k].name@),
                    forall|k: int| decls0.len() <= k < decls@.len() ==> !name_taken(taken1, #[trigger] decls@[k].name@),
                    forall|k: int| 0 <= k < vs.len() ==> decreases_to!(*t => vs@[k]),
                    tys.len() == i,
                    i <= vs.len(),
                    forall|k: int| 0 <= k < i ==> use_text_ok(vs@[k], #[trigger] tys[k]),
                    body@ == variant_lines(vs@.subrange(0, i as int), tys),
                    flat_variants(vs@) ==> decls@.len() == decls0.len(),
                    forall|k: int|
                        0 <= k < i && (vs@[k] is Object || vs@[k] is Union) ==> (n@ + label(vs@[k])).is_prefix_of(
                            #[trigger] tys[k],
                        ),
                    declared_between(vs@.subrange(0, i as int), tys, decls@, decls0.len() as int, decls@.len() as int),
                decreases vs.len() - i,
            {
                let v: &Ty = &vs[i];
                let mut child = n.clone();
                child.append(variant_label(v));
                let ghost taken2 = namer.taken@;
                let ghost decls2 = decls@;
                let ty_text = emit_ty(v, &child, namer, decls);
                proof {
                    assert forall|k: int| decls0.len() <= k < decls@.len() implies !name_taken(taken1, #[trigger] decls@[k].name@) by {
                        if k >= decls2.len() {
                            if name_taken(taken1, decls@[k].name@) {
                                let w = choose|w: int| 0 <= w < taken1.len() && taken1[w]@ == decls@[k].name@;
                                assert(taken2[w]@ == decls@[k].name@);
                            }
                        } else {
                            assert(decls@[k] == decls2[k]);
                        }
                    }
                }
                let ghost body0 = body@;
                body.append("    ");
                body.append(variant_label(v));
                body.append("(");
                body.append(ty_text.as_str());
                body.append("),\n");
                proof {
                    let vsi = vs@.subrange(0, i + 1);
                    assert(vsi.drop_last() =~= vs@.subrange(0, i as int));
                    assert(vsi.last() == *v);
                    let tys2 = tys.push(ty_text@);
                    assert(tys2.drop_last() =~= tys);
                    assert(body@ =~= body0 + "    "@ + label(*v) + "("@ + ty_text@ + "),\n"@);
                    let vt = vs@.subrange(0, i + 1);
                    assert forall|k: int|
                        0 <= k < vt.len() && (vt[k] is Object || vt[k] is Union) implies exists|d: int|
                        decls0.len() <= d < decls@.len() && #[trigger] decls@[d].name@ == tys2[k] by {
                        if k < i {
                            assert(vs@.subrange(0, i as int)[k] == vt[k]);
                            let d = choose|d: int| decls0.len() <= d < decls2.len() && #[trigger] decls2[d].name@ == tys[k];
                            assert(decls@[d] == decls2[d]);
                        } else {
                            assert(vt[k] == *v);
                            assert(decls@[decls@.len() - 1].name@ == ty_text@);
                        }
                    }
                    tys = tys2;
                }
                i = i + 1;
            }
            let mut text = String::from_str("#[derive(Debug, Clone, PartialEq, Serialize, Deserialize)]\n");
            text.append("#[serde(untagged)]\n");
            text.append("pub enum ");
            text.append(n.as_str());
            text.append(" {\n");
            text.append(body.as_str());
            text.append("}\n");
            proof {
                assert(text@ == enum_head(n@) + body@ + "}\n"@);
                assert(vs@.subrange(0, vs.len() as int) =~= vs@);
            }
            let ghost decls3 = decls@;
            decls.push(Decl { name: n.clone(), text });
            proof {
                assert(decls@.last().name@ == n@);
                assert forall|k: int|
                    0 <= k < vs.len() && (vs@[k] is Object || vs@[k] is Union) implies exists|d: int|
                    decls0.len() <= d < decls@.len() - 1 && #[trigger] decls@[d].name@ == tys[k] by {
                    let d = choose|d: int| decls0.len() <= d < decls3.len() && #[trigger] decls3[d].name@ == tys[k];
                    assert(decls@[d] == decls3[d]);
                }
                assert forall|p: int, q: int|
                    0 <= p < decls@.len() && 0 <= q < decls@.len() && p != q implies #[trigger] decls@[p].name@
                    != #[trigger] decls@[q].name@ by {
                    if p == decls3.len() && q < decls0.len() {
                        assert(name_taken(taken0, decls@[q].name@));
                    }
                    if q == decls3.len() && p < decls0.len() {
                        assert(name_taken(taken0, decls@[p].name@));
                    }
                    if p == decls3.len() && decls0.len() <= q < decls3.len() {
                        assert(!name_taken(taken1, decls@[q].name@));
                    }
                    if q == decls3.len() && decls0.len() <= p < decls3.len() {
                        assert(!name_taken(taken1, decls@[p].name@));
                    }
                }
                assert forall|k: int| 0 <= k < decls@.len() implies name_taken(namer.taken@, #[trigger] decls@[k].name@) by {
                    if k == decls3.len() {
                        let w = choose|w: int| 0 <= w < taken1.len() && taken1[w]@ == n@;
                        assert(namer.taken@[w]@ == n@);
                    } else {
                        assert(decls@[k] == decls3[k]);
                    }
                }
                assert forall|k: int| decls0.len() <= k < decls@.len() implies !name_taken(taken0, #[trigger] decls@[k].name@) by {
                    if k < decls3.len() {
                        if name_taken(taken0, decls@[k].name@) {
                            let w = choose|w: int| 0 <= w < taken0.len() && taken0[w]@ == decls@[k].name@;
                            assert(taken1[w]@ == decls@[k].name@);
                        }
                    }
                }
            }
            n
        },
    }
}

} // verus!
