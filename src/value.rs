//! The value model: a parsed JSON document as the inference reads it.
use vstd::prelude::*;

verus! {

broadcast use vstd::std_specs::vec::group_vec_axioms;

/// A JSON document. Numbers are kept by kind only: an integer within the
/// range of `i64`, a larger integer, or another number; that is all the
/// inference reads of them.
#[derive(Debug)]
pub enum JsonValue {
    Null,
    Bool(bool),
    Int,
    /// An integer outside the range of `i64`.
    BigInt,
    Float,
    Str(String),
    Array(Vec<JsonValue>),
    /// Members in document order.
    Object(Vec<Member>),
}

/// One member of a JSON object.
#[derive(Debug)]
pub struct Member {
    pub key: String,
    pub value: JsonValue,
}

pub open spec fn keys_distinct(ms: Seq<Member>) -> bool {
    forall|i: int, j: int|
        0 <= i < ms.len() && 0 <= j < ms.len() && i != j ==> #[trigger] ms[i].key@
            != #[trigger] ms[j].key@
}

/// Keys are unique in every object of the document.
pub open spec fn value_wf(v: JsonValue) -> bool
    decreases v,
{
    match v {
        JsonValue::Array(items) => forall|i: int|
            0 <= i < items.len() ==> value_wf(#[trigger] items@[i]),
        JsonValue::Object(ms) => keys_distinct(ms@) && forall|i: int|
            0 <= i < ms.len() ==> value_wf(#[trigger] ms@[i].value),
        _ => true,
    }
}

} // verus!
