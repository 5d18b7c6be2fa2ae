//! Newline-delimited input: the documents of a body, one per line.
use vstd::prelude::*;
use vstd::string::{StrSliceExecFns, StringExecFns};
use crate::text::push_char;

verus! {

broadcast use vstd::std_specs::vec::group_vec_axioms;

/// The lines of `s`, split at each '\n' (the last one may be empty).
pub open spec fn split_nl(s: Seq<char>) -> Seq<Seq<char>>
    decreases s.len(),
{
    if s.len() == 0 {
        seq![seq![]]
    } else {
        let p = split_nl(s.drop_last());
        if s.last() == '\n' {
            p.push(seq![])
        } else {
            p.update(p.len() - 1, p.last().push(s.last()))
        }
    }
}

/// JSON whitespace.
pub open spec fn is_space(c: char) -> bool {
    c == ' ' || c == '\t' || c == '\r' || c == '\n'
}

/// A text of JSON whitespace only.
pub open spec fn blank(l: Seq<char>) -> bool {
    forall|j: int| 0 <= j < l.len() ==> is_space(#[trigger] l[j])
}

pub open spec fn not_blank() -> spec_fn(Seq<char>) -> bool {
    |l: Seq<char>| !blank(l)
}

/// The documents of a newline-delimited body: its lines that are not blank.
pub open spec fn document_lines(s: Seq<char>) -> Seq<Seq<char>> {
    split_nl(s).filter(not_blank())
}

pub proof fn lemma_split_nl_len(s: Seq<char>)
    ensures
        split_nl(s).len() >= 1,
    decreases s.len(),
{
    if s.len() > 0 {
        lemma_split_nl_len(s.drop_last());
    }
}

/// Splits a newline-delimited body into its documents, in order.
pub fn split_lines(body: &str) -> (r: Vec<String>)
    ensures
        r@.map_values(|x: String| x@) == document_lines(body@),
{
    reveal(Seq::filter);
    let n = body.unicode_len();
    let mut out: Vec<String> = Vec::new();
    let mut cur = String::new();
    let mut cur_blank = true;
    let mut i: usize = 0;
    proof {
        assert(body@.subrange(0, 0) =~= Seq::<char>::empty());
    }
    while i < n
        invariant
            n == body@.len(),
            i <= n,
            split_nl(body@.subrange(0, i as int)).len() >= 1,
            out@.map_values(|x: String| x@) == split_nl(body@.subrange(0, i as int)).drop_last().filter(not_blank()),
            cur@ == split_nl(body@.subrange(0, i as int)).last(),
            cur_blank == blank(cur@),
        decreases n - i,
    {
        let ghost pre = body@.subrange(0, i as int);
        let ghost p = split_nl(pre);
        let c = body.get_char(i);
        proof {
            assert(body@.subrange(0, i + 1).drop_last() =~= pre);
            assert(body@.subrange(0, i + 1).last() == c);
            lemma_split_nl_len(body@.subrange(0, i + 1));
        }
        if c == '\n' {
            let ghost out0 = out@;
            if !cur_blank {
                out.push(cur);
            }
            cur = String::new();
            cur_blank = true;
            proof {
                assert(split_nl(body@.subrange(0, i + 1)).drop_last() =~= p);
                reveal(Seq::filter);
                assert(p.filter(not_blank()) == (if not_blank()(p.last()) {
                    p.drop_last().filter(not_blank()).push(p.last())
                } else {
                    p.drop_last().filter(not_blank())
                }));
                assert(out@.map_values(|x: String| x@) =~= p.filter(not_blank()));
            }
        } else {
            push_char(&mut cur, c);
            if !(c == ' ' || c == '\t' || c == '\r') {
                cur_blank = false;
            }
            proof {
                assert(split_nl(body@.subrange(0, i + 1)).drop_last() =~= p.drop_last());
                assert(cur_blank == blank(cur@)) by {
                    if !cur_blank {
                        if !is_space(c) {
                            assert(!is_space(cur@[cur@.len() - 1]));
                        } else {
                            let j = choose|j: int| 0 <= j < p.last().len() && !is_space(p.last()[j]);
                            assert(cur@[j] == p.last()[j]);
                        }
                    }
                }
            }
        }
        i = i + 1;
    }
    let ghost p = split_nl(body@.subrange(0, n as int));
    if !cur_blank {
        out.push(cur);
    }
    proof {
        assert(body@.subrange(0, n as int) =~= body@);
        assert(p.filter(not_blank()) == (if not_blank()(p.last()) {
            p.drop_last().filter(not_blank()).push(p.last())
        } else {
            p.drop_last().filter(not_blank())
        }));
        assert(out@.map_values(|x: String| x@) =~= p.filter(not_blank()));
    }
    out
}


fn is_blank(s: &str) -> (r: bool)
    ensures
        r == blank(s@),
{
    let n = s.unicode_len();
    let mut i: usize = 0;
    while i < n
        invariant
            n == s@.len(),
            i <= n,
            forall|j: int| 0 <= j < i ==> is_space(#[trigger] s@[j]),
        decreases n - i,
    {
        let c = s.get_char(i);
        if !(c == ' ' || c == '\t' || c == '\r' || c == '\n') {
            return false;
        }
        i = i + 1;
    }
    true
}

/// The units of a request body that are parsed one by one: its documents
/// in newline-delimited mode; otherwise the whole body, or none where the
/// body is blank.
pub fn document_units(body: &str, ndjson: bool) -> (r: Vec<String>)
    ensures
        ndjson ==> r@.map_values(|x: String| x@) == document_lines(body@),
        !ndjson && blank(body@) ==> r.len() == 0,
        !ndjson && !blank(body@) ==> r.len() == 1 && r@[0]@ == body@,
{
    if ndjson {
        split_lines(body)
    } else if is_blank(body) {
        Vec::new()
    } else {
        let mut r: Vec<String> = Vec::new();
        r.push(String::from_str(body));
        r
    }
}

} // verus!
