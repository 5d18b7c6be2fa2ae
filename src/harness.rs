//! The test module appended to the declarations: one round-trip case per
//! sample, each sample embedded as a raw string literal.
use vstd::prelude::*;
use vstd::string::{StrSliceExecFns, StringExecFns};
use crate::text::{push_char, decimal, decimal_digits, escape_str, escaped};

verus! {

broadcast use vstd::std_specs::vec::group_vec_axioms;

/// At position `i`, `s` holds a quote followed by `n` hashes: the text that
/// would close a raw literal opened with `n` hashes.
pub open spec fn closes_at(s: Seq<char>, i: int, n: nat) -> bool {
    &&& 0 <= i
    &&& i + n < s.len()
    &&& s[i] == '"'
    &&& forall|j: int| i < j <= i + n ==> #[trigger] s[j] == '#'
}

pub open spec fn closes(s: Seq<char>, n: nat) -> bool {
    exists|i: int| closes_at(s, i, n)
}

/// The number of hashes for a raw literal holding `s`: the least count
/// whose closing delimiter does not occur in `s`.
pub fn raw_hashes(s: &str) -> (n: usize)
    ensures
        !closes(s@, n as nat),
        forall|m: nat| m < n ==> closes(s@, m),
{
    let len = s.unicode_len();
    let mut best: usize = 0;
    let mut found = false;
    let mut i: usize = 0;
    while i < len
        invariant
            len == s@.len(),
            i <= len,
            best <= len,
            found ==> best < len,
            found ==> forall|m: nat| m <= best ==> closes(s@, m),
            !found ==> best == 0,
            forall|p: int, m: nat| 0 <= p < i && closes_at(s@, p, m) ==> found && m <= best,
        decreases len - i,
    {
        if s.get_char(i) == '"' {
            let mut r: usize = 0;
            while i + 1 + r < len && s.get_char(i + 1 + r) == '#'
                invariant
                    len == s@.len(),
                    i < len,
                    s@[i as int] == '"',
                    i + 1 + r <= len,
                    forall|j: int| i < j <= i + r ==> #[trigger] s@[j] == '#',
                decreases len - (i + 1 + r),
            {
                r = r + 1;
            }
            proof {
                assert forall|m: nat| closes_at(s@, i as int, m) implies m <= r by {
                    if m > r {
                        assert(s@[i + 1 + r] == '#');
                    }
                }
                assert forall|m: nat| m <= r implies closes(s@, m) by {
                    assert(closes_at(s@, i as int, m));
                }
            }
            if !found || r > best {
                best = r;
            }
            found = true;
        }
        i = i + 1;
    }
    if found {
        best + 1
    } else {
        proof {
            assert forall|m: nat| !closes(s@, m) by {
                if closes(s@, m) {
                    let p = choose|p: int| closes_at(s@, p, m);
                }
            }
        }
        0
    }
}

fn push_hashes(out: &mut String, n: usize)
    ensures
        final(out)@ == old(out)@ + Seq::new(n as nat, |j: int| '#'),
{
    let mut k: usize = 0;
    while k < n
        invariant
            k <= n,
            out@ == old(out)@ + Seq::new(k as nat, |j: int| '#'),
        decreases n - k,
    {
        push_char(out, '#');
        proof {
            assert(out@ =~= old(out)@ + Seq::new((k + 1) as nat, |j: int| '#'));
        }
        k = k + 1;
    }
}

/// The least number of hashes whose closing delimiter does not occur in `s`.
pub open spec fn hashes_for(s: Seq<char>) -> nat {
    choose|n: nat| !closes(s, n) && forall|m: nat| m < n ==> closes(s, m)
}

/// `s` as a raw string literal delimited with `hashes_for(s)` hashes.
pub open spec fn raw_literal(s: Seq<char>) -> Seq<char> {
    let h = Seq::new(hashes_for(s), |j: int| '#');
    seq!['r'] + h + seq!['"'] + s + seq!['"'] + h
}

/// The most hashes a raw string literal may have.
pub const MAX_HASHES: usize = 255;

/// `s` as a string literal: raw where at most `MAX_HASHES` hashes suffice,
/// otherwise quoted with its special characters escaped.
pub open spec fn sample_literal(s: Seq<char>) -> Seq<char> {
    if hashes_for(s) <= MAX_HASHES {
        raw_literal(s)
    } else {
        seq!['"'] + escaped(s) + seq!['"']
    }
}

proof fn lemma_hashes_for(s: Seq<char>, n: nat)
    requires
        !closes(s, n),
        forall|m: nat| m < n ==> closes(s, m),
    ensures
        hashes_for(s) == n,
{
    let h = hashes_for(s);
    assert(!closes(s, h) && forall|m: nat| m < h ==> closes(s, m));
    if h < n {
        assert(closes(s, h));
    }
    if n < h {
        assert(closes(s, n));
    }
}

/// Appends `s` as a string literal: raw, with a delimiter that does not
/// occur in it, where that takes at most `MAX_HASHES` hashes; escaped
/// otherwise.
fn push_sample_literal(out: &mut String, s: &str)
    ensures
        final(out)@ == old(out)@ + sample_literal(s@),
        hashes_for(s@) <= MAX_HASHES ==> !closes(s@, hashes_for(s@)),
{
    let n = raw_hashes(s);
    proof {
        lemma_hashes_for(s@, n as nat);
    }
    if n > MAX_HASHES {
        push_char(out, '"');
        out.append(escape_str(s).as_str());
        push_char(out, '"');
        proof {
            assert(final(out)@ =~= old(out)@ + sample_literal(s@));
        }
        return;
    }
    push_char(out, 'r');
    push_hashes(out, n);
    push_char(out, '"');
    out.append(s);
    push_char(out, '"');
    push_hashes(out, n);
    proof {
        assert(final(out)@ =~= old(out)@ + sample_literal(s@));
    }
}

/// The start of the test module: the import of the root type and the
/// generic round-trip runner.
pub open spec fn module_head(root: Seq<char>) -> Seq<char> {
    "\n#[cfg(test)]\nmod tests {\n    use super::"@ + root + ";\n\n    fn test_runner<T: serde::de::DeserializeOwned + serde::Serialize>(input: &str) {\n"@
        + "        let value: T = serde_json::from_str(input).expect(\"sample decodes\");\n"@
        + "        serde_json::to_string(&value).expect(\"value encodes\");\n    }\n"@
}

/// The name suffix of case `i`: "_i" with several samples, none with one.
pub open spec fn case_suffix(i: nat, multi: bool) -> Seq<char> {
    if multi {
        "_"@ + decimal_digits(i)
    } else {
        seq![]
    }
}

/// The test case `i`: a test named `testcase` plus its suffix that runs
/// the round-trip runner for the root type on the sample `s`.
#[verifier::opaque]
pub open spec fn case_text(root: Seq<char>, i: nat, s: Seq<char>, multi: bool) -> Seq<char> {
    "\n    #[test]\n    fn testcase"@ + case_suffix(i, multi) + "() {\n        const INPUT: &str = "@
        + sample_literal(s) + ";\n        test_runner::<"@ + root + ">(INPUT);\n    }\n"@
}

/// The cases for the samples, in order.
pub open spec fn cases(root: Seq<char>, samples: Seq<Seq<char>>, multi: bool) -> Seq<char>
    decreases samples.len(),
{
    if samples.len() == 0 {
        seq![]
    } else {
        cases(root, samples.drop_last(), multi) + case_text(
            root,
            (samples.len() - 1) as nat,
            samples.last(),
            multi,
        )
    }
}

/// Appends the test case `i` for the sample `s`.
fn push_case(out: &mut String, root_name: &String, i: usize, s: &String, multi: bool)
    ensures
        final(out)@ == old(out)@ + case_text(root_name@, i as nat, s@, multi),
{
    out.append("\n    #[test]\n    fn testcase");
    if multi {
        out.append("_");
        out.append(decimal(i).as_str());
    }
    out.append("() {\n        const INPUT: &str = ");
    push_sample_literal(out, s.as_str());
    out.append(";\n        test_runner::<");
    out.append(root_name.as_str());
    out.append(">(INPUT);\n    }\n");
    proof {
        reveal(case_text);
        assert(final(out)@ =~= old(out)@ + case_text(root_name@, i as nat, s@, multi));
    }
}

pub open spec fn texts(v: Seq<String>) -> Seq<Seq<char>> {
    v.map_values(|x: String| x@)
}

/// Appends the test module to `decl_text`: one case per sample, the single
/// case named `testcase` where `multi` is false, and `testcase_0`,
/// `testcase_1`, ... in sample order where it is true; each runs the
/// round-trip runner for `root_name` on its sample.
pub fn with_tests(decl_text: &String, root_name: &String, samples: &Vec<String>, multi: bool) -> (r: String)
    ensures
        r@ == decl_text@ + module_head(root_name@) + cases(root_name@, texts(samples@), multi) + "}\n"@,
{
    let mut out = decl_text.clone();
    out.append("\n#[cfg(test)]\nmod tests {\n    use super::");
    out.append(root_name.as_str());
    out.append(";\n\n    fn test_runner<T: serde::de::DeserializeOwned + serde::Serialize>(input: &str) {\n");
    out.append("        let value: T = serde_json::from_str(input).expect(\"sample decodes\");\n");
    out.append("        serde_json::to_string(&value).expect(\"value encodes\");\n    }\n");
    let ghost head = decl_text@ + module_head(root_name@);
    let ghost all = texts(samples@);
    proof {
        assert(out@ =~= head);
        assert(all.subrange(0, 0) =~= Seq::<Seq<char>>::empty());
    }
    let mut i: usize = 0;
    while i < samples.len()
        invariant
            i <= samples.len(),
            all.len() == samples.len(),
            forall|k: int| 0 <= k < samples.len() ==> #[trigger] all[k] == samples@[k]@,
            out@ == head + cases(root_name@, all.subrange(0, i as int), multi),
        decreases samples.len() - i,
    {
        let ghost before = out@;
        push_case(&mut out, root_name, i, &samples[i], multi);
        proof {
            let ts = all.subrange(0, i + 1);
            assert(ts.drop_last() =~= all.subrange(0, i as int));
            assert(ts.last() == samples@[i as int]@);
            assert(cases(root_name@, ts, multi) == cases(root_name@, ts.drop_last(), multi) + case_text(
                root_name@,
                i as nat,
                samples@[i as int]@,
                multi,
            ));
            assert(out@ =~= head + cases(root_name@, ts, multi));
        }
        i = i + 1;
    }
    out.append("}\n");
    proof {
        assert(all.subrange(0, samples.len() as int) =~= all);
        assert(head == decl_text@ + module_head(root_name@));
    }
    out
}

} // verus!
