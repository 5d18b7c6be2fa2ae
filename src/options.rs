//! The options of an inference request.
use vstd::prelude::*;
use vstd::string::{StrSliceExecFns, StringExecFns};

verus! {

/// What a request asks for.
#[derive(Debug)]
pub struct Options {
    /// The name of the root type.
    pub root: String,
    /// Append the round-trip test module.
    pub tests: bool,
    /// The body holds one document per line.
    pub ndjson: bool,
}

/// A flag option is on when its value is "true" or empty.
pub open spec fn flag_value(v: Seq<char>) -> bool {
    v == "true"@ || v.len() == 0
}

fn str_eq(a: &str, b: &str) -> (r: bool)
    ensures
        r == (a@ == b@),
{
    let n = a.unicode_len();
    if n != b.unicode_len() {
        return false;
    }
    let mut i: usize = 0;
    while i < n
        invariant
            n == a@.len(),
            n == b@.len(),
            i <= n,
            forall|k: int| 0 <= k < i ==> a@[k] == b@[k],
        decreases n - i,
    {
        if a.get_char(i) != b.get_char(i) {
            return false;
        }
        i = i + 1;
    }
    proof {
        assert(a@ =~= b@);
    }
    true
}

impl Options {
    /// Root named "Root", no tests, one document.
    pub fn new() -> (r: Options)
        ensures
            r.root@ == "Root"@,
            !r.tests,
            !r.ndjson,
    {
        Options { root: String::from_str("Root"), tests: false, ndjson: false }
    }

    /// Applies one query pair: "root" names the root type, "tests" and
    /// "ndjson" set their flag; other keys are ignored.
    pub fn apply(&mut self, key: &str, value: &str)
        ensures
            key@ == "root"@ ==> final(self).root@ == value@,
            key@ != "root"@ ==> final(self).root@ == old(self).root@,
            key@ == "tests"@ ==> final(self).tests == flag_value(value@),
            key@ != "tests"@ ==> final(self).tests == old(self).tests,
            key@ == "ndjson"@ ==> final(self).ndjson == flag_value(value@),
            key@ != "ndjson"@ ==> final(self).ndjson == old(self).ndjson,
    {
        proof {
            reveal_strlit("root");
            reveal_strlit("tests");
            reveal_strlit("ndjson");
            reveal_strlit("true");
            assert("root"@.len() == 4 && "tests"@.len() == 5 && "ndjson"@.len() == 6);
        }
        let flag = str_eq(value, "true") || value.unicode_len() == 0;
        if str_eq(key, "root") {
            self.root = String::from_str(value);
        } else if str_eq(key, "tests") {
            self.tests = flag;
        } else if str_eq(key, "ndjson") {
            self.ndjson = flag;
        }
    }
}

} // verus!
