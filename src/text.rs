//! Character-level helpers: identifiers and string-literal escaping.
use vstd::prelude::*;
use vstd::string::{StrSliceExecFns, StringExecFns};

verus! {

pub open spec fn is_lower(c: char) -> bool {
    'a' <= c && c <= 'z'
}

pub open spec fn is_upper(c: char) -> bool {
    'A' <= c && c <= 'Z'
}

pub open spec fn is_digit(c: char) -> bool {
    '0' <= c && c <= '9'
}

/// A character that may stand in an identifier after its first one.
pub open spec fn is_ident_char(c: char) -> bool {
    is_lower(c) || is_upper(c) || is_digit(c) || c == '_'
}

/// A plain identifier: not empty, of identifier characters, not starting
/// with a digit.
pub open spec fn is_ident(s: Seq<char>) -> bool {
    &&& s.len() > 0
    &&& !is_digit(s[0])
    &&& forall|i: int| 0 <= i < s.len() ==> is_ident_char(#[trigger] s[i])
}

/// Relies on String::push: appends one character.
#[verifier::external_body]
pub(crate) fn push_char(s: &mut String, c: char)
    ensures
        final(s)@ == old(s)@.push(c),
{
    s.push(c)
}

/// The decimal digit character for `d` (below ten).
pub open spec fn digit_char(d: nat) -> char {
    seq!['0', '1', '2', '3', '4', '5', '6', '7', '8', '9'][d as int]
}

/// The decimal numeral of `n`, without leading zeros.
pub open spec fn decimal_digits(n: nat) -> Seq<char>
    decreases n,
{
    if n < 10 {
        seq![digit_char(n)]
    } else {
        decimal_digits(n / 10).push(digit_char(n % 10))
    }
}

/// Relies on usize's Display: the decimal numeral of `n`.
#[verifier::external_body]
pub(crate) fn decimal(n: usize) -> (r: String)
    ensures
        r@ == decimal_digits(n as nat),
{
    n.to_string()
}

/// The upper-case form of an ASCII lower-case letter; any other character
/// is kept.
pub open spec fn upper(c: char) -> char {
    if is_lower(c) {
        seq![
            'A', 'B', 'C', 'D', 'E', 'F', 'G', 'H', 'I', 'J', 'K', 'L', 'M', 'N', 'O', 'P', 'Q', 'R',
            'S', 'T', 'U', 'V', 'W', 'X', 'Y', 'Z',
        ][(c as int) - ('a' as int)]
    } else {
        c
    }
}

/// Relies on char::to_ascii_uppercase: maps a-z to A-Z and keeps every
/// other character.
#[verifier::external_body]
pub(crate) fn ascii_upper(c: char) -> (r: char)
    ensures
        r == upper(c),
{
    c.to_ascii_uppercase()
}

pub open spec fn is_alnum_spec(c: char) -> bool {
    is_lower(c) || is_upper(c) || is_digit(c)
}

fn is_alnum(c: char) -> (r: bool)
    ensures
        r == is_alnum_spec(c),
{
    ('a' <= c && c <= 'z') || ('A' <= c && c <= 'Z') || ('0' <= c && c <= '9')
}

/// The ASCII letters and digits of `s`, the first of each run upper-cased.
pub open spec fn pascal_words(s: Seq<char>) -> Seq<char>
    decreases s.len(),
{
    if s.len() == 0 {
        seq![]
    } else {
        let p = pascal_words(s.drop_last());
        let c = s.last();
        if !is_alnum_spec(c) {
            p
        } else if s.len() == 1 || !is_alnum_spec(s[s.len() - 2]) {
            p.push(upper(c))
        } else {
            p.push(c)
        }
    }
}

/// The type-name form of `s`: its words joined, each starting upper-case;
/// "Field" where `s` holds no word.
pub open spec fn pascal(s: Seq<char>) -> Seq<char> {
    if pascal_words(s).len() == 0 {
        "Field"@
    } else {
        pascal_words(s)
    }
}

/// The words of `s` (runs of ASCII letters and digits), each with its first
/// letter in upper case, joined; "Field" where `s` holds no such word.
pub fn pascal_case(s: &str) -> (r: String)
    ensures
        r@ == pascal(s@),
{
    let n = s.unicode_len();
    let mut out = String::new();
    let mut start = true;
    let mut i: usize = 0;
    proof {
        assert(s@.subrange(0, 0) =~= Seq::<char>::empty());
    }
    while i < n
        invariant
            n == s@.len(),
            i <= n,
            out@ == pascal_words(s@.subrange(0, i as int)),
            start == (i == 0 || !is_alnum_spec(s@[i - 1])),
        decreases n - i,
    {
        let c = s.get_char(i);
        proof {
            let q = s@.subrange(0, i + 1);
            assert(q.drop_last() =~= s@.subrange(0, i as int));
            assert(q.last() == c);
            if i > 0 {
                assert(q[q.len() - 2] == s@[i - 1]);
            }
        }
        if is_alnum(c) {
            if start {
                push_char(&mut out, ascii_upper(c));
            } else {
                push_char(&mut out, c);
            }
            start = false;
        } else {
            start = true;
        }
        i = i + 1;
    }
    proof {
        assert(s@.subrange(0, n as int) =~= s@);
        reveal_strlit("Field");
    }
    if out.unicode_len() == 0 {
        out = String::from_str("Field");
    }
    out
}

/// A keyword or reserved word of Rust, or `_`: none can name a field.
pub open spec fn rust_keyword(s: Seq<char>) -> bool {
    s == "as"@
        || s == "break"@
        || s == "const"@
        || s == "continue"@
        || s == "crate"@
        || s == "else"@
        || s == ("ext"@ + "ern"@)
        || s == "enum"@
        || s == "false"@
        || s == "fn"@
        || s == "for"@
        || s == "if"@
        || s == "impl"@
        || s == "in"@
        || s == "let"@
        || s == "loop"@
        || s == "match"@
        || s == "mod"@
        || s == "move"@
        || s == "mut"@
        || s == "pub"@
        || s == "ref"@
        || s == "return"@
        || s == "self"@
        || s == "Self"@
        || s == "static"@
        || s == "struct"@
        || s == "super"@
        || s == "trait"@
        || s == "true"@
        || s == "type"@
        || s == "unsafe"@
        || s == "use"@
        || s == "where"@
        || s == "while"@
        || s == "async"@
        || s == "await"@
        || s == "dyn"@
        || s == "abstract"@
        || s == "become"@
        || s == "box"@
        || s == "do"@
        || s == "final"@
        || s == "macro"@
        || s == "override"@
        || s == "priv"@
        || s == "typeof"@
        || s == "unsized"@
        || s == "virtual"@
        || s == "yield"@
        || s == "try"@
        || s == "_"@
}

/// The words that cannot be raw identifiers either.
pub open spec fn raw_forbidden(s: Seq<char>) -> bool {
    s == "self"@ || s == "Self"@ || s == "super"@ || s == "crate"@ || s == "_"@
}

fn str_eq(a: &str, b: &str) -> (r: bool)
    ensures
        r == (a@ == b@),
{
    let n = a.unicode_len();
    if n != b.unicode_len() {
        return false;
    }
    let mut i: usize = 0;
    while i < n
        invariant
            n == a@.len(),
            n == b@.len(),
            i <= n,
            forall|k: int| 0 <= k < i ==> a@[k] == b@[k],
        decreases n - i,
    {
        if a.get_char(i) != b.get_char(i) {
            return false;
        }
        i = i + 1;
    }
    proof {
        assert(a@ =~= b@);
    }
    true
}

fn is_keyword(s: &str) -> (r: bool)
    ensures
        r == rust_keyword(s@),
{
    let mut ext = String::from_str("ext");
    ext.append("ern");
    str_eq(s, "as")
        || str_eq(s, "break")
        || str_eq(s, "const")
        || str_eq(s, "continue")
        || str_eq(s, "crate")
        || str_eq(s, "else")
        || str_eq(s, ext.as_str())
        || str_eq(s, "enum")
        || str_eq(s, "false")
        || str_eq(s, "fn")
        || str_eq(s, "for")
        || str_eq(s, "if")
        || str_eq(s, "impl")
        || str_eq(s, "in")
        || str_eq(s, "let")
        || str_eq(s, "loop")
        || str_eq(s, "match")
        || str_eq(s, "mod")
        || str_eq(s, "move")
        || str_eq(s, "mut")
        || str_eq(s, "pub")
        || str_eq(s, "ref")
        || str_eq(s, "return")
        || str_eq(s, "self")
        || str_eq(s, "Self")
        || str_eq(s, "static")
        || str_eq(s, "struct")
        || str_eq(s, "super")
        || str_eq(s, "trait")
        || str_eq(s, "true")
        || str_eq(s, "type")
        || str_eq(s, "unsafe")
        || str_eq(s, "use")
        || str_eq(s, "where")
        || str_eq(s, "while")
        || str_eq(s, "async")
        || str_eq(s, "await")
        || str_eq(s, "dyn")
        || str_eq(s, "abstract")
        || str_eq(s, "become")
        || str_eq(s, "box")
        || str_eq(s, "do")
        || str_eq(s, "final")
        || str_eq(s, "macro")
        || str_eq(s, "override")
        || str_eq(s, "priv")
        || str_eq(s, "typeof")
        || str_eq(s, "unsized")
        || str_eq(s, "virtual")
        || str_eq(s, "yield")
        || str_eq(s, "try")
        || str_eq(s, "_")
}

fn is_raw_forbidden(s: &str) -> (r: bool)
    ensures
        r == raw_forbidden(s@),
{
    str_eq(s, "self") || str_eq(s, "Self") || str_eq(s, "super") || str_eq(s, "crate") || str_eq(s, "_")
}

/// No keyword but `_` itself ends with '_'.
proof fn lemma_keywords(s: Seq<char>)
    ensures
        rust_keyword(s) && s.len() > 1 ==> s.last() != '_',
        raw_forbidden(s) ==> rust_keyword(s),
{
    reveal_strlit("as");
    reveal_strlit("break");
    reveal_strlit("const");
    reveal_strlit("continue");
    reveal_strlit("crate");
    reveal_strlit("else");
    reveal_strlit("enum");
    reveal_strlit("false");
    reveal_strlit("fn");
    reveal_strlit("for");
    reveal_strlit("if");
    reveal_strlit("impl");
    reveal_strlit("in");
    reveal_strlit("let");
    reveal_strlit("loop");
    reveal_strlit("match");
    reveal_strlit("mod");
    reveal_strlit("move");
    reveal_strlit("mut");
    reveal_strlit("pub");
    reveal_strlit("ref");
    reveal_strlit("return");
    reveal_strlit("self");
    reveal_strlit("Self");
    reveal_strlit("static");
    reveal_strlit("struct");
    reveal_strlit("super");
    reveal_strlit("trait");
    reveal_strlit("true");
    reveal_strlit("type");
    reveal_strlit("unsafe");
    reveal_strlit("use");
    reveal_strlit("where");
    reveal_strlit("while");
    reveal_strlit("async");
    reveal_strlit("await");
    reveal_strlit("dyn");
    reveal_strlit("abstract");
    reveal_strlit("become");
    reveal_strlit("box");
    reveal_strlit("do");
    reveal_strlit("final");
    reveal_strlit("macro");
    reveal_strlit("override");
    reveal_strlit("priv");
    reveal_strlit("typeof");
    reveal_strlit("unsized");
    reveal_strlit("virtual");
    reveal_strlit("yield");
    reveal_strlit("try");
    reveal_strlit("_");
    reveal_strlit("ext");
    reveal_strlit("ern");
}

/// Each character of `s`, or '_' where it cannot stand in an identifier.
pub open spec fn ident_chars(s: Seq<char>) -> Seq<char> {
    Seq::new(s.len(), |i: int| if is_ident_char(s[i]) { s[i] } else { '_' })
}

/// `ident_chars(s)`, "field" where that is empty, and with the prefix "f_"
/// where it starts with a digit.
pub open spec fn plain_ident_of(s: Seq<char>) -> Seq<char> {
    let m = ident_chars(s);
    if m.len() == 0 {
        "field"@
    } else if is_digit(m[0]) {
        "f_"@ + m
    } else {
        m
    }
}

/// The field identifier for the key `s`: `plain_ident_of(s)`, written as a
/// raw identifier where it is a keyword, or with a trailing '_' where it is
/// a word that cannot be raw.
pub open spec fn ident_of(s: Seq<char>) -> Seq<char> {
    let b = plain_ident_of(s);
    if !rust_keyword(b) {
        b
    } else if raw_forbidden(b) {
        b + "_"@
    } else {
        "r#"@ + b
    }
}

/// A name a struct field can have: a plain identifier that is no keyword,
/// or a keyword that may be raw, written raw.
pub open spec fn valid_field_ident(r: Seq<char>) -> bool {
    ||| is_ident(r) && !rust_keyword(r)
    ||| exists|k: Seq<char>| r == "r#"@ + k && rust_keyword(k) && !raw_forbidden(k)
}

/// A field identifier for the key `s`: each character that cannot stand in
/// an identifier becomes '_'; an empty result becomes "field" and one that
/// starts with a digit gets the prefix "f_"; a keyword is written raw, or
/// with a trailing '_' where it cannot be raw.
pub fn field_ident(s: &str) -> (r: String)
    ensures
        r@ == ident_of(s@),
        valid_field_ident(r@),
{
    let b = plain_ident(s);
    if !is_keyword(b.as_str()) {
        b
    } else if is_raw_forbidden(b.as_str()) {
        let mut r = b;
        r.append("_");
        proof {
            reveal_strlit("_");
            lemma_keywords(r@);
            assert(r@.last() == '_');
            assert(is_ident(r@));
        }
        r
    } else {
        let mut r = String::from_str("r#");
        r.append(b.as_str());
        r
    }
}

fn plain_ident(s: &str) -> (r: String)
    ensures
        r@ == plain_ident_of(s@),
        is_ident(r@),
{
    let n = s.unicode_len();
    let mut out = String::new();
    let mut i: usize = 0;
    while i < n
        invariant
            n == s@.len(),
            i <= n,
            out@ == ident_chars(s@.subrange(0, i as int)),
        decreases n - i,
    {
        let c = s.get_char(i);
        if is_alnum(c) || c == '_' {
            push_char(&mut out, c);
        } else {
            push_char(&mut out, '_');
        }
        proof {
            assert(out@ =~= ident_chars(s@.subrange(0, i + 1)));
        }
        i = i + 1;
    }
    proof {
        assert(s@.subrange(0, n as int) =~= s@);
        reveal_strlit("field");
        reveal_strlit("f_");
    }
    let m = out.unicode_len();
    if m == 0 {
        String::from_str("field")
    } else if is_digit_char(out.as_str().get_char(0)) {
        let mut r = String::from_str("f_");
        r.append(out.as_str());
        proof {
            assert(r@ =~= "f_"@ + out@);
        }
        r
    } else {
        out
    }
}

fn is_digit_char(c: char) -> (r: bool)
    ensures
        r == is_digit(c),
{
    '0' <= c && c <= '9'
}

/// The escape that stands for `c` inside a double-quoted literal.
pub open spec fn escaped_char(c: char) -> Seq<char> {
    if c == '"' {
        seq!['\\', '"']
    } else if c == '\\' {
        seq!['\\', '\\']
    } else if c == '\n' {
        seq!['\\', 'n']
    } else if c == '\r' {
        seq!['\\', 'r']
    } else if c == '\t' {
        seq!['\\', 't']
    } else {
        seq![c]
    }
}

/// The escaped form of `s`, character by character.
pub open spec fn escaped(s: Seq<char>) -> Seq<char>
    decreases s.len(),
{
    if s.len() == 0 {
        seq![]
    } else {
        escaped(s.drop_last()) + escaped_char(s.last())
    }
}

/// Escapes `s` for a double-quoted string literal.
pub fn escape_str(s: &str) -> (r: String)
    ensures
        r@ == escaped(s@),
{
    let n = s.unicode_len();
    let mut out = String::new();
    let mut i: usize = 0;
    while i < n
        invariant
            n == s@.len(),
            i <= n,
            out@ == escaped(s@.subrange(0, i as int)),
        decreases n - i,
    {
        let c = s.get_char(i);
        proof {
            assert(s@.subrange(0, i + 1).drop_last() =~= s@.subrange(0, i as int));
        }
        if c == '"' || c == '\\' {
            push_char(&mut out, '\\');
            push_char(&mut out, c);
        } else if c == '\n' {
            push_char(&mut out, '\\');
            push_char(&mut out, 'n');
        } else if c == '\r' {
            push_char(&mut out, '\\');
            push_char(&mut out, 'r');
        } else if c == '\t' {
            push_char(&mut out, '\\');
            push_char(&mut out, 't');
        } else {
            push_char(&mut out, c);
        }
        proof {
            assert(out@ =~= escaped(s@.subrange(0, i + 1)));
        }
        i = i + 1;
    }
    proof {
        assert(s@.subrange(0, n as int) =~= s@);
    }
    out
}

} // verus!
