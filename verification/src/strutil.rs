//! Verified helpers over strings and character sequences.
//!
//! The pipeline's text logic works on `Vec<char>` buffers; these helpers
//! move between `&str`/`String` and character vectors and provide the
//! small character-level operations the chunker and parsers share.

use vstd::prelude::*;
use vstd::string::StrSliceExecFns;

verus! {

/// The character sequences of a list of strings, in order.
pub open spec fn spec_views(ss: Seq<String>) -> Seq<Seq<char>> {
    ss.map_values(|s: String| s@)
}

/// The characters of `s`, in order.
pub fn chars_of(s: &str) -> (r: Vec<char>)
    ensures
        r@ == s@,
{
    let n = s.unicode_len();
    let mut r: Vec<char> = Vec::new();
    let mut i: usize = 0;
    while i < n
        invariant
            n == s@.len(),
            i <= n,
            r@ == s@.take(i as int),
        decreases n - i,
    {
        r.push(s.get_char(i));
        i = i + 1;
        proof {
            assert(r@ =~= s@.take(i as int));
        }
    }
    proof {
        assert(r@ =~= s@);
    }
    r
}

/// Relies on `String::push`: appends the given character to the end of
/// the string.
#[verifier::external_body]
fn push_char(s: &mut String, c: char)
    ensures
        final(s)@ == old(s)@.push(c),
{
    s.push(c);
}

/// A `String` holding exactly the characters of `v`, in order.
pub fn string_from_chars(v: &Vec<char>) -> (r: String)
    ensures
        r@ == v@,
{
    let mut r = String::new();
    let mut i: usize = 0;
    while i < v.len()
        invariant
            i <= v@.len(),
            r@ == v@.take(i as int),
        decreases v@.len() - i,
    {
        push_char(&mut r, v[i]);
        i = i + 1;
        proof {
            assert(r@ =~= v@.take(i as int));
        }
    }
    proof {
        assert(r@ =~= v@);
    }
    r
}

/// Character-for-character equality of two string slices.
pub fn str_eq(a: &str, b: &str) -> (r: bool)
    ensures
        r == (a@ == b@),
{
    let na = a.unicode_len();
    let nb = b.unicode_len();
    if na != nb {
        return false;
    }
    let mut i: usize = 0;
    while i < na
        invariant
            i <= na,
            na == a@.len(),
            na == b@.len(),
            forall|j: int| 0 <= j < i ==> a@[j] == b@[j],
        decreases na - i,
    {
        if a.get_char(i) != b.get_char(i) {
            return false;
        }
        i = i + 1;
    }
    proof {
        assert(a@ =~= b@);
    }
    true
}

/// Does `v` end with the characters of `suffix`?
pub fn chars_end_with(v: &Vec<char>, suffix: &Vec<char>) -> (r: bool)
    ensures
        r == (v@.len() >= suffix@.len() && v@.skip(v@.len() as int - suffix@.len() as int)
            == suffix@),
{
    let n = v.len();
    let m = suffix.len();
    if n < m {
        return false;
    }
    let start = n - m;
    let mut i: usize = 0;
    while i < m
        invariant
            i <= m,
            m <= n,
            start == n - m,
            n == v@.len(),
            m == suffix@.len(),
            forall|j: int| 0 <= j < i ==> v@[start + j] == suffix@[j],
        decreases m - i,
    {
        if v[start + i] != suffix[i] {
            proof {
                assert(v@.skip(n - m as int)[i as int] != suffix@[i as int]);
            }
            return false;
        }
        i = i + 1;
    }
    proof {
        assert(v@.skip(n - m as int) =~= suffix@);
    }
    true
}

/// `s` with every maximal run of trailing newline characters removed.
pub open spec fn spec_trim_trailing_newlines(s: Seq<char>) -> Seq<char>
    decreases s.len(),
{
    if s.len() > 0 && s.last() == '\n' {
        spec_trim_trailing_newlines(s.drop_last())
    } else {
        s
    }
}

/// Removes every trailing newline character from `v`.
pub fn trim_trailing_newlines(v: &mut Vec<char>)
    ensures
        final(v)@ == spec_trim_trailing_newlines(old(v)@),
{
    loop
        invariant
            spec_trim_trailing_newlines(v@) == spec_trim_trailing_newlines(old(v)@),
        decreases v@.len(),
    {
        let n = v.len();
        if n == 0 {
            return ;
        }
        if v[n - 1] != '\n' {
            return ;
        }
        proof {
            assert(v@.last() == '\n');
        }
        v.pop();
    }
}

/// `s` with its leading newline characters removed.
pub open spec fn spec_trim_leading_newlines(s: Seq<char>) -> Seq<char>
    decreases s.len(),
{
    if s.len() > 0 && s[0] == '\n' {
        spec_trim_leading_newlines(s.drop_first())
    } else {
        s
    }
}

proof fn lemma_trim_leading_skip(s: Seq<char>, i: int)
    requires
        0 <= i <= s.len(),
        forall|j: int| 0 <= j < i ==> s[j] == '\n',
        i == s.len() || s[i] != '\n',
    ensures
        spec_trim_leading_newlines(s) == s.skip(i),
    decreases i,
{
    if i == 0 {
        assert(s.skip(0) =~= s);
    } else {
        assert(s[0] == '\n');
        lemma_trim_leading_skip(s.drop_first(), i - 1);
        assert(s.drop_first().skip(i - 1) =~= s.skip(i));
    }
}

/// The answer text shown on a terminal: leading newlines stripped.
pub fn trim_leading_newlines(s: &str) -> (r: String)
    ensures
        r@ == spec_trim_leading_newlines(s@),
{
    let n = s.unicode_len();
    let mut i: usize = 0;
    let mut done = false;
    while !done
        invariant
            i <= n,
            n == s@.len(),
            forall|j: int| 0 <= j < i ==> s@[j] == '\n',
            done ==> (i == n || s@[i as int] != '\n'),
        decreases n - i + (if done { 0int } else { 1int }),
    {
        if i == n {
            done = true;
        } else if s.get_char(i) != '\n' {
            done = true;
        } else {
            i = i + 1;
        }
    }
    proof {
        lemma_trim_leading_skip(s@, i as int);
    }
    let r = s.substring_char(i, n);
    proof {
        assert(r@ =~= s@.skip(i as int));
    }
    r.to_owned()
}

/// ASCII whitespace, the only kind the chunker's inputs carry.
pub open spec fn spec_is_ws(c: char) -> bool {
    c == ' ' || c == '\n' || c == '\t' || c == '\r'
}

/// Does `v` consist of whitespace alone (an empty `v` does)?
pub fn all_ws(v: &Vec<char>) -> (r: bool)
    ensures
        r == forall|j: int| 0 <= j < v@.len() ==> spec_is_ws(v@[j]),
{
    let mut i: usize = 0;
    while i < v.len()
        invariant
            i <= v@.len(),
            forall|j: int| 0 <= j < i ==> spec_is_ws(v@[j]),
        decreases v@.len() - i,
    {
        let c = v[i];
        if !(c == ' ' || c == '\n' || c == '\t' || c == '\r') {
            return false;
        }
        i = i + 1;
    }
    true
}

} // verus!
