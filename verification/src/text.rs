//! Building and taking apart strings, character by character.

use vstd::prelude::*;

verus! {

/// Appends every character of `lit`.
pub fn push_literal(out: &mut Vec<char>, lit: &str)
    ensures
        final(out)@ == old(out)@ + lit@,
{
    let n = lit.unicode_len();
    let mut i: usize = 0;
    while i < n
        invariant
            n == lit@.len(),
            0 <= i <= n,
            out@ == old(out)@ + lit@.take(i as int),
        decreases n - i,
    {
        let c = lit.get_char(i);
        out.push(c);
        assert(old(out)@ + lit@.take(i + 1) =~= (old(out)@ + lit@.take(i as int)).push(
            lit@[i as int],
        ));
        i = i + 1;
    }
    assert(lit@.take(n as int) =~= lit@);
}

/// Relies on `String`'s `FromIterator<char>` implementation: collecting the
/// characters of `v` yields the string with exactly those characters in
/// order.
#[verifier::external_body]
pub fn chars_to_string(v: &Vec<char>) -> (r: String)
    ensures
        r@ == v@,
{
    v.iter().collect()
}

/// Turns a string into its characters, one by one.
pub fn string_chars(s: &str) -> (r: Vec<char>)
    ensures
        r@ == s@,
{
    let n = s.unicode_len();
    let mut r: Vec<char> = Vec::new();
    let mut i: usize = 0;
    while i < n
        invariant
            n == s@.len(),
            0 <= i <= n,
            r@ == s@.take(i as int),
        decreases n - i,
    {
        r.push(s.get_char(i));
        assert(s@.take(i + 1) =~= s@.take(i as int).push(s@[i as int]));
        i = i + 1;
    }
    assert(s@.take(n as int) =~= s@);
    r
}

} // verus!
