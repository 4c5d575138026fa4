//! Conversions between strings and their characters.
use vstd::prelude::*;

verus! {

/// The characters of `s`, in order.
pub(crate) fn decode(s: &str) -> (r: Vec<char>)
    ensures
        r@ == s@,
{
    broadcast use vstd::string::group_string_axioms;

    let mut out: Vec<char> = Vec::new();
    for c in it: s.chars()
        invariant
            out@ == it.seq().take(it.index() as int),
    {
        out.push(c);
    }
    assert(out@ =~= s@);
    out
}

/// Relies on collecting a `char` iterator into a `String`: the string of
/// exactly those characters, in order.
#[verifier::external_body]
pub(crate) fn collect_text(chars: &[char]) -> (r: String)
    ensures
        r@ == chars@,
{
    chars.iter().collect()
}

} // verus!
