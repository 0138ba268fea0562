//! Building strings from characters.

use vstd::prelude::*;

verus! {

/// Calls `String::push`. Claims that the string grows by exactly `c`, as its documentation
/// says.
#[verifier::external_body]
pub(crate) fn string_push(s: &mut String, c: char)
    ensures
        final(s)@ == old(s)@.push(c),
{
    s.push(c);
}

/// A string holding `chars`, in order.
pub fn string_from_chars(chars: &[char]) -> (result: String)
    ensures
        result@ == chars@,
{
    let mut out = String::new();
    for index in 0..chars.len()
        invariant
            out@ == chars@.take(index as int),
    {
        proof {
            assert(chars@.take(index + 1) == chars@.take(index as int).push(chars@[index as int]));
        }
        string_push(&mut out, chars[index]);
    }
    proof {
        assert(chars@.take(chars@.len() as int) == chars@);
    }
    out
}

/// Appends every character of `chars` to `s`.
pub fn push_chars(s: &mut String, chars: &[char])
    ensures
        final(s)@ == old(s)@ + chars@,
{
    let ghost start = s@;
    for index in 0..chars.len()
        invariant
            s@ == start + chars@.take(index as int),
    {
        proof {
            assert(chars@.take(index + 1) == chars@.take(index as int).push(chars@[index as int]));
            assert(start + chars@.take(index + 1) == (start + chars@.take(index as int)).push(chars@[index as int]));
        }
        string_push(s, chars[index]);
    }
    proof {
        assert(chars@.take(chars@.len() as int) == chars@);
    }
}

/// The lowercase mapping of a text, as `str::to_lowercase` computes it from the Unicode
/// tables of the standard library.
pub uninterp spec fn lowercase(text: Seq<char>) -> Seq<char>;

/// Calls `str::to_lowercase`. Claims only that the result is the lowercase mapping of
/// the text's characters, a function of them alone.
#[verifier::external_body]
pub(crate) fn to_lowercase(text: &str) -> (result: String)
    ensures
        result@ == lowercase(text@),
{
    text.to_lowercase()
}

} // verus!
