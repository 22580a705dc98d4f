//! Strings as sequences of characters: their lowercase form, and their
//! characters one by one.

use vstd::prelude::*;
use vstd::string::*;

verus! {

/// The lowercase form of a string, as the Unicode case mapping of the
/// standard library gives it.
pub uninterp spec fn lowercase(s: Seq<char>) -> Seq<char>;

/// Calls `str::to_lowercase`. The result is not computed here: the contract
/// only gives it the name [`lowercase`], so that two strings with the same
/// characters are known to have the same lowercase form.
#[verifier::external_body]
pub(crate) fn to_lowercase(s: &str) -> (lowered: String)
    ensures
        lowered@ == lowercase(s@),
{
    s.to_lowercase()
}

/// The characters of `s`, in order.
pub fn chars_of(s: &str) -> (chars: Vec<char>)
    ensures
        chars@ == s@,
{
    broadcast use vstd::string::group_string_axioms;

    let mut chars: Vec<char> = Vec::new();
    for c in it: s.chars()
        invariant
            it.seq() == s@,
            chars@ == it.seq().take(it.index()),
    {
        chars.push(c);
    }
    assert(chars@ == s@);
    chars
}

} // verus!
