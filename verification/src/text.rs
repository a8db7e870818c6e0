//! Strings built from characters.
use vstd::prelude::*;

verus! {

/// `String`'s `FromIterator<char>`: the string of the characters, in order.
#[verifier::external_body]
pub(crate) fn string_from_chars(cs: &Vec<char>) -> (r: String)
    ensures
        r@ == cs@,
{
    cs.iter().collect()
}

} // verus!
