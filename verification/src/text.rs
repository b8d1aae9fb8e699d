//! Conversions between text and sequences of scalars.

use vstd::prelude::*;

verus! {

/// The scalars of `text`, in order.
pub fn scalars_of(text: &str) -> (scalars: Vec<char>)
    ensures
        scalars@ == text@,
{
    let mut scalars: Vec<char> = Vec::new();
    for c in it: text.chars()
        invariant
            scalars@ == it.seq().take(it.index() as int),
            it.seq() == text@,
    {
        scalars.push(c);
    }
    scalars
}

/// Calls `String::from_iter` on a vector of scalars. Trusted: the string
/// holds those scalars, in their order.
#[verifier::external_body]
pub(crate) fn text_of(scalars: &Vec<char>) -> (text: String)
    ensures
        text@ == scalars@,
{
    String::from_iter(scalars)
}

} // verus!
