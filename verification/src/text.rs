//! Small string building blocks shared by the other modules.

use vstd::prelude::*;

verus! {

/// Appends one character to a `String`.
///
/// Trusted: wraps `String::push`, whose documentation says that it
/// "appends the given char to the end of this String"; the contract claims
/// exactly that the view grows by that one character.
#[verifier::external_body]
pub(crate) fn push_char(s: &mut String, c: char)
    ensures
        final(s)@ == old(s)@.push(c),
{
    s.push(c)
}

/// Copies an optional text field.
pub(crate) fn clone_text(o: &Option<String>) -> (r: Option<String>)
    ensures
        r == *o,
{
    match o {
        Some(s) => Some(s.clone()),
        None => None,
    }
}

} // verus!
