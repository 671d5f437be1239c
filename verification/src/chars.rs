//! Bridge between `String` values at the crate's boundary and the `Vec<char>`
//! buffers that the scanner and the writer work on.

use vstd::prelude::*;

verus! {

/// Relies on str::chars and Vec's FromIterator: collecting the characters of
/// a string yields exactly the character sequence that is the string's view.
#[verifier::external_body]
pub fn str_to_chars(s: &str) -> (r: Vec<char>)
    ensures
        r@ == s@,
{
    s.chars().collect()
}

/// Relies on String's FromIterator over characters: collecting a vector of
/// characters yields the string whose view is that character sequence.
#[verifier::external_body]
pub fn chars_to_string(v: &Vec<char>) -> (r: String)
    ensures
        r@ == v@,
{
    v.iter().collect()
}

} // verus!
