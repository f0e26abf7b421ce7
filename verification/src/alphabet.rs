//! The fixed alphabet of candidate letters, and the string-building helper
//! used when a candidate prefix is extended by one letter.

use vstd::prelude::*;

verus! {

/// The fixed enumeration of the 26 uppercase letters, in order.
pub open spec fn alphabet() -> Seq<char> {
    seq![
        'A', 'B', 'C', 'D', 'E', 'F', 'G', 'H', 'I', 'J', 'K', 'L', 'M', 'N', 'O', 'P', 'Q',
        'R', 'S', 'T', 'U', 'V', 'W', 'X', 'Y', 'Z',
    ]
}

/// The alphabet as an executable vector: the 26 uppercase letters in order.
pub fn az() -> (r: Vec<char>)
    ensures
        r@ == alphabet(),
{
    let r = vec![
        'A', 'B', 'C', 'D', 'E', 'F', 'G', 'H', 'I', 'J', 'K', 'L', 'M', 'N', 'O', 'P', 'Q',
        'R', 'S', 'T', 'U', 'V', 'W', 'X', 'Y', 'Z',
    ];
    proof {
        assert(r@ =~= alphabet());
    }
    r
}

/// Relies on std's `String::push`: appends the given character to the
/// string.
#[verifier::external_body]
pub(crate) fn push_char(s: &mut String, c: char)
    ensures
        final(s)@ == old(s)@.push(c),
{
    s.push(c);
}

} // verus!
