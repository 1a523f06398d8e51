//! Conversions between strings and character vectors.  The codec and the id
//! generator work on characters; these helpers cross the boundary.

use vstd::prelude::*;
use vstd::string::StrSliceExecFns;

verus! {

/// Relies on std's `FromIterator` for `String` over `char` (via `collect`):
/// the string holding exactly these characters.
#[verifier::external_body]
pub(crate) fn chars_to_string(v: &Vec<char>) -> (s: String)
    ensures
        s@ == v@,
{
    v.iter().collect()
}

/// The characters of a string, in order.
pub(crate) fn string_chars(s: &str) -> (v: Vec<char>)
    ensures
        v@ == s@,
{
    let n = s.unicode_len();
    let mut v: Vec<char> = Vec::new();
    let mut i: usize = 0;
    while i < n
        invariant
            n == s@.len(),
            i <= n,
            v@.len() == i,
            forall|j: int| 0 <= j < i ==> v@[j] == s@[j],
        decreases n - i,
    {
        v.push(s.get_char(i));
        i += 1;
    }
    proof {
        assert(v@ =~= s@);
    }
    v
}

} // verus!
