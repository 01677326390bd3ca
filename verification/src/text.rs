//! Verified string comparison helpers.

use vstd::prelude::*;

verus! {

/// Equality of two string slices, specified over their character views.
pub(crate) fn str_eql(a: &str, b: &str) -> (r: bool)
    ensures
        r == (a@ == b@),
{
    let oa = a.to_owned();
    let ob = b.to_owned();
    oa.eq(&ob)
}

/// Equality of two owned strings, specified over their character views.
pub(crate) fn string_eq(a: &String, b: &String) -> (r: bool)
    ensures
        r == (a@ == b@),
{
    a.eq(b)
}

} // verus!
