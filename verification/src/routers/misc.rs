//! Defaults of the miscellaneous endpoints.

use vstd::prelude::*;

verus! {

broadcast use vstd::string::group_string_axioms;

/// Default stock code of the connectivity check (Samsung Electronics).
pub fn d_samsung() -> (r: String)
    ensures
        r@ == "005930"@,
{
    String::from_str("005930")
}

/// Default market filter of the universe listing.
pub fn d_all() -> (r: String)
    ensures
        r@ == "ALL"@,
{
    String::from_str("ALL")
}

/// Default row limit of the universe listing.
pub fn d_limit() -> (r: usize)
    ensures
        r == 200,
{
    200
}

} // verus!
