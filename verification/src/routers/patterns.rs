//! Defaults and limits of the pattern endpoints.

use vstd::prelude::*;
use crate::text::strings_view;

verus! {

broadcast use vstd::string::group_string_axioms;

/// Default timeframe of the pattern endpoints.
pub fn d_tf() -> (r: String)
    ensures
        r@ == "5m"@,
{
    String::from_str("5m")
}

/// Default strategy preset of the pattern endpoints.
pub fn d_strategy() -> (r: String)
    ensures
        r@ == "balanced"@,
{
    String::from_str("balanced")
}

/// Most codes one batch scan accepts.
pub const MAX_SCAN_CODES: usize = 50;

/// The codes a batch scan handles: the first fifty given.
pub fn scan_codes(codes: Vec<String>) -> (r: Vec<String>)
    ensures
        strings_view(r@) == if codes@.len() <= 50 {
            strings_view(codes@)
        } else {
            strings_view(codes@).take(50)
        },
{
    let mut codes = codes;
    let ghost all = strings_view(codes@);
    if codes.len() > MAX_SCAN_CODES {
        codes.truncate(MAX_SCAN_CODES);
        assert(strings_view(codes@) =~= all.take(50));
    }
    codes
}

} // verus!
