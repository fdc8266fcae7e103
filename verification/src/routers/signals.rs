//! Defaults and limits of the signal endpoints.

use vstd::prelude::*;

verus! {

broadcast use vstd::string::group_string_axioms;

/// Most universe rows one signal scan visits.
pub const MAX_UNIVERSE_SCAN_LIMIT: usize = 250;

/// Default market filter of the signal scan.
pub fn d_market() -> (r: String)
    ensures
        r@ == "ALL"@,
{
    String::from_str("ALL")
}

/// Default timeframe of the signal scan.
pub fn d_tf() -> (r: String)
    ensures
        r@ == "5m"@,
{
    String::from_str("5m")
}

/// Default strategy preset of the signal scan.
pub fn d_strategy() -> (r: String)
    ensures
        r@ == "balanced"@,
{
    String::from_str("balanced")
}

/// Default number of signals returned.
pub fn d_limit() -> (r: usize)
    ensures
        r == 30,
{
    30
}

/// Default number of universe rows scanned.
pub fn d_scan_limit() -> (r: usize)
    ensures
        r == 120,
{
    120
}

/// Default number of recent bars searched for patterns.
pub fn d_recent_bars() -> (r: usize)
    ensures
        r == 20,
{
    20
}

/// `v` clamped into `lo..=hi`.
pub open spec fn clamped(v: int, lo: int, hi: int) -> int {
    if v < lo {
        lo
    } else if v > hi {
        hi
    } else {
        v
    }
}

/// Rows scanned: the request clamped into 1..=250.
pub fn clamp_scan_limit(v: usize) -> (r: usize)
    ensures
        r as int == clamped(v as int, 1, 250),
{
    if v < 1 {
        1
    } else if v > MAX_UNIVERSE_SCAN_LIMIT {
        MAX_UNIVERSE_SCAN_LIMIT
    } else {
        v
    }
}

/// Recent bars searched: the request clamped into 1..=60.
pub fn clamp_recent_bars(v: u64) -> (r: usize)
    ensures
        r as int == clamped(v as int, 1, 60),
{
    if v < 1 {
        1
    } else if v > 60 {
        60
    } else {
        v as usize
    }
}

} // verus!
