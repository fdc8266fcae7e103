//! Caching and paging rules of the candle feed.

use vstd::prelude::*;
use crate::text::spec_trim;
use crate::timeframe::Timeframe;

verus! {

broadcast use vstd::string::group_string_axioms;

/// Seconds a fetched candle series stays fresh, by timeframe.
pub open spec fn spec_cache_ttl_secs(tf: Timeframe) -> int {
    match tf {
        Timeframe::M1 => 35,
        Timeframe::M3 | Timeframe::M5 => 90,
        Timeframe::D1 => 600,
        _ => 180,
    }
}

/// Shorter cache lifetime for fast timeframes; longer for daily.
pub fn cache_ttl_secs(tf: Timeframe) -> (r: u64)
    ensures
        r as int == spec_cache_ttl_secs(tf),
{
    match tf {
        Timeframe::M1 => 35,
        Timeframe::M3 | Timeframe::M5 => 90,
        Timeframe::D1 => 600,
        _ => 180,
    }
}

/// Most continuation pages one history request reads.
pub const HIST_MAX_PAGES: usize = 4;

/// Seconds a deep history stays cached.
pub const HIST_TTL_SECS: u64 = 300;

/// A cached deep history is reused only while fresh and only when it was
/// fetched for at least as many bars as now requested.
pub fn reuse_history(fresh: bool, cached_target: usize, target: usize) -> (r: bool)
    ensures
        r == (fresh && cached_target >= target),
{
    fresh && cached_target >= target
}

/// Whether paging goes on after a page: it was not empty, fewer bars than
/// the target are merged so far, the reply named a next page, and fewer than
/// the page limit were read.
pub fn next_page_wanted(page_len: usize, merged_len: usize, target: usize, has_next_key: bool, pages_read: usize) -> (r:
    bool)
    ensures
        r == (page_len > 0 && merged_len < target && has_next_key && pages_read < HIST_MAX_PAGES),
{
    page_len > 0 && merged_len < target && has_next_key && pages_read < HIST_MAX_PAGES
}

/// How many of the oldest bars to drop so that at most `target` remain.
pub fn oldest_to_drop(len: usize, target: usize) -> (r: usize)
    ensures
        r == if len > target { len - target } else { 0 },
        len - r <= target || r == 0,
{
    if len > target {
        len - target
    } else {
        0
    }
}

/// Whether a fetch result is kept in the cache: empty replies never are, so
/// the next cycle asks again.
pub fn cacheable(rows: usize) -> (r: bool)
    ensures
        r == (rows > 0),
{
    rows > 0
}

/// Timestamp key of a minute bar: date and time joined by a space, trimmed.
pub fn minute_ts(date: &str, time: &str) -> (r: String)
    ensures
        r@ == spec_trim(date@ + seq![' '] + time@),
{
    let mut s = String::from_str(date);
    s.append(" ");
    proof {
        reveal_strlit(" ");
    }
    s.append(time);
    assert(s@ =~= date@ + seq![' '] + time@);
    crate::text::trim_chars(s.as_str())
}

} // verus!
