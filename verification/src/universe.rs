//! Code-to-name lookup over the stock universe.

use vstd::prelude::*;
use crate::ebest::{contains, contains_sub, lowercase, lowercase_of};
use crate::text::{chars_of, code_lt, spec_trim, str_lt, trim_chars};

verus! {

/// The identifying part of one universe row.
pub struct Listing {
    pub code: String,
    pub name: String,
}

/// Index of the last row whose code is `code`, or -1 when none is.
pub open spec fn last_with_code(rows: Seq<Listing>, code: Seq<char>) -> int
    decreases rows.len(),
{
    if rows.len() == 0 {
        -1
    } else if rows.last().code@ == code {
        rows.len() - 1
    } else {
        last_with_code(rows.drop_last(), code)
    }
}

/// The name a lookup by `code` yields: that of the last row listing the
/// code (a later row replaces an earlier one in the index), empty if none.
pub open spec fn spec_name_for(rows: Seq<Listing>, code: Seq<char>) -> Seq<char> {
    let k = last_with_code(rows, code);
    if k < 0 {
        Seq::empty()
    } else {
        rows[k].name@
    }
}

/// A lookup by code finds a row with that code, and no later row has it:
/// the last listing of a code wins.
pub proof fn law_last_listing_wins(rows: Seq<Listing>, code: Seq<char>)
    ensures
        -1 <= last_with_code(rows, code) < rows.len(),
        last_with_code(rows, code) >= 0 ==> rows[last_with_code(rows, code)].code@ == code,
        forall|j: int| last_with_code(rows, code) < j < rows.len() ==> #[trigger] rows[j].code@ != code,
    decreases rows.len(),
{
    if rows.len() > 0 && rows.last().code@ != code {
        law_last_listing_wins(rows.drop_last(), code);
        assert forall|j: int| last_with_code(rows, code) < j < rows.len() implies #[trigger] rows[j].code@ != code by {
            if j < rows.len() - 1 {
                assert(rows.drop_last()[j] == rows[j]);
            }
        }
    }
}

/// Stock name for a code (empty string if unknown).
pub fn name_for(rows: &Vec<Listing>, code: &str) -> (r: String)
    ensures
        r@ == spec_name_for(rows@, code@),
{
    let mut i: usize = rows.len();
    assert(rows@.take(rows@.len() as int) =~= rows@);
    while i > 0
        invariant
            0 <= i <= rows@.len(),
            last_with_code(rows@, code@) == last_with_code(rows@.take(i as int), code@),
        decreases i,
    {
        let ghost pre = rows@.take(i as int);
        assert(pre.drop_last() =~= rows@.take(i - 1));
        if crate::text::str_eq(rows[i - 1].code.as_str(), code) {
            return rows[i - 1].name.clone();
        }
        i = i - 1;
    }
    assert(rows@.take(0) =~= Seq::<Listing>::empty());
    String::new()
}

/// The search text of a universe query: trimmed, then lower-cased as
/// `str::to_lowercase` does; `None` when nothing is left.
pub open spec fn spec_query_text(q: Seq<char>) -> Option<Seq<char>> {
    let t = lowercase_of(spec_trim(q));
    if t.len() == 0 {
        None
    } else {
        Some(t)
    }
}

/// The search text of a universe query, if it is not blank.
pub fn query_text(q: &str) -> (r: Option<String>)
    ensures
        match spec_query_text(q@) {
            Some(t) => r matches Some(s) && s@ == t,
            None => r is None,
        },
{
    let trimmed = trim_chars(q);
    let t = lowercase(trimmed.as_str());
    if t.as_str().is_empty() {
        None
    } else {
        Some(t)
    }
}

/// Whether a universe row matches a search text: its lower-cased name, or
/// its code, contains the text.
pub fn row_matches(name: &str, code: &str, query: &str) -> (r: bool)
    ensures
        r == (contains_sub(lowercase_of(name@), query@) || contains_sub(code@, query@)),
{
    let q = chars_of(query);
    let lowered = lowercase(name);
    let n = chars_of(lowered.as_str());
    if contains(&n, &q) {
        return true;
    }
    let c = chars_of(code);
    contains(&c, &q)
}


// ── snapshot freshness ──────────────────────────────────────────

/// Unix seconds of an RFC 3339 timestamp and its nanoseconds past that
/// second, as chrono parses it; `None` when chrono refuses the text.
pub uninterp spec fn rfc3339_unix_of(s: Seq<char>) -> Option<(i64, u32)>;

/// Reads an RFC 3339 timestamp as Unix seconds and nanoseconds.
///
/// Trusted: calls `chrono::DateTime::parse_from_rfc3339` and takes
/// `timestamp()` and `timestamp_subsec_nanos()` of the result (the latter
/// passes a billion only within a leap second); the contract names the result.
#[verifier::external_body]
fn rfc3339_unix(s: &str) -> (r: Option<(i64, u32)>)
    ensures
        r == rfc3339_unix_of(s@),
{
    chrono::DateTime::parse_from_rfc3339(s).ok().map(|d| (d.timestamp(), d.timestamp_subsec_nanos()))
}

/// `a / b` rounded toward zero (Rust's integer division), for `b > 0`.
pub open spec fn trunc_div(a: int, b: int) -> int {
    if a >= 0 {
        a / b
    } else {
        -((-a) / b)
    }
}

/// Nanoseconds from the instant (`then_secs`, `then_nanos`) to the instant
/// (`now_secs`, `now_nanos`), each in Unix seconds and nanoseconds past the
/// second, counted as chrono subtracts two UTC times: an instant inside a leap
/// second (nanoseconds of a billion or more) counts one second more once the
/// other instant's second of the day is past its own.
pub open spec fn elapsed_nanos(now_secs: int, now_nanos: int, then_secs: int, then_nanos: int) -> int {
    let a = now_secs % 86400;
    let b = then_secs % 86400;
    let carry: int = if a > b && then_nanos >= 1_000_000_000 {
        1
    } else if a < b && now_nanos >= 1_000_000_000 {
        -1
    } else {
        0
    };
    (now_secs - then_secs + carry) * 1_000_000_000 + now_nanos - then_nanos
}

/// Whole days from one instant to another: whole seconds of the elapsed
/// time, then whole days of those seconds, each rounded toward zero (chrono's
/// `num_seconds` and `num_days`).
pub open spec fn spec_days_between(now_secs: int, now_nanos: int, then_secs: int, then_nanos: int) -> int {
    trunc_div(trunc_div(elapsed_nanos(now_secs, now_nanos, then_secs, then_nanos), 1_000_000_000), 86400)
}

/// Quotient of a non-negative number, rounded down.
fn div_down(a: i128, b: i128) -> (r: i128)
    requires
        a >= 0,
        b > 0,
    ensures
        r == a / b,
{
    match a.checked_div_euclid(b) {
        Some(q) => q,
        None => 0,
    }
}

/// `a / b` rounded toward zero, for `b > 0`.
fn div_toward_zero(a: i128, b: i128) -> (r: i128)
    requires
        a > i128::MIN,
        b > 0,
    ensures
        r == trunc_div(a as int, b as int),
{
    if a >= 0 {
        div_down(a, b)
    } else {
        proof {
            vstd::arithmetic::div_mod::lemma_div_is_ordered_by_denominator((-a) as int, 1, b as int);
            vstd::arithmetic::div_mod::lemma_div_pos_is_pos((-a) as int, b as int);
        }
        -div_down(-a, b)
    }
}

/// Whole days from the instant (`then_secs`, `then_nanos`) to the instant
/// (`now_secs`, `now_nanos`), rounded toward zero; negative when `now` is
/// earlier.
pub fn days_between(now_secs: i64, now_nanos: u32, then_secs: i64, then_nanos: u32) -> (r: i64)
    ensures
        r == spec_days_between(now_secs as int, now_nanos as int, then_secs as int, then_nanos as int),
{
    let a: i64 = match now_secs.checked_rem_euclid(86400) {
        Some(v) => v,
        None => 0,
    };
    let b: i64 = match then_secs.checked_rem_euclid(86400) {
        Some(v) => v,
        None => 0,
    };
    let carry: i128 = if a > b && then_nanos >= 1_000_000_000 {
        1
    } else if a < b && now_nanos >= 1_000_000_000 {
        -1
    } else {
        0
    };
    let whole: i128 = (now_secs as i128) - (then_secs as i128) + carry;
    let elapsed: i128 = whole * 1_000_000_000 + (now_nanos as i128) - (then_nanos as i128);
    let secs = div_toward_zero(elapsed, 1_000_000_000);
    proof {
        let e = elapsed as int;
        if e >= 0 {
            vstd::arithmetic::div_mod::lemma_div_is_ordered(e, 30_000_000_000_000_000_000_000_000_000, 1_000_000_000);
        } else {
            vstd::arithmetic::div_mod::lemma_div_is_ordered(-e, 30_000_000_000_000_000_000_000_000_000, 1_000_000_000);
        }
    }
    let days = div_toward_zero(secs, 86400);
    proof {
        let x = secs as int;
        if x >= 0 {
            vstd::arithmetic::div_mod::lemma_div_is_ordered(x, 30_000_000_000_000_000_000, 86400);
        } else {
            vstd::arithmetic::div_mod::lemma_div_is_ordered(-x, 30_000_000_000_000_000_000, 86400);
        }
    }
    days as i64
}

/// Age in whole days of the universe snapshot stamped `as_of` (RFC 3339) at
/// the instant `now_secs` / `now_nanos`; -1 when the stamp does not parse.
pub fn snapshot_age_days(as_of: &str, now_secs: i64, now_nanos: u32) -> (r: i64)
    ensures
        r == match rfc3339_unix_of(as_of@) {
            Some(t) => spec_days_between(now_secs as int, now_nanos as int, t.0 as int, t.1 as int),
            None => -1,
        },
{
    match rfc3339_unix(as_of) {
        Some((secs, nanos)) => days_between(now_secs, now_nanos, secs, nanos),
        None => -1,
    }
}

/// The newest price stamp of the universe rows (code, stamp): the greatest
/// trimmed stamp, in `str` order, over the rows whose trimmed code is not
/// empty; empty when there is none.
pub open spec fn spec_newest_stamp(rows: Seq<(String, String)>) -> Seq<char>
    decreases rows.len(),
{
    if rows.len() == 0 {
        Seq::empty()
    } else {
        let prev = spec_newest_stamp(rows.drop_last());
        let stamp = spec_trim(rows.last().1@);
        if spec_trim(rows.last().0@).len() > 0 && code_lt(prev, stamp) {
            stamp
        } else {
            prev
        }
    }
}

/// The newest price stamp of the universe rows (code, stamp).
pub fn newest_stamp(rows: &Vec<(String, String)>) -> (r: String)
    ensures
        r@ == spec_newest_stamp(rows@),
{
    let mut best = String::new();
    let mut i: usize = 0;
    assert(rows@.take(0) =~= Seq::<(String, String)>::empty());
    while i < rows.len()
        invariant
            0 <= i <= rows@.len(),
            best@ == spec_newest_stamp(rows@.take(i as int)),
        decreases rows@.len() - i,
    {
        assert(rows@.take(i + 1).drop_last() =~= rows@.take(i as int));
        let code = trim_chars(rows[i].0.as_str());
        if !code.as_str().is_empty() {
            let stamp = trim_chars(rows[i].1.as_str());
            if str_lt(best.as_str(), stamp.as_str()) {
                best = stamp;
            }
        }
        i = i + 1;
    }
    assert(rows@.take(rows@.len() as int) =~= rows@);
    best
}
} // verus!
