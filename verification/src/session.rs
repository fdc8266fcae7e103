//! Intraday session layout: where each trading day starts in a bar series and
//! when the opening range of that day is complete.

use vstd::prelude::*;
use crate::text::strings_view;
use crate::timeframe::Timeframe;

verus! {

/// Opening-range length in bars of each timeframe (about 15 minutes).
pub open spec fn spec_or_bars(tf: Timeframe) -> int {
    match tf {
        Timeframe::M1 => 15,
        Timeframe::M3 => 5,
        Timeframe::M5 => 3,
        _ => 1,
    }
}

/// Opening-range length (bars) per timeframe — ~15 minutes of the session.
pub fn or_bars_for(tf: Timeframe) -> (r: usize)
    ensures
        r as int == spec_or_bars(tf),
{
    match tf {
        Timeframe::M1 => 15,
        Timeframe::M3 => 5,
        Timeframe::M5 => 3,
        _ => 1,
    }
}

/// Whether bar `i` opens a new trading day: the first bar, or one whose date
/// differs from the bar before it.
pub open spec fn opens_day(dates: Seq<Seq<char>>, i: int) -> bool {
    i == 0 || dates[i] != dates[i - 1]
}

/// Index of the first bar of bar `i`'s trading day.
pub open spec fn spec_day_start(dates: Seq<Seq<char>>, i: int) -> int
    decreases i,
{
    if i <= 0 {
        0
    } else if opens_day(dates, i) {
        i
    } else {
        spec_day_start(dates, i - 1)
    }
}

/// The day start of a bar is no later than the bar, opens a day, and no day
/// opens strictly between the two.
pub proof fn law_day_start(dates: Seq<Seq<char>>, i: int)
    requires
        0 <= i < dates.len(),
    ensures
        0 <= spec_day_start(dates, i) <= i,
        opens_day(dates, spec_day_start(dates, i)),
        forall|j: int| spec_day_start(dates, i) < j <= i ==> !#[trigger] opens_day(dates, j),
        forall|j: int| spec_day_start(dates, i) <= j <= i ==> dates[j] == dates[i],
    decreases i,
{
    if i > 0 && !opens_day(dates, i) {
        law_day_start(dates, i - 1);
        let s = spec_day_start(dates, i);
        assert forall|j: int| s <= j <= i implies dates[j] == dates[i] by {
            if j < i {
                assert(dates[j] == dates[i - 1]);
            }
        }
    }
}

/// For each bar, the index of the first bar of its trading day (a new day
/// starts whenever the date changes).
pub fn day_starts(dates: &Vec<String>) -> (r: Vec<usize>)
    ensures
        r@.len() == dates@.len(),
        forall|i: int| 0 <= i < dates@.len() ==> #[trigger] r@[i] as int == spec_day_start(strings_view(dates@), i),
{
    let ghost ds = strings_view(dates@);
    let mut r: Vec<usize> = Vec::new();
    let mut start: usize = 0;
    let mut i: usize = 0;
    while i < dates.len()
        invariant
            ds == strings_view(dates@),
            0 <= i <= dates@.len(),
            r@.len() == i,
            forall|k: int| 0 <= k < i ==> #[trigger] r@[k] as int == spec_day_start(ds, k),
            i > 0 ==> start as int == spec_day_start(ds, i - 1),
            start <= i,
        decreases dates@.len() - i,
    {
        let new_day = i == 0 || dates[i] != dates[i - 1];
        proof {
            if i > 0 {
                assert(ds[i as int] == dates@[i as int]@);
                assert(ds[i - 1] == dates@[i - 1]@);
            }
        }
        if new_day {
            start = i;
        }
        r.push(start);
        i = i + 1;
    }
    r
}

/// Number of bars elapsed in bar `i`'s session (0 = session open).
pub fn bars_into_day(day_start: &Vec<usize>, i: usize) -> (r: usize)
    requires
        i < day_start@.len(),
        day_start@[i as int] <= i,
    ensures
        r == i - day_start@[i as int],
{
    i - day_start[i]
}

/// Where a bar stands relative to its day's opening range.
#[derive(Clone, Copy, PartialEq, Eq, Debug, Structural)]
pub struct RangeStep {
    /// The bar's high and low extend the opening range.
    pub extends: bool,
    /// The opening range is complete as of this bar and can be read.
    pub known: bool,
}

/// Opening-range bookkeeping for the bar `bars_into_day` bars after the
/// session open, with a window of `or_bars` bars (at least one).
pub fn range_step(bars_into_day: usize, or_bars: usize) -> (r: RangeStep)
    requires
        bars_into_day < usize::MAX,
    ensures
        r.extends == (bars_into_day < if or_bars == 0 { 1 } else { or_bars as int }),
        r.known == (bars_into_day + 1 >= if or_bars == 0 { 1 } else { or_bars as int }),
{
    let or_len = if or_bars == 0 { 1 } else { or_bars };
    RangeStep { extends: bars_into_day < or_len, known: bars_into_day + 1 >= or_len }
}

} // verus!
