//! Walk-forward layout of the out-of-sample evaluation, fold warmup, sample
//! capacity, and the bucketing used to resample base bars into a higher
//! timeframe without looking ahead.

use vstd::prelude::*;
use crate::timeframe::{spec_config, Timeframe};

verus! {

/// Number of walk-forward folds used by the OOS evaluation.
pub const OOS_FOLDS: usize = 4;

/// Minimum OOS signal count before a strategy can be judged tradeable.
pub const MIN_OOS_SIGNALS: u64 = 10;

/// Below this fold length the walk-forward split falls back to one half/half split.
pub const MIN_FOLD_BARS: usize = 15;

/// Indicator warmup a fold is given before its first scored bar (EMA50 + margin).
pub const WARMUP_BARS: usize = 55;

/// The `[start, end)` test windows of a walk-forward split over `n` bars.
pub open spec fn spec_walk_forward(n: int, n_folds: int) -> Seq<(int, int)> {
    let fold = n / (n_folds + 1);
    if fold < MIN_FOLD_BARS {
        seq![(n / 2, n)]
    } else {
        Seq::new(
            n_folds as nat,
            |k: int|
                (
                    fold * (k + 1),
                    if fold * (k + 1) + fold <= n {
                        fold * (k + 1) + fold
                    } else {
                        n
                    },
                ),
        )
    }
}

/// (folds, bars per fold) of the OOS layout over `n` bars.
pub open spec fn spec_oos_layout(n: int) -> (int, int) {
    let fold = n / (OOS_FOLDS + 1);
    if fold < MIN_FOLD_BARS {
        (1, n - n / 2)
    } else {
        (OOS_FOLDS as int, fold)
    }
}

/// Length of a window.
pub open spec fn win_len(w: (int, int)) -> int {
    w.1 - w.0
}

/// Total length of a list of windows.
pub open spec fn total_len(s: Seq<(int, int)>) -> int
    decreases s.len(),
{
    if s.len() == 0 {
        0
    } else {
        total_len(s.drop_last()) + win_len(s.last())
    }
}

/// Shortest window of a list (0 for an empty list).
pub open spec fn min_len(s: Seq<(int, int)>) -> int
    decreases s.len(),
{
    if s.len() == 0 {
        0
    } else if s.len() == 1 {
        win_len(s[0])
    } else {
        let m = min_len(s.drop_last());
        if win_len(s.last()) < m {
            win_len(s.last())
        } else {
            m
        }
    }
}

/// View of a list of `usize` windows as integer pairs.
pub open spec fn windows_view(v: Seq<(usize, usize)>) -> Seq<(int, int)> {
    Seq::new(v.len(), |i: int| (v[i].0 as int, v[i].1 as int))
}

/// (folds, bars per fold) the walk-forward split produces for `n_candles` bars.
/// Uses the same rule as [`walk_forward_split`], so a displayed estimate never
/// disagrees with the split actually run.
pub fn oos_layout(n_candles: usize) -> (r: (usize, usize))
    ensures
        (r.0 as int, r.1 as int) == spec_oos_layout(n_candles as int),
{
    let fold = n_candles / (OOS_FOLDS + 1);
    if fold < MIN_FOLD_BARS {
        (1, n_candles - n_candles / 2)
    } else {
        (OOS_FOLDS, fold)
    }
}

/// Total test bars across all OOS folds for `n_candles` bars.
pub fn oos_test_bars(n_candles: usize) -> (r: usize)
    ensures
        r as int == spec_oos_layout(n_candles as int).0 * spec_oos_layout(n_candles as int).1,
{
    let (folds, fold_bars) = oos_layout(n_candles);
    proof {
        if folds == 4 {
            assert(fold_bars as int * 5 <= n_candles as int);
        }
    }
    folds * fold_bars
}

proof fn lemma_fold_bounds(n: int, f: int, k: int)
    requires
        n >= 0,
        f >= 0,
        0 <= k < f,
    ensures
        0 <= (n / (f + 1)) * (k + 1),
        (n / (f + 1)) * (k + 1) + n / (f + 1) <= n,
{
    let fold = n / (f + 1);
    assert(fold >= 0) by (nonlinear_arith)
        requires
            n >= 0,
            f >= 0,
            fold == n / (f + 1),
    ;
    assert(fold * (f + 1) <= n) by (nonlinear_arith)
        requires
            n >= 0,
            f >= 0,
            fold == n / (f + 1),
    ;
    assert(fold * (k + 1) + fold <= fold * (f + 1)) by (nonlinear_arith)
        requires
            fold >= 0,
            0 <= k < f,
    ;
    assert(0 <= fold * (k + 1)) by (nonlinear_arith)
        requires
            fold >= 0,
            k >= 0,
    ;
}

/// Walk-forward test windows `[start, end)` over `n` bars: `n_folds` equal
/// folds after the first training block, or one half/half split when the
/// folds would be shorter than [`MIN_FOLD_BARS`].
pub fn walk_forward_split(n: usize, n_folds: usize) -> (r: Vec<(usize, usize)>)
    requires
        n_folds < usize::MAX,
    ensures
        windows_view(r@) == spec_walk_forward(n as int, n_folds as int),
{
    let fold_size = n / (n_folds + 1);
    if fold_size < MIN_FOLD_BARS {
        let r = vec![(n / 2, n)];
        assert(windows_view(r@) =~= spec_walk_forward(n as int, n_folds as int));
        return r;
    }
    let ghost spec = spec_walk_forward(n as int, n_folds as int);
    let mut out: Vec<(usize, usize)> = Vec::new();
    let mut k: usize = 0;
    while k < n_folds
        invariant
            0 <= k <= n_folds,
            n_folds < usize::MAX,
            fold_size as int == n as int / (n_folds as int + 1),
            fold_size >= MIN_FOLD_BARS,
            spec == spec_walk_forward(n as int, n_folds as int),
            spec.len() == n_folds,
            out@.len() == k,
            windows_view(out@) =~= spec.take(k as int),
        decreases n_folds - k,
    {
        proof {
            lemma_fold_bounds(n as int, n_folds as int, k as int);
        }
        let train_end = fold_size * (k + 1);
        let end = if train_end + fold_size <= n {
            train_end + fold_size
        } else {
            n
        };
        let ghost prev = out@;
        out.push((train_end, end));
        assert(spec[k as int] == (train_end as int, end as int));
        assert forall|i: int| 0 <= i < k + 1 implies windows_view(out@)[i] == spec.take(
            k + 1,
        )[i] by {
            if i < k {
                assert(out@[i] == prev[i]);
                assert(windows_view(prev)[i] == spec.take(k as int)[i]);
            }
        }
        k = k + 1;
        assert(windows_view(out@) =~= spec.take(k as int));
    }
    assert(spec.take(n_folds as int) =~= spec);
    out
}

proof fn lemma_split_folds_equal(n: int, k: int)
    requires
        n >= 0,
        n / 5 >= MIN_FOLD_BARS,
        0 <= k < 4,
    ensures
        spec_walk_forward(n, 4)[k] == ((n / 5) * (k + 1), (n / 5) * (k + 1) + n / 5),
{
    lemma_fold_bounds(n, 4, k);
}

proof fn lemma_total_len_take(s: Seq<(int, int)>, k: int)
    requires
        0 < k <= s.len(),
    ensures
        total_len(s.take(k)) == total_len(s.take(k - 1)) + win_len(s[k - 1]),
        min_len(s.take(k)) == if k == 1 {
            win_len(s[0])
        } else if win_len(s[k - 1]) < min_len(s.take(k - 1)) {
            win_len(s[k - 1])
        } else {
            min_len(s.take(k - 1))
        },
{
    assert(s.take(k).drop_last() =~= s.take(k - 1));
}

/// The displayed OOS layout agrees with the split actually run: the number of
/// folds, the shortest fold and the total test bars are the same for every
/// series length.
pub proof fn law_layout_matches_split(n: int)
    requires
        n >= 0,
    ensures
        spec_walk_forward(n, OOS_FOLDS as int).len() == spec_oos_layout(n).0,
        min_len(spec_walk_forward(n, OOS_FOLDS as int)) == spec_oos_layout(n).1,
        total_len(spec_walk_forward(n, OOS_FOLDS as int)) == spec_oos_layout(n).0
            * spec_oos_layout(n).1,
{
    let s = spec_walk_forward(n, 4);
    if n / 5 < MIN_FOLD_BARS {
        assert(s.drop_last() =~= Seq::<(int, int)>::empty());
        assert(total_len(Seq::<(int, int)>::empty()) == 0);
        assert(total_len(s) == n - n / 2);
    } else {
        let f = n / 5;
        lemma_split_folds_equal(n, 0);
        lemma_split_folds_equal(n, 1);
        lemma_split_folds_equal(n, 2);
        lemma_split_folds_equal(n, 3);
        assert(s.take(0) =~= Seq::<(int, int)>::empty());
        lemma_total_len_take(s, 1);
        lemma_total_len_take(s, 2);
        lemma_total_len_take(s, 3);
        lemma_total_len_take(s, 4);
        assert(s.take(4) =~= s);
        assert(total_len(s) == 4 * f);
    }
}

/// Walk-forward test windows never overlap, run in order, and stay inside
/// the series.
pub proof fn law_split_windows_ordered(n: int, n_folds: int, k: int)
    requires
        n >= 0,
        n_folds >= 0,
        0 <= k < spec_walk_forward(n, n_folds).len(),
    ensures
        0 <= spec_walk_forward(n, n_folds)[k].0 <= spec_walk_forward(n, n_folds)[k].1 <= n,
        k + 1 < spec_walk_forward(n, n_folds).len() ==> spec_walk_forward(n, n_folds)[k].1
            <= spec_walk_forward(n, n_folds)[k + 1].0,
{
    if n / (n_folds + 1) >= MIN_FOLD_BARS {
        lemma_fold_bounds(n, n_folds, k);
        if k + 1 < n_folds {
            lemma_fold_bounds(n, n_folds, k + 1);
            let f = n / (n_folds + 1);
            assert(f * (k + 1) + f == f * (k + 2)) by (nonlinear_arith);
        }
    }
}

/// Warmup-extended window of a fold starting at `a`: the history start `w`
/// and the number of leading bars `skip` that warm indicators up but are
/// never scored.
pub fn fold_warmup(a: usize) -> (r: (usize, usize))
    ensures
        r.0 == if a >= WARMUP_BARS {
            a - WARMUP_BARS
        } else {
            0
        },
        r.1 == a - r.0,
{
    let w = a.saturating_sub(WARMUP_BARS);
    (w, a - w)
}

/// With warmup prepended, a fold scores exactly its own bars: the warmup
/// extended window minus its skipped prefix is as long as the fold.
pub proof fn law_warmup_scores_whole_fold(a: int, b: int)
    requires
        0 <= a <= b,
    ensures
        ({
            let w = if a >= WARMUP_BARS {
                a - WARMUP_BARS
            } else {
                0
            };
            (b - w) - (a - w) == b - a && a - w <= WARMUP_BARS
        }),
{
}

/// How many OOS signals a walk-forward run can produce at most.
pub struct OosCapacity {
    pub oos_folds: usize,
    pub oos_fold_bars: usize,
    pub oos_test_bars: usize,
    pub oos_signal_capacity: usize,
    pub oos_capacity_ok: bool,
}

/// Whether every window is well formed.
pub open spec fn windows_ok(s: Seq<(int, int)>) -> bool {
    forall|i: int| 0 <= i < s.len() ==> 0 <= #[trigger] s[i].0 <= s[i].1
}

/// Capacity of a split under a hold budget: positions never overlap, so a
/// fold yields at most `fold bars / hold bars` signals.
pub fn split_capacity(splits: &Vec<(usize, usize)>, max_hold_bars: usize) -> (r: OosCapacity)
    requires
        windows_ok(windows_view(splits@)),
        total_len(windows_view(splits@)) <= usize::MAX,
    ensures
        r.oos_folds == splits@.len(),
        r.oos_fold_bars as int == min_len(windows_view(splits@)),
        r.oos_test_bars as int == total_len(windows_view(splits@)),
        r.oos_signal_capacity as int == r.oos_test_bars as int / (if max_hold_bars == 0 {
            1
        } else {
            max_hold_bars as int
        }),
        r.oos_capacity_ok == (r.oos_signal_capacity >= MIN_OOS_SIGNALS),
{
    let ghost s = windows_view(splits@);
    let mut total: usize = 0;
    let mut min_bars: usize = 0;
    let mut i: usize = 0;
    while i < splits.len()
        invariant
            0 <= i <= splits@.len(),
            s == windows_view(splits@),
            windows_ok(s),
            total_len(s) <= usize::MAX,
            total as int == total_len(s.take(i as int)),
            min_bars as int == min_len(s.take(i as int)),
        decreases splits@.len() - i,
    {
        proof {
            lemma_total_len_take(s, (i + 1) as int);
            assert(s.take((i + 1) as int)[i as int] == s[i as int]);
            lemma_total_len_prefix_le(s, (i + 1) as int);
        }
        let (a, b) = splits[i];
        let len = b - a;
        if i == 0 || len < min_bars {
            min_bars = len;
        }
        total = total + len;
        i = i + 1;
    }
    assert(s.take(splits@.len() as int) =~= s);
    let hold = if max_hold_bars == 0 {
        1
    } else {
        max_hold_bars
    };
    let cap = total / hold;
    OosCapacity {
        oos_folds: splits.len(),
        oos_fold_bars: min_bars,
        oos_test_bars: total,
        oos_signal_capacity: cap,
        oos_capacity_ok: cap as u64 >= MIN_OOS_SIGNALS,
    }
}

proof fn lemma_total_len_prefix_le(s: Seq<(int, int)>, k: int)
    requires
        0 <= k <= s.len(),
        windows_ok(s),
    ensures
        total_len(s.take(k)) <= total_len(s),
        total_len(s.take(k)) >= 0,
    decreases s.len() - k,
{
    assert(windows_ok(s.take(k)));
    lemma_total_len_nonneg(s.take(k));
    if k < s.len() {
        lemma_total_len_prefix_le(s, k + 1);
        lemma_total_len_take(s, k + 1);
        assert(s.take(k + 1)[k] == s[k]);
    } else {
        assert(s.take(k) =~= s);
        lemma_total_len_nonneg(s);
    }
}

proof fn lemma_total_len_nonneg(s: Seq<(int, int)>)
    requires
        windows_ok(s),
    ensures
        total_len(s) >= 0,
    decreases s.len(),
{
    if s.len() > 0 {
        assert(windows_ok(s.drop_last()));
        lemma_total_len_nonneg(s.drop_last());
    }
}

/// One row of the capacity table: what a timeframe's default fetch allows.
pub struct CapacityRow {
    pub tf: Timeframe,
    pub candles: usize,
    pub folds: usize,
    pub fold_bars: usize,
    pub oos_test_bars: usize,
    pub max_hold_for_min_signals: usize,
}

/// Capacity of a timeframe's default fetch: folds, fold length, test bars and
/// the largest hold budget that can still reach [`MIN_OOS_SIGNALS`] signals.
pub fn capacity_row(tf: Timeframe) -> (r: CapacityRow)
    ensures
        r.tf == tf,
        r.candles as int == spec_config(tf).1,
        (r.folds as int, r.fold_bars as int) == spec_oos_layout(r.candles as int),
        r.oos_test_bars as int == r.folds as int * r.fold_bars as int,
        r.max_hold_for_min_signals as int == r.oos_test_bars as int / MIN_OOS_SIGNALS as int,
{
    let candles = tf.config().qrycnt as usize;
    let (folds, fold_bars) = oos_layout(candles);
    let test_bars = oos_test_bars(candles);
    CapacityRow {
        tf,
        candles,
        folds,
        fold_bars,
        oos_test_bars: test_bars,
        max_hold_for_min_signals: test_bars / (MIN_OOS_SIGNALS as usize),
    }
}

/// Whether `c` is an ASCII digit.
pub open spec fn is_digit(c: char) -> bool {
    48 <= (c as u32) <= 57
}

/// The ASCII digits of `s`, in order.
pub open spec fn digits_of(s: Seq<char>) -> Seq<char>
    decreases s.len(),
{
    if s.len() == 0 {
        Seq::empty()
    } else if is_digit(s.last()) {
        digits_of(s.drop_last()).push(s.last())
    } else {
        digits_of(s.drop_last())
    }
}

/// Value of a digit character.
pub open spec fn digit_value(c: char) -> int {
    (c as u32) - 48
}

proof fn lemma_digits_of(s: Seq<char>)
    ensures
        forall|k: int| 0 <= k < digits_of(s).len() ==> #[trigger] is_digit(digits_of(s)[k]),
    decreases s.len(),
{
    if s.len() > 0 {
        lemma_digits_of(s.drop_last());
        let p = digits_of(s.drop_last());
        assert forall|k: int| 0 <= k < digits_of(s).len() implies #[trigger] is_digit(digits_of(s)[k]) by {
            if k < p.len() {
                assert(digits_of(s)[k] == p[k]);
            }
        }
    }
}

proof fn lemma_minute_of_day_range(time: Seq<char>)
    ensures
        0 <= spec_minute_of_day(time) <= 99 * 60 + 99,
{
    lemma_digits_of(time);
    let d = digits_of(time);
    if d.len() >= 4 {
        assert(is_digit(d[0]) && is_digit(d[1]) && is_digit(d[2]) && is_digit(d[3]));
    }
}

/// Minute of the day of a bar time such as `"0905"` or `"09:05:00"`: hours
/// and minutes from its first four digits (0 when it has fewer).
pub open spec fn spec_minute_of_day(time: Seq<char>) -> int {
    let d = digits_of(time);
    if d.len() < 4 {
        0
    } else {
        (digit_value(d[0]) * 10 + digit_value(d[1])) * 60 + digit_value(d[2]) * 10 + digit_value(d[3])
    }
}

/// Minute of the day of a bar time (0 when it has fewer than four digits).
pub fn minute_of_day(time: &str) -> (r: i64)
    ensures
        r == spec_minute_of_day(time@),
{
    let cs = crate::text::chars_of(time);
    let mut d: Vec<char> = Vec::new();
    let mut i: usize = 0;
    while i < cs.len()
        invariant
            0 <= i <= cs@.len(),
            d@ == digits_of(cs@.take(i as int)),
            forall|k: int| 0 <= k < d@.len() ==> #[trigger] is_digit(d@[k]),
        decreases cs@.len() - i,
    {
        assert(cs@.take(i + 1).drop_last() =~= cs@.take(i as int));
        let c = cs[i];
        let v = c as u32;
        if 48 <= v && v <= 57 {
            d.push(c);
        }
        i = i + 1;
    }
    assert(cs@.take(cs@.len() as int) =~= cs@);
    if d.len() < 4 {
        return 0;
    }
    assert(is_digit(d@[0]) && is_digit(d@[1]) && is_digit(d@[2]) && is_digit(d@[3]));
    let v0 = ((d[0] as u32) - 48) as i64;
    let v1 = ((d[1] as u32) - 48) as i64;
    let v2 = ((d[2] as u32) - 48) as i64;
    let v3 = ((d[3] as u32) - 48) as i64;
    (v0 * 10 + v1) * 60 + v2 * 10 + v3
}

/// Base-bar minutes per higher bar when resampling into `target`; 0 for
/// daily, whose bars are grouped by date alone.
pub open spec fn spec_resample_step(target: Timeframe) -> int {
    match target {
        Timeframe::D1 => 0,
        _ => spec_config(target).0,
    }
}

/// Resampling step of a target timeframe.
pub fn resample_step(target: Timeframe) -> (r: i64)
    ensures
        r == spec_resample_step(target),
{
    match target {
        Timeframe::D1 => 0,
        _ => target.config().ncnt as i64,
    }
}

/// Higher bar a base bar belongs to: its date and, unless grouping by date,
/// the index of its `step`-minute slot of the day.
pub open spec fn bucket_key(date: Seq<char>, time: Seq<char>, step: int) -> (Seq<char>, int) {
    if step <= 0 {
        (date, 0)
    } else {
        (date, spec_minute_of_day(time) / step)
    }
}

/// Whether base bar `i` opens a new higher bar.
pub open spec fn opens_bucket(dates: Seq<Seq<char>>, times: Seq<Seq<char>>, step: int, i: int) -> bool {
    i == 0 || bucket_key(dates[i], times[i], step) != bucket_key(dates[i - 1], times[i - 1], step)
}

/// Number of higher bars opened by base bars `0..i`.
pub open spec fn buckets_before(dates: Seq<Seq<char>>, times: Seq<Seq<char>>, step: int, i: int) -> int
    decreases i,
{
    if i <= 0 {
        0
    } else {
        buckets_before(dates, times, step, i - 1) + if opens_bucket(dates, times, step, i - 1) {
            1int
        } else {
            0int
        }
    }
}

/// How base bars group into higher bars.
pub struct ResampleLayout {
    /// Whether each base bar starts a new higher bar (it then carries over
    /// its open; the others extend the current higher bar).
    pub starts: Vec<bool>,
    /// Higher bars already closed as of each base bar: all but the one still
    /// forming, so nothing is read before it is complete.
    pub completed: Vec<usize>,
}

/// Group base bars (by date and time of day) into higher bars of `step`
/// minutes (`step <= 0`: one per date).
pub fn resample_layout(dates: &Vec<String>, times: &Vec<String>, step: i64) -> (r: ResampleLayout)
    requires
        dates@.len() == times@.len(),
    ensures
        r.starts@.len() == dates@.len(),
        r.completed@.len() == dates@.len(),
        forall|i: int| 0 <= i < dates@.len() ==> #[trigger] r.starts@[i] == opens_bucket(
            crate::text::strings_view(dates@),
            crate::text::strings_view(times@),
            step as int,
            i,
        ),
        forall|i: int| 0 <= i < dates@.len() ==> #[trigger] r.completed@[i] as int == buckets_before(
            crate::text::strings_view(dates@),
            crate::text::strings_view(times@),
            step as int,
            i + 1,
        ) - 1,
{
    let ghost dv = crate::text::strings_view(dates@);
    let ghost tv = crate::text::strings_view(times@);
    let mut starts: Vec<bool> = Vec::new();
    let mut completed: Vec<usize> = Vec::new();
    let mut count: usize = 0;
    let mut prev_date = String::new();
    let mut prev_slot: i64 = 0;
    let mut i: usize = 0;
    while i < dates.len()
        invariant
            dv == crate::text::strings_view(dates@),
            tv == crate::text::strings_view(times@),
            dates@.len() == times@.len(),
            0 <= i <= dates@.len(),
            starts@.len() == i,
            completed@.len() == i,
            count as int == buckets_before(dv, tv, step as int, i as int),
            count <= i,
            i > 0 ==> count >= 1,
            i > 0 ==> (prev_date@, prev_slot as int) == bucket_key(dv[i - 1], tv[i - 1], step as int),
            forall|k: int| 0 <= k < i ==> #[trigger] starts@[k] == opens_bucket(dv, tv, step as int, k),
            forall|k: int| 0 <= k < i ==> #[trigger] completed@[k] as int == buckets_before(
                dv,
                tv,
                step as int,
                k + 1,
            ) - 1,
        decreases dates@.len() - i,
    {
        assert(dv[i as int] == dates@[i as int]@);
        assert(tv[i as int] == times@[i as int]@);
        let slot: i64 = if step <= 0 {
            0
        } else {
            let m = minute_of_day(times[i].as_str());
            proof {
                lemma_minute_of_day_range(times@[i as int]@);
            }
            m / step
        };
        let new_bucket = i == 0 || !(dates[i] == prev_date && slot == prev_slot);
        assert(new_bucket == opens_bucket(dv, tv, step as int, i as int));
        if new_bucket {
            count = count + 1;
            prev_date = dates[i].clone();
            prev_slot = slot;
        }
        starts.push(new_bucket);
        completed.push(count - 1);
        i = i + 1;
    }
    ResampleLayout { starts, completed }
}

/// No look-ahead in resampling: a base bar after bar `i` never belongs to a
/// higher bar that was already counted as closed at bar `i` — its higher
/// bar's index is at least the closed count at `i`.
pub proof fn law_resample_no_lookahead(dates: Seq<Seq<char>>, times: Seq<Seq<char>>, step: int, i: int, j: int)
    requires
        0 <= i < j,
    ensures
        buckets_before(dates, times, step, j + 1) - 1 >= buckets_before(dates, times, step, i + 1) - 1,
    decreases j - i,
{
    if j > i + 1 {
        law_resample_no_lookahead(dates, times, step, i, j - 1);
    }
}

} // verus!
