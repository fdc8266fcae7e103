//! Pattern vocabulary and the bar windows a pattern scan looks at.

use vstd::prelude::*;
use crate::text::strings_view;
use crate::timeframe::Timeframe;

verus! {

broadcast use vstd::string::group_string_axioms;

/// The windowed candlestick patterns.
pub open spec fn spec_all_patterns() -> Seq<Seq<char>> {
    seq![
        "three_white_soldiers"@,
        "morning_star"@,
        "hammer"@,
        "bullish_engulfing"@,
        "pin_bar_bull"@,
        "inside_bar_break_up"@,
        "tweezer_bottom"@,
        "marubozu_bull"@,
    ]
}

/// The session-context setups.
pub open spec fn spec_setup_patterns() -> Seq<Seq<char>> {
    seq![
        "vwap_reclaim"@,
        "vwap_bounce"@,
        "orb_breakout"@,
        "ema_pullback"@,
        "rsi_oversold_bounce"@,
        "bb_squeeze_break_up"@,
    ]
}

/// The second-generation setups.
pub open spec fn spec_v2_setup_patterns() -> Seq<Seq<char>> {
    seq![
        "v2_trend_pullback"@,
        "v2_power_breakout"@,
        "v2_orb_retest"@,
        "v2_rsi_reversion"@,
        "v2_squeeze_expansion"@,
    ]
}

/// Names of every windowed candlestick pattern.
pub fn all_patterns() -> (r: Vec<String>)
    ensures
        strings_view(r@) == spec_all_patterns(),
{
    let r = vec![
        String::from_str("three_white_soldiers"),
        String::from_str("morning_star"),
        String::from_str("hammer"),
        String::from_str("bullish_engulfing"),
        String::from_str("pin_bar_bull"),
        String::from_str("inside_bar_break_up"),
        String::from_str("tweezer_bottom"),
        String::from_str("marubozu_bull"),
    ];
    assert(strings_view(r@) =~= spec_all_patterns());
    r
}

/// Names of every session-context setup.
pub fn setup_patterns() -> (r: Vec<String>)
    ensures
        strings_view(r@) == spec_setup_patterns(),
{
    let r = vec![
        String::from_str("vwap_reclaim"),
        String::from_str("vwap_bounce"),
        String::from_str("orb_breakout"),
        String::from_str("ema_pullback"),
        String::from_str("rsi_oversold_bounce"),
        String::from_str("bb_squeeze_break_up"),
    ];
    assert(strings_view(r@) =~= spec_setup_patterns());
    r
}

/// Names of every second-generation setup.
pub fn v2_setup_patterns() -> (r: Vec<String>)
    ensures
        strings_view(r@) == spec_v2_setup_patterns(),
{
    let r = vec![
        String::from_str("v2_trend_pullback"),
        String::from_str("v2_power_breakout"),
        String::from_str("v2_orb_retest"),
        String::from_str("v2_rsi_reversion"),
        String::from_str("v2_squeeze_expansion"),
    ];
    assert(strings_view(r@) =~= spec_v2_setup_patterns());
    r
}

/// Ends (exclusive) of the windows a scan of `n` bars looks at over the last
/// `recent_bars` bars: `n`, `n - 1`, … while a window keeps at least three
/// bars; at least one offset is always tried.
pub open spec fn spec_window_ends(n: int, recent_bars: int) -> Seq<int> {
    let tries = if recent_bars < 1 { 1 } else { recent_bars };
    let count = if n < 3 { 0 } else if tries < n - 2 { tries } else { n - 2 };
    Seq::new(count as nat, |k: int| n - k)
}

/// A scan of `n` bars over the last `recent_bars` bars tries
/// `max(recent_bars, 1)` window ends, fewer only when a window would keep
/// under three bars: the ends are `n`, `n - 1`, …, one per bar, newest first,
/// and none is below 3.
pub proof fn law_window_ends_cover_recent_bars(n: int, recent_bars: int)
    requires
        n >= 0,
        recent_bars >= 0,
    ensures
        n < 3 ==> spec_window_ends(n, recent_bars).len() == 0,
        n >= 3 && recent_bars <= 1 ==> spec_window_ends(n, recent_bars).len() == 1,
        n >= 3 && recent_bars >= 1 && recent_bars <= n - 2 ==> spec_window_ends(n, recent_bars).len()
            == recent_bars,
        n >= 3 && recent_bars >= n - 2 ==> spec_window_ends(n, recent_bars).len() == n - 2,
        forall|k: int| 0 <= k < spec_window_ends(n, recent_bars).len()
            ==> #[trigger] spec_window_ends(n, recent_bars)[k] == n - k && n - k >= 3,
{
}

/// View of (pattern name, detected-at) keys.
pub open spec fn keys_view(v: Seq<(String, String)>) -> Seq<(Seq<char>, Seq<char>)> {
    Seq::new(v.len(), |i: int| (v[i].0@, v[i].1@))
}

/// Keys of the results accepted among the first `i` candidates: a candidate
/// is accepted when it passes and no earlier accepted result has its key.
pub open spec fn accepted_keys(keys: Seq<(Seq<char>, Seq<char>)>, passes: Seq<bool>, i: int) -> Seq<
    (Seq<char>, Seq<char>),
>
    decreases i,
{
    if i <= 0 {
        Seq::empty()
    } else {
        let before = accepted_keys(keys, passes, i - 1);
        if passes[i - 1] && !before.contains(keys[i - 1]) {
            before.push(keys[i - 1])
        } else {
            before
        }
    }
}

/// Whether candidate `i` is accepted.
pub open spec fn accepted_at(keys: Seq<(Seq<char>, Seq<char>)>, passes: Seq<bool>, i: int) -> bool {
    passes[i] && !accepted_keys(keys, passes, i).contains(keys[i])
}

/// Stateless candlestick pattern detector.
#[derive(Clone, Copy, Default)]
pub struct PatternDetector;

impl PatternDetector {
    /// Bars averaged for the volume-spike check: 10 intraday, 20 daily.
    pub fn vol_period(&self, tf: Timeframe) -> (r: usize)
        ensures
            r == if tf != Timeframe::D1 { 10usize } else { 20usize },
    {
        if tf != Timeframe::D1 {
            10
        } else {
            20
        }
    }

    /// Which candidates of a scan are kept: a (pattern, bar) pair is reported
    /// once, by the first candidate for it that passes the confidence floor.
    pub fn first_seen(&self, keys: &Vec<(String, String)>, passes: &Vec<bool>) -> (r: Vec<bool>)
        requires
            keys@.len() == passes@.len(),
        ensures
            r@.len() == keys@.len(),
            forall|i: int| 0 <= i < r@.len() ==> #[trigger] r@[i] == accepted_at(keys_view(keys@), passes@, i),
    {
        let ghost kv = keys_view(keys@);
        let mut out: Vec<bool> = Vec::new();
        let mut seen: Vec<usize> = Vec::new();
        let mut i: usize = 0;
        while i < keys.len()
            invariant
                kv == keys_view(keys@),
                keys@.len() == passes@.len(),
                0 <= i <= keys@.len(),
                out@.len() == i,
                forall|k: int| 0 <= k < i ==> #[trigger] out@[k] == accepted_at(kv, passes@, k),
                forall|k: int| 0 <= k < seen@.len() ==> #[trigger] seen@[k] < i,
                accepted_keys(kv, passes@, i as int) == Seq::new(seen@.len(), |k: int| kv[seen@[k] as int]),
            decreases keys@.len() - i,
        {
            let ghost acc = accepted_keys(kv, passes@, i as int);
            let mut dup = false;
            let mut j: usize = 0;
            while j < seen.len()
                invariant
                    kv == keys_view(keys@),
                    0 <= i < keys@.len(),
                    0 <= j <= seen@.len(),
                    forall|k: int| 0 <= k < seen@.len() ==> #[trigger] seen@[k] < i,
                    acc == Seq::new(seen@.len(), |k: int| kv[seen@[k] as int]),
                    dup == exists|k: int| 0 <= k < j && #[trigger] acc[k] == kv[i as int],
                decreases seen@.len() - j,
            {
                let s = seen[j];
                let same = keys[s].0 == keys[i].0 && keys[s].1 == keys[i].1;
                assert(acc[j as int] == kv[s as int]);
                if same {
                    dup = true;
                }
                j = j + 1;
            }
            assert(dup == acc.contains(kv[i as int]));
            let keep = passes[i] && !dup;
            if keep {
                seen.push(i);
            }
            out.push(keep);
            i = i + 1;
            assert(accepted_keys(kv, passes@, i as int) =~= Seq::new(seen@.len(), |k: int| kv[seen@[k] as int]));
        }
        out
    }

    /// Window ends of a scan over the last `recent_bars` bars of `n` bars:
    /// each detector fires only on the final bar of its window, so the window
    /// end slides back to catch patterns formed a few bars ago.
    pub fn window_ends(&self, n: usize, recent_bars: usize) -> (r: Vec<usize>)
        ensures
            r@.len() == spec_window_ends(n as int, recent_bars as int).len(),
            forall|k: int| 0 <= k < r@.len() ==> #[trigger] r@[k] as int == spec_window_ends(
                n as int,
                recent_bars as int,
            )[k],
    {
        let tries = if recent_bars < 1 {
            1
        } else {
            recent_bars
        };
        let count = if n < 3 {
            0
        } else if tries < n - 2 {
            tries
        } else {
            n - 2
        };
        let mut out: Vec<usize> = Vec::new();
        let mut offset: usize = 0;
        while offset < count
            invariant
                count as int == spec_window_ends(n as int, recent_bars as int).len(),
                count <= n,
                0 <= offset <= count,
                out@.len() == offset,
                forall|k: int| 0 <= k < offset ==> #[trigger] out@[k] as int == n - k,
            decreases count - offset,
        {
            out.push(n - offset);
            offset = offset + 1;
        }
        out
    }
}

proof fn lemma_accepted_keys(keys: Seq<(Seq<char>, Seq<char>)>, passes: Seq<bool>, k: int)
    requires
        0 <= k <= keys.len(),
        keys.len() == passes.len(),
    ensures
        forall|i: int| 0 <= i < k && accepted_at(keys, passes, i) ==> accepted_keys(keys, passes, k).contains(
            #[trigger] keys[i],
        ),
        forall|x: (Seq<char>, Seq<char>)|
            accepted_keys(keys, passes, k).contains(x) ==> exists|j: int|
                0 <= j < k && #[trigger] accepted_at(keys, passes, j) && keys[j] == x,
    decreases k,
{
    if k > 0 {
        lemma_accepted_keys(keys, passes, k - 1);
        let before = accepted_keys(keys, passes, k - 1);
        let now = accepted_keys(keys, passes, k);
        assert forall|i: int| 0 <= i < k && accepted_at(keys, passes, i) implies now.contains(#[trigger] keys[i]) by {
            if i < k - 1 {
                let m = choose|m: int| 0 <= m < before.len() && before[m] == keys[i];
                if now != before {
                    assert(now == before.push(keys[k - 1]));
                    assert(now[m] == before[m]);
                }
            } else {
                assert(now == before.push(keys[k - 1]));
                assert(now[before.len() as int] == keys[i]);
            }
        }
        assert forall|x: (Seq<char>, Seq<char>)| now.contains(x) implies exists|j: int|
            0 <= j < k && #[trigger] accepted_at(keys, passes, j) && keys[j] == x by {
            let m = choose|m: int| 0 <= m < now.len() && now[m] == x;
            if m < before.len() {
                if now != before {
                    assert(now[m] == before[m]);
                }
                assert(before.contains(x));
            } else {
                assert(now == before.push(keys[k - 1]));
                assert(accepted_at(keys, passes, k - 1));
            }
        }
    }
}

/// A scan reports each (pattern, bar) pair at most once, and every pair
/// that passes the confidence floor is reported, by its first passing
/// candidate.
pub proof fn law_first_seen(keys: Seq<(Seq<char>, Seq<char>)>, passes: Seq<bool>)
    requires
        keys.len() == passes.len(),
    ensures
        forall|i: int, j: int|
            0 <= i < j < keys.len() && #[trigger] accepted_at(keys, passes, i) && #[trigger] accepted_at(
                keys,
                passes,
                j,
            ) ==> keys[i] != keys[j],
        forall|i: int|
            0 <= i < keys.len() && passes[i] ==> exists|j: int|
                0 <= j <= i && #[trigger] accepted_at(keys, passes, j) && keys[j] == keys[i],
{
    assert forall|i: int, j: int|
        0 <= i < j < keys.len() && #[trigger] accepted_at(keys, passes, i) && #[trigger] accepted_at(
            keys,
            passes,
            j,
        ) implies keys[i] != keys[j] by {
        lemma_accepted_keys(keys, passes, j);
    }
    assert forall|i: int| 0 <= i < keys.len() && passes[i] implies exists|j: int|
        0 <= j <= i && #[trigger] accepted_at(keys, passes, j) && keys[j] == keys[i] by {
        if !accepted_at(keys, passes, i) {
            lemma_accepted_keys(keys, passes, i);
            assert(accepted_keys(keys, passes, i).contains(keys[i]));
        }
    }
}

} // verus!
