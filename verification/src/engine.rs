//! Decisions of the trading engine's polling cycle: bar timing and
//! staleness, the per-symbol plan of a cycle, end-of-day handling, re-entry
//! guards and cooldowns, candidate selection with confirmation bars, exits,
//! and the bounded event log.

use vstd::prelude::*;
use crate::broker::{mode_wire, TradingMode};
use crate::timeframe::{bar_secs, spec_config, tf_minutes, Timeframe};
use crate::text::{codes_sorted, remove_char, sort_codes, string_from_chars, strings_view, without_char};
use vstd::utf8::{encode_utf8, is_char_boundary};
use crate::telegram::{decimal_digits, spec_digits};

verus! {

/// Upper bound on how many missed bars one cycle compensates for.
pub const MISSED_BARS_CAP: i64 = 10;

/// Slack on top of three bar lengths before a closed bar counts as stale.
pub const STALE_BAR_SLACK_SECS: i64 = 300;

/// How many trade events the engine keeps in memory.
pub const EVENT_CAP: usize = 500;

/// Age beyond which the last closed bar is stale data.
pub open spec fn spec_stale_after(tf: Timeframe) -> int {
    match tf {
        Timeframe::D1 => 432_000int,
        _ => bar_secs(tf) * 3 + STALE_BAR_SLACK_SECS,
    }
}

/// A timeframe's bar length in seconds (daily counts as one calendar day).
pub fn tf_secs(tf: Timeframe) -> (r: i64)
    ensures
        r as int == bar_secs(tf),
{
    match tf {
        Timeframe::D1 => 86_400,
        _ => tf.config().ncnt as i64 * 60,
    }
}

/// Age after which the last closed bar is treated as stale (market closed,
/// holiday, feed stall): three bars plus slack intraday, five days daily.
pub fn stale_after_secs(tf: Timeframe) -> (r: i64)
    ensures
        r as int == spec_stale_after(tf),
{
    match tf {
        Timeframe::D1 => 5 * 86_400,
        _ => tf_secs(tf) * 3 + STALE_BAR_SLACK_SECS,
    }
}

/// The stale guard tolerates normal bar lag (more than two bars) but catches
/// an overnight gap intraday; a daily bar survives a weekend.
pub proof fn law_stale_guard(tf: Timeframe)
    ensures
        spec_stale_after(tf) > 2 * bar_secs(tf),
        tf != Timeframe::D1 ==> spec_stale_after(tf) < 17 * 3600,
        tf == Timeframe::D1 ==> spec_stale_after(tf) > 3 * 86_400,
{
}

/// Notification label of a mode.
pub open spec fn spec_mode_label(mode: TradingMode) -> Seq<char> {
    if mode == TradingMode::Live {
        seq!['실', '전']
    } else {
        seq!['모', '의']
    }
}

/// Notification label of a mode ("실전" for live, "모의" for paper).
pub fn mode_label(mode: TradingMode) -> (r: &'static str)
    ensures
        r@ == spec_mode_label(mode),
{
    proof {
        reveal_strlit("실전");
        reveal_strlit("모의");
        assert("실전"@ =~= seq!['실', '전']);
        assert("모의"@ =~= seq!['모', '의']);
    }
    if mode == TradingMode::Live {
        "실전"
    } else {
        "모의"
    }
}

/// Relative path of a mode's engine snapshot.
pub open spec fn spec_snapshot_path(mode: TradingMode) -> Seq<char> {
    "data/engine_state_"@ + mode_wire(mode) + ".json"@
}

/// Relative path (under the backend directory) of a mode's engine snapshot.
pub fn snapshot_path(mode: TradingMode) -> (r: String)
    ensures
        r@ == spec_snapshot_path(mode),
{
    let mut p = String::from_str("data/engine_state_");
    p.append(mode.as_str());
    p.append(".json");
    p
}

/// End-of-day handling phase for day trading.
#[derive(Clone, Copy, PartialEq, Eq, Debug, Structural)]
pub enum EodPhase {
    Normal,
    /// The close is near: manage holdings, no new entries.
    NoEntry,
    /// Force-close everything before the session ends.
    Flatten,
}

/// EOD phase at KST minute-of-day `mins`: flatten in 15:10–16:00, no new
/// entries from 15:05 on; nothing of the kind when `eod_flatten` is off.
pub fn eod_phase(eod_flatten: bool, mins: u32) -> (r: EodPhase)
    ensures
        !eod_flatten ==> r == EodPhase::Normal,
        eod_flatten && 910 <= mins < 960 ==> r == EodPhase::Flatten,
        eod_flatten && mins >= 905 && !(910 <= mins < 960) ==> r == EodPhase::NoEntry,
        eod_flatten && mins < 905 ==> r == EodPhase::Normal,
{
    if !eod_flatten {
        EodPhase::Normal
    } else if 15 * 60 + 10 <= mins && mins < 16 * 60 {
        EodPhase::Flatten
    } else if mins >= 15 * 60 + 5 {
        EodPhase::NoEntry
    } else {
        EodPhase::Normal
    }
}

/// Whether the KST market is open: Mon–Fri 09:00–15:20 outside listed
/// holidays, or always when market hours are ignored.
pub fn market_open(ignore_market_hours: bool, is_weekend: bool, is_holiday: bool, mins: u32) -> (r:
    bool)
    ensures
        r == (ignore_market_hours || (!is_weekend && !is_holiday && 540 <= mins <= 920)),
{
    if ignore_market_hours {
        return true;
    }
    if is_weekend {
        return false;
    }
    if is_holiday {
        return false;
    }
    9 * 60 <= mins && mins <= 15 * 60 + 20
}

/// What one pass of the engine loop decides before it scans: stop when the
/// engine is no longer running; otherwise move to `today` (a KST day number)
/// and reset the daily state when the day has changed since `last_day`.
pub struct DayStep {
    pub stop: bool,
    pub reset_day: bool,
    pub day: i64,
}

/// One pass of the engine loop's day bookkeeping.
pub fn day_step(running: bool, last_day: i64, today: i64) -> (r: DayStep)
    ensures
        r.stop == !running,
        r.reset_day == (running && today != last_day),
        r.day == (if running { today } else { last_day }),
{
    if !running {
        DayStep { stop: true, reset_day: false, day: last_day }
    } else {
        DayStep { stop: false, reset_day: today != last_day, day: today }
    }
}

/// Bar-close scheduling: a symbol not held is fetched only once its bar
/// could have closed since the last processed one; held symbols always are.
pub fn should_fetch(held: bool, last_bar_ts: Option<i64>, now: i64, tf: Timeframe) -> (r: bool)
    requires
        last_bar_ts matches Some(p) ==> held || p <= i64::MAX - 86_400,
    ensures
        r == (held || last_bar_ts is None || now >= last_bar_ts->0 + bar_secs(tf)),
{
    if held {
        return true;
    }
    match last_bar_ts {
        None => true,
        Some(prev) => !(now < prev + tf_secs(tf)),
    }
}

/// Index of the last occurrence of `x` in `s` (-1 when absent).
pub open spec fn last_index_of(s: Seq<i64>, x: i64) -> int
    decreases s.len(),
{
    if s.len() == 0 {
        -1
    } else if s.last() == x {
        s.len() - 1
    } else {
        last_index_of(s.drop_last(), x)
    }
}

/// Closed bars elapsed since the last processed bar `prev`: 1 on first
/// sight, the count of newer bars (capped), or the cap when `prev` has
/// rolled out of the history.
pub open spec fn spec_missed(closed_ts: Seq<i64>, prev: Option<i64>) -> int {
    match prev {
        None => 1,
        Some(p) => {
            let j = last_index_of(closed_ts, p);
            if j < 0 {
                MISSED_BARS_CAP as int
            } else if closed_ts.len() - 1 - j < MISSED_BARS_CAP {
                closed_ts.len() - 1 - j
            } else {
                MISSED_BARS_CAP as int
            }
        },
    }
}

proof fn lemma_last_index_bounds(s: Seq<i64>, x: i64)
    ensures
        -1 <= last_index_of(s, x) < s.len(),
        last_index_of(s, x) >= 0 ==> s[last_index_of(s, x)] == x,
        forall|j: int| last_index_of(s, x) < j < s.len() ==> s[j] != x,
    decreases s.len(),
{
    if s.len() > 0 && s.last() != x {
        lemma_last_index_bounds(s.drop_last(), x);
        assert forall|j: int| last_index_of(s, x) < j < s.len() implies s[j] != x by {
            if j < s.len() - 1 {
                assert(s[j] == s.drop_last()[j]);
            }
        }
    }
}

/// Bars missed since the last processed bar `p`: when `p` was last seen at
/// index `j` of the closed bars, the number of bars closed after it, capped
/// at 10; 10 when `p` is no longer in the history; 1 on first sight.
pub proof fn law_missed_counts_later_bars(closed_ts: Seq<i64>, p: i64, j: int)
    ensures
        spec_missed(closed_ts, None) == 1,
        (forall|k: int| 0 <= k < closed_ts.len() ==> #[trigger] closed_ts[k] != p) ==> spec_missed(
            closed_ts,
            Some(p),
        ) == 10,
        (0 <= j < closed_ts.len() && closed_ts[j] == p && forall|k: int|
            j < k < closed_ts.len() ==> #[trigger] closed_ts[k] != p) ==> spec_missed(closed_ts, Some(p))
            == if closed_ts.len() - 1 - j < 10 {
            closed_ts.len() - 1 - j
        } else {
            10
        },
{
    lemma_last_index_bounds(closed_ts, p);
    let li = last_index_of(closed_ts, p);
    if 0 <= j < closed_ts.len() && closed_ts[j] == p && (forall|k: int|
        j < k < closed_ts.len() ==> #[trigger] closed_ts[k] != p) {
        assert(li == j) by {
            if li < j {
                assert(closed_ts[j] != p);
            }
            if li > j {
                assert(closed_ts[li] != p);
            }
        }
    }
    if li >= 0 {
        assert(closed_ts[li] == p);
    }
}

/// How many closed bars arrived since the one last processed (`prev`).
pub fn missed_bars(closed_ts: &Vec<i64>, prev: Option<i64>) -> (r: i64)
    ensures
        r as int == spec_missed(closed_ts@, prev),
        0 <= r <= MISSED_BARS_CAP,
{
    proof {
        lemma_last_index_bounds(closed_ts@, prev.unwrap_or(0));
    }
    match prev {
        None => 1,
        Some(p) => {
            let n = closed_ts.len();
            let mut k: usize = n;
            assert(closed_ts@.take(n as int) =~= closed_ts@);
            while k > 0
                invariant
                    0 <= k <= n,
                    n == closed_ts@.len(),
                    prev == Some(p),
                    last_index_of(closed_ts@, p) == last_index_of(closed_ts@.take(k as int), p),
                decreases k,
            {
                let ghost t = closed_ts@.take(k as int);
                assert(t.last() == closed_ts@[k - 1]);
                if closed_ts[k - 1] == p {
                    let pos = n - k;
                    assert(last_index_of(t, p) == k - 1);
                    if pos < 10 {
                        return pos as i64;
                    } else {
                        return MISSED_BARS_CAP;
                    }
                }
                assert(t.drop_last() =~= closed_ts@.take(k - 1));
                k = k - 1;
            }
            assert(closed_ts@.take(0) =~= Seq::<i64>::empty());
            MISSED_BARS_CAP
        },
    }
}

/// Cooldown left after `missed` more closed bars (a running cooldown counts
/// down and stops at zero; none running stays as it is).
pub fn cooldown_after(cooldown: i64, missed: i64) -> (r: i64)
    requires
        0 <= missed <= MISSED_BARS_CAP,
    ensures
        cooldown > 0 ==> r == if cooldown - missed > 0 {
            cooldown - missed
        } else {
            0
        },
        cooldown <= 0 ==> r == cooldown,
        cooldown > 0 ==> 0 <= r <= cooldown,
{
    if cooldown > 0 {
        let rem = cooldown - missed;
        if rem > 0 {
            rem
        } else {
            0
        }
    } else {
        cooldown
    }
}

/// Outcome of the stop-out re-buy price guard for one evaluation.
#[derive(Clone, Copy, PartialEq, Eq, Debug, Structural)]
pub enum GuardStep {
    /// The price fell below the guard: guard removed, re-entry allowed.
    Released,
    /// The guard's bar budget ran out: guard removed, re-entry allowed.
    Expired,
    /// A guard without expiry (0 bars) still blocks.
    HoldIndefinitely,
    /// The guard blocks for this many more bars.
    Hold(i64),
}

/// Re-buy guard step: `below_guard` tells whether the price is below the
/// guard price (less the re-entry gap); `bars_left` is the remaining expiry
/// budget (0 = never expires); `missed` the bars elapsed since last time.
pub fn reentry_guard_step(below_guard: bool, bars_left: i64, missed: i64) -> (r: GuardStep)
    requires
        0 <= missed <= MISSED_BARS_CAP,
        bars_left >= i64::MIN + MISSED_BARS_CAP,
    ensures
        below_guard ==> r == GuardStep::Released,
        !below_guard && bars_left == 0 ==> r == GuardStep::HoldIndefinitely,
        ({
            let step = if missed > 1 {
                missed
            } else {
                1
            };
            !below_guard && bars_left != 0 ==> (if bars_left - step <= 0 {
                r == GuardStep::Expired
            } else {
                r == GuardStep::Hold((bars_left - step) as i64)
            })
        }),
{
    if below_guard {
        GuardStep::Released
    } else if bars_left == 0 {
        GuardStep::HoldIndefinitely
    } else {
        let step = if missed > 1 {
            missed
        } else {
            1
        };
        let remaining = bars_left - step;
        if remaining <= 0 {
            GuardStep::Expired
        } else {
            GuardStep::Hold(remaining)
        }
    }
}

/// Bars examined when looking for an entry signal.
#[derive(Clone, Copy, PartialEq, Eq, Debug, Structural)]
pub struct ScanWindow {
    /// Newly closed bars (1..=cap).
    pub win_missed: i64,
    /// Bars after a pattern in which a confirmation may arrive (at least 1).
    pub confirm_win: i64,
    /// Total bars scanned back from the last closed bar.
    pub scan: i64,
}

/// Scan window: every bar closed since the last evaluation, plus, when
/// confirmation is required, the older bars whose pattern may only now be
/// getting its confirming bar.
pub fn scan_window(missed: i64, require_confirmation: bool, confirm_window_bars: i64) -> (r:
    ScanWindow)
    requires
        confirm_window_bars <= i64::MAX - MISSED_BARS_CAP,
    ensures
        r.win_missed == if missed < 1 {
            1
        } else if missed > MISSED_BARS_CAP {
            MISSED_BARS_CAP
        } else {
            missed
        },
        r.confirm_win == if confirm_window_bars > 1 {
            confirm_window_bars
        } else {
            1
        },
        r.scan == if require_confirmation {
            r.win_missed + r.confirm_win
        } else {
            r.win_missed as int
        },
{
    let win_missed = if missed < 1 {
        1
    } else if missed > MISSED_BARS_CAP {
        MISSED_BARS_CAP
    } else {
        missed
    };
    let confirm_win = if confirm_window_bars > 1 {
        confirm_window_bars
    } else {
        1
    };
    let scan = if require_confirmation {
        win_missed + confirm_win
    } else {
        win_missed
    };
    ScanWindow { win_missed, confirm_win, scan }
}

/// What the engine knows of one entry candidate (in descending score order):
/// the closed bar its pattern formed on, and for every closed bar whether it
/// confirms the pattern (closes above the pattern high, or is a bullish bar
/// closing above the pattern close).
pub struct CandidateView {
    pub bar: Option<usize>,
    pub confirms: Vec<bool>,
}

/// Index of the first newly closed bar.
pub open spec fn new_cut(closed_len: int, win_missed: int) -> int {
    closed_len - if win_missed < closed_len {
        win_missed
    } else {
        closed_len
    }
}

/// A candidate fires now: without confirmation its pattern bar is new; with
/// confirmation a confirming bar within the window after it is new.
pub open spec fn actionable(
    bar: Option<usize>,
    confirms: Seq<bool>,
    closed_len: int,
    win_missed: int,
    confirm_win: int,
    require_confirmation: bool,
) -> bool {
    match bar {
        None => false,
        Some(pi) => if !require_confirmation {
            pi >= new_cut(closed_len, win_missed)
        } else {
            exists|j: int|
                #![trigger confirms[j]]
                pi + 1 <= j <= pi + confirm_win && j <= closed_len - 1 && j >= new_cut(
                    closed_len,
                    win_missed,
                ) && confirms[j]
        },
    }
}

/// A candidate still inside its confirmation window but not yet confirmed.
pub open spec fn waiting(
    bar: Option<usize>,
    confirms: Seq<bool>,
    closed_len: int,
    win_missed: int,
    confirm_win: int,
    require_confirmation: bool,
) -> bool {
    require_confirmation && bar is Some && !actionable(
        bar,
        confirms,
        closed_len,
        win_missed,
        confirm_win,
        require_confirmation,
    ) && bar->0 + confirm_win > closed_len - 1
}

/// The entry candidate to act on, and the best one still waiting for its
/// confirmation bar (reported to the operator).
#[derive(Clone, Copy, PartialEq, Eq, Debug, Structural)]
pub struct Pick {
    pub chosen: Option<usize>,
    pub pending: Option<usize>,
}

/// Well-formedness of the candidate list for a series of `closed_len` bars.
pub open spec fn candidates_ok(cands: Seq<CandidateView>, closed_len: int) -> bool {
    forall|k: int|
        0 <= k < cands.len() ==> (#[trigger] cands[k]).confirms@.len() == closed_len && (
        cands[k].bar matches Some(pi) ==> pi < closed_len)
}

/// Whether candidate `k` fires now.
pub open spec fn act_at(
    cands: Seq<CandidateView>,
    k: int,
    closed_len: int,
    win_missed: int,
    confirm_win: int,
    require_confirmation: bool,
) -> bool {
    actionable(
        cands[k].bar,
        cands[k].confirms@,
        closed_len,
        win_missed,
        confirm_win,
        require_confirmation,
    )
}

/// Whether candidate `k` waits for its confirmation bar.
pub open spec fn wait_at(
    cands: Seq<CandidateView>,
    k: int,
    closed_len: int,
    win_missed: int,
    confirm_win: int,
    require_confirmation: bool,
) -> bool {
    waiting(
        cands[k].bar,
        cands[k].confirms@,
        closed_len,
        win_missed,
        confirm_win,
        require_confirmation,
    )
}

/// Picks the best actionable candidate (each fires only once: its pattern
/// bar or its confirming bar must be newly closed), and remembers the best
/// candidate ahead of it that is still waiting for confirmation.
pub fn pick_candidate(
    cands: &Vec<CandidateView>,
    closed_len: usize,
    win_missed: usize,
    confirm_win: usize,
    require_confirmation: bool,
) -> (r: Pick)
    requires
        closed_len >= 1,
        confirm_win <= usize::MAX - closed_len,
        candidates_ok(cands@, closed_len as int),
    ensures
        ({
            let (n, w, c, rc) = (
                closed_len as int,
                win_missed as int,
                confirm_win as int,
                require_confirmation,
            );
            let limit = match r.chosen {
                Some(ch) => ch as int,
                None => cands@.len() as int,
            };
            &&& (r.chosen matches Some(ch) ==> ch < cands@.len() && act_at(
                cands@,
                ch as int,
                n,
                w,
                c,
                rc,
            ) && forall|i: int| 0 <= i < ch ==> !#[trigger] act_at(cands@, i, n, w, c, rc))
            &&& (r.chosen is None ==> forall|i: int|
                0 <= i < cands@.len() ==> !#[trigger] act_at(cands@, i, n, w, c, rc))
            &&& (r.pending matches Some(p) ==> p < limit && wait_at(cands@, p as int, n, w, c, rc)
                && forall|i: int| 0 <= i < p ==> !#[trigger] wait_at(cands@, i, n, w, c, rc))
            &&& (r.pending is None ==> forall|i: int|
                0 <= i < limit ==> !#[trigger] wait_at(cands@, i, n, w, c, rc))
        }),
{
    let ghost (n, w, c, rc) = (
        closed_len as int,
        win_missed as int,
        confirm_win as int,
        require_confirmation,
    );
    let last_idx = closed_len - 1;
    let cut = closed_len - if win_missed < closed_len {
        win_missed
    } else {
        closed_len
    };
    let mut pending: Option<usize> = None;
    let mut k: usize = 0;
    while k < cands.len()
        invariant
            0 <= k <= cands@.len(),
            n == closed_len as int,
            w == win_missed as int,
            c == confirm_win as int,
            rc == require_confirmation,
            closed_len >= 1,
            last_idx == closed_len - 1,
            cut == new_cut(closed_len as int, win_missed as int),
            confirm_win <= usize::MAX - closed_len,
            candidates_ok(cands@, closed_len as int),
            forall|i: int| 0 <= i < k ==> !#[trigger] act_at(cands@, i, n, w, c, rc),
            pending matches Some(p) ==> p < k && wait_at(cands@, p as int, n, w, c, rc)
                && forall|i: int| 0 <= i < p ==> !#[trigger] wait_at(cands@, i, n, w, c, rc),
            pending is None ==> forall|i: int| 0 <= i < k ==> !#[trigger] wait_at(cands@, i, n, w, c, rc),
        decreases cands@.len() - k,
    {
        let cand = &cands[k];
        assert(cands@[k as int] == *cand);
        match cand.bar {
            None => {
                assert(!act_at(cands@, k as int, n, w, c, rc));
                assert(!wait_at(cands@, k as int, n, w, c, rc));
            },
            Some(pi) => {
                if !require_confirmation {
                    if pi >= cut {
                        return Pick { chosen: Some(k), pending };
                    }
                    assert(!act_at(cands@, k as int, n, w, c, rc));
                    assert(!wait_at(cands@, k as int, n, w, c, rc));
                } else {
                    let hi = if pi + confirm_win < last_idx {
                        pi + confirm_win
                    } else {
                        last_idx
                    };
                    let mut j: usize = pi + 1;
                    let mut confirmed = false;
                    while j <= hi && !confirmed
                        invariant
                            pi + 1 <= j,
                            j <= hi + 1 || j == pi + 1,
                            hi <= last_idx,
                            last_idx == closed_len - 1,
                            hi == if pi + confirm_win < last_idx {
                                pi + confirm_win
                            } else {
                                last_idx as int
                            },
                            cand.confirms@.len() == closed_len,
                            confirmed ==> exists|m: int|
                                #![trigger cand.confirms@[m]]
                                pi + 1 <= m <= pi + confirm_win && m <= closed_len - 1 && m
                                    >= cut && cand.confirms@[m],
                            !confirmed ==> forall|m: int|
                                pi + 1 <= m < j && m >= cut ==> !#[trigger] cand.confirms@[m],
                        decreases hi + 2 - j, (if confirmed { 0int } else { 1int }),
                    {
                        if j >= cut && cand.confirms[j] {
                            confirmed = true;
                        } else {
                            j = j + 1;
                        }
                    }
                    if confirmed {
                        assert(act_at(cands@, k as int, n, w, c, rc));
                        return Pick { chosen: Some(k), pending };
                    }
                    assert(!act_at(cands@, k as int, n, w, c, rc));
                    if pending.is_none() && pi + confirm_win > last_idx {
                        pending = Some(k);
                        assert(wait_at(cands@, k as int, n, w, c, rc));
                    } else {
                        assert(pending is None ==> !wait_at(cands@, k as int, n, w, c, rc));
                    }
                }
            },
        }
        k = k + 1;
    }
    Pick { chosen: None, pending }
}

/// Why a position is closed.
#[derive(Clone, Copy, PartialEq, Eq, Debug, Structural)]
pub enum ExitReason {
    StopLoss,
    TakeProfit,
    TrailingStop,
    EodFlatten,
    StaleFlatten,
    ManualClose,
}

/// Wire value of an exit reason.
pub open spec fn reason_wire(r: ExitReason) -> Seq<char> {
    match r {
        ExitReason::StopLoss => "stop_loss"@,
        ExitReason::TakeProfit => "take_profit"@,
        ExitReason::TrailingStop => "trailing_stop"@,
        ExitReason::EodFlatten => "eod_flatten"@,
        ExitReason::StaleFlatten => "stale_flatten"@,
        ExitReason::ManualClose => "manual_close"@,
    }
}

impl ExitReason {
    /// Wire value (`"stop_loss"`, …).
    pub fn as_str(self) -> (s: &'static str)
        ensures
            s@ == reason_wire(self),
    {
        match self {
            ExitReason::StopLoss => "stop_loss",
            ExitReason::TakeProfit => "take_profit",
            ExitReason::TrailingStop => "trailing_stop",
            ExitReason::EodFlatten => "eod_flatten",
            ExitReason::StaleFlatten => "stale_flatten",
            ExitReason::ManualClose => "manual_close",
        }
    }
}

/// Exits that always close the whole position.
pub open spec fn forces_full_exit(r: ExitReason) -> bool {
    r == ExitReason::StopLoss || r == ExitReason::EodFlatten || r == ExitReason::StaleFlatten || r
        == ExitReason::ManualClose
}

/// Quantity to sell on an exit: the whole position for stop-outs, EOD and
/// manual closes, when selling all, or without a fixed quantity; otherwise
/// the fixed quantity capped at the position.
pub fn exit_sell_qty(reason: ExitReason, sell_all: bool, fixed_qty: Option<i64>, pos_qty: i64) -> (r:
    i64)
    ensures
        (forces_full_exit(reason) || sell_all || fixed_qty is None) ==> r == pos_qty,
        !(forces_full_exit(reason) || sell_all || fixed_qty is None) ==> r == if fixed_qty->0
            < pos_qty {
            fixed_qty->0
        } else {
            pos_qty
        },
        r <= pos_qty,
{
    let force_full = match reason {
        ExitReason::StopLoss | ExitReason::EodFlatten | ExitReason::StaleFlatten
        | ExitReason::ManualClose => true,
        _ => false,
    };
    match fixed_qty {
        Some(f) if !force_full && !sell_all => {
            if f < pos_qty {
                f
            } else {
                pos_qty
            }
        },
        _ => pos_qty,
    }
}

/// Re-entry protection armed when a position is fully closed.
#[derive(Clone, Copy, PartialEq, Eq, Debug, Structural)]
pub struct ReentryArm {
    /// Bars before the symbol may be entered again.
    pub cooldown: i64,
    /// Stop-outs also arm a price guard at the exit price, expiring after
    /// this many bars (0 = never); other exits clear the guard (`None`).
    pub guard_bars: Option<i64>,
}

/// Cooldown and price guard after a full close: stop-outs cool down longer
/// and block re-buys above the exit price; other exits only cool down.
pub fn reentry_after_exit(
    reason: ExitReason,
    loss_cooldown_bars: i64,
    reentry_cooldown_bars: i64,
    guard_expire_bars: i64,
) -> (r: ReentryArm)
    ensures
        reason == ExitReason::StopLoss ==> r == (ReentryArm {
            cooldown: loss_cooldown_bars,
            guard_bars: Some(
                if guard_expire_bars > 0 {
                    guard_expire_bars
                } else {
                    0
                },
            ),
        }),
        reason != ExitReason::StopLoss ==> r == (ReentryArm {
            cooldown: reentry_cooldown_bars,
            guard_bars: None,
        }),
{
    if reason == ExitReason::StopLoss {
        ReentryArm {
            cooldown: loss_cooldown_bars,
            guard_bars: Some(
                if guard_expire_bars > 0 {
                    guard_expire_bars
                } else {
                    0
                },
            ),
        }
    } else {
        ReentryArm { cooldown: reentry_cooldown_bars, guard_bars: None }
    }
}

/// What to do with a held position.
#[derive(Clone, Copy, PartialEq, Eq, Debug, Structural)]
pub enum ManageAction {
    Hold,
    /// Buy a Fibonacci-sized lot instead of stopping out.
    AverageDown,
    Exit(ExitReason),
}

/// Intrabar hard stop: when armed (and price stops are on) and the live
/// price is through the stop, average down if allowed, else stop out.
/// `None` when the hard stop does not apply.
pub fn hard_stop_action(
    hard_stop_intrabar: bool,
    use_stop_loss: bool,
    hit: bool,
    may_average: bool,
) -> (r: Option<ManageAction>)
    ensures
        (hard_stop_intrabar && use_stop_loss && hit) ==> r == Some(
            if may_average {
                ManageAction::AverageDown
            } else {
                ManageAction::Exit(ExitReason::StopLoss)
            },
        ),
        !(hard_stop_intrabar && use_stop_loss && hit) ==> r is None,
{
    if hard_stop_intrabar && use_stop_loss && hit {
        Some(
            if may_average {
                ManageAction::AverageDown
            } else {
                ManageAction::Exit(ExitReason::StopLoss)
            },
        )
    } else {
        None
    }
}

/// Closed-bar exit decision: only on a new bar; a trailing exit waits for
/// the minimum hold, a stop-out averages down when allowed, any other
/// triggered exit is taken at once.
pub fn bar_exit_action(
    new_bar: bool,
    reason: Option<ExitReason>,
    held_bars: i64,
    min_hold_bars: i64,
    may_average: bool,
) -> (r: ManageAction)
    ensures
        (!new_bar || reason is None) ==> r == ManageAction::Hold,
        new_bar && reason == Some(ExitReason::TrailingStop) ==> r == if held_bars < min_hold_bars {
            ManageAction::Hold
        } else {
            ManageAction::Exit(ExitReason::TrailingStop)
        },
        new_bar && reason == Some(ExitReason::StopLoss) ==> r == if may_average {
            ManageAction::AverageDown
        } else {
            ManageAction::Exit(ExitReason::StopLoss)
        },
        new_bar && reason is Some && reason != Some(ExitReason::TrailingStop) && reason != Some(
            ExitReason::StopLoss,
        ) ==> r == ManageAction::Exit(reason->0),
{
    if !new_bar {
        return ManageAction::Hold;
    }
    match reason {
        None => ManageAction::Hold,
        Some(ExitReason::TrailingStop) => {
            if held_bars < min_hold_bars {
                ManageAction::Hold
            } else {
                ManageAction::Exit(ExitReason::TrailingStop)
            }
        },
        Some(ExitReason::StopLoss) => {
            if may_average {
                ManageAction::AverageDown
            } else {
                ManageAction::Exit(ExitReason::StopLoss)
            }
        },
        Some(other) => ManageAction::Exit(other),
    }
}

/// Bars a position has been held after `new_bars` more closed bars.
pub fn bars_held_after(held: i64, new_bars: i64) -> (r: i64)
    requires
        new_bars > 0 ==> held <= i64::MAX - new_bars,
    ensures
        r == if new_bars > 0 {
            held + new_bars
        } else {
            held as int
        },
{
    if new_bars > 0 {
        held + new_bars
    } else {
        held
    }
}

/// What one cycle does with one symbol after its candles were fetched.
#[derive(Clone, Copy, PartialEq, Eq, Debug, Structural)]
pub enum SymbolAction {
    /// Fewer than 21 candles: nothing to judge.
    DataShortage,
    /// The last closed bar is stale: skip all trading this cycle.
    Stale,
    /// Flatten window: close the position if held, no entries.
    EodFlatten,
    /// A position carried over from an earlier session: close it now.
    StaleFlatten,
    /// Manage the held position (stops, targets, averaging).
    Manage,
    /// Not held and no newly closed bar: wait.
    AwaitBarClose,
    /// Not held, still cooling down after an exit.
    Cooldown,
    /// The close is near: no new entries.
    NoEntryNearClose,
    /// Evaluate an entry on the newly closed bar.
    TryEnter,
}

/// What the engine knows of a symbol when planning its cycle step.
#[derive(Clone, Copy, PartialEq, Eq, Debug, Structural)]
pub struct SymbolView {
    pub held: bool,
    pub n_candles: usize,
    /// Seconds between now and the last closed bar.
    pub bar_age: i64,
    pub tf: Timeframe,
    /// Closed bars since the last processed one.
    pub missed: i64,
    pub eod: EodPhase,
    /// Held since an earlier session (missed its EOD flatten).
    pub flatten_stale: bool,
    pub eod_flatten: bool,
    /// Cooldown bars left for the symbol.
    pub cooldown: i64,
}

/// The step and the state updates it implies.
#[derive(Clone, Copy, PartialEq, Eq, Debug, Structural)]
pub struct SymbolPlan {
    pub action: SymbolAction,
    /// Record the last closed bar as processed.
    pub record_bar: bool,
    /// Clear the carried-over mark (swing trading allowed).
    pub drop_stale_mark: bool,
    /// New cooldown value to store, if it changed.
    pub cooldown: Option<i64>,
}

/// The cycle step for one symbol, in the engine's order: data, staleness,
/// EOD flatten, carried-over positions, held management, new-bar wait,
/// cooldown, near-close block, entry.
pub fn plan_symbol(v: SymbolView) -> (p: SymbolPlan)
    requires
        0 <= v.missed <= MISSED_BARS_CAP,
    ensures
        v.n_candles < 21 ==> p.action == SymbolAction::DataShortage && !p.record_bar,
        v.n_candles >= 21 && v.bar_age > spec_stale_after(v.tf) ==> p.action
            == SymbolAction::Stale && !p.record_bar,
        ({
            let fresh = v.n_candles >= 21 && v.bar_age <= spec_stale_after(v.tf);
            let new_bar = v.missed > 0;
            &&& fresh && v.eod == EodPhase::Flatten ==> p.action == SymbolAction::EodFlatten
                && p.record_bar == new_bar
            &&& fresh && v.eod != EodPhase::Flatten && v.held && v.flatten_stale && v.eod_flatten
                ==> p.action == SymbolAction::StaleFlatten && p.record_bar == new_bar
            &&& fresh && v.eod != EodPhase::Flatten && v.held && !(v.flatten_stale
                && v.eod_flatten) ==> p.action == SymbolAction::Manage && p.record_bar == new_bar
                && p.drop_stale_mark == v.flatten_stale
            &&& fresh && v.eod != EodPhase::Flatten && !v.held && !new_bar ==> p.action
                == SymbolAction::AwaitBarClose && !p.record_bar
            &&& fresh && v.eod != EodPhase::Flatten && !v.held && new_bar ==> p.record_bar && (
            if v.cooldown > 0 {
                p.cooldown == Some(
                    if v.cooldown - v.missed > 0 {
                        (v.cooldown - v.missed) as i64
                    } else {
                        0i64
                    },
                )
            } else {
                p.cooldown is None
            }) && (if v.cooldown > 0 && v.cooldown - v.missed > 0 {
                p.action == SymbolAction::Cooldown
            } else if v.eod == EodPhase::NoEntry {
                p.action == SymbolAction::NoEntryNearClose
            } else {
                p.action == SymbolAction::TryEnter
            })
        }),
        p.action == SymbolAction::TryEnter ==> !v.held && v.missed > 0 && v.eod
            == EodPhase::Normal && v.n_candles >= 21 && v.bar_age <= spec_stale_after(v.tf),
        p.action == SymbolAction::Manage ==> v.held,
        p.drop_stale_mark ==> p.action == SymbolAction::Manage,
        p.cooldown is Some ==> !v.held,
        !(p.action == SymbolAction::Cooldown || p.action == SymbolAction::NoEntryNearClose || p.action
            == SymbolAction::TryEnter) ==> p.cooldown is None,
{
    let none = SymbolPlan {
        action: SymbolAction::DataShortage,
        record_bar: false,
        drop_stale_mark: false,
        cooldown: None,
    };
    if v.n_candles < 21 {
        return none;
    }
    if v.bar_age > stale_after_secs(v.tf) {
        return SymbolPlan { action: SymbolAction::Stale, ..none };
    }
    let new_bar = v.missed > 0;
    if v.eod == EodPhase::Flatten {
        return SymbolPlan { action: SymbolAction::EodFlatten, record_bar: new_bar, ..none };
    }
    if v.held && v.flatten_stale && v.eod_flatten {
        return SymbolPlan { action: SymbolAction::StaleFlatten, record_bar: new_bar, ..none };
    }
    if v.held {
        return SymbolPlan {
            action: SymbolAction::Manage,
            record_bar: new_bar,
            drop_stale_mark: v.flatten_stale,
            cooldown: None,
        };
    }
    if !new_bar {
        return SymbolPlan { action: SymbolAction::AwaitBarClose, ..none };
    }
    let mut cooldown: Option<i64> = None;
    if v.cooldown > 0 {
        let remaining = cooldown_after(v.cooldown, v.missed);
        cooldown = Some(remaining);
        if remaining > 0 {
            return SymbolPlan {
                action: SymbolAction::Cooldown,
                record_bar: true,
                drop_stale_mark: false,
                cooldown,
            };
        }
    }
    if v.eod == EodPhase::NoEntry {
        return SymbolPlan {
            action: SymbolAction::NoEntryNearClose,
            record_bar: true,
            drop_stale_mark: false,
            cooldown,
        };
    }
    SymbolPlan { action: SymbolAction::TryEnter, record_bar: true, drop_stale_mark: false, cooldown }
}

/// Monitoring note (phase, detail) of a symbol that trades nothing this
/// cycle, for the actions whose note depends on the plan alone;
/// `stale_minutes` is the age of the last closed bar, `cooldown` the bars
/// still barred.
pub open spec fn spec_action_note(action: SymbolAction, stale_minutes: nat, cooldown: nat) -> Option<(Seq<char>, Seq<char>)> {
    match action {
        SymbolAction::DataShortage => Some(("데이터부족"@, "캔들 데이터 부족 (21봉 미만)"@)),
        SymbolAction::Stale => Some(("데이터정지"@, "마지막 마감봉이 "@ + spec_digits(stale_minutes) + "분 전 — 장외/휴장/피드지연으로 판단 보류"@)),
        SymbolAction::EodFlatten => Some(("마감청산"@, "장 마감 전 강제 청산 시간 (15:10~) — 신규 진입 없음"@)),
        SymbolAction::AwaitBarClose => Some(("봉마감대기"@, "닫힌 봉 갱신 대기 (진입은 봉 마감 시 판단)"@)),
        SymbolAction::Cooldown => Some(("쿨다운"@, "재진입 금지 "@ + spec_digits(cooldown) + "봉 남음"@)),
        SymbolAction::NoEntryNearClose => Some(("마감임박"@, "장 마감 임박 (15:05~) — 신규 진입 중단"@)),
        _ => None,
    }
}

/// The monitoring note of a plan action, when it depends on the plan alone.
pub fn action_note(action: SymbolAction, stale_minutes: u64, cooldown: u64) -> (r: Option<(String, String)>)
    ensures
        match spec_action_note(action, stale_minutes as nat, cooldown as nat) {
            Some((p, d)) => r matches Some((rp, rd)) && rp@ == p && rd@ == d,
            None => r is None,
        },
{
    let (phase, detail): (&str, String) = match action {
        SymbolAction::DataShortage => ("데이터부족", String::from_str("캔들 데이터 부족 (21봉 미만)")),
        SymbolAction::Stale => {
            let mut d = String::from_str("마지막 마감봉이 ");
            let n = string_from_chars(&decimal_digits(stale_minutes));
            d.append(n.as_str());
            d.append("분 전 — 장외/휴장/피드지연으로 판단 보류");
            ("데이터정지", d)
        },
        SymbolAction::EodFlatten => ("마감청산", String::from_str("장 마감 전 강제 청산 시간 (15:10~) — 신규 진입 없음")),
        SymbolAction::AwaitBarClose => ("봉마감대기", String::from_str("닫힌 봉 갱신 대기 (진입은 봉 마감 시 판단)")),
        SymbolAction::Cooldown => {
            let mut d = String::from_str("재진입 금지 ");
            let n = string_from_chars(&decimal_digits(cooldown));
            d.append(n.as_str());
            d.append("봉 남음");
            ("쿨다운", d)
        },
        SymbolAction::NoEntryNearClose => ("마감임박", String::from_str("장 마감 임박 (15:05~) — 신규 진입 중단")),
        _ => return None,
    };
    Some((String::from_str(phase), detail))
}

/// Appends an event and keeps only the newest `cap` of them.
pub fn push_bounded<T>(events: &mut Vec<T>, e: T, cap: usize)
    requires
        cap > 0,
    ensures
        ({
            let s = old(events)@.push(e);
            final(events)@ == if s.len() > cap {
                s.subrange(s.len() - cap, s.len() as int)
            } else {
                s
            }
        }),
{
    let ghost s = events@.push(e);
    events.push(e);
    let ghost mut dropped: int = 0;
    while events.len() > cap
        invariant
            cap > 0,
            0 <= dropped,
            events@ == s.subrange(dropped, s.len() as int),
            s.len() > cap ==> dropped <= s.len() - cap,
            s.len() <= cap ==> dropped == 0,
        decreases events@.len(),
    {
        events.remove(0);
        proof {
            dropped = dropped + 1;
        }
        assert(events@ =~= s.subrange(dropped, s.len() as int));
    }
    assert(s.len() <= cap ==> s.subrange(0, s.len() as int) =~= s);
}

/// The cycle's symbol order: held codes first (as given), then watchlist
/// codes not already listed.
pub open spec fn spec_cycle_codes(acc: Seq<Seq<char>>, watch: Seq<Seq<char>>) -> Seq<Seq<char>>
    decreases watch.len(),
{
    if watch.len() == 0 {
        acc
    } else {
        spec_cycle_codes(
            if acc.contains(watch[0]) {
                acc
            } else {
                acc.push(watch[0])
            },
            watch.drop_first(),
        )
    }
}

/// Whether `v` holds a string equal to `s`.
pub fn contains_string(v: &Vec<String>, s: &String) -> (r: bool)
    ensures
        r == strings_view(v@).contains(s@),
{
    let mut i: usize = 0;
    while i < v.len()
        invariant
            0 <= i <= v@.len(),
            forall|j: int| 0 <= j < i ==> v@[j]@ != s@,
        decreases v@.len() - i,
    {
        if v[i] == *s {
            assert(strings_view(v@)[i as int] == s@);
            return true;
        }
        i = i + 1;
    }
    assert forall|j: int| 0 <= j < strings_view(v@).len() implies strings_view(v@)[j] != s@ by {
        assert(strings_view(v@)[j] == v@[j]@);
    }
    false
}

/// Symbols to visit this cycle: the held positions first (their stops must
/// not wait behind a long watchlist scan), in code order, then each unlisted
/// watchlist code in watchlist order.
pub fn cycle_codes(held: Vec<String>, watchlist: &Vec<String>) -> (r: Vec<String>)
    ensures
        r@.len() >= held@.len(),
        strings_view(r@).take(held@.len() as int).to_multiset() == strings_view(held@).to_multiset(),
        codes_sorted(strings_view(r@).take(held@.len() as int)),
        strings_view(r@) == spec_cycle_codes(
            strings_view(r@).take(held@.len() as int),
            strings_view(watchlist@),
        ),
{
    let sorted = sort_codes(held);
    let ghost first = strings_view(sorted@);
    let mut codes = sorted;
    let mut i: usize = 0;
    assert(strings_view(watchlist@).skip(0) =~= strings_view(watchlist@));
    while i < watchlist.len()
        invariant
            0 <= i <= watchlist@.len(),
            spec_cycle_codes(strings_view(codes@), strings_view(watchlist@).skip(i as int))
                == spec_cycle_codes(first, strings_view(watchlist@)),
        decreases watchlist@.len() - i,
    {
        let ghost before = strings_view(codes@);
        let ghost rest = strings_view(watchlist@).skip(i as int);
        assert(rest[0] == watchlist@[i as int]@);
        assert(rest.drop_first() =~= strings_view(watchlist@).skip(i + 1));
        let w = &watchlist[i];
        if !contains_string(&codes, w) {
            codes.push(w.clone());
            assert(strings_view(codes@) =~= before.push(w@));
        }
        i = i + 1;
    }
    assert(strings_view(watchlist@).skip(watchlist@.len() as int) =~= Seq::<Seq<char>>::empty());
    proof {
        law_cycle_codes(first, strings_view(watchlist@));
    }
    codes
}

/// Whether no code occurs twice.
pub open spec fn no_dup(s: Seq<Seq<char>>) -> bool {
    forall|i: int, j: int| 0 <= i < j < s.len() ==> #[trigger] s[i] != #[trigger] s[j]
}

/// The cycle visits the held codes first, in their order, then every
/// watchlist code; each listed code comes from the held codes or the
/// watchlist, and none is visited twice when the held codes are distinct.
pub proof fn law_cycle_codes(acc: Seq<Seq<char>>, watch: Seq<Seq<char>>)
    ensures
        spec_cycle_codes(acc, watch).len() >= acc.len(),
        spec_cycle_codes(acc, watch).take(acc.len() as int) == acc,
        forall|i: int| 0 <= i < watch.len() ==> spec_cycle_codes(acc, watch).contains(#[trigger] watch[i]),
        forall|i: int|
            0 <= i < spec_cycle_codes(acc, watch).len() ==> acc.contains(
                #[trigger] spec_cycle_codes(acc, watch)[i],
            ) || watch.contains(spec_cycle_codes(acc, watch)[i]),
        no_dup(acc) ==> no_dup(spec_cycle_codes(acc, watch)),
    decreases watch.len(),
{
    if watch.len() > 0 {
        let w = watch[0];
        let next = if acc.contains(w) {
            acc
        } else {
            acc.push(w)
        };
        let rest = watch.drop_first();
        law_cycle_codes(next, rest);
        let r = spec_cycle_codes(acc, watch);
        assert(r == spec_cycle_codes(next, rest));
        assert(r.take(acc.len() as int) =~= acc) by {
            assert(r.take(next.len() as int) == next);
            assert forall|i: int| 0 <= i < acc.len() implies r[i] == acc[i] by {
                assert(r.take(next.len() as int)[i] == next[i]);
            }
        }
        assert(r.contains(w)) by {
            if acc.contains(w) {
                let k = choose|k: int| 0 <= k < acc.len() && acc[k] == w;
                assert(r.take(next.len() as int)[k] == next[k]);
                assert(r[k] == w);
            } else {
                let k = acc.len() as int;
                assert(next[k] == w);
                assert(r.take(next.len() as int)[k] == next[k]);
                assert(r[k] == w);
            }
        }
        assert forall|i: int| 0 <= i < watch.len() implies r.contains(#[trigger] watch[i]) by {
            if i > 0 {
                assert(watch[i] == rest[i - 1]);
            }
        }
        assert forall|i: int| 0 <= i < r.len() implies acc.contains(#[trigger] r[i]) || watch.contains(r[i]) by {
            if next.contains(r[i]) && !acc.contains(r[i]) {
                let k = choose|k: int| 0 <= k < next.len() && next[k] == r[i];
                assert(k == acc.len());
                assert(watch[0] == r[i]);
            }
            if rest.contains(r[i]) {
                let k = choose|k: int| 0 <= k < rest.len() && rest[k] == r[i];
                assert(watch[k + 1] == r[i]);
            }
        }
        if no_dup(acc) {
            assert(no_dup(next)) by {
                if !acc.contains(w) {
                    assert forall|i: int, j: int| 0 <= i < j < next.len() implies #[trigger] next[i] != #[trigger] next[j] by {
                        if j == acc.len() {
                            assert(next[i] == acc[i]);
                        }
                    }
                }
            }
        }
    } else {
        assert(spec_cycle_codes(acc, watch).take(acc.len() as int) =~= acc);
    }
}

/// Whether per-symbol state survives a watchlist change: the code is still
/// watched or a position in it is held.
pub fn keep_symbol(code: &String, watchlist: &Vec<String>, held: &Vec<String>) -> (r: bool)
    ensures
        r == (strings_view(watchlist@).contains(code@) || strings_view(held@).contains(code@)),
{
    contains_string(watchlist, code) || contains_string(held, code)
}


// ── bar timestamps ──────────────────────────────────────────────

/// Unix seconds of midnight (UTC) of a `YYYYMMDD` date, as chrono parses it;
/// `None` when chrono does not read the text as such a date.
pub uninterp spec fn ymd_midnight_unix_of(date: Seq<char>) -> Option<i64>;

/// Midnight of a `YYYYMMDD` date in Unix seconds.
///
/// Trusted: calls `chrono::NaiveDate::parse_from_str(date, "%Y%m%d")`, then
/// `and_time(NaiveTime::MIN)`, `and_utc()` and `timestamp()`. The contract
/// names the result, and bounds it by chrono's year range (years
/// -262143 to 262142), so that a day's seconds can be added to it.
#[verifier::external_body]
fn ymd_midnight_unix(date: &str) -> (r: Option<i64>)
    ensures
        r == ymd_midnight_unix_of(date@),
        r matches Some(t) ==> -9_000_000_000_000 <= t <= 9_000_000_000_000,
{
    chrono::NaiveDate::parse_from_str(date, "%Y%m%d").ok().map(
        |d| d.and_time(chrono::NaiveTime::MIN).and_utc().timestamp(),
    )
}

/// Whether a byte is an ASCII digit.
pub open spec fn is_digit_byte(b: u8) -> bool {
    48 <= b <= 57
}

/// What std's `u32` parse yields for the two-byte text `a b`: the value of
/// two digits, or of one digit after a `+` sign; `None` for anything else.
pub open spec fn spec_parse2(a: u8, b: u8) -> Option<u32> {
    if is_digit_byte(a) && is_digit_byte(b) {
        Some(((a - 48) * 10 + (b - 48)) as u32)
    } else if a == 43 && is_digit_byte(b) {
        Some((b - 48) as u32)
    } else {
        None
    }
}

/// The two-byte `u32` parse.
fn parse2(a: u8, b: u8) -> (r: Option<u32>)
    ensures
        r == spec_parse2(a, b),
{
    if 48 <= a && a <= 57 && 48 <= b && b <= 57 {
        Some(((a - 48) as u32) * 10 + ((b - 48) as u32))
    } else if a == 43 && 48 <= b && b <= 57 {
        Some((b - 48) as u32)
    } else {
        None
    }
}

/// The UTF-8 bytes of a bar's clock text once its `:` are taken out.
pub open spec fn clock_bytes(time: Seq<char>) -> Seq<u8> {
    encode_utf8(without_char(time, ':'))
}

/// Whether a bar's date text, once its `-` are taken out, is 8 bytes long.
pub open spec fn date_fits(date: Seq<char>) -> bool {
    encode_utf8(without_char(date, '-')).len() == 8
}

/// Hour and minute of a bar's clock bytes: the first two bytes and the
/// next two, each parsed as a `u32`, else 9 and 0; 9:00 when there are fewer
/// than four bytes.
pub open spec fn spec_bar_hm(tb: Seq<u8>) -> (u32, u32) {
    if tb.len() >= 4 {
        (
            match spec_parse2(tb[0], tb[1]) { Some(h) => h, None => 9 },
            match spec_parse2(tb[2], tb[3]) { Some(m) => m, None => 0 },
        )
    } else {
        (9, 0)
    }
}

/// Whether the clock bytes can be cut after their second and fourth bytes
/// (needed only when there are four or more).
pub open spec fn clock_cuttable(time: Seq<char>) -> bool {
    let tb = clock_bytes(time);
    tb.len() >= 4 ==> is_char_boundary(tb, 2) && is_char_boundary(tb, 4)
}

/// A bar's Unix timestamp given midnight of its date (`None` when the date
/// did not parse): midnight plus the hour and minute read from the clock
/// text, when the date text is 8 bytes long, the date parsed and the hour is
/// below 24 and the minute below 60 (the times chrono's `and_hms_opt`
/// accepts); otherwise `now`.
pub open spec fn spec_bar_timestamp(date: Seq<char>, time: Seq<char>, midnight: Option<i64>, now: i64) -> i64 {
    let (h, m) = spec_bar_hm(clock_bytes(time));
    if date_fits(date) && midnight is Some && h < 24 && m < 60 {
        (midnight->0 + h * 3600 + m * 60) as i64
    } else {
        now
    }
}

/// A bar's Unix timestamp from its date and clock texts, given midnight of
/// its date as chrono reads it (`midnight`, which only counts when the date
/// text is 8 bytes long) and the current time `now_kst` to fall back on.
pub fn bar_timestamp(date: &str, time: &str, midnight: Option<i64>, now_kst: i64) -> (r: i64)
    requires
        date_fits(date@) && midnight is Some ==> clock_cuttable(time@),
        midnight matches Some(t) ==> -9_000_000_000_000 <= t <= 9_000_000_000_000,
    ensures
        r == spec_bar_timestamp(date@, time@, midnight, now_kst),
{
    let d = remove_char(date, '-');
    if d.as_str().as_bytes().len() != 8 {
        return now_kst;
    }
    let t = remove_char(time, ':');
    let tb = t.as_str().as_bytes();
    let n = tb.len();
    let (h, m): (u32, u32) = if n >= 4 {
        let hh: u32 = match parse2(tb[0], tb[1]) { Some(v) => v, None => 9 };
        let mm: u32 = match parse2(tb[2], tb[3]) { Some(v) => v, None => 0 };
        (hh, mm)
    } else {
        (9, 0)
    };
    match midnight {
        Some(base) => {
            if h < 24 && m < 60 {
                base + (h as i64) * 3600 + (m as i64) * 60
            } else {
                now_kst
            }
        },
        None => now_kst,
    }
}

/// Whether reading the clock text would cut a character in two: the date
/// fits and parses, and the clock bytes cannot be cut where the hour and
/// minute are read.
pub open spec fn bar_time_unreadable(date: Seq<char>, time: Seq<char>) -> bool {
    date_fits(date) && ymd_midnight_unix_of(without_char(date, '-')) is Some && !clock_cuttable(time)
}

/// A bar's Unix timestamp from its date text (`YYYY-MM-DD` or `YYYYMMDD`)
/// and clock text (`HH:MM...` or `HHMM...`), read as UTC wall-clock time;
/// `now_kst` when they do not give a valid time. `None` exactly when the
/// date is valid but the clock bytes cannot be cut after their second and
/// fourth bytes.
pub fn candle_unix_ts(date: &str, time: &str, now_kst: i64) -> (r: Option<i64>)
    ensures
        bar_time_unreadable(date@, time@) ==> r is None,
        !bar_time_unreadable(date@, time@) ==> r == Some(spec_bar_timestamp(
            date@,
            time@,
            if date_fits(date@) { ymd_midnight_unix_of(without_char(date@, '-')) } else { None },
            now_kst,
        )),
{
    let d = remove_char(date, '-');
    let midnight = if d.as_str().as_bytes().len() == 8 { ymd_midnight_unix(d.as_str()) } else { None };
    let t = remove_char(time, ':');
    let n = t.as_str().as_bytes().len();
    if midnight.is_some() && n >= 4 && !(t.as_str().is_char_boundary(2) && t.as_str().is_char_boundary(4)) {
        return None;
    }
    Some(bar_timestamp(date, time, midnight, now_kst))
}
} // verus!
