//! Decisions of the trading-control endpoints: query defaults, request
//! clamping, journal views and whether (and how) an engine start goes ahead.

use vstd::prelude::*;
use crate::broker::{mode_wire, TradingMode};
use crate::telegram::spec_digits;
use crate::text::{str_eq, string_from_chars, strings_view};
use crate::timeframe::{Timeframe, tf_from_wire};

verus! {

broadcast use vstd::string::group_string_axioms;

/// Default mode filter of the stats and clear endpoints.
pub fn d_all() -> (r: String)
    ensures
        r@ == "all"@,
{
    String::from_str("all")
}

/// Default mode of the journal endpoint.
pub fn d_paper() -> (r: String)
    ensures
        r@ == "paper"@,
{
    String::from_str("paper")
}

/// Default number of journal rows returned.
pub fn d_journal_limit() -> (r: usize)
    ensures
        r == 100,
{
    100
}

/// Path, under the backend directory, of the saved last start request.
pub fn autostart_path() -> (r: String)
    ensures
        r@ == "data/engine_autostart.json"@,
{
    String::from_str("data/engine_autostart.json")
}

/// The last `limit` items, newest first.
pub open spec fn spec_recent<T>(items: Seq<T>, limit: int) -> Seq<T> {
    let start = if items.len() > limit { items.len() - limit } else { 0 };
    items.skip(start).reverse()
}

/// Keep the last `limit` items and put the newest first.
pub fn recent_newest_first<T>(items: Vec<T>, limit: usize) -> (r: Vec<T>)
    ensures
        r@ == spec_recent(items@, limit as int),
{
    let mut items = items;
    let ghost all = items@;
    let ghost start: int = if all.len() > limit { all.len() - limit } else { 0 };
    let mut out: Vec<T> = Vec::new();
    while items.len() > 0 && out.len() < limit
        invariant
            0 <= start <= all.len(),
            start == if all.len() > limit { all.len() - limit } else { 0int },
            items@ == all.take(items@.len() as int),
            items@.len() + out@.len() == all.len(),
            out@.len() <= limit,
            out@ == all.skip(items@.len() as int).reverse(),
        decreases items@.len(),
    {
        let ghost before = items@;
        let x = items.pop().unwrap();
        out.push(x);
        assert(items@ =~= all.take(items@.len() as int));
        assert(all.skip(items@.len() as int).reverse() =~= all.skip(before.len() as int).reverse().push(x)) by {
            assert(all.skip(items@.len() as int) =~= seq![x] + all.skip(before.len() as int));
        }
    }
    assert(items@.len() == start);
    out
}

/// Mode filter of the stats endpoint: `"all"` means every mode.
pub fn stats_mode(mode: &str) -> (r: Option<&str>)
    ensures
        mode@ == "all"@ ==> r is None,
        mode@ != "all"@ ==> r == Some(mode),
{
    if str_eq(mode, "all") {
        None
    } else {
        Some(mode)
    }
}

/// Averaging depth limit of a request: clamped into 0..=5, since the
/// Fibonacci quantities grow too fast beyond the fifth level.
pub fn clamp_fib_levels(v: i64) -> (r: i64)
    ensures
        r == if v < 0 { 0 } else if v > 5 { 5 } else { v },
{
    if v < 0 {
        0
    } else if v > 5 {
        5
    } else {
        v
    }
}

/// Fixed order quantity of a request: `0` means none.
pub fn fixed_qty_of(v: i64) -> (r: Option<i64>)
    ensures
        r == if v != 0 { Some(v) } else { None::<i64> },
{
    if v != 0 {
        Some(v)
    } else {
        None
    }
}

/// Timeframe of a start request: the given value (`"1m"` when absent)
/// parsed, one minute when that is not a timeframe.
pub fn start_tf(tf: Option<&str>) -> (r: Timeframe)
    ensures
        r == match tf_from_wire(
            match tf {
                Some(t) => t@,
                None => "1m"@,
            },
        ) {
            Some(t) => t,
            None => Timeframe::M1,
        },
{
    let v = match tf {
        Some(t) => t,
        None => "1m",
    };
    match Timeframe::parse(v) {
        Some(t) => t,
        None => Timeframe::M1,
    }
}

/// Market hours may be ignored in paper trading only: in live trading it
/// would place real orders on stale bars and defeat the end-of-day close.
pub fn effective_ignore_hours(mode: TradingMode, requested: bool) -> (r: bool)
    ensures
        r == (requested && mode != TradingMode::Live),
{
    requested && mode != TradingMode::Live
}

/// A live start against an unmet readiness report gets an advisory (it never
/// blocks the start).
pub fn needs_advisory(mode: TradingMode, ready: bool) -> (r: bool)
    ensures
        r == (mode == TradingMode::Live && !ready),
{
    mode == TradingMode::Live && !ready
}

/// What the engine slot holds when a start request arrives.
pub struct EngineSlot {
    pub running: bool,
    pub mode: TradingMode,
    /// Codes of the positions the engine holds.
    pub held: Vec<String>,
}

/// Why a start request is refused.
pub enum StartRefusal {
    /// The request names no symbol.
    WatchlistRequired,
    /// The out-of-sample filter kept no symbol.
    NoneTradeable,
    /// A reset was asked while the engine runs.
    ResetWhileRunning,
    /// The engine runs in another mode.
    ModeBusy(TradingMode),
    /// Replacing the engine would drop its open positions without the
    /// caller's confirmation.
    DiscardUnconfirmed { mode: TradingMode, held: Vec<String> },
}

/// How an accepted start proceeds.
#[derive(Clone, Copy, PartialEq, Eq, Debug, Structural)]
pub enum StartPlan {
    /// The running engine takes the new configuration in place.
    Reconfigure,
    /// The stopped engine of the same mode is reconfigured and resumed,
    /// keeping positions and cash.
    Resume,
    /// A new engine replaces the slot.
    Fresh {
        /// A previous engine is stopped first.
        stop_old: bool,
        /// The mode's saved snapshot is deleted (reset).
        clear_snapshot: bool,
        /// The mode's saved snapshot is restored.
        restore: bool,
    },
}

/// Abstract refusal: (kind 0..=4, mode of the slot engine, held codes).
pub open spec fn refusal_kind(r: StartRefusal) -> int {
    match r {
        StartRefusal::WatchlistRequired => 0,
        StartRefusal::NoneTradeable => 1,
        StartRefusal::ResetWhileRunning => 2,
        StartRefusal::ModeBusy(_) => 3,
        StartRefusal::DiscardUnconfirmed { .. } => 4,
    }
}

/// Whether the existing engine is reused: same mode and no reset.
pub open spec fn spec_reuse(slot: Option<EngineSlot>, mode: TradingMode, reset: bool) -> bool {
    match slot {
        Some(s) => !reset && s.mode == mode,
        None => false,
    }
}

/// Decide a start request. `requested` is the number of symbols asked for,
/// `kept` the number left by the optional out-of-sample filter (`None` when
/// no filter ran), `slot` the engine already present.
pub fn start_plan(
    requested: usize,
    kept: Option<usize>,
    slot: &Option<EngineSlot>,
    mode: TradingMode,
    reset: bool,
    confirm_discard: bool,
) -> (r: Result<StartPlan, StartRefusal>)
    ensures
        requested == 0 ==> r matches Err(StartRefusal::WatchlistRequired),
        requested > 0 && kept == Some(0usize) ==> r matches Err(StartRefusal::NoneTradeable),
        requested > 0 && kept != Some(0usize) ==> match *slot {
            Some(s) => if s.running {
                if reset {
                    r matches Err(StartRefusal::ResetWhileRunning)
                } else if s.mode != mode {
                    r matches Err(StartRefusal::ModeBusy(m)) && m == s.mode
                } else {
                    r == Ok::<StartPlan, StartRefusal>(StartPlan::Reconfigure)
                }
            } else if !reset && s.mode == mode {
                r == Ok::<StartPlan, StartRefusal>(StartPlan::Resume)
            } else if s.held@.len() > 0 && !confirm_discard {
                r matches Err(StartRefusal::DiscardUnconfirmed { mode: m, held: h }) && m == s.mode
                    && strings_view(h@) == strings_view(s.held@)
            } else {
                r == Ok::<StartPlan, StartRefusal>(
                    StartPlan::Fresh { stop_old: true, clear_snapshot: reset, restore: !reset },
                )
            },
            None => r == Ok::<StartPlan, StartRefusal>(
                StartPlan::Fresh { stop_old: false, clear_snapshot: reset, restore: !reset },
            ),
        },
        // A running engine is never replaced by a new one.
        (*slot matches Some(s) && s.running) ==> !(r matches Ok(StartPlan::Fresh { .. })),
        // Held positions are never dropped from tracking without confirmation.
        (r matches Ok(StartPlan::Fresh { stop_old: true, .. })) ==> (*slot matches Some(s) && (s.held@.len()
            == 0 || confirm_discard)),
{
    if requested == 0 {
        return Err(StartRefusal::WatchlistRequired);
    }
    if let Some(k) = kept {
        if k == 0 {
            return Err(StartRefusal::NoneTradeable);
        }
    }
    match slot {
        Some(s) => {
            if s.running {
                if reset {
                    Err(StartRefusal::ResetWhileRunning)
                } else if s.mode != mode {
                    Err(StartRefusal::ModeBusy(s.mode))
                } else {
                    Ok(StartPlan::Reconfigure)
                }
            } else if !reset && s.mode == mode {
                Ok(StartPlan::Resume)
            } else if s.held.len() > 0 && !confirm_discard {
                let mut held: Vec<String> = Vec::new();
                let mut i: usize = 0;
                while i < s.held.len()
                    invariant
                        0 <= i <= s.held@.len(),
                        strings_view(held@) == strings_view(s.held@).take(i as int),
                    decreases s.held@.len() - i,
                {
                    let ghost before = strings_view(held@);
                    held.push(s.held[i].clone());
                    assert(strings_view(held@) =~= before.push(s.held@[i as int]@));
                    assert(strings_view(s.held@).take(i + 1) =~= strings_view(s.held@).take(i as int).push(
                        s.held@[i as int]@,
                    ));
                    i = i + 1;
                }
                assert(strings_view(s.held@).take(s.held@.len() as int) =~= strings_view(s.held@));
                Err(StartRefusal::DiscardUnconfirmed { mode: s.mode, held })
            } else {
                Ok(StartPlan::Fresh { stop_old: true, clear_snapshot: reset, restore: !reset })
            }
        },
        None => Ok(StartPlan::Fresh { stop_old: false, clear_snapshot: reset, restore: !reset }),
    }
}

/// HTTP status of a refusal: `400` for a bad watchlist, `409` for a conflict
/// with the running or held engine.
pub fn refusal_status(r: &StartRefusal) -> (s: u16)
    ensures
        s == if refusal_kind(*r) <= 1 { 400u16 } else { 409u16 },
{
    match r {
        StartRefusal::WatchlistRequired | StartRefusal::NoneTradeable => 400,
        _ => 409,
    }
}

/// Items joined by `", "`.
pub open spec fn join_comma(items: Seq<Seq<char>>) -> Seq<char>
    decreases items.len(),
{
    if items.len() == 0 {
        Seq::empty()
    } else if items.len() == 1 {
        items[0]
    } else {
        join_comma(items.drop_last()) + ", "@ + items.last()
    }
}

fn join_codes(items: &Vec<String>) -> (r: String)
    ensures
        r@ == join_comma(strings_view(items@)),
{
    let ghost iv = strings_view(items@);
    let mut out = String::new();
    let mut i: usize = 0;
    assert(iv.take(0) =~= Seq::<Seq<char>>::empty());
    while i < items.len()
        invariant
            iv == strings_view(items@),
            0 <= i <= items@.len(),
            out@ == join_comma(iv.take(i as int)),
        decreases items@.len() - i,
    {
        let ghost pre = iv.take(i + 1);
        assert(pre.drop_last() =~= iv.take(i as int));
        assert(pre.last() == items@[i as int]@);
        if i > 0 {
            out.append(", ");
        }
        out.append(items[i].as_str());
        proof {
            reveal_strlit(", ");
            if i == 0 {
                assert(out@ =~= pre[0]);
            }
        }
        i = i + 1;
    }
    assert(iv.take(items@.len() as int) =~= iv);
    out
}

/// Message of a refusal, as the API returns it.
pub open spec fn spec_refusal_message(r: StartRefusal) -> Seq<char> {
    match r {
        StartRefusal::WatchlistRequired => "watchlist required"@,
        StartRefusal::NoneTradeable => "OOS 검증을 통과한 종목이 없습니다. 전략/타임프레임을 바꾸거나 require_tradeable 를 끄세요."@,
        StartRefusal::ResetWhileRunning => "리셋하려면 먼저 자동매매를 중지하세요."@,
        StartRefusal::ModeBusy(m) => "이미 "@ + mode_wire(m) + " 모드로 실행 중입니다. 모드를 바꾸려면 먼저 중지하세요."@,
        StartRefusal::DiscardUnconfirmed { mode, held } => "DISCARD_CONFIRM:이전 "@ + mode_wire(mode)
            + " 엔진에 보유 포지션 "@ + spec_digits(held@.len()) + "건("@ + join_comma(strings_view(held@))
            + ")이 있습니다. 새로 시작하면 이 포지션들의 자동 관리(손절/익절)가 중단됩니다."@,
    }
}

/// The text explaining a refusal.
pub fn refusal_message(r: &StartRefusal) -> (m: String)
    ensures
        m@ == spec_refusal_message(*r),
{
    match r {
        StartRefusal::WatchlistRequired => String::from_str("watchlist required"),
        StartRefusal::NoneTradeable => String::from_str(
            "OOS 검증을 통과한 종목이 없습니다. 전략/타임프레임을 바꾸거나 require_tradeable 를 끄세요.",
        ),
        StartRefusal::ResetWhileRunning => String::from_str("리셋하려면 먼저 자동매매를 중지하세요."),
        StartRefusal::ModeBusy(m) => {
            let mut s = String::from_str("이미 ");
            s.append(m.as_str());
            s.append(" 모드로 실행 중입니다. 모드를 바꾸려면 먼저 중지하세요.");
            s
        },
        StartRefusal::DiscardUnconfirmed { mode, held } => {
            let mut s = String::from_str("DISCARD_CONFIRM:이전 ");
            s.append(mode.as_str());
            s.append(" 엔진에 보유 포지션 ");
            let n = string_from_chars(&crate::telegram::decimal_digits(held.len() as u64));
            s.append(n.as_str());
            s.append("건(");
            let codes = join_codes(held);
            s.append(codes.as_str());
            s.append(")이 있습니다. 새로 시작하면 이 포지션들의 자동 관리(손절/익절)가 중단됩니다.");
            s
        },
    }
}

/// Labels of the readiness criteria that did not pass, in order; each row is
/// a criterion's label (when it has one) and whether it passed.
pub open spec fn spec_failed_labels(rows: Seq<(Option<String>, bool)>) -> Seq<Seq<char>>
    decreases rows.len(),
{
    if rows.len() == 0 {
        Seq::empty()
    } else {
        let rest = spec_failed_labels(rows.drop_last());
        if !rows.last().1 && rows.last().0 is Some {
            rest.push(rows.last().0->0@)
        } else {
            rest
        }
    }
}

/// The failed criteria a live-start advisory lists.
pub fn failed_labels(rows: &Vec<(Option<String>, bool)>) -> (r: Vec<String>)
    ensures
        strings_view(r@) == spec_failed_labels(rows@),
{
    let mut out: Vec<String> = Vec::new();
    let mut i: usize = 0;
    assert(rows@.take(0) =~= Seq::<(Option<String>, bool)>::empty());
    assert(strings_view(out@) =~= Seq::<Seq<char>>::empty());
    while i < rows.len()
        invariant
            0 <= i <= rows@.len(),
            strings_view(out@) == spec_failed_labels(rows@.take(i as int)),
        decreases rows@.len() - i,
    {
        assert(rows@.take(i + 1).drop_last() =~= rows@.take(i as int));
        assert(rows@.take(i + 1).last() == rows@[i as int]);
        let (label, passed) = &rows[i];
        if !*passed {
            match label {
                Some(l) => {
                    let ghost before = strings_view(out@);
                    out.push(l.clone());
                    assert(strings_view(out@) =~= before.push(l@));
                },
                None => {},
            }
        }
        i = i + 1;
    }
    assert(rows@.take(rows@.len() as int) =~= rows@);
    out
}

} // verus!
