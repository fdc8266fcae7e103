use caginalp_trader::broker::TradingMode;
use caginalp_trader::routers::backtest::{codes_of, tf_of};
use caginalp_trader::routers::candles::{default_tf, parse_tf};
use caginalp_trader::routers::misc::{d_all as misc_all, d_limit as misc_limit, d_samsung};
use caginalp_trader::routers::patterns::{d_strategy as patterns_strategy, d_tf as patterns_tf, scan_codes};
use caginalp_trader::routers::signals::{
    clamp_recent_bars, clamp_scan_limit, d_limit as signals_limit, d_market, d_recent_bars, d_scan_limit,
    d_strategy as signals_strategy, d_tf as signals_tf,
};
use caginalp_trader::routers::trading::{
    autostart_path, clamp_fib_levels, failed_labels, d_all as trading_all, d_journal_limit, d_paper, effective_ignore_hours,
    fixed_qty_of, needs_advisory, recent_newest_first, refusal_message, refusal_status, start_plan,
    start_tf, stats_mode, EngineSlot, StartPlan, StartRefusal,
};
use caginalp_trader::timeframe::Timeframe;

#[test]
fn query_defaults() {
    assert_eq!(d_samsung(), "005930");
    assert_eq!(misc_all(), "ALL");
    assert_eq!(misc_limit(), 200);
    assert_eq!(default_tf(), "5m");
    assert_eq!(patterns_tf(), "5m");
    assert_eq!(patterns_strategy(), "balanced");
    assert_eq!(d_market(), "ALL");
    assert_eq!(signals_tf(), "5m");
    assert_eq!(signals_strategy(), "balanced");
    assert_eq!(signals_limit(), 30);
    assert_eq!(d_scan_limit(), 120);
    assert_eq!(d_recent_bars(), 20);
    assert_eq!(trading_all(), "all");
    assert_eq!(d_paper(), "paper");
    assert_eq!(d_journal_limit(), 100);
    assert_eq!(autostart_path(), "data/engine_autostart.json");
}

#[test]
fn timeframe_parameters() {
    assert_eq!(parse_tf("15m"), Ok(Timeframe::M15));
    assert_eq!(parse_tf("2m"), Err("invalid timeframe: 2m".to_string()));
    assert_eq!(tf_of(Some("5m"), "1d"), Timeframe::M5);
    assert_eq!(tf_of(None, "10m"), Timeframe::M10);
    assert_eq!(tf_of(Some("bogus"), "5m"), Timeframe::D1);
    assert_eq!(start_tf(None), Timeframe::M1);
    assert_eq!(start_tf(Some("60m")), Timeframe::H1);
    assert_eq!(start_tf(Some("x")), Timeframe::M1);
}

#[test]
fn request_lists_and_clamps() {
    let items = vec![" 005930 ".to_string(), "   ".to_string(), "000660".to_string(), String::new()];
    assert_eq!(codes_of(&items), vec!["005930", "000660"]);
    let many: Vec<String> = (0..60).map(|i| i.to_string()).collect();
    assert_eq!(scan_codes(many).len(), 50);
    assert_eq!(scan_codes(vec!["a".to_string()]), vec!["a"]);
    assert_eq!(clamp_scan_limit(0), 1);
    assert_eq!(clamp_scan_limit(1000), 250);
    assert_eq!(clamp_scan_limit(120), 120);
    assert_eq!(clamp_recent_bars(0), 1);
    assert_eq!(clamp_recent_bars(99), 60);
    assert_eq!(clamp_fib_levels(-2), 0);
    assert_eq!(clamp_fib_levels(9), 5);
    assert_eq!(clamp_fib_levels(3), 3);
    assert_eq!(fixed_qty_of(0), None);
    assert_eq!(fixed_qty_of(7), Some(7));
    assert_eq!(stats_mode("all"), None);
    assert_eq!(stats_mode("live"), Some("live"));
}

#[test]
fn recent_journal_rows_are_newest_first() {
    assert_eq!(recent_newest_first(vec![1, 2, 3, 4, 5], 3), vec![5, 4, 3]);
    assert_eq!(recent_newest_first(vec![1, 2], 40), vec![2, 1]);
    assert_eq!(recent_newest_first(Vec::<u8>::new(), 3), Vec::<u8>::new());
    assert_eq!(recent_newest_first(vec![1, 2], 0), Vec::<i32>::new());
}

#[test]
fn live_mode_overrides() {
    assert!(!effective_ignore_hours(TradingMode::Live, true));
    assert!(effective_ignore_hours(TradingMode::Paper, true));
    assert!(!effective_ignore_hours(TradingMode::Paper, false));
    assert!(needs_advisory(TradingMode::Live, false));
    assert!(!needs_advisory(TradingMode::Live, true));
    assert!(!needs_advisory(TradingMode::Paper, false));
}

fn slot(running: bool, mode: TradingMode, held: &[&str]) -> Option<EngineSlot> {
    Some(EngineSlot { running, mode, held: held.iter().map(|s| s.to_string()).collect() })
}

#[test]
fn start_requests_are_refused_or_planned() {
    let r = start_plan(0, None, &None, TradingMode::Paper, false, false);
    assert!(matches!(r, Err(StartRefusal::WatchlistRequired)));
    let r = start_plan(3, Some(0), &None, TradingMode::Paper, false, false);
    assert!(matches!(r, Err(StartRefusal::NoneTradeable)));
    let r = start_plan(3, None, &slot(true, TradingMode::Paper, &[]), TradingMode::Paper, true, false);
    assert!(matches!(r, Err(StartRefusal::ResetWhileRunning)));
    let r = start_plan(3, None, &slot(true, TradingMode::Paper, &[]), TradingMode::Live, false, false);
    assert!(matches!(r, Err(StartRefusal::ModeBusy(TradingMode::Paper))));
    let r = start_plan(3, Some(2), &slot(true, TradingMode::Live, &[]), TradingMode::Live, false, false);
    assert!(matches!(r, Ok(StartPlan::Reconfigure)));
    let r = start_plan(3, None, &slot(false, TradingMode::Paper, &["005930"]), TradingMode::Paper, false, false);
    assert!(matches!(r, Ok(StartPlan::Resume)));
    let r = start_plan(3, None, &slot(false, TradingMode::Paper, &["005930", "000660"]), TradingMode::Live, false, false);
    match r {
        Err(e) => {
            assert_eq!(refusal_status(&e), 409);
            assert_eq!(
                refusal_message(&e),
                "DISCARD_CONFIRM:이전 paper 엔진에 보유 포지션 2건(005930, 000660)이 있습니다. 새로 시작하면 이 포지션들의 자동 관리(손절/익절)가 중단됩니다."
            );
        }
        Ok(_) => panic!("held positions need a confirmation"),
    }
    let r = start_plan(3, None, &slot(false, TradingMode::Paper, &["005930"]), TradingMode::Live, false, true);
    assert!(matches!(r, Ok(StartPlan::Fresh { stop_old: true, clear_snapshot: false, restore: true })));
    let r = start_plan(3, None, &None, TradingMode::Paper, true, false);
    assert!(matches!(r, Ok(StartPlan::Fresh { stop_old: false, clear_snapshot: true, restore: false })));
}

#[test]
fn refusal_texts_and_statuses() {
    assert_eq!(refusal_message(&StartRefusal::WatchlistRequired), "watchlist required");
    assert_eq!(refusal_status(&StartRefusal::WatchlistRequired), 400);
    assert_eq!(refusal_status(&StartRefusal::NoneTradeable), 400);
    assert_eq!(refusal_status(&StartRefusal::ResetWhileRunning), 409);
    assert_eq!(
        refusal_message(&StartRefusal::ModeBusy(TradingMode::Live)),
        "이미 live 모드로 실행 중입니다. 모드를 바꾸려면 먼저 중지하세요."
    );
    assert_eq!(refusal_message(&StartRefusal::ResetWhileRunning), "리셋하려면 먼저 자동매매를 중지하세요.");
}

#[test]
fn advisory_lists_the_failed_criteria_in_order() {
    let rows = vec![
        (Some("페이퍼 거래 수".to_string()), false),
        (Some("검증 기간(일)".to_string()), true),
        (None, false),
        (Some("승률".to_string()), false),
    ];
    assert_eq!(failed_labels(&rows), vec!["페이퍼 거래 수", "승률"]);
    assert!(failed_labels(&vec![(Some("x".to_string()), true)]).is_empty());
}
