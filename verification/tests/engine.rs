use caginalp_trader::broker::TradingMode;
use caginalp_trader::engine::{
    action_note, bar_exit_action, bars_held_after, cooldown_after, cycle_codes, eod_phase, exit_sell_qty,
    hard_stop_action, market_open, missed_bars, mode_label, pick_candidate, plan_symbol, push_bounded,
    reentry_after_exit, reentry_guard_step, scan_window, should_fetch, snapshot_path, stale_after_secs,
    tf_secs, CandidateView, EodPhase, ExitReason, GuardStep, ManageAction, SymbolAction, SymbolView,
};
use caginalp_trader::timeframe::Timeframe;

#[test]
fn stale_guard_tolerates_normal_bar_lag_but_catches_session_gaps() {
    let limit = stale_after_secs(Timeframe::M10);
    assert!(limit > tf_secs(Timeframe::M10) * 2, "normal bar lag must pass");
    assert!(17 * 3600 > limit, "a stale bar after the close must be blocked");
    assert!(2 * 86_400 > stale_after_secs(Timeframe::M1));
}

#[test]
fn daily_timeframe_survives_a_weekend() {
    assert!(stale_after_secs(Timeframe::D1) > 3 * 86_400);
}

#[test]
fn stale_limits_are_exact() {
    assert_eq!(tf_secs(Timeframe::M10), 600);
    assert_eq!(stale_after_secs(Timeframe::M10), 2100);
    assert_eq!(stale_after_secs(Timeframe::M1), 480);
    assert_eq!(stale_after_secs(Timeframe::D1), 432_000);
    assert_eq!(tf_secs(Timeframe::D1), 86_400);
}

#[test]
fn mode_labels_and_snapshot_paths() {
    assert_eq!(mode_label(TradingMode::Live), "실전");
    assert_eq!(mode_label(TradingMode::Paper), "모의");
    assert_eq!(snapshot_path(TradingMode::Paper), "data/engine_state_paper.json");
    assert_eq!(snapshot_path(TradingMode::Live), "data/engine_state_live.json");
}

#[test]
fn eod_phases_follow_the_clock() {
    assert_eq!(eod_phase(true, 15 * 60 + 4), EodPhase::Normal);
    assert_eq!(eod_phase(true, 15 * 60 + 5), EodPhase::NoEntry);
    assert_eq!(eod_phase(true, 15 * 60 + 10), EodPhase::Flatten);
    assert_eq!(eod_phase(true, 16 * 60), EodPhase::NoEntry);
    assert_eq!(eod_phase(false, 15 * 60 + 10), EodPhase::Normal);
}

#[test]
fn market_hours_are_weekday_daytime() {
    assert!(market_open(false, false, false, 9 * 60));
    assert!(market_open(false, false, false, 15 * 60 + 20));
    assert!(!market_open(false, false, false, 15 * 60 + 21));
    assert!(!market_open(false, true, false, 10 * 60));
    assert!(!market_open(false, false, true, 10 * 60));
    assert!(market_open(true, true, true, 3 * 60));
}

#[test]
fn fetch_waits_for_the_next_bar_close() {
    assert!(should_fetch(true, Some(1000), 1001, Timeframe::M5));
    assert!(should_fetch(false, None, 0, Timeframe::M5));
    assert!(!should_fetch(false, Some(1000), 1299, Timeframe::M5));
    assert!(should_fetch(false, Some(1000), 1300, Timeframe::M5));
}

#[test]
fn missed_bars_counts_new_closes_with_a_cap() {
    let ts: Vec<i64> = (0..20).collect();
    assert_eq!(missed_bars(&ts, None), 1);
    assert_eq!(missed_bars(&ts, Some(19)), 0);
    assert_eq!(missed_bars(&ts, Some(17)), 2);
    assert_eq!(missed_bars(&ts, Some(3)), 10);
    assert_eq!(missed_bars(&ts, Some(-5)), 10);
}

#[test]
fn cooldown_and_guard_count_down() {
    assert_eq!(cooldown_after(3, 1), 2);
    assert_eq!(cooldown_after(3, 5), 0);
    assert_eq!(cooldown_after(0, 4), 0);
    assert_eq!(reentry_guard_step(true, 5, 1), GuardStep::Released);
    assert_eq!(reentry_guard_step(false, 0, 1), GuardStep::HoldIndefinitely);
    assert_eq!(reentry_guard_step(false, 5, 2), GuardStep::Hold(3));
    assert_eq!(reentry_guard_step(false, 5, 0), GuardStep::Hold(4));
    assert_eq!(reentry_guard_step(false, 2, 3), GuardStep::Expired);
}

#[test]
fn scan_window_adds_the_confirmation_span() {
    let w = scan_window(0, true, 3);
    assert_eq!((w.win_missed, w.confirm_win, w.scan), (1, 3, 4));
    let w = scan_window(15, false, 0);
    assert_eq!((w.win_missed, w.confirm_win, w.scan), (10, 1, 10));
}

#[test]
fn picks_the_first_actionable_candidate() {
    let n = 10;
    let mut confirms = vec![false; n];
    confirms[9] = true;
    let cands = vec![
        CandidateView { bar: Some(9), confirms: vec![false; n] },
        CandidateView { bar: Some(8), confirms },
    ];
    let p = pick_candidate(&cands, n, 1, 3, true);
    assert_eq!(p.chosen, Some(1));
    assert_eq!(p.pending, Some(0), "the newest pattern still waits for its confirming bar");
    let p = pick_candidate(&cands, n, 1, 3, false);
    assert_eq!(p.chosen, Some(0));
    assert_eq!(p.pending, None);
    let old = vec![CandidateView { bar: Some(2), confirms: vec![false; n] }];
    let p = pick_candidate(&old, n, 1, 3, false);
    assert_eq!(p.chosen, None);
}

#[test]
fn exit_quantities_and_rearming() {
    assert_eq!(exit_sell_qty(ExitReason::TakeProfit, false, Some(3), 10), 3);
    assert_eq!(exit_sell_qty(ExitReason::TakeProfit, false, Some(30), 10), 10);
    assert_eq!(exit_sell_qty(ExitReason::TakeProfit, true, Some(3), 10), 10);
    assert_eq!(exit_sell_qty(ExitReason::StopLoss, false, Some(3), 10), 10);
    assert_eq!(exit_sell_qty(ExitReason::TrailingStop, false, None, 10), 10);
    assert_eq!(ExitReason::EodFlatten.as_str(), "eod_flatten");
    let arm = reentry_after_exit(ExitReason::StopLoss, 3, 1, 20);
    assert_eq!((arm.cooldown, arm.guard_bars), (3, Some(20)));
    let arm = reentry_after_exit(ExitReason::TakeProfit, 3, 1, 20);
    assert_eq!((arm.cooldown, arm.guard_bars), (1, None));
}

#[test]
fn held_position_management() {
    assert_eq!(hard_stop_action(true, true, true, false), Some(ManageAction::Exit(ExitReason::StopLoss)));
    assert_eq!(hard_stop_action(true, true, true, true), Some(ManageAction::AverageDown));
    assert_eq!(hard_stop_action(false, true, true, true), None);
    assert_eq!(bar_exit_action(true, Some(ExitReason::TrailingStop), 0, 1, false), ManageAction::Hold);
    assert_eq!(
        bar_exit_action(true, Some(ExitReason::TrailingStop), 1, 1, false),
        ManageAction::Exit(ExitReason::TrailingStop)
    );
    assert_eq!(bar_exit_action(false, Some(ExitReason::TakeProfit), 5, 1, false), ManageAction::Hold);
    assert_eq!(bars_held_after(4, 2), 6);
    assert_eq!(bars_held_after(4, 0), 4);
}

fn view(held: bool, missed: i64, cooldown: i64) -> SymbolView {
    SymbolView {
        held,
        n_candles: 60,
        bar_age: 120,
        tf: Timeframe::M5,
        missed,
        eod: EodPhase::Normal,
        flatten_stale: false,
        eod_flatten: true,
        cooldown,
    }
}

#[test]
fn symbol_plan_orders_the_cycle_steps() {
    assert_eq!(plan_symbol(SymbolView { n_candles: 20, ..view(false, 1, 0) }).action, SymbolAction::DataShortage);
    assert_eq!(plan_symbol(SymbolView { bar_age: 10_000, ..view(true, 1, 0) }).action, SymbolAction::Stale);
    assert_eq!(plan_symbol(view(true, 1, 0)).action, SymbolAction::Manage);
    assert_eq!(plan_symbol(view(false, 0, 0)).action, SymbolAction::AwaitBarClose);
    let p = plan_symbol(view(false, 1, 3));
    assert_eq!((p.action, p.cooldown), (SymbolAction::Cooldown, Some(2)));
    let p = plan_symbol(view(false, 3, 3));
    assert_eq!((p.action, p.cooldown), (SymbolAction::TryEnter, Some(0)));
    let near = SymbolView { eod: EodPhase::NoEntry, ..view(false, 1, 0) };
    assert_eq!(plan_symbol(near).action, SymbolAction::NoEntryNearClose);
    let carried = SymbolView { flatten_stale: true, ..view(true, 1, 0) };
    assert_eq!(plan_symbol(carried).action, SymbolAction::StaleFlatten);
}

#[test]
fn events_keep_only_the_newest() {
    let mut ev: Vec<u32> = vec![1, 2, 3];
    push_bounded(&mut ev, 4, 3);
    assert_eq!(ev, vec![2, 3, 4]);
    push_bounded(&mut ev, 5, 10);
    assert_eq!(ev, vec![2, 3, 4, 5]);
}

#[test]
fn held_codes_come_first_without_duplicates() {
    let held = vec!["000660".to_string()];
    let watch = vec!["005930".to_string(), "000660".to_string(), "035420".to_string()];
    assert_eq!(cycle_codes(held, &watch), vec!["000660", "005930", "035420"]);
}

#[test]
fn held_codes_are_visited_in_code_order() {
    let held = vec!["035420".to_string(), "000660".to_string(), "005930".to_string()];
    let watch = vec!["068270".to_string(), "005930".to_string(), "000270".to_string()];
    assert_eq!(cycle_codes(held, &watch), vec!["000660", "005930", "035420", "068270", "000270"]);
}

#[test]
fn plan_actions_carry_their_monitor_notes() {
    let (p, d) = action_note(SymbolAction::Stale, 125, 0).unwrap();
    assert_eq!(p, "데이터정지");
    assert_eq!(d, "마지막 마감봉이 125분 전 — 장외/휴장/피드지연으로 판단 보류");
    let (p, d) = action_note(SymbolAction::Cooldown, 0, 3).unwrap();
    assert_eq!((p.as_str(), d.as_str()), ("쿨다운", "재진입 금지 3봉 남음"));
    assert_eq!(action_note(SymbolAction::DataShortage, 0, 0).unwrap().0, "데이터부족");
    assert_eq!(action_note(SymbolAction::NoEntryNearClose, 0, 0).unwrap().1, "장 마감 임박 (15:05~) — 신규 진입 중단");
    assert!(action_note(SymbolAction::TryEnter, 0, 0).is_none());
    assert!(action_note(SymbolAction::Manage, 0, 0).is_none());
}
