use caginalp_trader::backtest::{
    fold_warmup, minute_of_day, oos_layout, oos_test_bars, resample_layout, resample_step,
    walk_forward_split, MIN_OOS_SIGNALS, OOS_FOLDS, WARMUP_BARS,
};
use caginalp_trader::timeframe::Timeframe;

#[test]
fn walk_forward_yields_four_equal_test_folds() {
    let splits = walk_forward_split(200, OOS_FOLDS);
    assert_eq!(splits.len(), 4);
    for (a, b) in &splits {
        assert_eq!(b - a, 40, "test bars per fold = n/(folds+1)");
    }
    for w in splits.windows(2) {
        assert!(w[0].1 <= w[1].0, "test windows must not overlap");
    }
    assert_eq!(oos_test_bars(200), 160, "total test bars = n * folds/(folds+1)");
}

#[test]
fn short_series_falls_back_to_a_single_split() {
    let splits = walk_forward_split(60, OOS_FOLDS);
    assert_eq!(splits.len(), 1);
    assert_eq!(splits[0].1 - splits[0].0, 30);
    assert_eq!(oos_layout(60), (1, 30));
    assert_eq!(oos_test_bars(60), 30);
}

#[test]
fn layout_matches_actual_split_for_every_timeframe_budget() {
    for n in [500, 300, 200, 100, 60] {
        let splits = walk_forward_split(n, OOS_FOLDS);
        let (folds, fold_bars) = oos_layout(n);
        assert_eq!(splits.len(), folds, "n={n} fold count");
        assert_eq!(splits.iter().map(|(a, b)| b - a).min().unwrap(), fold_bars, "n={n} fold length");
    }
}

#[test]
fn hold_bars_cap_the_reachable_oos_sample_count() {
    let test_bars = oos_test_bars(200);
    assert_eq!(test_bars / 25, 6, "25-bar holds allow at most 6 trades");
    assert_eq!(test_bars / 60, 2, "60-bar holds allow at most 2 trades");
    assert_eq!(test_bars / MIN_OOS_SIGNALS as usize, 16);
    assert_eq!(oos_test_bars(500) / MIN_OOS_SIGNALS as usize, 40);
}

#[test]
fn a_fold_alone_leaves_almost_no_bars_after_indicator_warmup() {
    let (folds, fold_bars) = oos_layout(300);
    assert_eq!((folds, fold_bars), (OOS_FOLDS, 60));
    let usable = fold_bars.saturating_sub(WARMUP_BARS);
    assert!(usable <= 5, "fold {fold_bars} leaves {usable} usable bars");

    let (a, b) = (120usize, 180usize);
    let w = a.saturating_sub(WARMUP_BARS);
    let skip = a - w;
    assert_eq!(skip, WARMUP_BARS);
    assert_eq!((b - w) - skip, b - a, "scored bars must equal the fold length");

    let w0 = 10usize.saturating_sub(WARMUP_BARS);
    assert_eq!(w0, 0);
    assert_eq!(10 - w0, 10, "skip is whatever history exists");
}

#[test]
fn fold_warmup_prepends_history_and_skips_it() {
    assert_eq!(fold_warmup(120), (65, 55));
    assert_eq!(fold_warmup(10), (0, 10));
    assert_eq!(fold_warmup(55), (0, 55));
}

#[test]
fn walk_forward_splits_are_exact_for_five_hundred_bars() {
    let splits = walk_forward_split(500, OOS_FOLDS);
    assert_eq!(splits, vec![(100, 200), (200, 300), (300, 400), (400, 500)]);
    assert_eq!(oos_layout(500), (4, 100));
    assert_eq!(oos_test_bars(500), 400);
}

#[test]
fn minute_of_day_reads_the_first_four_digits() {
    assert_eq!(minute_of_day("0905"), 545);
    assert_eq!(minute_of_day("09:05:00"), 545);
    assert_eq!(minute_of_day("153000"), 930);
    assert_eq!(minute_of_day("915"), 0);
    assert_eq!(minute_of_day(""), 0);
}

#[test]
fn resample_layout_groups_minutes_and_counts_only_closed_bars() {
    let dates: Vec<String> = (0..12).map(|_| "20240101".to_string()).collect();
    let times: Vec<String> = (0..12).map(|i| format!("09{:02}", i)).collect();
    let step = resample_step(Timeframe::M5);
    assert_eq!(step, 5);
    let layout = resample_layout(&dates, &times, step);
    assert_eq!(layout.starts.iter().filter(|s| **s).count(), 3);
    assert!(layout.starts[0] && layout.starts[5] && layout.starts[10]);
    assert_eq!(layout.completed[0], 0);
    assert_eq!(layout.completed[4], 0, "the 09:00 bar is still forming at 09:04");
    assert_eq!(layout.completed[5], 1, "entering 09:05 closes the 09:00 bar");
    assert_eq!(layout.completed[10], 2);
}

#[test]
fn daily_resample_groups_by_date_only() {
    assert_eq!(resample_step(Timeframe::D1), 0);
    let dates = vec!["20240101".to_string(), "20240101".to_string(), "20240102".to_string()];
    let times = vec!["0900".to_string(), "1500".to_string(), "0900".to_string()];
    let layout = resample_layout(&dates, &times, 0);
    assert_eq!(layout.starts, vec![true, false, true]);
    assert_eq!(layout.completed, vec![0, 0, 1]);
}
