use caginalp_trader::engine::{bar_timestamp, candle_unix_ts, day_step};
use caginalp_trader::text::remove_char;
use caginalp_trader::universe::{days_between, newest_stamp, snapshot_age_days};

const JAN2_MIDNIGHT: i64 = 1_704_153_600;

#[test]
fn bar_time_reads_date_hour_and_minute() {
    assert_eq!(candle_unix_ts("2024-01-02", "09:30", 5), Some(JAN2_MIDNIGHT + 9 * 3600 + 30 * 60));
    assert_eq!(candle_unix_ts("20240102", "1415", 5), Some(JAN2_MIDNIGHT + 14 * 3600 + 15 * 60));
    assert_eq!(candle_unix_ts("2024-01-02", "15:20:00", 5), Some(JAN2_MIDNIGHT + 15 * 3600 + 20 * 60));
}

#[test]
fn bar_time_defaults_to_nine_o_clock() {
    assert_eq!(candle_unix_ts("2024-01-02", "12", 5), Some(JAN2_MIDNIGHT + 9 * 3600));
    assert_eq!(candle_unix_ts("2024-01-02", "ab:cd", 5), Some(JAN2_MIDNIGHT + 9 * 3600));
    assert_eq!(candle_unix_ts("2024-01-02", "+5:07", 5), Some(JAN2_MIDNIGHT + 5 * 3600 + 7 * 60));
}

#[test]
fn bar_time_falls_back_to_now() {
    assert_eq!(candle_unix_ts("2024-13-02", "09:30", 77), Some(77));
    assert_eq!(candle_unix_ts("2024-1-02", "09:30", 77), Some(77));
    assert_eq!(candle_unix_ts("2024-01-02", "25:00", 77), Some(77));
    assert_eq!(candle_unix_ts("2024-01-02", "09:60", 77), Some(77));
}

#[test]
fn bar_time_refuses_a_clock_cut_inside_a_character() {
    assert_eq!(candle_unix_ts("2024-01-02", "1가3", 77), None);
    assert_eq!(candle_unix_ts("2024-1-02", "1가3", 77), Some(77));
}

#[test]
fn bar_timestamp_adds_the_clock_to_midnight() {
    assert_eq!(bar_timestamp("2024-01-02", "10:15", Some(JAN2_MIDNIGHT), 0), JAN2_MIDNIGHT + 36_900);
    assert_eq!(bar_timestamp("2024-01-02", "10:15", None, 3), 3);
}

#[test]
fn snapshot_age_counts_whole_days() {
    let stamp = "2024-01-01T00:00:00+09:00";
    let t = 1_704_034_800;
    assert_eq!(snapshot_age_days(stamp, t + 3 * 86_400 + 5, 0), 3);
    assert_eq!(snapshot_age_days(stamp, t + 86_399, 999_999_999), 0);
    assert_eq!(snapshot_age_days(stamp, t - 86_400 - 43_200, 0), -1);
    assert_eq!(snapshot_age_days("not a time", t, 0), -1);
    assert_eq!(snapshot_age_days("", t, 0), -1);
}

#[test]
fn snapshot_age_keeps_fractions_of_a_second() {
    let stamp = "2024-01-01T00:00:00.5Z";
    assert_eq!(snapshot_age_days(stamp, 1_704_067_200 + 86_400, 0), 0);
    assert_eq!(snapshot_age_days(stamp, 1_704_067_200 + 86_400, 500_000_000), 1);
}

#[test]
fn days_between_rounds_toward_zero() {
    assert_eq!(days_between(259_205, 0, 0, 0), 3);
    assert_eq!(days_between(0, 0, 172_800, 500), -2);
    assert_eq!(days_between(0, 0, 172_801, 0), -2);
    assert_eq!(days_between(86_399, 999_999_999, 0, 0), 0);
}

#[test]
fn newest_stamp_skips_rows_without_code() {
    let rows = vec![
        ("005930".to_string(), " 2024-01-02T09:00:00+09:00 ".to_string()),
        ("  ".to_string(), "2025-01-01T00:00:00+09:00".to_string()),
        ("000660".to_string(), "2024-01-03T09:00:00+09:00".to_string()),
        ("035420".to_string(), "2024-01-01T09:00:00+09:00".to_string()),
    ];
    assert_eq!(newest_stamp(&rows), "2024-01-03T09:00:00+09:00");
    assert_eq!(newest_stamp(&vec![]), "");
}

#[test]
fn day_step_resets_once_per_new_day() {
    let s = day_step(true, 100, 101);
    assert!(!s.stop && s.reset_day && s.day == 101);
    let s = day_step(true, 101, 101);
    assert!(!s.stop && !s.reset_day && s.day == 101);
    let s = day_step(false, 101, 102);
    assert!(s.stop && !s.reset_day && s.day == 101);
}

#[test]
fn remove_char_takes_out_every_occurrence() {
    assert_eq!(remove_char("2024-01-02", '-'), "20240102");
    assert_eq!(remove_char("::", ':'), "");
    assert_eq!(remove_char("0930", ':'), "0930");
}
