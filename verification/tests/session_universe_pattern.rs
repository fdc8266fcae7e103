use caginalp_trader::pattern::{all_patterns, setup_patterns, v2_setup_patterns, PatternDetector};
use caginalp_trader::session::{bars_into_day, day_starts, or_bars_for, range_step};
use caginalp_trader::timeframe::Timeframe;
use caginalp_trader::text::{sort_codes, str_lt};
use caginalp_trader::universe::{name_for, query_text, row_matches, Listing};

#[test]
fn opening_range_lengths() {
    assert_eq!(or_bars_for(Timeframe::M1), 15);
    assert_eq!(or_bars_for(Timeframe::M3), 5);
    assert_eq!(or_bars_for(Timeframe::M5), 3);
    assert_eq!(or_bars_for(Timeframe::M10), 1);
    assert_eq!(or_bars_for(Timeframe::D1), 1);
}

#[test]
fn day_starts_reset_each_date() {
    let dates = vec!["20240101".to_string(), "20240101".to_string(), "20240102".to_string()];
    let ds = day_starts(&dates);
    assert_eq!(ds, vec![0, 0, 2]);
    assert_eq!(bars_into_day(&ds, 1), 1);
    assert_eq!(bars_into_day(&ds, 2), 0);
}

#[test]
fn opening_range_is_known_after_its_window() {
    let s = range_step(0, 2);
    assert!(s.extends && !s.known);
    let s = range_step(1, 2);
    assert!(s.extends && s.known);
    let s = range_step(2, 2);
    assert!(!s.extends && s.known);
    let s = range_step(0, 0);
    assert!(s.extends && s.known);
}

#[test]
fn names_by_code_prefer_the_last_row() {
    let rows = vec![
        Listing { code: "005930".to_string(), name: "삼성전자".to_string() },
        Listing { code: "000660".to_string(), name: "SK하이닉스".to_string() },
        Listing { code: "005930".to_string(), name: "삼성전자(신)".to_string() },
    ];
    assert_eq!(name_for(&rows, "000660"), "SK하이닉스");
    assert_eq!(name_for(&rows, "005930"), "삼성전자(신)");
    assert_eq!(name_for(&rows, "999999"), "");
}

#[test]
fn pattern_catalogs() {
    assert_eq!(all_patterns().len(), 8);
    assert_eq!(all_patterns()[0], "three_white_soldiers");
    assert_eq!(setup_patterns()[5], "bb_squeeze_break_up");
    assert_eq!(v2_setup_patterns()[4], "v2_squeeze_expansion");
}

#[test]
fn scan_windows_and_first_seen() {
    let d = PatternDetector;
    assert_eq!(d.window_ends(10, 3), vec![10, 9, 8]);
    assert_eq!(d.window_ends(4, 5), vec![4, 3]);
    assert_eq!(d.window_ends(2, 5), Vec::<usize>::new());
    assert_eq!(d.window_ends(10, 0), vec![10]);
    assert_eq!(d.vol_period(Timeframe::M5), 10);
    assert_eq!(d.vol_period(Timeframe::D1), 20);
    let k = |a: &str, b: &str| (a.to_string(), b.to_string());
    let keys = vec![k("hammer", "t1"), k("hammer", "t1"), k("hammer", "t2"), k("doji", "t1"), k("doji", "t1")];
    let passes = vec![true, true, false, false, true];
    assert_eq!(d.first_seen(&keys, &passes), vec![true, false, false, false, true]);
}

#[test]
fn universe_queries_are_trimmed_lowercased_and_matched() {
    assert_eq!(query_text("  Samsung "), Some("samsung".to_string()));
    assert_eq!(query_text("   "), None);
    assert!(row_matches("Samsung Electronics", "005930", "samsung"));
    assert!(row_matches("삼성전자", "005930", "0059"));
    assert!(!row_matches("SK hynix", "000660", "samsung"));
}

#[test]
fn codes_sort_in_code_point_order() {
    assert!(str_lt("000660", "005930"));
    assert!(str_lt("00", "000"));
    assert!(!str_lt("005930", "005930"));
    assert!(str_lt("Z", "a"));
    let v = vec!["b".to_string(), "a".to_string(), "가".to_string(), "ab".to_string(), "a".to_string()];
    let mut expected = v.clone();
    expected.sort();
    assert_eq!(sort_codes(v), expected);
}
