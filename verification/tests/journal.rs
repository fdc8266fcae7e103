use caginalp_trader::journal::{needs_migration, TradeJournal};

#[test]
fn jsonl_content_is_read_line_by_line() {
    let content = "{\"mode\":\"paper\",\"code\":\"005930\"}\n\n   \n{\"mode\":\"live\",\"code\":\"000660\"}\r\nnot json\n{\"code\":\"x\"}\n";
    let j = TradeJournal::load(content);
    assert_eq!(j.len(), 3);
    assert_eq!(j.by_mode("paper"), vec!["{\"code\":\"005930\",\"mode\":\"paper\"}"]);
    assert_eq!(j.by_mode("live"), vec!["{\"code\":\"000660\",\"mode\":\"live\"}"]);
    assert_eq!(j.all().len(), 3);
    assert!(!needs_migration(content));
}

#[test]
fn legacy_array_is_read_and_flagged_for_migration() {
    let content = "  [ {\"mode\": \"paper\", \"pnl\": 1}, {\"mode\": \"live\"} ]";
    assert!(needs_migration(content));
    let j = TradeJournal::load(content);
    assert_eq!(j.all(), vec!["{\"mode\":\"paper\",\"pnl\":1}", "{\"mode\":\"live\"}"]);
    assert_eq!(j.to_content(), "{\"mode\":\"paper\",\"pnl\":1}\n{\"mode\":\"live\"}\n");
    let broken = "[ not json";
    assert!(!needs_migration(broken));
    assert_eq!(TradeJournal::load(broken).len(), 0);
}

#[test]
fn record_appends_and_by_mode_filters() {
    let mut j = TradeJournal::new();
    j.record("paper", "{\"a\":1}".to_string());
    j.record("live", "{\"b\":2}".to_string());
    j.record("paper", "{\"c\":3}".to_string());
    assert_eq!(j.by_mode("paper"), vec!["{\"a\":1}", "{\"c\":3}"]);
    assert_eq!(j.by_mode("live"), vec!["{\"b\":2}"]);
    assert_eq!(j.by_mode("other"), Vec::<String>::new());
    assert_eq!(j.to_content(), "{\"a\":1}\n{\"b\":2}\n{\"c\":3}\n");
}

#[test]
fn clear_mode_removes_only_that_mode() {
    let mut j = TradeJournal::new();
    j.record("paper", "p1".to_string());
    j.record("live", "l1".to_string());
    j.record("paper", "p2".to_string());
    j.record("live", "l2".to_string());
    let removed = j.clear_mode("paper");
    assert_eq!(removed, 2);
    assert_eq!(j.all(), vec!["l1", "l2"]);
    assert_eq!(j.by_mode("paper").len(), 0);
    assert_eq!(j.clear_mode("paper"), 0);
    j.clear();
    assert_eq!(j.len(), 0);
    assert_eq!(j.to_content(), "");
}

#[test]
fn reload_of_written_content_gives_the_same_records() {
    let mut j = TradeJournal::new();
    j.record("paper", "{\"mode\":\"paper\",\"qty\":3}".to_string());
    j.record("live", "{\"mode\":\"live\",\"qty\":1}".to_string());
    let back = TradeJournal::load(&j.to_content());
    assert_eq!(back.all(), j.all());
    assert_eq!(back.by_mode("live"), j.by_mode("live"));
}
