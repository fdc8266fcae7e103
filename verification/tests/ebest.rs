use caginalp_trader::candle_fetcher::{
    cache_ttl_secs, cacheable, minute_ts, next_page_wanted, oldest_to_drop, reuse_history,
};
use caginalp_trader::ebest::{
    auth_failure_reason, auth_hint, bns_tp, cancel_succeeded, is_order_tr, is_rate_limited, is_token_error,
    isu_no, minute_cts_key, reserve_slot, squash_ws, token_step, token_ttl_secs, transport_attempts,
    TokenStep,
};
use caginalp_trader::timeframe::Timeframe;

#[test]
fn order_transactions_are_never_retried() {
    assert!(is_order_tr("CSPAT00601"));
    assert!(!is_order_tr("t8452"));
    assert!(!is_order_tr("CSPA"));
    assert_eq!(transport_attempts("CSPAT00801"), 1);
    assert_eq!(transport_attempts("t0425"), 3);
}

#[test]
fn reply_classification() {
    assert!(is_rate_limited(Some("IGW00201")));
    assert!(!is_rate_limited(Some("00000")));
    assert!(!is_rate_limited(None));
    assert!(cancel_succeeded(Some("0000")));
    assert!(!cancel_succeeded(Some("0001")));
    assert!(!cancel_succeeded(None));
    assert!(is_token_error("IGW00124", ""));
    assert!(is_token_error("", "Request has INVALID TOKEN value"));
    assert!(is_token_error("", "token 만료되었습니다"));
    assert!(is_token_error("", "Unauthorized"));
    assert!(!is_token_error("00000", "정상처리"));
}

#[test]
fn token_lifetime_and_steps() {
    assert_eq!(token_ttl_secs(86_400), 86_280);
    assert_eq!(token_ttl_secs(60), 0);
    assert_eq!(token_step(false, true, true, true), TokenStep::UseCached);
    assert_eq!(token_step(true, true, true, true), TokenStep::CoolingDown);
    assert_eq!(token_step(false, false, false, false), TokenStep::MissingCredentials);
    assert_eq!(token_step(true, true, false, true), TokenStep::Request);
}

#[test]
fn order_fields() {
    assert_eq!(isu_no("005930"), "A005930");
    assert_eq!(isu_no("A005930"), "A005930");
    assert_eq!(isu_no(""), "A");
    assert_eq!(bns_tp("buy"), "2");
    assert_eq!(bns_tp("sell"), "1");
}

#[test]
fn auth_failure_text_is_squashed_and_hinted() {
    assert_eq!(squash_ws("  a \n b\t\tc  "), "a b c");
    assert_eq!(squash_ws("   "), "");
    assert_eq!(auth_hint("IGW00999"), "");
    let r = auth_failure_reason(403, "IGW00121", Some("bad   secret"), "");
    assert_eq!(r, "HTTP 403 IGW00121 bad secret AppSecretKey 가 앱키와 짝이 맞지 않습니다. 재발급 시 받은 쌍을 그대로 넣었는지 확인하세요.");
    let r = auth_failure_reason(500, "", None, "  gateway\n  down  ");
    assert_eq!(r, "HTTP 500 gateway down");
    let long_body = "x".repeat(300);
    assert_eq!(auth_failure_reason(502, "E", None, &long_body), format!("HTTP 502 E {}", "x".repeat(200)));
}

#[test]
fn continuation_keys_and_slots() {
    assert_eq!(minute_cts_key(" 20240105 ", " 0930 "), Some(("20240105".to_string(), "0930".to_string())));
    assert_eq!(minute_cts_key("   ", "0930"), None);
    let s = reserve_slot(None, 1000, 1100);
    assert_eq!((s.wait, s.next), (0, 2100));
    let s = reserve_slot(Some(1500), 1000, 1100);
    assert_eq!((s.wait, s.next), (500, 2600));
    let s = reserve_slot(Some(500), 1000, 1100);
    assert_eq!((s.wait, s.next), (0, 2100));
}

#[test]
fn candle_cache_rules() {
    assert_eq!(cache_ttl_secs(Timeframe::M1), 35);
    assert_eq!(cache_ttl_secs(Timeframe::M5), 90);
    assert_eq!(cache_ttl_secs(Timeframe::M3), 90);
    assert_eq!(cache_ttl_secs(Timeframe::D1), 600);
    assert_eq!(cache_ttl_secs(Timeframe::M30), 180);
    assert!(reuse_history(true, 2000, 1000));
    assert!(!reuse_history(true, 500, 1000));
    assert!(!reuse_history(false, 2000, 1000));
    assert!(next_page_wanted(500, 500, 2000, true, 1));
    assert!(!next_page_wanted(0, 500, 2000, true, 1));
    assert!(!next_page_wanted(500, 2000, 2000, true, 1));
    assert!(!next_page_wanted(500, 500, 2000, false, 1));
    assert!(!next_page_wanted(500, 500, 2000, true, 4));
    assert_eq!(oldest_to_drop(2100, 2000), 100);
    assert_eq!(oldest_to_drop(10, 2000), 0);
    assert!(cacheable(3));
    assert!(!cacheable(0));
    assert_eq!(minute_ts("20240105", "0930"), "20240105 0930");
    assert_eq!(minute_ts("", ""), "");
}
