use caginalp_trader::broker::{
    accepted_fill, complete_fill, immediate_fill, remainder_to_cancel, resolve_price_type, settle_fill,
    FillOutcome, FillPrice, FillStatus, TradingMode,
};
use caginalp_trader::risk::{can_average, entry_gate, fib, next_fib_qty, qty_after_sale, Side};

#[test]
fn trading_mode_wire_values() {
    assert_eq!(TradingMode::Paper.as_str(), "paper");
    assert_eq!(TradingMode::Live.as_str(), "live");
    assert_eq!(TradingMode::parse("live"), TradingMode::Live);
    assert_eq!(TradingMode::parse("LIVE"), TradingMode::Paper);
    assert_eq!(TradingMode::parse(""), TradingMode::Paper);
}

#[test]
fn price_type_codes() {
    assert_eq!(resolve_price_type("market"), "03");
    assert_eq!(resolve_price_type("best"), "06");
    assert_eq!(resolve_price_type("limit"), "00");
    assert_eq!(resolve_price_type(""), "00");
}

#[test]
fn paper_fills_instantly_and_non_positive_quantities_are_rejected() {
    let ok = immediate_fill(TradingMode::Paper, 10).unwrap();
    assert!(ok.ok && ok.qty == 10);
    let bad = immediate_fill(TradingMode::Paper, 0).unwrap();
    assert!(!bad.ok && bad.qty == 0);
    assert!(!immediate_fill(TradingMode::Live, -3).unwrap().ok);
    assert_eq!(immediate_fill(TradingMode::Live, 5), None);
}

#[test]
fn live_fill_reconciliation() {
    assert_eq!(accepted_fill(false, true, true, 5), Some(FillOutcome { ok: false, qty: 0, price: FillPrice::Requested }));
    assert_eq!(accepted_fill(true, true, true, 5), Some(FillOutcome { ok: true, qty: 5, price: FillPrice::Requested }));
    assert_eq!(accepted_fill(true, false, true, 5), None);
    let done = FillStatus { filled_qty: 5, price_reported: true, remaining: 0 };
    assert_eq!(complete_fill(done), Some(FillOutcome { ok: true, qty: 5, price: FillPrice::Reported }));
    let partial = FillStatus { filled_qty: 2, price_reported: false, remaining: 3 };
    assert_eq!(complete_fill(partial), None);
    assert_eq!(remainder_to_cancel(Some(partial), 5), Some(3));
    assert_eq!(remainder_to_cancel(None, 5), Some(5));
    assert_eq!(remainder_to_cancel(Some(done), 5), None);
    assert_eq!(settle_fill(Some(partial)), FillOutcome { ok: true, qty: 2, price: FillPrice::Requested });
    assert_eq!(settle_fill(None), FillOutcome { ok: false, qty: 0, price: FillPrice::Requested });
}

#[test]
fn fibonacci_sequence_values() {
    assert_eq!(fib(0), 1);
    assert_eq!(fib(1), 1);
    assert_eq!(fib(2), 1);
    assert_eq!(fib(5), 5);
    assert_eq!(fib(10), 55);
    assert_eq!(fib(-3), 1);
    assert_eq!(fib(20), fib(19) + fib(18));
}

#[test]
fn averaging_is_long_only_and_level_bounded() {
    assert!(can_average(true, 3, Side::Long, 0));
    assert!(!can_average(true, 3, Side::Short, 0));
    assert!(!can_average(true, 3, Side::Long, 3));
    assert!(!can_average(false, 3, Side::Long, 0));
    assert!(!can_average(true, 0, Side::Long, 0));
    assert_eq!(next_fib_qty(10, 0), 10);
    assert_eq!(next_fib_qty(10, 2), 20);
    assert_eq!(next_fib_qty(10, 4), 50);
}

#[test]
fn sides_and_entry_gate() {
    assert_eq!(Side::Long.as_str(), "long");
    assert_eq!(Side::Short.as_str(), "short");
    assert_eq!(Side::from_pattern_type("bearish"), Side::Short);
    assert_eq!(Side::from_pattern_type("bullish"), Side::Long);
    assert_eq!(entry_gate(true, 2, 3), (true, "ok"));
    assert_eq!(entry_gate(false, 0, 3), (false, "daily_loss_limit_reached"));
    assert_eq!(entry_gate(true, 3, 3), (false, "max_positions_reached"));
    assert_eq!(qty_after_sale(10, 4), (6, false));
    assert_eq!(qty_after_sale(10, 10), (0, true));
}
