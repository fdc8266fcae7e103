//! Order routing decisions: trading mode, price-type codes, and how a live
//! limit order's fill is reconciled (poll, cancel the remainder, settle).

use vstd::prelude::*;

verus! {

/// Paper (simulated) vs live (real orders).
#[derive(Clone, Copy, PartialEq, Eq, Debug, Structural)]
pub enum TradingMode {
    Paper,
    Live,
}

/// Wire value of a trading mode.
pub open spec fn mode_wire(m: TradingMode) -> Seq<char> {
    match m {
        TradingMode::Paper => seq!['p', 'a', 'p', 'e', 'r'],
        TradingMode::Live => seq!['l', 'i', 'v', 'e'],
    }
}

impl TradingMode {
    /// `"paper"` / `"live"`.
    pub fn as_str(self) -> (s: &'static str)
        ensures
            s@ == mode_wire(self),
    {
        proof {
            reveal_strlit("paper");
            reveal_strlit("live");
        }
        match self {
            TradingMode::Paper => "paper",
            TradingMode::Live => "live",
        }
    }

    /// `"live"` selects live trading; anything else is paper.
    pub fn parse(s: &str) -> (m: TradingMode)
        ensures
            m == (if s@ == mode_wire(TradingMode::Live) {
                TradingMode::Live
            } else {
                TradingMode::Paper
            }),
    {
        proof {
            reveal_strlit("live");
            assert("live"@ =~= mode_wire(TradingMode::Live));
        }
        if crate::text::str_eq(s, "live") {
            TradingMode::Live
        } else {
            TradingMode::Paper
        }
    }
}

/// A mode survives a round trip through its wire value.
pub proof fn law_mode_roundtrip(m: TradingMode)
    ensures
        (if mode_wire(m) == mode_wire(TradingMode::Live) {
            TradingMode::Live
        } else {
            TradingMode::Paper
        }) == m,
{
    if m == TradingMode::Paper {
        assert(mode_wire(TradingMode::Paper)[0] != mode_wire(TradingMode::Live)[0]);
    }
}

/// Broker price-type code (호가유형) of an order type.
pub open spec fn spec_price_type(order_type: Seq<char>) -> Seq<char> {
    if order_type == seq!['m', 'a', 'r', 'k', 'e', 't'] {
        seq!['0', '3']
    } else if order_type == seq!['b', 'e', 's', 't'] {
        seq!['0', '6']
    } else {
        seq!['0', '0']
    }
}

/// Map an order type to the broker's price-type code: market `"03"`, best
/// `"06"`, anything else limit `"00"`.
pub fn resolve_price_type(order_type: &str) -> (r: &'static str)
    ensures
        r@ == spec_price_type(order_type@),
{
    proof {
        reveal_strlit("market");
        reveal_strlit("best");
        reveal_strlit("03");
        reveal_strlit("06");
        reveal_strlit("00");
        assert("market"@ =~= seq!['m', 'a', 'r', 'k', 'e', 't']);
        assert("best"@ =~= seq!['b', 'e', 's', 't']);
        assert("03"@ =~= seq!['0', '3']);
        assert("06"@ =~= seq!['0', '6']);
        assert("00"@ =~= seq!['0', '0']);
    }
    if crate::text::str_eq(order_type, "market") {
        "03"
    } else if crate::text::str_eq(order_type, "best") {
        "06"
    } else {
        "00"
    }
}

/// Where a fill's price comes from: the requested order price, or the
/// average fill price the broker reported.
#[derive(Clone, Copy, PartialEq, Eq, Debug, Structural)]
pub enum FillPrice {
    Requested,
    Reported,
}

/// Result of a fill attempt. `qty` is the quantity actually filled.
#[derive(Clone, Copy, PartialEq, Eq, Debug, Structural)]
pub struct FillOutcome {
    pub ok: bool,
    pub qty: i64,
    pub price: FillPrice,
}

/// One poll of an order's status: filled quantity, whether the reported
/// average fill price is positive, and the unfilled remainder.
#[derive(Clone, Copy, PartialEq, Eq, Debug, Structural)]
pub struct FillStatus {
    pub filled_qty: i64,
    pub price_reported: bool,
    pub remaining: i64,
}

/// Price source of a (partial) fill: the reported price when there is one.
pub open spec fn status_price(st: FillStatus) -> FillPrice {
    if st.price_reported {
        FillPrice::Reported
    } else {
        FillPrice::Requested
    }
}

/// A fill is booked at the broker's reported average price exactly when
/// the status reports one, however much of the order is still open.
pub proof fn law_reported_price_is_booked(st: FillStatus)
    ensures
        st.price_reported ==> status_price(st) == FillPrice::Reported,
        !st.price_reported ==> status_price(st) == FillPrice::Requested,
{
}

/// The outcome of an order that needs no broker round trip: a non-positive
/// quantity is rejected, and a paper order fills at once in full.
pub fn immediate_fill(mode: TradingMode, qty: i64) -> (r: Option<FillOutcome>)
    ensures
        qty <= 0 ==> r == Some(FillOutcome { ok: false, qty: 0, price: FillPrice::Requested }),
        qty > 0 && mode == TradingMode::Paper ==> r == Some(
            FillOutcome { ok: true, qty, price: FillPrice::Requested },
        ),
        qty > 0 && mode == TradingMode::Live ==> r is None,
{
    if qty <= 0 {
        Some(FillOutcome { ok: false, qty: 0, price: FillPrice::Requested })
    } else if mode == TradingMode::Paper {
        Some(FillOutcome { ok: true, qty, price: FillPrice::Requested })
    } else {
        None
    }
}

/// Outcome right after a live order was accepted (or not): a rejected order
/// fills nothing; a market order, or one without an order number to track,
/// counts as filled in full; otherwise the fill must be polled (`None`).
pub fn accepted_fill(accepted: bool, is_market: bool, has_order_no: bool, qty: i64) -> (r: Option<
    FillOutcome,
>)
    ensures
        !accepted ==> r == Some(FillOutcome { ok: false, qty: 0, price: FillPrice::Requested }),
        accepted && (is_market || !has_order_no) ==> r == Some(
            FillOutcome { ok: true, qty, price: FillPrice::Requested },
        ),
        accepted && !is_market && has_order_no ==> r is None,
{
    if !accepted {
        Some(FillOutcome { ok: false, qty: 0, price: FillPrice::Requested })
    } else if is_market || !has_order_no {
        Some(FillOutcome { ok: true, qty, price: FillPrice::Requested })
    } else {
        None
    }
}

/// A poll that shows the order completely filled ends the wait.
pub fn complete_fill(st: FillStatus) -> (r: Option<FillOutcome>)
    ensures
        (st.remaining <= 0 && st.filled_qty > 0) ==> r == Some(
            FillOutcome { ok: true, qty: st.filled_qty, price: status_price(st) },
        ),
        !(st.remaining <= 0 && st.filled_qty > 0) ==> r is None,
        r matches Some(o) ==> (o.price == FillPrice::Reported <==> st.price_reported),
{
    if st.remaining <= 0 && st.filled_qty > 0 {
        Some(
            FillOutcome {
                ok: true,
                qty: st.filled_qty,
                price: if st.price_reported {
                    FillPrice::Reported
                } else {
                    FillPrice::Requested
                },
            },
        )
    } else {
        None
    }
}

/// After the polls time out: the quantity to cancel (the last reported
/// remainder, or the whole order when no poll succeeded), if any.
pub fn remainder_to_cancel(last: Option<FillStatus>, qty: i64) -> (r: Option<i64>)
    ensures
        ({
            let rem = match last {
                Some(st) => st.remaining,
                None => qty,
            };
            if rem > 0 {
                r == Some(rem)
            } else {
                r is None
            }
        }),
{
    let rem = match last {
        Some(st) => st.remaining,
        None => qty,
    };
    if rem > 0 {
        Some(rem)
    } else {
        None
    }
}

/// Final settlement: whatever filled counts (a partial fill), nothing filled
/// means the order failed.
pub fn settle_fill(last: Option<FillStatus>) -> (r: FillOutcome)
    ensures
        (last matches Some(st) && st.filled_qty > 0) ==> r == (FillOutcome {
            ok: true,
            qty: last->0.filled_qty,
            price: status_price(last->0),
        }),
        !(last matches Some(st) && st.filled_qty > 0) ==> r == (FillOutcome {
            ok: false,
            qty: 0,
            price: FillPrice::Requested,
        }),
        r.ok ==> (r.price == FillPrice::Reported <==> last->0.price_reported),
{
    match last {
        Some(st) => {
            if st.filled_qty > 0 {
                FillOutcome {
                    ok: true,
                    qty: st.filled_qty,
                    price: if st.price_reported {
                        FillPrice::Reported
                    } else {
                        FillPrice::Requested
                    },
                }
            } else {
                FillOutcome { ok: false, qty: 0, price: FillPrice::Requested }
            }
        },
        None => FillOutcome { ok: false, qty: 0, price: FillPrice::Requested },
    }
}

} // verus!
