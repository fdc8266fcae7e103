//! Integer side of the risk rules: Fibonacci averaging-down quantities, trade
//! sides, the entry gate on open positions, and position quantity
//! bookkeeping.

use vstd::prelude::*;

verus! {

/// Fibonacci numbers 1, 1, 2, 3, 5, 8, … indexed from 1 (index 0 counts as 1).
pub open spec fn spec_fib(n: nat) -> nat
    decreases n,
{
    if n <= 2 {
        1
    } else {
        spec_fib((n - 1) as nat) + spec_fib((n - 2) as nat)
    }
}

/// The Fibonacci number used for level `n` (levels below 1 count as 1).
pub open spec fn fib_of(n: int) -> nat {
    if n < 1 {
        1
    } else {
        spec_fib(n as nat)
    }
}

proof fn lemma_fib_pos_mono(n: nat)
    ensures
        spec_fib(n) >= 1,
        spec_fib(n) <= spec_fib(n + 1),
    decreases n,
{
    if n > 2 {
        lemma_fib_pos_mono((n - 1) as nat);
        lemma_fib_pos_mono((n - 2) as nat);
    } else if n == 2 {
        assert(spec_fib(3) == spec_fib(2) + spec_fib(1));
    }
}

/// Fibonacci 1,1,2,3,5,8,… (n ≥ 1) — the averaging-down quantity multiple.
pub fn fib(n: i64) -> (r: i64)
    requires
        n > i64::MIN,
        n >= 2 ==> spec_fib((n + 1) as nat) <= i64::MAX,
    ensures
        r == fib_of(n as int),
{
    let (mut a, mut b): (i64, i64) = (1, 1);
    let steps: i64 = if n - 1 > 0 {
        n - 1
    } else {
        0
    };
    let mut t: i64 = 0;
    while t < steps
        invariant
            0 <= t <= steps,
            steps == if n - 1 > 0 {
                n - 1
            } else {
                0
            },
            n >= 2 ==> spec_fib((n + 1) as nat) <= i64::MAX,
            a == spec_fib((t + 1) as nat),
            b == spec_fib((t + 2) as nat),
        decreases steps - t,
    {
        proof {
            assert(spec_fib((t + 3) as nat) == spec_fib((t + 2) as nat) + spec_fib((t + 1) as nat));
            lemma_fib_le(((t + 3) as nat), ((n + 1) as nat));
        }
        let next = a + b;
        a = b;
        b = next;
        t = t + 1;
    }
    a
}

proof fn lemma_fib_le(m: nat, n: nat)
    requires
        m <= n,
    ensures
        spec_fib(m) <= spec_fib(n),
    decreases n - m,
{
    if m < n {
        lemma_fib_le(m, (n - 1) as nat);
        lemma_fib_pos_mono((n - 1) as nat);
    }
}

/// Each Fibonacci level is the sum of the two before it, starting 1, 1.
pub proof fn law_fib_recurrence(n: int)
    requires
        n >= 3,
    ensures
        fib_of(n) == fib_of(n - 1) + fib_of(n - 2),
        fib_of(1) == 1,
        fib_of(2) == 1,
{
}

/// Position direction. Shorts are paper-simulation only.
#[derive(Clone, Copy, PartialEq, Eq, Debug, Structural)]
pub enum Side {
    Long,
    Short,
}

/// Wire value of a side.
pub open spec fn side_wire(s: Side) -> Seq<char> {
    match s {
        Side::Long => seq!['l', 'o', 'n', 'g'],
        Side::Short => seq!['s', 'h', 'o', 'r', 't'],
    }
}

impl Side {
    /// `"long"` / `"short"`.
    pub fn as_str(self) -> (s: &'static str)
        ensures
            s@ == side_wire(self),
    {
        proof {
            reveal_strlit("long");
            reveal_strlit("short");
            assert("long"@ =~= side_wire(Side::Long));
            assert("short"@ =~= side_wire(Side::Short));
        }
        match self {
            Side::Long => "long",
            Side::Short => "short",
        }
    }

    /// A `"bearish"` pattern maps to a short, anything else to a long.
    pub fn from_pattern_type(t: &str) -> (s: Side)
        ensures
            s == if t@ == seq!['b', 'e', 'a', 'r', 'i', 's', 'h'] {
                Side::Short
            } else {
                Side::Long
            },
    {
        proof {
            reveal_strlit("bearish");
            assert("bearish"@ =~= seq!['b', 'e', 'a', 'r', 'i', 's', 'h']);
        }
        if crate::text::str_eq(t, "bearish") {
            Side::Short
        } else {
            Side::Long
        }
    }
}

/// Reason strings of the entry gate.
pub open spec fn gate_reason(ok: bool, loss_ok: bool) -> Seq<char> {
    if ok {
        "ok"@
    } else if !loss_ok {
        "daily_loss_limit_reached"@
    } else {
        "max_positions_reached"@
    }
}

/// Gate new entries on the daily-loss check and the number of open positions.
pub fn entry_gate(daily_loss_ok: bool, open_positions: usize, max_positions: usize) -> (r: (
    bool,
    &'static str,
))
    ensures
        r.0 == (daily_loss_ok && open_positions < max_positions),
        r.1@ == gate_reason(r.0, daily_loss_ok),
{
    if !daily_loss_ok {
        return (false, "daily_loss_limit_reached");
    }
    if open_positions >= max_positions {
        return (false, "max_positions_reached");
    }
    (true, "ok")
}

/// Whether another averaging-down level is available: the feature is on, a
/// level is left, and the position is a long (never shorts).
pub fn can_average(enabled: bool, max_levels: i64, side: Side, fib_level: i64) -> (r: bool)
    ensures
        r == (enabled && max_levels > 0 && side == Side::Long && fib_level < max_levels),
{
    if !enabled || max_levels <= 0 {
        return false;
    }
    side == Side::Long && fib_level < max_levels
}

/// Quantity bought at the next averaging level: base quantity × fib(level+1).
pub fn next_fib_qty(base_qty: i64, fib_level: i64) -> (r: i64)
    requires
        i64::MIN + 1 < fib_level < i64::MAX,
        fib_level + 1 >= 2 ==> spec_fib((fib_level + 2) as nat) <= i64::MAX,
        i64::MIN <= base_qty * fib_of(fib_level + 1) <= i64::MAX,
    ensures
        r == base_qty * fib_of(fib_level + 1),
{
    base_qty * fib(fib_level + 1)
}

/// Partial close: the quantity left and whether the position is now closed.
pub fn qty_after_sale(qty: i64, sold: i64) -> (r: (i64, bool))
    requires
        i64::MIN <= qty - sold <= i64::MAX,
    ensures
        r.0 == qty - sold,
        r.1 == (qty - sold <= 0),
{
    let left = qty - sold;
    (left, left <= 0)
}

} // verus!
