//! Timeframe definitions and per-timeframe configuration.

use vstd::prelude::*;
use crate::text::str_eq;

verus! {

/// Supported candle timeframes (1m … 1d).
#[derive(Clone, Copy, PartialEq, Eq, Debug, Hash, Structural)]
pub enum Timeframe {
    M1,
    M3,
    M5,
    M10,
    M15,
    M30,
    H1,
    D1,
}

/// Wire value of a timeframe as a character sequence.
pub open spec fn tf_wire(tf: Timeframe) -> Seq<char> {
    match tf {
        Timeframe::M1 => seq!['1', 'm'],
        Timeframe::M3 => seq!['3', 'm'],
        Timeframe::M5 => seq!['5', 'm'],
        Timeframe::M10 => seq!['1', '0', 'm'],
        Timeframe::M15 => seq!['1', '5', 'm'],
        Timeframe::M30 => seq!['3', '0', 'm'],
        Timeframe::H1 => seq!['6', '0', 'm'],
        Timeframe::D1 => seq!['1', 'd'],
    }
}

/// The timeframe whose wire value is `s`, if any.
pub open spec fn tf_from_wire(s: Seq<char>) -> Option<Timeframe> {
    if s == tf_wire(Timeframe::M1) {
        Some(Timeframe::M1)
    } else if s == tf_wire(Timeframe::M3) {
        Some(Timeframe::M3)
    } else if s == tf_wire(Timeframe::M5) {
        Some(Timeframe::M5)
    } else if s == tf_wire(Timeframe::M10) {
        Some(Timeframe::M10)
    } else if s == tf_wire(Timeframe::M15) {
        Some(Timeframe::M15)
    } else if s == tf_wire(Timeframe::M30) {
        Some(Timeframe::M30)
    } else if s == tf_wire(Timeframe::H1) {
        Some(Timeframe::H1)
    } else if s == tf_wire(Timeframe::D1) {
        Some(Timeframe::D1)
    } else {
        None
    }
}

/// Minutes per bar of an intraday timeframe (0 for daily).
pub open spec fn tf_minutes(tf: Timeframe) -> int {
    match tf {
        Timeframe::M1 => 1,
        Timeframe::M3 => 3,
        Timeframe::M5 => 5,
        Timeframe::M10 => 10,
        Timeframe::M15 => 15,
        Timeframe::M30 => 30,
        Timeframe::H1 => 60,
        Timeframe::D1 => 0,
    }
}

/// Bar length in seconds (a daily bar counts as one calendar day).
pub open spec fn bar_secs(tf: Timeframe) -> int {
    match tf {
        Timeframe::D1 => 86_400,
        _ => tf_minutes(tf) * 60,
    }
}

/// Static configuration for a single timeframe.
pub struct TimeframeConfig {
    pub ncnt: i32,
    pub qrycnt: i32,
    pub trend_lookback: usize,
}

/// (ncnt, qrycnt, trend_lookback) of each timeframe.
pub open spec fn spec_config(tf: Timeframe) -> (int, int, int) {
    match tf {
        Timeframe::M1 => (1, 500, 20),
        Timeframe::M3 => (3, 500, 15),
        Timeframe::M5 => (5, 300, 12),
        Timeframe::M10 => (10, 200, 10),
        Timeframe::M15 => (15, 200, 10),
        Timeframe::M30 => (30, 100, 8),
        Timeframe::H1 => (60, 100, 8),
        Timeframe::D1 => (0, 60, 5),
    }
}

/// Higher timeframes used for multi-timeframe confluence.
pub open spec fn spec_mtf_group(tf: Timeframe) -> Seq<Timeframe> {
    match tf {
        Timeframe::M1 => seq![Timeframe::M5, Timeframe::M15],
        Timeframe::M3 => seq![Timeframe::M15, Timeframe::H1],
        Timeframe::M5 => seq![Timeframe::M15, Timeframe::H1],
        Timeframe::M10 => seq![Timeframe::M30, Timeframe::H1],
        Timeframe::M15 => seq![Timeframe::H1, Timeframe::D1],
        Timeframe::M30 => seq![Timeframe::H1, Timeframe::D1],
        Timeframe::H1 => seq![Timeframe::D1],
        Timeframe::D1 => seq![],
    }
}

/// The eight timeframes, shortest first.
pub open spec fn spec_all_timeframes() -> Seq<Timeframe> {
    seq![
        Timeframe::M1,
        Timeframe::M3,
        Timeframe::M5,
        Timeframe::M10,
        Timeframe::M15,
        Timeframe::M30,
        Timeframe::H1,
        Timeframe::D1,
    ]
}

/// Parsing the wire value of a timeframe gives that timeframe back, and
/// distinct timeframes have distinct wire values.
pub proof fn law_wire_roundtrip(tf: Timeframe, other: Timeframe)
    ensures
        tf_from_wire(tf_wire(tf)) == Some(tf),
        tf != other ==> tf_wire(tf) != tf_wire(other),
{
    assert(tf_wire(Timeframe::M1).len() == 2 && tf_wire(Timeframe::M10).len() == 3);
    assert(tf_wire(Timeframe::M1) != tf_wire(Timeframe::M3)) by { assert(tf_wire(Timeframe::M1)[0] != tf_wire(Timeframe::M3)[0]); }
    assert(tf_wire(Timeframe::M1) != tf_wire(Timeframe::M5)) by { assert(tf_wire(Timeframe::M1)[0] != tf_wire(Timeframe::M5)[0]); }
    assert(tf_wire(Timeframe::M1) != tf_wire(Timeframe::D1)) by { assert(tf_wire(Timeframe::M1)[1] != tf_wire(Timeframe::D1)[1]); }
    assert(tf_wire(Timeframe::M3) != tf_wire(Timeframe::M5)) by { assert(tf_wire(Timeframe::M3)[0] != tf_wire(Timeframe::M5)[0]); }
    assert(tf_wire(Timeframe::M3) != tf_wire(Timeframe::D1)) by { assert(tf_wire(Timeframe::M3)[0] != tf_wire(Timeframe::D1)[0]); }
    assert(tf_wire(Timeframe::M5) != tf_wire(Timeframe::D1)) by { assert(tf_wire(Timeframe::M5)[0] != tf_wire(Timeframe::D1)[0]); }
    assert(tf_wire(Timeframe::M10) != tf_wire(Timeframe::M15)) by { assert(tf_wire(Timeframe::M10)[1] != tf_wire(Timeframe::M15)[1]); }
    assert(tf_wire(Timeframe::M10) != tf_wire(Timeframe::M30)) by { assert(tf_wire(Timeframe::M10)[0] != tf_wire(Timeframe::M30)[0]); }
    assert(tf_wire(Timeframe::M10) != tf_wire(Timeframe::H1)) by { assert(tf_wire(Timeframe::M10)[0] != tf_wire(Timeframe::H1)[0]); }
    assert(tf_wire(Timeframe::M15) != tf_wire(Timeframe::M30)) by { assert(tf_wire(Timeframe::M15)[0] != tf_wire(Timeframe::M30)[0]); }
    assert(tf_wire(Timeframe::M15) != tf_wire(Timeframe::H1)) by { assert(tf_wire(Timeframe::M15)[0] != tf_wire(Timeframe::H1)[0]); }
    assert(tf_wire(Timeframe::M30) != tf_wire(Timeframe::H1)) by { assert(tf_wire(Timeframe::M30)[0] != tf_wire(Timeframe::H1)[0]); }
}

/// Every timeframe in the confluence group of `tf` has strictly longer bars
/// than `tf`, so the group only ever looks upward.
pub proof fn law_mtf_group_is_higher(tf: Timeframe, i: int)
    requires
        0 <= i < spec_mtf_group(tf).len(),
    ensures
        bar_secs(spec_mtf_group(tf)[i]) > bar_secs(tf),
{
}

impl Timeframe {
    /// Wire value used by the API / frontend (e.g. `"5m"`, `"1d"`).
    pub fn as_str(self) -> (s: &'static str)
        ensures
            s@ == tf_wire(self),
    {
        proof {
            reveal_strlit("1m");
            reveal_strlit("3m");
            reveal_strlit("5m");
            reveal_strlit("10m");
            reveal_strlit("15m");
            reveal_strlit("30m");
            reveal_strlit("60m");
            reveal_strlit("1d");
        }
        match self {
            Timeframe::M1 => "1m",
            Timeframe::M3 => "3m",
            Timeframe::M5 => "5m",
            Timeframe::M10 => "10m",
            Timeframe::M15 => "15m",
            Timeframe::M30 => "30m",
            Timeframe::H1 => "60m",
            Timeframe::D1 => "1d",
        }
    }

    /// Parse a wire value; `None` for unknown strings.
    pub fn parse(v: &str) -> (r: Option<Timeframe>)
        ensures
            r == tf_from_wire(v@),
    {
        let all = Timeframe::all();
        let mut i: usize = 0;
        while i < 8
            invariant
                0 <= i <= 8,
                all@ == spec_all_timeframes(),
                forall|j: int| 0 <= j < i ==> v@ != tf_wire(#[trigger] spec_all_timeframes()[j]),
            decreases 8 - i,
        {
            let tf = all[i];
            if str_eq(v, tf.as_str()) {
                return Some(tf);
            }
            i = i + 1;
        }
        None
    }

    /// Every timeframe, shortest bar first.
    pub fn all() -> (r: [Timeframe; 8])
        ensures
            r@ == spec_all_timeframes(),
    {
        let r = [
            Timeframe::M1,
            Timeframe::M3,
            Timeframe::M5,
            Timeframe::M10,
            Timeframe::M15,
            Timeframe::M30,
            Timeframe::H1,
            Timeframe::D1,
        ];
        assert(r@ =~= spec_all_timeframes());
        r
    }

    /// Per-timeframe fetch + trend config (daily uses its own TR, hence ncnt 0).
    pub fn config(self) -> (c: TimeframeConfig)
        ensures
            (c.ncnt as int, c.qrycnt as int, c.trend_lookback as int) == spec_config(self),
    {
        let (ncnt, qrycnt, lookback): (i32, i32, usize) = match self {
            Timeframe::M1 => (1, 500, 20),
            Timeframe::M3 => (3, 500, 15),
            Timeframe::M5 => (5, 300, 12),
            Timeframe::M10 => (10, 200, 10),
            Timeframe::M15 => (15, 200, 10),
            Timeframe::M30 => (30, 100, 8),
            Timeframe::H1 => (60, 100, 8),
            Timeframe::D1 => (0, 60, 5),
        };
        TimeframeConfig { ncnt, qrycnt, trend_lookback: lookback }
    }

    /// Higher timeframes used for MTF confluence.
    pub fn mtf_group(self) -> (g: Vec<Timeframe>)
        ensures
            g@ == spec_mtf_group(self),
    {
        let g = match self {
            Timeframe::M1 => vec![Timeframe::M5, Timeframe::M15],
            Timeframe::M3 => vec![Timeframe::M15, Timeframe::H1],
            Timeframe::M5 => vec![Timeframe::M15, Timeframe::H1],
            Timeframe::M10 => vec![Timeframe::M30, Timeframe::H1],
            Timeframe::M15 => vec![Timeframe::H1, Timeframe::D1],
            Timeframe::M30 => vec![Timeframe::H1, Timeframe::D1],
            Timeframe::H1 => vec![Timeframe::D1],
            Timeframe::D1 => vec![],
        };
        assert(g@ =~= spec_mtf_group(self));
        g
    }
}

} // verus!
