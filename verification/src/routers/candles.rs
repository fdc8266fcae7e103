//! Timeframe handling of the candle endpoints.

use vstd::prelude::*;
use crate::timeframe::{Timeframe, tf_from_wire};

verus! {

broadcast use vstd::string::group_string_axioms;

/// Default timeframe of the candle endpoints.
pub fn default_tf() -> (r: String)
    ensures
        r@ == "5m"@,
{
    String::from_str("5m")
}

/// Parse a timeframe, or the `400` message for an unknown one.
pub fn parse_tf(tf: &str) -> (r: Result<Timeframe, String>)
    ensures
        match tf_from_wire(tf@) {
            Some(t) => r == Ok::<Timeframe, String>(t),
            None => r matches Err(m) && m@ == "invalid timeframe: "@ + tf@,
        },
{
    match Timeframe::parse(tf) {
        Some(t) => Ok(t),
        None => {
            let mut m = String::from_str("invalid timeframe: ");
            m.append(tf);
            Err(m)
        },
    }
}

} // verus!
