//! Request parsing of the backtest endpoints.

use vstd::prelude::*;
use crate::text::{spec_trim, strings_view, trim_chars};
use crate::timeframe::{Timeframe, tf_from_wire};

verus! {

broadcast use vstd::string::group_string_axioms;

/// Timeframe of a backtest request: the given value, else `default`,
/// parsed; daily when that is not a timeframe.
pub fn tf_of(tf: Option<&str>, default: &str) -> (r: Timeframe)
    ensures
        r == match tf_from_wire(
            match tf {
                Some(t) => t@,
                None => default@,
            },
        ) {
            Some(t) => t,
            None => Timeframe::D1,
        },
{
    let v = match tf {
        Some(t) => t,
        None => default,
    };
    match Timeframe::parse(v) {
        Some(t) => t,
        None => Timeframe::D1,
    }
}

/// The trimmed, non-empty codes among the given ones, in order.
pub open spec fn spec_codes_of(items: Seq<Seq<char>>) -> Seq<Seq<char>>
    decreases items.len(),
{
    if items.len() == 0 {
        Seq::empty()
    } else {
        let rest = spec_codes_of(items.drop_last());
        let t = spec_trim(items.last());
        if t.len() > 0 {
            rest.push(t)
        } else {
            rest
        }
    }
}

/// Stock codes of a request: each string item trimmed, blanks dropped.
pub fn codes_of(items: &Vec<String>) -> (r: Vec<String>)
    ensures
        strings_view(r@) == spec_codes_of(strings_view(items@)),
{
    let ghost iv = strings_view(items@);
    let mut out: Vec<String> = Vec::new();
    let mut i: usize = 0;
    assert(iv.take(0) =~= Seq::<Seq<char>>::empty());
    while i < items.len()
        invariant
            iv == strings_view(items@),
            0 <= i <= items@.len(),
            strings_view(out@) == spec_codes_of(iv.take(i as int)),
        decreases items@.len() - i,
    {
        assert(iv.take(i + 1).drop_last() =~= iv.take(i as int));
        assert(iv.take(i + 1).last() == items@[i as int]@);
        let t = trim_chars(items[i].as_str());
        if !t.as_str().is_empty() {
            let ghost before = strings_view(out@);
            let ghost tv = t@;
            out.push(t);
            assert(strings_view(out@) =~= before.push(tv));
        }
        i = i + 1;
    }
    assert(iv.take(items@.len() as int) =~= iv);
    out
}

} // verus!
