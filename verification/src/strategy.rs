//! Strategy vocabulary: the weighted signal sources, the two preset
//! generations, and the pattern lists a strategy enables.

use vstd::prelude::*;
use crate::text::strings_view;
use crate::text::str_eq;
use crate::timeframe::{Timeframe, tf_from_wire};

verus! {

/// The six weighted signal sources contributing to the composite score.
#[derive(Clone, Copy, PartialEq, Eq, Debug, Hash, Structural)]
pub enum Source {
    Rule,
    Atr,
    Volume,
    Mtf,
    Ml,
    Gaf,
}

/// Wire name of a source.
pub open spec fn source_wire(s: Source) -> Seq<char> {
    match s {
        Source::Rule => seq!['r', 'u', 'l', 'e'],
        Source::Atr => seq!['a', 't', 'r'],
        Source::Volume => seq!['v', 'o', 'l', 'u', 'm', 'e'],
        Source::Mtf => seq!['m', 't', 'f'],
        Source::Ml => seq!['m', 'l'],
        Source::Gaf => seq!['g', 'a', 'f'],
    }
}

/// The source whose wire name is `s`, if any.
pub open spec fn source_from_wire(s: Seq<char>) -> Option<Source> {
    if s == source_wire(Source::Rule) {
        Some(Source::Rule)
    } else if s == source_wire(Source::Atr) {
        Some(Source::Atr)
    } else if s == source_wire(Source::Volume) {
        Some(Source::Volume)
    } else if s == source_wire(Source::Mtf) {
        Some(Source::Mtf)
    } else if s == source_wire(Source::Ml) {
        Some(Source::Ml)
    } else if s == source_wire(Source::Gaf) {
        Some(Source::Gaf)
    } else {
        None
    }
}

/// The sources in serialization order.
pub open spec fn spec_all_sources() -> Seq<Source> {
    seq![Source::Rule, Source::Atr, Source::Volume, Source::Mtf, Source::Ml, Source::Gaf]
}

impl Source {
    /// Wire name (`"rule"`, `"atr"`, …).
    pub fn as_str(self) -> (s: &'static str)
        ensures
            s@ == source_wire(self),
    {
        proof {
            reveal_strlit("rule");
            reveal_strlit("atr");
            reveal_strlit("volume");
            reveal_strlit("mtf");
            reveal_strlit("ml");
            reveal_strlit("gaf");
        }
        match self {
            Source::Rule => "rule",
            Source::Atr => "atr",
            Source::Volume => "volume",
            Source::Mtf => "mtf",
            Source::Ml => "ml",
            Source::Gaf => "gaf",
        }
    }

    /// Parse a wire name; `None` for unknown names.
    pub fn parse(v: &str) -> (r: Option<Source>)
        ensures
            r == source_from_wire(v@),
    {
        let all = Source::all();
        let mut i: usize = 0;
        while i < 6
            invariant
                0 <= i <= 6,
                all@ == spec_all_sources(),
                forall|j: int| 0 <= j < i ==> v@ != source_wire(#[trigger] spec_all_sources()[j]),
            decreases 6 - i,
        {
            let s = all[i];
            if str_eq(v, s.as_str()) {
                return Some(s);
            }
            i = i + 1;
        }
        None
    }

    /// Iteration order for serializing weights.
    pub fn all() -> (r: [Source; 6])
        ensures
            r@ == spec_all_sources(),
    {
        let r = [Source::Rule, Source::Atr, Source::Volume, Source::Mtf, Source::Ml, Source::Gaf];
        assert(r@ =~= spec_all_sources());
        r
    }
}

/// Parsing the wire name of a source gives that source back.
pub proof fn law_source_roundtrip(s: Source)
    ensures
        source_from_wire(source_wire(s)) == Some(s),
{
    let w = source_wire(s);
    if s != Source::Rule {
        assert(w != source_wire(Source::Rule)) by {
            if w.len() == 4 {
                assert(w[0] != source_wire(Source::Rule)[0]);
            }
        }
    }
    if s != Source::Atr {
        assert(w != source_wire(Source::Atr)) by {
            if w.len() == 3 {
                assert(w[0] != source_wire(Source::Atr)[0]);
            }
        }
    }
    if s != Source::Volume {
        assert(w.len() != 6);
    }
    if s != Source::Mtf {
        assert(w != source_wire(Source::Mtf)) by {
            if w.len() == 3 {
                assert(w[0] != source_wire(Source::Mtf)[0] || w[1] != source_wire(Source::Mtf)[1]);
            }
        }
    }
    if s != Source::Ml {
        assert(w.len() != 2);
    }
}

/// Which design generation a strategy belongs to.
#[derive(Clone, Copy, PartialEq, Eq, Debug, Structural)]
pub enum Generation {
    Legacy,
    V2,
}

/// Wire name of a generation.
pub open spec fn generation_wire(g: Generation) -> Seq<char> {
    match g {
        Generation::Legacy => seq!['l', 'e', 'g', 'a', 'c', 'y'],
        Generation::V2 => seq!['v', '2'],
    }
}

/// The generation whose wire name is `s`, if any.
pub open spec fn generation_from_wire(s: Seq<char>) -> Option<Generation> {
    if s == generation_wire(Generation::Legacy) {
        Some(Generation::Legacy)
    } else if s == generation_wire(Generation::V2) {
        Some(Generation::V2)
    } else {
        None
    }
}

impl Generation {
    /// Wire name (`"legacy"` or `"v2"`).
    pub fn as_str(self) -> (s: &'static str)
        ensures
            s@ == generation_wire(self),
    {
        proof {
            reveal_strlit("legacy");
            reveal_strlit("v2");
        }
        match self {
            Generation::Legacy => "legacy",
            Generation::V2 => "v2",
        }
    }

    /// Parse a wire name; `None` for unknown names.
    pub fn parse(v: &str) -> (r: Option<Generation>)
        ensures
            r == generation_from_wire(v@),
    {
        if str_eq(v, Generation::Legacy.as_str()) {
            Some(Generation::Legacy)
        } else if str_eq(v, Generation::V2.as_str()) {
            Some(Generation::V2)
        } else {
            None
        }
    }
}

/// Parsing the wire name of a generation gives that generation back.
pub proof fn law_generation_roundtrip(g: Generation)
    ensures
        generation_from_wire(generation_wire(g)) == Some(g),
{
    assert(generation_wire(Generation::Legacy).len() != generation_wire(Generation::V2).len());
}

/// The patterns a default-constructed strategy enables.
pub open spec fn spec_default_patterns() -> Seq<Seq<char>> {
    seq![
        "three_white_soldiers"@,
        "morning_star"@,
        "bullish_engulfing"@,
        "hammer"@,
    ]
}

/// The classic reversal patterns enabled by default.
pub fn default_patterns() -> (r: Vec<String>)
    ensures
        strings_view(r@) == spec_default_patterns(),
{
    let r = vec![
        String::from_str("three_white_soldiers"),
        String::from_str("morning_star"),
        String::from_str("bullish_engulfing"),
        String::from_str("hammer"),
    ];
    assert(strings_view(r@) =~= spec_default_patterns());
    r
}

/// Owned copies of the given pattern names, in order.
pub fn setup_patterns(names: &[&str]) -> (r: Vec<String>)
    ensures
        r@.len() == names@.len(),
        forall|i: int| 0 <= i < names@.len() ==> #[trigger] r@[i]@ == names@[i]@,
{
    let mut out: Vec<String> = Vec::new();
    let mut i: usize = 0;
    while i < names.len()
        invariant
            0 <= i <= names@.len(),
            out@.len() == i,
            forall|j: int| 0 <= j < i ==> #[trigger] out@[j]@ == names@[j]@,
        decreases names@.len() - i,
    {
        out.push(String::from_str(names[i]));
        i = i + 1;
    }
    out
}

/// The relative-strength lookback a market filter accepts: the request
/// clamped into 5..=120 bars.
pub fn clamp_rs_lookback(v: u64) -> (r: usize)
    ensures
        r as int == if v < 5 { 5 } else if v > 120 { 120 } else { v as int },
{
    if v < 5 {
        5
    } else if v > 120 {
        120
    } else {
        v as usize
    }
}

/// The timeframe a strategy is tuned for: its recorded wire value parsed,
/// 5m when that value is unknown.
pub fn recommended_tf(recommended: &str) -> (r: Timeframe)
    ensures
        r == match tf_from_wire(recommended@) {
            Some(tf) => tf,
            None => Timeframe::M5,
        },
{
    match Timeframe::parse(recommended) {
        Some(tf) => tf,
        None => Timeframe::M5,
    }
}

/// Index of the first name equal to `name`, if any.
pub open spec fn first_named(names: Seq<Seq<char>>, name: Seq<char>) -> Option<int>
    decreases names.len(),
{
    if names.len() == 0 {
        None
    } else if names[0] == name {
        Some(0)
    } else {
        match first_named(names.drop_first(), name) {
            Some(k) => Some(k + 1),
            None => None,
        }
    }
}

proof fn lemma_first_named_prefix(names: Seq<Seq<char>>, name: Seq<char>, i: int)
    requires
        0 <= i <= names.len(),
        forall|j: int| 0 <= j < i ==> names[j] != name,
    ensures
        first_named(names, name) == match first_named(names.skip(i), name) {
            Some(k) => Some(k + i),
            None => None::<int>,
        },
    decreases i,
{
    if i > 0 {
        lemma_first_named_prefix(names.drop_first(), name, i - 1);
        assert(names.drop_first().skip(i - 1) =~= names.skip(i));
    } else {
        assert(names.skip(0) =~= names);
    }
}

/// Position of the first preset called `name`.
pub fn find_named(names: &Vec<String>, name: &str) -> (r: Option<usize>)
    ensures
        match first_named(strings_view(names@), name@) {
            Some(k) => r == Some(k as usize),
            None => r is None,
        },
{
    let ghost nv = strings_view(names@);
    let mut i: usize = 0;
    while i < names.len()
        invariant
            nv == strings_view(names@),
            0 <= i <= names@.len(),
            forall|j: int| 0 <= j < i ==> nv[j] != name@,
        decreases names@.len() - i,
    {
        if str_eq(names[i].as_str(), name) {
            proof {
                lemma_first_named_prefix(nv, name@, i as int);
                assert(nv.skip(i as int)[0] == nv[i as int]);
            }
            return Some(i);
        }
        i = i + 1;
    }
    proof {
        lemma_first_named_prefix(nv, name@, i as int);
        assert(nv.skip(i as int) =~= Seq::<Seq<char>>::empty());
    }
    None
}

/// The preset a name selects among the presets of both generations (in
/// catalog order): the first one so named, else the `balanced` preset.
pub fn preset_position(names: &Vec<String>, name: &str) -> (r: Option<usize>)
    ensures
        match first_named(strings_view(names@), name@) {
            Some(k) => r == Some(k as usize),
            None => match first_named(strings_view(names@), "balanced"@) {
                Some(b) => r == Some(b as usize),
                None => r is None,
            },
        },
{
    match find_named(names, name) {
        Some(k) => Some(k),
        None => find_named(names, "balanced"),
    }
}

} // verus!
