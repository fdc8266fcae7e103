use caginalp_trader::strategy::{
    clamp_rs_lookback, default_patterns, find_named, preset_position, recommended_tf, setup_patterns,
    Generation, Source,
};
use caginalp_trader::timeframe::Timeframe;

#[test]
fn timeframe_wire_values_round_trip() {
    for tf in Timeframe::all() {
        assert_eq!(Timeframe::parse(tf.as_str()), Some(tf));
    }
    assert_eq!(Timeframe::H1.as_str(), "60m");
    assert_eq!(Timeframe::parse("1h"), None);
    assert_eq!(Timeframe::parse(""), None);
}

#[test]
fn timeframe_configs_and_groups() {
    let c = Timeframe::M5.config();
    assert_eq!((c.ncnt, c.qrycnt, c.trend_lookback), (5, 300, 12));
    let d = Timeframe::D1.config();
    assert_eq!((d.ncnt, d.qrycnt, d.trend_lookback), (0, 60, 5));
    assert_eq!(Timeframe::M1.mtf_group(), vec![Timeframe::M5, Timeframe::M15]);
    assert_eq!(Timeframe::H1.mtf_group(), vec![Timeframe::D1]);
    assert!(Timeframe::D1.mtf_group().is_empty());
}

#[test]
fn sources_and_generations_round_trip() {
    for s in Source::all() {
        assert_eq!(Source::parse(s.as_str()), Some(s));
    }
    assert_eq!(Source::all().map(|s| s.as_str()), ["rule", "atr", "volume", "mtf", "ml", "gaf"]);
    assert_eq!(Source::parse("RULE"), None);
    assert_eq!(Generation::parse(Generation::V2.as_str()), Some(Generation::V2));
    assert_eq!(Generation::parse("legacy"), Some(Generation::Legacy));
    assert_eq!(Generation::parse("v3"), None);
}

#[test]
fn pattern_lists() {
    assert_eq!(default_patterns(), vec!["three_white_soldiers", "morning_star", "bullish_engulfing", "hammer"]);
    assert_eq!(setup_patterns(&["vwap_reclaim", "vwap_bounce"]), vec!["vwap_reclaim", "vwap_bounce"]);
    assert!(setup_patterns(&[]).is_empty());
}

#[test]
fn strategy_parameters() {
    assert_eq!(clamp_rs_lookback(1), 5);
    assert_eq!(clamp_rs_lookback(20), 20);
    assert_eq!(clamp_rs_lookback(500), 120);
    assert_eq!(recommended_tf("1m"), Timeframe::M1);
    assert_eq!(recommended_tf("weird"), Timeframe::M5);
}

#[test]
fn preset_lookup_falls_back_to_balanced() {
    let names: Vec<String> =
        ["conservative", "balanced", "aggressive", "v2_trend"].iter().map(|s| s.to_string()).collect();
    assert_eq!(find_named(&names, "aggressive"), Some(2));
    assert_eq!(find_named(&names, "nope"), None);
    assert_eq!(preset_position(&names, "v2_trend"), Some(3));
    assert_eq!(preset_position(&names, "nope"), Some(1));
    assert_eq!(preset_position(&vec![], "nope"), None);
}
