//! Verified core of a candlestick day-trading system for the Korean market:
//! timeframes, walk-forward layout, trading-engine decisions, order and
//! journal bookkeeping, and the text formats of the operator bot.

pub mod backtest;
pub mod broker;
pub mod candle_fetcher;
pub mod ebest;
pub mod engine;
pub mod journal;
pub mod pattern;
pub mod risk;
pub mod routers;
pub mod session;
pub mod strategy;
pub mod telegram;
pub mod text;
pub mod timeframe;
pub mod universe;
