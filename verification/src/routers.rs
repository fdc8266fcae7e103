//! Request-handling rules of the HTTP API: query defaults, parameter
//! clamping and the decisions behind starting the trading engine.

pub mod backtest;
pub mod candles;
pub mod misc;
pub mod patterns;
pub mod signals;
pub mod trading;
