# caginalp_trader

A candlestick-pattern trading backend for the Korean stock market, split in two:

- `src/` — the verified library (Verus). It holds the decisions and the rules:
  timeframes and their configuration, walk-forward split and capacity, the
  no-look-ahead resampling layout, session boundaries, the broker's reply
  classification, token lifetime and call spacing, order fill reconciliation,
  the per-symbol plan of each trading cycle (bar timestamps, fetch, stale
  data, end-of-day flattening, cooldowns, re-entry guard, candidate choice,
  exit quantities) and the day rollover of the trading loop, the universe
  snapshot's newest stamp and its age in days,
  the trade journal (JSON Lines, legacy migration, per-mode filtering), the
  Telegram command parser, money formatting and message chunking, and the
  request defaults, limits and start-request planning of the HTTP API. Each
  public function has a contract; the laws that relate several functions are
  public proof functions named `law_*`.
- `app/` — the server around it: HTTP routes, the broker and Telegram
  clients, the trading loop's I/O, and the floating-point analytics
  (indicators, pattern detectors, strategy presets, risk sizing, backtests),
  which Verus does not hold.
- `tests/` — tests of the library's public functions on concrete values.

Outside crates called from the library (behind trusted wrappers whose
contracts name their results): `serde_json` (journal parsing), `chrono` and
`chrono-tz` (KST time stamps, RFC 3339 and `YYYYMMDD` dates).
