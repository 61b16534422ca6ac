# marketmaker

The core of a market maker for one perpetual market: an order book kept by
snapshots and deltas, quotes from volatility and order book imbalance, order
lifecycles, feeds that reconnect, and a trade log. Its behaviour is stated in
contracts and proved with Verus.

- `src/double.rs`, `src/arithmetic.rs`: doubles by their bits. Comparisons are
  decided and proved from the bits; what computes new numbers is supplied by the
  caller through the trait `Arithmetic`, which promises nothing. Contracts say
  which operation gave which number.
- `src/orderbook.rs`, `src/imbalance.rs`, `src/rolling_stats.rs`,
  `src/vol_obi.rs`: book, imbalance, statistics and quotes.
- `src/quote_laws.rs`, `src/exact_stats.rs`: what holds of quotes over several
  calls, and what the statistics are where no operation rounds. These laws
  suppose something of the caller's arithmetic: that it agrees with itself, that
  it keeps order and sign as doubles do, or that a run is exact.
- `src/order_manager.rs`: orders per level.
- `src/json.rs`, `src/levels.rs`, `src/text.rs`: documents, price levels in them,
  and text.
- `src/frame.rs`, `src/reconnect.rs`, `src/ws_lighter.rs`, `src/ws_binance.rs`,
  `src/depth.rs`: the feeds, as sessions that are told what was read and say what
  to do next.
- `src/market_info.rs`, `src/trade_log.rs`: market details and the log of fills,
  which a flush replaces in one step so that it never holds a part of the rows.
- `app/`: connections, REST calls and files, and the machine's arithmetic.
- `tests/`: the library from outside.

Public proof functions whose names begin with `law_` state what holds across
functions.
