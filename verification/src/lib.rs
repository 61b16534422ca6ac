//! The core of a market maker: order book, quotes, order lifecycles, market data
//! feeds and a trade log.
pub mod arithmetic;
pub mod book_laws;
pub mod depth;
pub mod depth_laws;
pub mod document_laws;
pub mod double;
pub mod exact_stats;
pub mod feed_laws;
pub mod frame;
pub mod imbalance;
pub mod json;
pub mod levels;
pub mod market_info;
pub mod market_laws;
pub mod number_laws;
pub mod order_manager;
pub mod orderbook;
pub mod quote_laws;
pub mod quote_values;
pub mod reconnect;
pub mod record_laws;
pub mod rolling_stats;
pub mod stats_values;
pub mod text;
pub mod trade_log;
pub mod values;
pub mod vol_obi;
pub mod ws_binance;
pub mod ws_lighter;
