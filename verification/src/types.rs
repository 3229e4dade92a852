//! The records the indexer stores and serves.
use vstd::prelude::*;

verus! {

/// The price recorded for one block height.
#[derive(Debug, Clone, PartialEq, Eq)]
pub struct PricePoint {
    pub height: u64,
    pub timestamp: u64,
    pub candle_open_time: u64,
    pub price_scaled: String,
    pub price_raw: String,
}

/// One cached 15 minute Binance candle: its open time and close price.
#[derive(Debug, Clone, PartialEq, Eq)]
pub struct CachedCandle {
    pub candle_open_time: u64,
    pub price_scaled: String,
    pub price_raw: String,
}

/// The `result` of a `get_btc_price_at_height` call.
#[derive(Debug, Clone, PartialEq, Eq)]
pub struct PriceResponse {
    pub height: u64,
    pub price_scaled: String,
    pub price_raw: String,
}

} // verus!
