//! Indexes BTC/USD prices by Bitcoin block height: the verified core of the
//! price indexer and its JSON-RPC answer logic.
pub mod binance;
pub mod bitcoin_core;
pub mod config;
pub mod indexer;
pub mod json;
pub mod jsonrpc;
pub mod metashrew;
pub mod server;
pub mod store;
pub mod text;
pub mod types;
