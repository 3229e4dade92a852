use espopricer::config::{
    default_binance_base_url, default_binance_symbol, default_bitcoin_core_rpc_host,
    default_bitcoin_core_rpc_port, default_poll_interval_ms, default_price_decimals,
    default_rpc_host, default_rpc_port, AppConfig, ConfigError,
};

fn config() -> AppConfig {
    AppConfig {
        rpc_host: default_rpc_host(),
        rpc_port: default_rpc_port(),
        binance_api_key: String::new(),
        binance_api_secret: String::new(),
        binance_base_url: default_binance_base_url(),
        binance_symbol: default_binance_symbol(),
        metashrew_rpc_url: "http://127.0.0.1:8081".to_string(),
        db_path: "./db".to_string(),
        min_height: 0,
        bitcoin_core_rpc_url: None,
        bitcoin_core_rpc_host: default_bitcoin_core_rpc_host(),
        bitcoin_core_rpc_port: default_bitcoin_core_rpc_port(),
        bitcoin_core_rpc_username: "bitcoinrpc".to_string(),
        bitcoin_core_rpc_password: "change-me".to_string(),
        poll_interval_ms: default_poll_interval_ms(),
        price_decimals: default_price_decimals(),
    }
}

#[test]
fn defaults() {
    assert_eq!(default_rpc_host(), "127.0.0.1");
    assert_eq!(default_rpc_port(), 8080);
    assert_eq!(default_bitcoin_core_rpc_port(), 8332);
    assert_eq!(default_binance_base_url(), "https://data-api.binance.vision");
    assert_eq!(default_binance_symbol(), "BTCUSDT");
    assert_eq!(default_poll_interval_ms(), 5000);
    assert_eq!(default_price_decimals(), 8);
}

#[test]
fn bitcoin_core_url_prefers_configured_url() {
    let mut c = config();
    assert_eq!(c.bitcoin_core_url(), "http://127.0.0.1:8332");
    c.bitcoin_core_rpc_url = Some("  http://node:1 ".to_string());
    assert_eq!(c.bitcoin_core_url(), "http://node:1");
    c.bitcoin_core_rpc_url = Some("   ".to_string());
    assert_eq!(c.bitcoin_core_url(), "http://127.0.0.1:8332");
    assert_eq!(c.bind_addr_text(), "127.0.0.1:8080");
}

#[test]
fn validation() {
    assert_eq!(config().validate(), Ok(()));
    let mut c = config();
    c.metashrew_rpc_url = " ".to_string();
    assert_eq!(c.validate(), Err(ConfigError::EmptyMetashrewRpcUrl));
    let mut c = config();
    c.db_path = String::new();
    assert_eq!(c.validate(), Err(ConfigError::EmptyDbPath));
    let mut c = config();
    c.bitcoin_core_rpc_username = "\t".to_string();
    assert_eq!(c.validate(), Err(ConfigError::EmptyBitcoinCoreRpcUsername));
    let mut c = config();
    c.bitcoin_core_rpc_password = String::new();
    assert_eq!(c.validate(), Err(ConfigError::EmptyBitcoinCoreRpcPassword));
    let mut c = config();
    c.bitcoin_core_rpc_password = " ".to_string();
    assert_eq!(c.validate(), Ok(()));
    let mut c = config();
    c.price_decimals = 19;
    assert_eq!(c.validate(), Err(ConfigError::PriceDecimalsTooLarge));
}
