//! The service configuration: its defaults, its validation and the URLs and
//! addresses derived from it.
use vstd::prelude::*;
use crate::binance::{spec_price_to_raw, PriceError};
use crate::text::{append_str, decimal_digits, push_decimal, to_owned_string, trim, trim_str};

verus! {

/// The RPC server host where none is configured.
pub fn default_rpc_host() -> (r: String)
    ensures
        r@ == "127.0.0.1"@,
{
    to_owned_string("127.0.0.1")
}

/// The RPC server port where none is configured.
pub fn default_rpc_port() -> (r: u16)
    ensures
        r == 8080,
{
    8080
}

/// The Bitcoin Core RPC host where none is configured.
pub fn default_bitcoin_core_rpc_host() -> (r: String)
    ensures
        r@ == "127.0.0.1"@,
{
    to_owned_string("127.0.0.1")
}

/// The Bitcoin Core RPC port where none is configured.
pub fn default_bitcoin_core_rpc_port() -> (r: u16)
    ensures
        r == 8332,
{
    8332
}

/// The Binance market data host where none is configured.
pub fn default_binance_base_url() -> (r: String)
    ensures
        r@ == "https://data-api.binance.vision"@,
{
    to_owned_string("https://data-api.binance.vision")
}

/// The Binance symbol where none is configured.
pub fn default_binance_symbol() -> (r: String)
    ensures
        r@ == "BTCUSDT"@,
{
    to_owned_string("BTCUSDT")
}

/// The poll interval, in milliseconds, where none is configured.
pub fn default_poll_interval_ms() -> (r: u64)
    ensures
        r == 5000,
{
    5000
}

/// The number of decimals of a raw price where none is configured.
pub fn default_price_decimals() -> (r: u32)
    ensures
        r == 8,
{
    8
}

/// Why a configuration is refused.
#[derive(Debug, Clone, Copy, PartialEq, Eq, Structural)]
pub enum ConfigError {
    EmptyMetashrewRpcUrl,
    EmptyDbPath,
    EmptyBitcoinCoreRpcUsername,
    EmptyBitcoinCoreRpcPassword,
    PriceDecimalsTooLarge,
}

/// The service configuration.
#[derive(Debug, Clone)]
pub struct AppConfig {
    pub rpc_host: String,
    pub rpc_port: u16,
    pub binance_api_key: String,
    pub binance_api_secret: String,
    pub binance_base_url: String,
    pub binance_symbol: String,
    pub metashrew_rpc_url: String,
    pub db_path: String,
    pub min_height: u64,
    pub bitcoin_core_rpc_url: Option<String>,
    pub bitcoin_core_rpc_host: String,
    pub bitcoin_core_rpc_port: u16,
    pub bitcoin_core_rpc_username: String,
    pub bitcoin_core_rpc_password: String,
    pub poll_interval_ms: u64,
    pub price_decimals: u32,
}

impl AppConfig {
    /// What validating a configuration gives: the first check that fails.
    pub open spec fn spec_validate(&self) -> Result<(), ConfigError> {
        if trim(self.metashrew_rpc_url@).len() == 0 {
            Err(ConfigError::EmptyMetashrewRpcUrl)
        } else if trim(self.db_path@).len() == 0 {
            Err(ConfigError::EmptyDbPath)
        } else if trim(self.bitcoin_core_rpc_username@).len() == 0 {
            Err(ConfigError::EmptyBitcoinCoreRpcUsername)
        } else if self.bitcoin_core_rpc_password@.len() == 0 {
            Err(ConfigError::EmptyBitcoinCoreRpcPassword)
        } else if self.price_decimals > 18 {
            Err(ConfigError::PriceDecimalsTooLarge)
        } else {
            Ok(())
        }
    }

    /// Refuses a configuration with a blank Metashrew URL, database path or
    /// Bitcoin Core user, an empty Bitcoin Core password, or more than 18
    /// price decimals.
    pub fn validate(&self) -> (r: Result<(), ConfigError>)
        ensures
            r == self.spec_validate(),
    {
        if trim_str(self.metashrew_rpc_url.as_str()).unicode_len() == 0 {
            return Err(ConfigError::EmptyMetashrewRpcUrl);
        }
        if trim_str(self.db_path.as_str()).unicode_len() == 0 {
            return Err(ConfigError::EmptyDbPath);
        }
        if trim_str(self.bitcoin_core_rpc_username.as_str()).unicode_len() == 0 {
            return Err(ConfigError::EmptyBitcoinCoreRpcUsername);
        }
        if self.bitcoin_core_rpc_password.as_str().unicode_len() == 0 {
            return Err(ConfigError::EmptyBitcoinCoreRpcPassword);
        }
        if self.price_decimals > 18 {
            return Err(ConfigError::PriceDecimalsTooLarge);
        }
        Ok(())
    }

    /// The Bitcoin Core RPC URL: the configured URL, trimmed, where it is not
    /// blank, and `http://{host}:{port}` otherwise.
    pub fn bitcoin_core_url(&self) -> (r: String)
        ensures
            match self.bitcoin_core_rpc_url {
                Some(url) if trim(url@).len() > 0 => r@ == trim(url@),
                _ => r@ == "http://"@ + self.bitcoin_core_rpc_host@ + ":"@ + decimal_digits(
                    self.bitcoin_core_rpc_port as nat,
                ),
            },
    {
        match &self.bitcoin_core_rpc_url {
            Some(url) => {
                let t = trim_str(url.as_str());
                if t.unicode_len() > 0 {
                    return to_owned_string(t);
                }
            },
            None => {},
        }
        let mut s = to_owned_string("http://");
        append_str(&mut s, self.bitcoin_core_rpc_host.as_str());
        append_str(&mut s, ":");
        push_decimal(&mut s, self.bitcoin_core_rpc_port as u128);
        s
    }

    /// The RPC server bind address text, `{host}:{port}`.
    pub fn bind_addr_text(&self) -> (r: String)
        ensures
            r@ == self.rpc_host@ + ":"@ + decimal_digits(self.rpc_port as nat),
    {
        let mut s = to_owned_string(self.rpc_host.as_str());
        append_str(&mut s, ":");
        push_decimal(&mut s, self.rpc_port as u128);
        s
    }
}


/// A configuration is accepted exactly when its Metashrew URL, database
/// path and Bitcoin Core user are not blank, its Bitcoin Core password is not
/// empty and it asks for at most 18 price decimals; and the price decimals of
/// an accepted configuration are never refused by `price_to_raw` as too many.
pub proof fn lemma_validate_accepts(config: AppConfig, price: Seq<char>)
    ensures
        config.spec_validate() is Ok <==> {
            &&& trim(config.metashrew_rpc_url@).len() > 0
            &&& trim(config.db_path@).len() > 0
            &&& trim(config.bitcoin_core_rpc_username@).len() > 0
            &&& config.bitcoin_core_rpc_password@.len() > 0
            &&& config.price_decimals <= 18
        },
        config.spec_validate() is Ok ==> spec_price_to_raw(price, config.price_decimals) != Err::<
            Seq<char>,
            PriceError,
        >(PriceError::DecimalsTooLarge),
{
}

} // verus!
