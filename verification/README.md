# espopricer

Indexes BTC/USD prices by Bitcoin block height and serves them over JSON-RPC
(`get_btc_price_at_height`).

- `src/` is the verified library: candle time arithmetic and the Binance klines
  request, exact scaling of a decimal close price to an integer string, the
  store's key layout and every decision taken between a database read and a
  write (with laws over a map model of the database), the candle catch-up state
  machine, the JSON-RPC parameter reading and responses, and the configuration
  checks.
- `app/` is the service around it: configuration file, RocksDB, HTTP clients,
  the axum server and the indexing loop, each calling into the library for the
  decisions.
- `tests/` exercises the library on concrete values.
