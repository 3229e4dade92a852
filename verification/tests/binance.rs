use espopricer::binance::{
    candle_open_time_from_clock, latest_candle_open_time, normalize_to_15m, parse_kline, price_to_raw, seconds_to_millis,
    BinanceClient, BinanceError, PriceError,
};
use espopricer::json::JsonValue;

#[test]
fn normalizes_timestamp_to_15_minute_open() {
    assert_eq!(normalize_to_15m(0), 0);
    assert_eq!(normalize_to_15m(899), 0);
    assert_eq!(normalize_to_15m(900), 900);
    assert_eq!(normalize_to_15m(901), 900);
}

#[test]
fn converts_decimal_price_to_raw_integer_string() {
    assert_eq!(price_to_raw("64123.45000000", 8).unwrap(), "6412345000000");
    assert_eq!(price_to_raw("1.23", 2).unwrap(), "123");
}

#[test]
fn parses_binance_kline() {
    let candle = parse_kline(
        &[
            JsonValue::UInt(900_000),
            JsonValue::Str("1.00".to_string()),
            JsonValue::Str("2.00".to_string()),
            JsonValue::Str("0.50".to_string()),
            JsonValue::Str("64123.45000000".to_string()),
        ],
        8,
    )
    .unwrap();
    assert_eq!(candle.candle_open_time, 900);
    assert_eq!(candle.price_raw, "6412345000000");
}

#[test]
fn kline_keeps_close_price_text() {
    let candle = parse_kline(
        &[
            JsonValue::UInt(1_700_000_123_456),
            JsonValue::Null,
            JsonValue::Null,
            JsonValue::Null,
            JsonValue::Str("42000.10".to_string()),
        ],
        2,
    )
    .unwrap();
    assert_eq!(candle.candle_open_time, 1_700_000_123);
    assert_eq!(candle.price_scaled, "42000.10");
    assert_eq!(candle.price_raw, "4200010");
}

#[test]
fn kline_without_open_time_or_close_is_refused() {
    assert_eq!(
        parse_kline(&[JsonValue::OtherNumber], 8).unwrap_err(),
        BinanceError::MissingOpenTime
    );
    assert_eq!(parse_kline(&[], 8).unwrap_err(), BinanceError::MissingOpenTime);
    assert_eq!(
        parse_kline(&[JsonValue::UInt(0), JsonValue::Null], 8).unwrap_err(),
        BinanceError::MissingClosePrice
    );
    assert_eq!(
        parse_kline(
            &[
                JsonValue::UInt(0),
                JsonValue::Null,
                JsonValue::Null,
                JsonValue::Null,
                JsonValue::UInt(5)
            ],
            8
        )
        .unwrap_err(),
        BinanceError::MissingClosePrice
    );
}

#[test]
fn price_errors() {
    assert_eq!(price_to_raw("1.23", 20).unwrap_err(), PriceError::DecimalsTooLarge);
    assert_eq!(price_to_raw("abc", 8).unwrap_err(), PriceError::InvalidPrice);
    assert_eq!(price_to_raw("1.234", 2).unwrap_err(), PriceError::NotRepresentable);
    assert_eq!(
        price_to_raw("79228162514264337593543950335", 19).unwrap_err(),
        PriceError::Overflow
    );
}

#[test]
fn price_edge_values() {
    assert_eq!(price_to_raw("0", 8).unwrap(), "0");
    assert_eq!(price_to_raw("-1.5", 1).unwrap(), "-15");
    assert_eq!(price_to_raw("7", 0).unwrap(), "7");
    assert_eq!(price_to_raw("0.00000001", 8).unwrap(), "1");
    assert_eq!(price_to_raw("12", 19).unwrap(), "120000000000000000000");
}

#[test]
fn millis_conversion() {
    assert_eq!(seconds_to_millis(900), Ok(900_000));
    assert_eq!(seconds_to_millis(u64::MAX), Err(BinanceError::TimestampOverflow));
}

#[test]
fn latest_candle_is_aligned_and_recent() {
    let open = latest_candle_open_time().unwrap();
    assert_eq!(open % 900, 0);
    assert!(open > 1_700_000_000);
}

#[test]
fn client_trims_base_url_and_builds_request() {
    let client = BinanceClient::new(
        "https://data-api.binance.vision//".to_string(),
        "  key  ".to_string(),
        "secret".to_string(),
        "BTCUSDT".to_string(),
        8,
    );
    assert_eq!(client.base_url, "https://data-api.binance.vision");
    let req = client.klines_request(900, 1800).unwrap().unwrap();
    assert_eq!(req.url, "https://data-api.binance.vision/api/v3/klines");
    assert_eq!(req.symbol, "BTCUSDT");
    assert_eq!(req.interval, "15m");
    assert_eq!(req.start_time_ms, 900_000);
    assert_eq!(req.end_time_ms, 2_699_999);
    assert_eq!(req.limit, 1000);
    assert_eq!(req.api_key.as_deref(), Some("key"));
    assert!(client.klines_request(1800, 900).unwrap().is_none());
    assert_eq!(
        client.klines_request(u64::MAX - 10, u64::MAX - 10).unwrap_err(),
        BinanceError::TimestampOverflow
    );
    let blank = BinanceClient::new(
        "http://x".to_string(),
        "   ".to_string(),
        String::new(),
        "BTCUSDT".to_string(),
        8,
    );
    assert!(blank.klines_request(0, 0).unwrap().unwrap().api_key.is_none());
}

#[test]
fn parse_klines_stops_at_first_bad_row() {
    let client = BinanceClient::new(
        "http://x".to_string(),
        String::new(),
        String::new(),
        "BTCUSDT".to_string(),
        2,
    );
    let good = vec![
        JsonValue::UInt(900_000),
        JsonValue::Null,
        JsonValue::Null,
        JsonValue::Null,
        JsonValue::Str("1.5".to_string()),
    ];
    let bad = vec![JsonValue::Null];
    let candles = client
        .parse_klines(&[
            good,
            vec![
                JsonValue::UInt(1_800_000),
                JsonValue::Null,
                JsonValue::Null,
                JsonValue::Null,
                JsonValue::Str("2".to_string()),
            ],
        ])
        .unwrap();
    assert_eq!(candles.len(), 2);
    assert_eq!(candles[1].price_raw, "200");
    assert_eq!(
        client.parse_klines(&[bad]).unwrap_err(),
        BinanceError::MissingOpenTime
    );
}

#[test]
fn clock_reading_gives_candle_open_time() {
    assert_eq!(candle_open_time_from_clock(Some(1_718_000_123)), Ok(1_718_000_100));
    assert_eq!(candle_open_time_from_clock(None), Err(BinanceError::ClockBeforeEpoch));
}
