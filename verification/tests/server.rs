use espopricer::json::JsonValue;
use espopricer::server::{
    get_btc_price_at_height, handle_rpc, parse_height_param, HeightParam, RpcStep,
};
use espopricer::types::PricePoint;

fn object(entries: Vec<(&str, JsonValue)>) -> JsonValue {
    JsonValue::Object(entries.into_iter().map(|(k, v)| (k.to_string(), v)).collect())
}

#[test]
fn parses_object_height_param() {
    assert_eq!(
        parse_height_param(&object(vec![("height", JsonValue::UInt(840000))])).unwrap(),
        HeightParam::Exact(840000)
    );
}

#[test]
fn defaults_missing_height_param_to_latest() {
    assert_eq!(parse_height_param(&JsonValue::Null).unwrap(), HeightParam::Latest);
    assert_eq!(parse_height_param(&object(vec![])).unwrap(), HeightParam::Latest);
    assert_eq!(parse_height_param(&JsonValue::Array(vec![])).unwrap(), HeightParam::Latest);
    assert_eq!(
        parse_height_param(&object(vec![("height", JsonValue::Str("latest".to_string()))]))
            .unwrap(),
        HeightParam::Latest
    );
}

#[test]
fn height_param_forms() {
    assert_eq!(
        parse_height_param(&JsonValue::Str("LaTeSt".to_string())),
        Ok(HeightParam::Latest)
    );
    assert_eq!(
        parse_height_param(&JsonValue::Array(vec![JsonValue::Str("840000".to_string())])),
        Ok(HeightParam::Exact(840000))
    );
    assert_eq!(parse_height_param(&JsonValue::UInt(5)), Ok(HeightParam::Exact(5)));
    assert_eq!(
        parse_height_param(&object(vec![("other", JsonValue::UInt(1))])),
        Ok(HeightParam::Latest)
    );
    assert_eq!(
        parse_height_param(&JsonValue::OtherNumber),
        Err("params must be an unsigned integer".to_string())
    );
    assert_eq!(
        parse_height_param(&object(vec![("height", JsonValue::Str("x".to_string()))])),
        Err("params.height must be an unsigned integer or \"latest\"".to_string())
    );
    assert_eq!(
        parse_height_param(&JsonValue::Array(vec![JsonValue::Bool(true)])),
        Err("params[0] must be an unsigned integer or \"latest\"".to_string())
    );
    assert_eq!(
        parse_height_param(&JsonValue::Bool(true)),
        Err("params must be omitted, empty, \"latest\", or include an unsigned integer height"
            .to_string())
    );
    assert_eq!(
        parse_height_param(&JsonValue::Array(vec![JsonValue::UInt(1), JsonValue::UInt(2)])),
        Err("params must be omitted, empty, \"latest\", or include an unsigned integer height"
            .to_string())
    );
}

fn reply_error(step: RpcStep) -> (i64, String) {
    match step {
        RpcStep::Reply(resp) => {
            assert!(resp.result.is_none());
            let e = resp.error.unwrap();
            (e.code, e.message)
        }
        RpcStep::Lookup { .. } => panic!("expected a reply"),
    }
}

#[test]
fn routes_methods() {
    match handle_rpc(Some("get_btc_price_at_height"), &JsonValue::Null) {
        RpcStep::Lookup { height } => assert_eq!(height, HeightParam::Latest),
        RpcStep::Reply(_) => panic!("expected a lookup"),
    }
    assert_eq!(
        reply_error(handle_rpc(Some("other"), &JsonValue::Null)),
        (-32601, "method not found".to_string())
    );
    assert_eq!(
        reply_error(handle_rpc(None, &JsonValue::Null)),
        (-32600, "missing method".to_string())
    );
    assert_eq!(
        reply_error(handle_rpc(
            Some("get_btc_price_at_height"),
            &JsonValue::Bool(false)
        ))
        .0,
        -32602
    );
}

#[test]
fn answers_lookups() {
    let point = PricePoint {
        height: 850000,
        timestamp: 1_718_000_000,
        candle_open_time: 1_717_999_200,
        price_scaled: "64123.45000000".to_string(),
        price_raw: "6412345000000".to_string(),
    };
    let ok = get_btc_price_at_height(HeightParam::Exact(850000), Ok(Some(point)));
    assert_eq!(ok.jsonrpc, "2.0");
    let result = ok.result.unwrap();
    assert_eq!(result.height, 850000);
    assert_eq!(result.price_scaled, "64123.45000000");
    assert_eq!(result.price_raw, "6412345000000");
    let missing = get_btc_price_at_height(HeightParam::Exact(1), Ok(None));
    let e = missing.error.unwrap();
    assert_eq!((e.code, e.message.as_str()), (-32004, "height has not been indexed"));
    let none = get_btc_price_at_height(HeightParam::Latest, Ok(None));
    assert_eq!(none.error.unwrap().message, "no indexed prices are available yet");
    let failed =
        get_btc_price_at_height(HeightParam::Latest, Err("disk".to_string()));
    let e = failed.error.unwrap();
    assert_eq!((e.code, e.message.as_str()), (-32000, "failed to read price: disk"));
}
